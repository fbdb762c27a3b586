//! The world's texture and material resources.
//!
//! Textures are validated RGBA8 images; a terrain material names eight albedo
//! textures, all of which must exist, and a water material carries only
//! tuning. Every creation hands out a fresh handle and moves the resource
//! epoch on, so the renderer knows to upload. A missing or unknown handle is an error at creation, never a silent
//! fallback.
//!
//! The tuning values of materials (tile size, slopes, wave shape, colours) are
//! carried through unchanged as the type parameters `T` and `W`; the caller
//! reports whether the tuning passed its range checks.
use vstd::prelude::*;
use std::collections::HashMap;
use crate::error::{invalid_value, is_invalid_value, EngineError};
use crate::text::{decimal, push_decimal};
use crate::texture::{MaterialId, TextureId, WaterMaterialId};
use crate::world::SurfaceMaterialRef;

verus! {

broadcast use vstd::std_specs::hash::group_hash_axioms;

/// A CPU-side RGBA8 image.
#[derive(Clone, Debug)]
pub struct CpuTexture {
    pub width: u32,
    pub height: u32,
    pub rgba: Vec<u8>,
}

/// The eight albedo textures of a terrain material.
#[derive(Clone, Copy, Debug, PartialEq, Eq, Structural)]
pub struct TerrainLayers {
    /// Lush lowland sward.
    pub grass: TextureId,
    /// Straw / steppe.
    pub grass_dry: TextureId,
    /// Peat and duff.
    pub grass_moor: TextureId,
    /// Wet clods and dark organic soil for banks and basins.
    pub mud: TextureId,
    /// Low mat vegetation and lichen for cold high ground.
    pub tundra: TextureId,
    /// Angular fragments and fines on exposed slopes.
    pub scree: TextureId,
    /// Warm, dry lowland substrate.
    pub sand: TextureId,
    /// Exposed bedrock and cliff faces.
    pub rock: TextureId,
}

/// The layers a terrain material must find in its world, in the order they
/// are checked: all eight.
pub open spec fn required_layers(l: TerrainLayers) -> Seq<TextureId> {
    seq![l.grass, l.grass_dry, l.grass_moor, l.mud, l.tundra, l.scree, l.sand, l.rock]
}

/// A texture with positive size whose byte count is exactly `width * height * 4`.
pub open spec fn texture_wf(t: CpuTexture) -> bool {
    &&& t.width > 0
    &&& t.height > 0
    &&& t.rgba@.len() == t.width * t.height * 4
}

/// A terrain material: its eight albedos and its tuning.
#[derive(Clone, Debug)]
pub struct TerrainMaterial<T> {
    pub layers: TerrainLayers,
    pub tuning: T,
}

/// Texture and material resources of one world.
pub struct Resources<T, W> {
    textures: HashMap<u64, CpuTexture>,
    materials: HashMap<u64, TerrainMaterial<T>>,
    water_materials: HashMap<u64, W>,
    next_texture_id: u64,
    next_material_id: u64,
    resource_epoch: u64,
    default_terrain_material: Option<MaterialId>,
    default_water_material: Option<WaterMaterialId>,
}

/// The text of the error for a byte buffer of the wrong length.
pub open spec fn rgba_len_message(len: nat, width: nat, height: nat) -> Seq<char> {
    "texture rgba len "@ + decimal(len) + " != "@ + decimal(width) + "x"@ + decimal(height)
        + "x4"@
}

impl<T, W> Resources<T, W> {
    pub closed spec fn textures(&self) -> Map<u64, CpuTexture> {
        self.textures@
    }

    pub closed spec fn materials(&self) -> Map<u64, TerrainMaterial<T>> {
        self.materials@
    }

    pub closed spec fn water_materials(&self) -> Map<u64, W> {
        self.water_materials@
    }

    /// The handle number the next texture gets.
    pub closed spec fn next_texture(&self) -> u64 {
        self.next_texture_id
    }

    /// The handle number the next material of either kind gets.
    pub closed spec fn next_material(&self) -> u64 {
        self.next_material_id
    }

    /// Changes whenever textures or material resources are added.
    pub closed spec fn epoch(&self) -> u64 {
        self.resource_epoch
    }

    pub closed spec fn default_terrain(&self) -> Option<MaterialId> {
        self.default_terrain_material
    }

    pub closed spec fn default_water(&self) -> Option<WaterMaterialId> {
        self.default_water_material
    }

    /// Every issued handle is below its counter, terrain and water materials
    /// never share a handle, every texture is well-formed, and every terrain
    /// material's layers are textures of this world.
    pub open spec fn wf(&self) -> bool {
        &&& self.next_texture() >= 1
        &&& self.next_material() >= 1
        &&& self.epoch() >= 1
        &&& forall|k: u64| #[trigger]
            self.textures().contains_key(k) ==> 1 <= k < self.next_texture() && texture_wf(
                self.textures()[k],
            )
        &&& forall|k: u64| #[trigger]
            self.materials().contains_key(k) ==> 1 <= k < self.next_material()
                && !self.water_materials().contains_key(k) && forall|i: int|
                0 <= i < 8 ==> self.textures().contains_key(
                    #[trigger] required_layers(self.materials()[k].layers)[i].0,
                )
        &&& forall|k: u64| #[trigger]
            self.water_materials().contains_key(k) ==> 1 <= k < self.next_material()
    }

    proof fn lemma_wf_unchanged(a: &Self, b: &Self)
        requires
            a.wf(),
            b.textures() == a.textures(),
            b.materials() == a.materials(),
            b.water_materials() == a.water_materials(),
            b.next_texture() == a.next_texture(),
            b.next_material() == a.next_material(),
            b.epoch() >= 1,
        ensures
            b.wf(),
    {
    }

    proof fn lemma_wf_add_texture(a: &Self, b: &Self, t: CpuTexture)
        requires
            a.wf(),
            texture_wf(t),
            a.next_texture() < u64::MAX,
            b.textures() == a.textures().insert(a.next_texture(), t),
            b.materials() == a.materials(),
            b.water_materials() == a.water_materials(),
            b.next_texture() == a.next_texture() + 1,
            b.next_material() == a.next_material(),
            b.epoch() >= 1,
        ensures
            b.wf(),
            !a.textures().contains_key(a.next_texture()),
    {
        assert forall|k: u64| #[trigger] b.materials().contains_key(k) implies 1 <= k
            < b.next_material() && !b.water_materials().contains_key(k) && forall|i: int|
            0 <= i < 8 ==> b.textures().contains_key(
                #[trigger] required_layers(b.materials()[k].layers)[i].0,
            ) by {
            assert forall|i: int| 0 <= i < 8 implies b.textures().contains_key(
                #[trigger] required_layers(b.materials()[k].layers)[i].0,
            ) by {
                assert(a.textures().contains_key(required_layers(a.materials()[k].layers)[i].0));
            }
        }
    }

    proof fn lemma_wf_add_material(a: &Self, b: &Self, m: TerrainMaterial<T>)
        requires
            a.wf(),
            a.next_material() < u64::MAX,
            forall|i: int| 0 <= i < 8 ==> a.textures().contains_key(#[trigger] required_layers(m.layers)[i].0),
            b.textures() == a.textures(),
            b.materials() == a.materials().insert(a.next_material(), m),
            b.water_materials() == a.water_materials(),
            b.next_texture() == a.next_texture(),
            b.next_material() == a.next_material() + 1,
            b.epoch() >= 1,
        ensures
            b.wf(),
            !a.materials().contains_key(a.next_material()),
            !a.water_materials().contains_key(a.next_material()),
    {
        assert forall|k: u64| #[trigger] b.materials().contains_key(k) implies 1 <= k
            < b.next_material() && !b.water_materials().contains_key(k) && forall|i: int|
            0 <= i < 8 ==> b.textures().contains_key(
                #[trigger] required_layers(b.materials()[k].layers)[i].0,
            ) by {
            if k != a.next_material() {
                assert(a.materials().contains_key(k));
                assert forall|i: int| 0 <= i < 8 implies b.textures().contains_key(
                    #[trigger] required_layers(b.materials()[k].layers)[i].0,
                ) by {
                    assert(a.textures().contains_key(required_layers(a.materials()[k].layers)[i].0));
                }
            }
        }
    }

    proof fn lemma_wf_add_water(a: &Self, b: &Self, w: W)
        requires
            a.wf(),
            a.next_material() < u64::MAX,
            b.textures() == a.textures(),
            b.materials() == a.materials(),
            b.water_materials() == a.water_materials().insert(a.next_material(), w),
            b.next_texture() == a.next_texture(),
            b.next_material() == a.next_material() + 1,
            b.epoch() >= 1,
        ensures
            b.wf(),
            !a.materials().contains_key(a.next_material()),
            !a.water_materials().contains_key(a.next_material()),
    {
        assert forall|k: u64| #[trigger] b.materials().contains_key(k) implies 1 <= k
            < b.next_material() && !b.water_materials().contains_key(k) && forall|i: int|
            0 <= i < 8 ==> b.textures().contains_key(
                #[trigger] required_layers(b.materials()[k].layers)[i].0,
            ) by {
            assert(a.materials().contains_key(k));
            assert forall|i: int| 0 <= i < 8 implies b.textures().contains_key(
                #[trigger] required_layers(b.materials()[k].layers)[i].0,
            ) by {
                assert(a.textures().contains_key(required_layers(a.materials()[k].layers)[i].0));
            }
        }
    }

    /// No resources yet; the first handle of each kind is 1.
    pub fn new() -> (r: Self)
        ensures
            r.wf(),
            r.textures() == Map::<u64, CpuTexture>::empty(),
            r.materials() == Map::<u64, TerrainMaterial<T>>::empty(),
            r.water_materials() == Map::<u64, W>::empty(),
            r.next_texture() == 1,
            r.next_material() == 1,
            r.epoch() == 1,
            r.default_terrain() is None,
            r.default_water() is None,
    {
        Resources {
            textures: HashMap::new(),
            materials: HashMap::new(),
            water_materials: HashMap::new(),
            next_texture_id: 1,
            next_material_id: 1,
            resource_epoch: 1,
            default_terrain_material: None,
            default_water_material: None,
        }
    }

    pub fn resource_epoch(&self) -> (e: u64)
        ensures
            e == self.epoch(),
    {
        self.resource_epoch
    }

    /// Room is left to issue another texture.
    pub fn can_create_texture(&self) -> (ok: bool)
        ensures
            ok == (self.next_texture() < u64::MAX && self.epoch() < u64::MAX),
    {
        self.next_texture_id < u64::MAX && self.resource_epoch < u64::MAX
    }

    /// Room is left to issue another material.
    pub fn can_create_material(&self) -> (ok: bool)
        ensures
            ok == (self.next_material() < u64::MAX && self.epoch() < u64::MAX),
    {
        self.next_material_id < u64::MAX && self.resource_epoch < u64::MAX
    }

    /// Create an RGBA8 texture from raw bytes (`width * height * 4`).
    pub fn create_texture_rgba(&mut self, width: u32, height: u32, rgba: Vec<u8>) -> (r: Result<
        TextureId,
        EngineError,
    >)
        requires
            old(self).wf(),
            old(self).next_texture() < u64::MAX,
            old(self).epoch() < u64::MAX,
        ensures
            final(self).wf(),
            final(self).materials() == old(self).materials(),
            final(self).water_materials() == old(self).water_materials(),
            final(self).next_material() == old(self).next_material(),
            final(self).default_terrain() == old(self).default_terrain(),
            final(self).default_water() == old(self).default_water(),
            width == 0 || height == 0 ==> (r matches Err(e) && is_invalid_value(
                e,
                "texture size must be non-zero"@,
            )),
            width > 0 && height > 0 && width * height * 4 > usize::MAX ==> (r matches Err(e)
                && is_invalid_value(e, "texture dimensions overflow"@)),
            width > 0 && height > 0 && width * height * 4 <= usize::MAX && rgba@.len() != width
                * height * 4 ==> (r matches Err(e) && is_invalid_value(
                e,
                rgba_len_message(rgba@.len(), width as nat, height as nat),
            )),
            r is Err ==> final(self).textures() == old(self).textures() && final(self).next_texture()
                == old(self).next_texture() && final(self).epoch() == old(self).epoch(),
            width > 0 && height > 0 && rgba@.len() == width * height * 4 ==> (r matches Ok(id) && {
                &&& id.0 == old(self).next_texture()
                &&& !old(self).textures().contains_key(id.0)
                &&& final(self).textures() == old(self).textures().insert(
                    id.0,
                    CpuTexture { width, height, rgba },
                )
                &&& final(self).next_texture() == old(self).next_texture() + 1
                &&& final(self).epoch() == old(self).epoch() + 1
            }),
    {
        let len = rgba.len();
        assert(len == rgba@.len());
        if width == 0 || height == 0 {
            return Err(invalid_value("texture size must be non-zero"));
        }
        let expected = match (width as usize).checked_mul(height as usize) {
            Some(n) => n.checked_mul(4),
            None => None,
        };
        let expected = match expected {
            Some(n) => n,
            None => {
                proof {
                    if width * height <= usize::MAX {
                        assert(width * height * 4 > usize::MAX);
                    } else {
                        assert(width * height * 4 > usize::MAX) by (nonlinear_arith)
                            requires
                                width * height > usize::MAX,
                        ;
                    }
                }
                return Err(invalid_value("texture dimensions overflow"));
            },
        };
        if rgba.len() != expected {
            let mut msg = String::from_str("texture rgba len ");
            push_decimal(&mut msg, rgba.len() as u64);
            msg.append(" != ");
            push_decimal(&mut msg, width as u64);
            msg.append("x");
            push_decimal(&mut msg, height as u64);
            msg.append("x4");
            assert(msg@ =~= rgba_len_message(rgba@.len(), width as nat, height as nat));
            return Err(EngineError::InvalidValue(msg));
        }
        let id = self.next_texture_id;
        self.next_texture_id = id + 1;
        let ghost t = CpuTexture { width, height, rgba };
        self.textures.insert(id, CpuTexture { width, height, rgba });
        self.resource_epoch = self.resource_epoch + 1;
        proof {
            Self::lemma_wf_add_texture(old(self), self, t);
        }
        Ok(TextureId(id))
    }

    /// The texture `id`, if this world issued it.
    pub fn texture(&self, id: TextureId) -> (t: Option<&CpuTexture>)
        ensures
            match t {
                Some(t) => self.textures().contains_key(id.0) && *t == self.textures()[id.0],
                None => !self.textures().contains_key(id.0),
            },
    {
        self.textures.get(&id.0)
    }

    fn has_texture(&self, id: TextureId) -> (b: bool)
        ensures
            b == self.textures().contains_key(id.0),
    {
        self.textures.contains_key(&id.0)
    }

    /// Create a terrain material from its eight albedos and tuning. Every
    /// albedo must exist: a missing one is refused, never replaced.
    /// `tile_size_positive` reports whether the tuning's metres per texture
    /// tile is greater than zero.
    pub fn create_terrain_material(
        &mut self,
        layers: TerrainLayers,
        tile_size_positive: bool,
        tuning: T,
    ) -> (r: Result<MaterialId, EngineError>)
        requires
            old(self).wf(),
            old(self).next_material() < u64::MAX,
            old(self).epoch() < u64::MAX,
        ensures
            final(self).wf(),
            final(self).textures() == old(self).textures(),
            final(self).water_materials() == old(self).water_materials(),
            final(self).next_texture() == old(self).next_texture(),
            final(self).default_terrain() == old(self).default_terrain(),
            final(self).default_water() == old(self).default_water(),
            (exists|i: int|
                0 <= i < 8 && !old(self).textures().contains_key(#[trigger] required_layers(layers)[i].0))
                ==> r matches Err(EngineError::UnknownTexture),
            (forall|i: int|
                0 <= i < 8 ==> old(self).textures().contains_key(#[trigger] required_layers(layers)[i].0))
                ==> if !tile_size_positive {
                r matches Err(e) && is_invalid_value(e, "metres_per_tile must be > 0"@)
            } else {
                r matches Ok(id) && {
                    &&& id.0 == old(self).next_material()
                    &&& !old(self).materials().contains_key(id.0)
                    &&& !old(self).water_materials().contains_key(id.0)
                    &&& final(self).materials() == old(self).materials().insert(
                        id.0,
                        TerrainMaterial { layers, tuning },
                    )
                    &&& final(self).next_material() == old(self).next_material() + 1
                    &&& final(self).epoch() == old(self).epoch() + 1
                }
            },
            r is Err ==> final(self).materials() == old(self).materials()
                && final(self).next_material() == old(self).next_material() && final(self).epoch()
                == old(self).epoch(),
    {
        let all = [
            layers.grass,
            layers.grass_dry,
            layers.grass_moor,
            layers.mud,
            layers.tundra,
            layers.scree,
            layers.sand,
            layers.rock,
        ];
        assert(all@ =~= required_layers(layers));
        let mut i: usize = 0;
        while i < 8
            invariant
                i <= 8,
                old(self).wf(),
                *self == *old(self),
                all@ == required_layers(layers),
                forall|j: int| 0 <= j < i ==> self.textures().contains_key(#[trigger] all@[j].0),
            decreases 8 - i,
        {
            if !self.has_texture(all[i]) {
                proof {
                    Self::lemma_wf_unchanged(old(self), self);
                }
                return Err(EngineError::UnknownTexture);
            }
            i = i + 1;
        }
        if !tile_size_positive {
            proof {
                Self::lemma_wf_unchanged(old(self), self);
            }
            return Err(invalid_value("metres_per_tile must be > 0"));
        }
        let id = self.next_material_id;
        self.next_material_id = id + 1;
        self.materials.insert(id, TerrainMaterial { layers, tuning });
        self.resource_epoch = self.resource_epoch + 1;
        proof {
            Self::lemma_wf_add_material(old(self), self, TerrainMaterial { layers, tuning });
        }
        Ok(MaterialId(id))
    }

    /// The terrain material `id`, if this world issued it.
    pub fn material(&self, id: MaterialId) -> (m: Option<&TerrainMaterial<T>>)
        ensures
            match m {
                Some(m) => self.materials().contains_key(id.0) && *m == self.materials()[id.0],
                None => !self.materials().contains_key(id.0),
            },
    {
        self.materials.get(&id.0)
    }

    /// Create an animated water material. `scales_positive` reports whether
    /// the tuning's depth scale and wave length are both greater than zero.
    pub fn create_water_material(&mut self, scales_positive: bool, desc: W) -> (r: Result<
        WaterMaterialId,
        EngineError,
    >)
        requires
            old(self).wf(),
            old(self).next_material() < u64::MAX,
            old(self).epoch() < u64::MAX,
        ensures
            final(self).wf(),
            final(self).textures() == old(self).textures(),
            final(self).materials() == old(self).materials(),
            final(self).next_texture() == old(self).next_texture(),
            final(self).default_terrain() == old(self).default_terrain(),
            final(self).default_water() == old(self).default_water(),
            !scales_positive ==> (r matches Err(e) && is_invalid_value(
                e,
                "water depth scale and wave length must be > 0"@,
            ) && final(self).water_materials() == old(self).water_materials()
                && final(self).next_material() == old(self).next_material() && final(self).epoch()
                == old(self).epoch()),
            scales_positive ==> (r matches Ok(id) && {
                &&& id.0 == old(self).next_material()
                &&& !old(self).materials().contains_key(id.0)
                &&& !old(self).water_materials().contains_key(id.0)
                &&& final(self).water_materials() == old(self).water_materials().insert(id.0, desc)
                &&& final(self).next_material() == old(self).next_material() + 1
                &&& final(self).epoch() == old(self).epoch() + 1
            }),
    {
        if !scales_positive {
            return Err(invalid_value("water depth scale and wave length must be > 0"));
        }
        let id = self.next_material_id;
        self.next_material_id = id + 1;
        self.water_materials.insert(id, desc);
        self.resource_epoch = self.resource_epoch + 1;
        proof {
            Self::lemma_wf_add_water(old(self), self, desc);
        }
        Ok(WaterMaterialId(id))
    }

    /// The water material `id`, if this world issued it.
    pub fn water_material(&self, id: WaterMaterialId) -> (m: Option<&W>)
        ensures
            match m {
                Some(m) => self.water_materials().contains_key(id.0) && *m
                    == self.water_materials()[id.0],
                None => !self.water_materials().contains_key(id.0),
            },
    {
        self.water_materials.get(&id.0)
    }

    /// Fully-opaque chunk uploads receive this material.
    pub fn set_default_terrain_material(&mut self, material: Option<MaterialId>)
        requires
            old(self).wf(),
        ensures
            final(self).wf(),
            final(self).default_terrain() == material,
            final(self).default_water() == old(self).default_water(),
            final(self).textures() == old(self).textures(),
            final(self).materials() == old(self).materials(),
            final(self).water_materials() == old(self).water_materials(),
            final(self).epoch() == old(self).epoch(),
    {
        self.default_terrain_material = material;
        proof {
            Self::lemma_wf_unchanged(old(self), self);
        }
    }

    /// Fully-translucent chunk layers receive this material.
    pub fn set_default_water_material(&mut self, material: Option<WaterMaterialId>)
        requires
            old(self).wf(),
        ensures
            final(self).wf(),
            final(self).default_water() == material,
            final(self).default_terrain() == old(self).default_terrain(),
            final(self).textures() == old(self).textures(),
            final(self).materials() == old(self).materials(),
            final(self).water_materials() == old(self).water_materials(),
            final(self).epoch() == old(self).epoch(),
    {
        self.default_water_material = material;
        proof {
            Self::lemma_wf_unchanged(old(self), self);
        }
    }

    pub fn default_terrain_material(&self) -> (m: Option<MaterialId>)
        ensures
            m == self.default_terrain(),
    {
        self.default_terrain_material
    }

    pub fn default_water_material(&self) -> (m: Option<WaterMaterialId>)
        ensures
            m == self.default_water(),
    {
        self.default_water_material
    }

    /// An entity may only be given a material this world issued.
    pub fn check_material_ref(&self, material: Option<SurfaceMaterialRef>) -> (r: Result<
        (),
        EngineError,
    >)
        ensures
            r is Ok <==> match material {
                Some(SurfaceMaterialRef::Terrain(m)) => self.materials().contains_key(m.0),
                Some(SurfaceMaterialRef::Water(m)) => self.water_materials().contains_key(m.0),
                None => true,
            },
            r matches Err(e) ==> e is UnknownMaterial,
    {
        match material {
            Some(SurfaceMaterialRef::Terrain(m)) => {
                if !self.materials.contains_key(&m.0) {
                    return Err(EngineError::UnknownMaterial);
                }
            },
            Some(SurfaceMaterialRef::Water(m)) => {
                if !self.water_materials.contains_key(&m.0) {
                    return Err(EngineError::UnknownMaterial);
                }
            },
            None => {},
        }
        Ok(())
    }
}

/// Handles are never reused: a handle a world hands out was not held by any
/// resource of its kind before, and every later handle is larger.
pub proof fn issued_handles_are_fresh<T, W>(r: Resources<T, W>, k: u64)
    requires
        r.wf(),
        k >= r.next_texture(),
    ensures
        !r.textures().contains_key(k),
{
}

/// A terrain material's layers always name valid textures its world holds.
pub proof fn materials_name_existing_textures<T, W>(r: Resources<T, W>, k: u64, i: int)
    requires
        r.wf(),
        r.materials().contains_key(k),
        0 <= i < 8,
    ensures
        r.textures().contains_key(required_layers(r.materials()[k].layers)[i].0),
        texture_wf(r.textures()[required_layers(r.materials()[k].layers)[i].0]),
{
}

} // verus!
