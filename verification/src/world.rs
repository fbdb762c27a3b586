//! Entity handles, material references, and the instanced-submit choice.
use vstd::prelude::*;
use crate::text::{decimal, push_decimal};
use crate::texture::{MaterialId, WaterMaterialId};

verus! {

/// Opaque handle to a spawned entity.
#[derive(Clone, Copy, Debug, PartialEq, Eq, Structural, Hash)]
pub struct EntityId(pub u64);

impl EntityId {
    /// The handle's number, as it is printed.
    pub fn to_text(&self) -> (s: String)
        ensures
            s@ == decimal(self.0 as nat),
    {
        let mut s = String::new();
        push_decimal(&mut s, self.0);
        assert(s@ =~= decimal(self.0 as nat));
        s
    }
}

/// How instanced meshes reach the GPU.
///
/// Both paths are always compiled. The selected one is the only one that runs;
/// there is no silent fallback from GPU to CPU.
#[derive(Clone, Copy, Debug, PartialEq, Eq, Structural)]
pub enum InstanceSubmit {
    /// Entity-sphere cull, then `draw_indexed` of every instance.
    CpuIndexed,
    /// Prototype-batched per-instance GPU compact, then `draw_indexed_indirect`.
    GpuIndirect,
}

/// The name each submit path is printed under.
pub open spec fn submit_name(s: InstanceSubmit) -> Seq<char> {
    match s {
        InstanceSubmit::CpuIndexed => seq!['c', 'p', 'u', '_', 'i', 'n', 'd', 'e', 'x', 'e', 'd'],
        InstanceSubmit::GpuIndirect => seq!['g', 'p', 'u', '_', 'i', 'n', 'd', 'i', 'r', 'e', 'c', 't'],
    }
}

impl InstanceSubmit {
    pub fn as_str(self) -> (s: &'static str)
        ensures
            s@ == submit_name(self),
    {
        match self {
            InstanceSubmit::CpuIndexed => {
                proof {
                    reveal_strlit("cpu_indexed");
                }
                "cpu_indexed"
            },
            InstanceSubmit::GpuIndirect => {
                proof {
                    reveal_strlit("gpu_indirect");
                }
                "gpu_indirect"
            },
        }
    }
}

impl Default for InstanceSubmit {
    /// The CPU path stays the default so existing scenes draw as before.
    fn default() -> (s: Self)
        ensures
            s == InstanceSubmit::CpuIndexed,
    {
        InstanceSubmit::CpuIndexed
    }
}

/// Which world-space material an entity is drawn with, if any.
#[derive(Clone, Copy, Debug, PartialEq, Eq, Structural, Hash)]
pub enum SurfaceMaterialRef {
    /// World-XZ grass/sand/rock ground.
    Terrain(MaterialId),
    /// Animated water sheet.
    Water(WaterMaterialId),
}

/// Whether two material choices are the same.
pub fn same_material(x: Option<SurfaceMaterialRef>, y: Option<SurfaceMaterialRef>) -> (b: bool)
    ensures
        b == (x == y),
{
    match (x, y) {
        (None, None) => true,
        (Some(SurfaceMaterialRef::Terrain(m)), Some(SurfaceMaterialRef::Terrain(n))) => m.0 == n.0,
        (Some(SurfaceMaterialRef::Water(m)), Some(SurfaceMaterialRef::Water(n))) => m.0 == n.0,
        _ => false,
    }
}

} // verus!
