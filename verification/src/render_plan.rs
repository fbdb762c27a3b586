//! The renderer's per-frame decisions, made on what it reads of each mesh:
//! which pass lists an entity or an instance batch joins, which batches the
//! GPU culls, what enters the shadow maps, and when instance batches must be
//! rebuilt. Buffers, bounds and frustum tests stay with the caller, which
//! hands over counts, materials and each bound's [`Visibility`].
use vstd::prelude::*;
use crate::entities::{chunk_material_spec, contains_id, EntityRecord, EntityRegistry};
use crate::filtering::{lemma_filter_contains_iff, lemma_filter_no_duplicates, lemma_filter_subset};
use crate::instance_cull::{cull_slots_spec, CullDraws, WORKGROUP};
use crate::render::MeshSubmit;
use crate::shadow::{casts_shadow_spec, material_casts_shadow};
use crate::texture::{MaterialId, TextureId, WaterMaterialId};
use crate::world::{same_material, EntityId, InstanceSubmit, SurfaceMaterialRef};

verus! {

/// Where a bounding sphere lies against a frustum.
#[derive(Clone, Copy, Debug, PartialEq, Eq, Structural)]
pub enum Visibility {
    Outside,
    Intersecting,
    Inside,
}

/// What the draw walk reads of one mesh on the GPU.
#[derive(Clone, Copy, Debug)]
pub struct MeshDraw {
    /// The entity, or for an instance batch its prototype.
    pub id: u64,
    /// Drawn through per-instance GPU batches rather than on its own.
    pub instanced: bool,
    /// Uploaded, placed at least once, and not wholly outside the view.
    pub drawable: bool,
    /// Leading indices drawn opaque; the rest are translucent.
    pub opaque_index_count: usize,
    pub index_count: usize,
    pub material: Option<SurfaceMaterialRef>,
}

pub open spec fn has_opaque(m: MeshDraw) -> bool {
    m.opaque_index_count > 0
}

pub open spec fn has_translucent(m: MeshDraw) -> bool {
    m.opaque_index_count < m.index_count
}

/// Opaque part of a mesh without a world-space material.
pub open spec fn opaque_pass() -> spec_fn(MeshDraw) -> bool {
    |m: MeshDraw| m.drawable && m.material is None && has_opaque(m)
}

/// Opaque part of a ground mesh.
pub open spec fn terrain_pass() -> spec_fn(MeshDraw) -> bool {
    |m: MeshDraw| m.drawable && (m.material matches Some(SurfaceMaterialRef::Terrain(_))) && has_opaque(m)
}

/// Translucent part of any mesh but a water sheet.
pub open spec fn transparent_pass() -> spec_fn(MeshDraw) -> bool {
    |m: MeshDraw| m.drawable && !(m.material matches Some(SurfaceMaterialRef::Water(_))) && has_translucent(m)
}

/// Translucent part of a water sheet; its opaque part is not drawn.
pub open spec fn water_pass() -> spec_fn(MeshDraw) -> bool {
    |m: MeshDraw| m.drawable && (m.material matches Some(SurfaceMaterialRef::Water(_))) && has_translucent(m)
}

pub open spec fn draw_id() -> spec_fn(MeshDraw) -> u64 {
    |m: MeshDraw| m.id
}

/// The ids of `meshes` that `pass` draws, in order.
pub open spec fn pass_ids(meshes: Seq<MeshDraw>, pass: spec_fn(MeshDraw) -> bool) -> Seq<u64> {
    meshes.filter(pass).map_values(draw_id())
}

/// The four mesh passes, each a list of ids in drawing order.
pub struct PassLists {
    pub opaque: Vec<u64>,
    pub terrain: Vec<u64>,
    pub transparent: Vec<u64>,
    pub water: Vec<u64>,
}

/// The pass lists `meshes` fill.
pub open spec fn lists_of(l: PassLists, meshes: Seq<MeshDraw>) -> bool {
    &&& l.opaque@ == pass_ids(meshes, opaque_pass())
    &&& l.terrain@ == pass_ids(meshes, terrain_pass())
    &&& l.transparent@ == pass_ids(meshes, transparent_pass())
    &&& l.water@ == pass_ids(meshes, water_pass())
}

proof fn lemma_pass_step(s: Seq<MeshDraw>, i: int, pass: spec_fn(MeshDraw) -> bool)
    requires
        0 <= i < s.len(),
    ensures
        pass_ids(s.take(i + 1), pass) == if pass(s[i]) {
            pass_ids(s.take(i), pass).push(s[i].id)
        } else {
            pass_ids(s.take(i), pass)
        },
{
    reveal_with_fuel(Seq::filter, 1);
    assert(s.take(i + 1).drop_last() =~= s.take(i));
    let f = s.take(i).filter(pass);
    if pass(s[i]) {
        assert(f.push(s[i]).map_values(draw_id()) =~= f.map_values(draw_id()).push(s[i].id));
    }
}

/// Bucket `meshes` into the four passes, keeping their order.
pub fn bucket_passes(meshes: &Vec<MeshDraw>) -> (l: PassLists)
    ensures
        lists_of(l, meshes@),
{
    let mut l = PassLists { opaque: Vec::new(), terrain: Vec::new(), transparent: Vec::new(), water: Vec::new() };
    let mut i: usize = 0;
    proof {
        assert(meshes@.take(0) =~= Seq::<MeshDraw>::empty());
        reveal_with_fuel(Seq::filter, 1);
        assert(pass_ids(meshes@.take(0), opaque_pass()) =~= Seq::<u64>::empty());
        assert(pass_ids(meshes@.take(0), terrain_pass()) =~= Seq::<u64>::empty());
        assert(pass_ids(meshes@.take(0), transparent_pass()) =~= Seq::<u64>::empty());
        assert(pass_ids(meshes@.take(0), water_pass()) =~= Seq::<u64>::empty());
    }
    while i < meshes.len()
        invariant
            i <= meshes@.len(),
            lists_of(l, meshes@.take(i as int)),
        decreases meshes@.len() - i,
    {
        let m = meshes[i];
        proof {
            lemma_pass_step(meshes@, i as int, opaque_pass());
            lemma_pass_step(meshes@, i as int, terrain_pass());
            lemma_pass_step(meshes@, i as int, transparent_pass());
            lemma_pass_step(meshes@, i as int, water_pass());
        }
        if m.drawable {
            let opaque = m.opaque_index_count > 0;
            let translucent = m.opaque_index_count < m.index_count;
            match m.material {
                None => {
                    if opaque {
                        l.opaque.push(m.id);
                    }
                    if translucent {
                        l.transparent.push(m.id);
                    }
                },
                Some(SurfaceMaterialRef::Terrain(_)) => {
                    if opaque {
                        l.terrain.push(m.id);
                    }
                    if translucent {
                        l.transparent.push(m.id);
                    }
                },
                Some(SurfaceMaterialRef::Water(_)) => {
                    if translucent {
                        l.water.push(m.id);
                    }
                },
            }
        }
        i = i + 1;
    }
    proof {
        assert(meshes@.take(i as int) =~= meshes@);
    }
    l
}

/// Meshes the per-entity walk draws: all of them, or, while instances go
/// through GPU batches, those that are not instanced.
pub open spec fn own_mesh(gpu_batches: bool) -> spec_fn(MeshDraw) -> bool {
    |m: MeshDraw| !(gpu_batches && m.instanced)
}

/// An earlier entry of `s` than `i` has the same id.
pub open spec fn seen_before(s: Seq<MeshDraw>, i: int) -> bool {
    exists|j: int| 0 <= j < i && #[trigger] s[j].id == s[i].id
}

/// One of the first `n` entries of `s` has id `x`.
pub open spec fn id_among(s: Seq<MeshDraw>, n: int, x: u64) -> bool {
    exists|j: int| 0 <= j < n && #[trigger] s[j].id == x
}

/// The first entry of each id, in order.
pub open spec fn first_of_each(s: Seq<MeshDraw>) -> Seq<MeshDraw>
    decreases s.len(),
{
    if s.len() == 0 {
        Seq::empty()
    } else {
        let d = first_of_each(s.drop_last());
        if seen_before(s, s.len() - 1) {
            d
        } else {
            d.push(s.last())
        }
    }
}

/// The pass lists of the entity walk and of the instance-batch walk.
pub struct DrawLists {
    pub entities: PassLists,
    pub batches: PassLists,
}

fn own_meshes(meshes: &Vec<MeshDraw>, gpu_batches: bool) -> (out: Vec<MeshDraw>)
    ensures
        out@ == meshes@.filter(own_mesh(gpu_batches)),
{
    let mut out: Vec<MeshDraw> = Vec::new();
    let mut i: usize = 0;
    while i < meshes.len()
        invariant
            i <= meshes@.len(),
            out@ == meshes@.take(i as int).filter(own_mesh(gpu_batches)),
        decreases meshes@.len() - i,
    {
        proof {
            reveal_with_fuel(Seq::filter, 1);
            assert(meshes@.take(i + 1).drop_last() =~= meshes@.take(i as int));
        }
        let m = meshes[i];
        if !(gpu_batches && m.instanced) {
            out.push(m);
        }
        i = i + 1;
    }
    assert(meshes@.take(i as int) =~= meshes@);
    out
}

/// The first entry of each id in `meshes`, in order.
pub fn first_of_each_id(meshes: &Vec<MeshDraw>) -> (out: Vec<MeshDraw>)
    ensures
        out@ == first_of_each(meshes@),
{
    let mut out: Vec<MeshDraw> = Vec::new();
    let mut i: usize = 0;
    while i < meshes.len()
        invariant
            i <= meshes@.len(),
            out@ == first_of_each(meshes@.take(i as int)),
            forall|x: u64| #[trigger] id_among(meshes@, i as int, x) <==> id_among(out@, out@.len() as int, x),
        decreases meshes@.len() - i,
    {
        let m = meshes[i];
        let mut seen = false;
        let mut k: usize = 0;
        while k < out.len()
            invariant
                k <= out@.len(),
                seen == exists|q: int| 0 <= q < k && #[trigger] out@[q].id == m.id,
            decreases out@.len() - k,
        {
            if out[k].id == m.id {
                seen = true;
            }
            k = k + 1;
        }
        let ghost t = meshes@.take(i + 1);
        proof {
            assert(t.drop_last() =~= meshes@.take(i as int));
            assert(t.last() == m);
            assert(seen_before(t, i as int) == seen) by {
                if seen {
                    let q = choose|q: int| 0 <= q < out@.len() && #[trigger] out@[q].id == m.id;
                    assert(id_among(out@, out@.len() as int, m.id));
                    assert(id_among(meshes@, i as int, m.id));
                    let j = choose|j: int| 0 <= j < i && #[trigger] meshes@[j].id == m.id;
                    assert(t[j].id == t[i as int].id);
                }
                if seen_before(t, i as int) {
                    let j = choose|j: int| 0 <= j < i && #[trigger] t[j].id == t[i as int].id;
                    assert(meshes@[j].id == m.id);
                    assert(id_among(meshes@, i as int, m.id));
                    assert(id_among(out@, out@.len() as int, m.id));
                }
            }
        }
        let ghost before = out@;
        if !seen {
            out.push(m);
        }
        proof {
            assert forall|x: u64| #[trigger] id_among(meshes@, i + 1, x) <==> id_among(out@, out@.len() as int, x) by {
                if id_among(meshes@, i + 1, x) {
                    let j = choose|j: int| 0 <= j < i + 1 && #[trigger] meshes@[j].id == x;
                    if j < i {
                        assert(id_among(meshes@, i as int, x));
                        let q = choose|q: int| 0 <= q < before.len() && #[trigger] before[q].id == x;
                        assert(out@[q] == before[q]);
                    } else if seen {
                        let q = choose|q: int| 0 <= q < before.len() && #[trigger] before[q].id == m.id;
                        assert(out@[q] == before[q]);
                    } else {
                        assert(out@[before.len() as int].id == x);
                    }
                }
                if id_among(out@, out@.len() as int, x) {
                    let q = choose|q: int| 0 <= q < out@.len() && #[trigger] out@[q].id == x;
                    if q < before.len() {
                        assert(before[q] == out@[q]);
                        assert(id_among(before, before.len() as int, x));
                        assert(id_among(meshes@, i as int, x));
                        let j = choose|j: int| 0 <= j < i && #[trigger] meshes@[j].id == x;
                        assert(meshes@[j].id == x);
                    } else {
                        assert(meshes@[i as int].id == x);
                    }
                }
            }
        }
        i = i + 1;
    }
    assert(meshes@.take(i as int) =~= meshes@);
    out
}

/// One walk over the live entities' meshes and the instanced entities'
/// batches (one entry per instanced entity, under its prototype), bucketed
/// for the four mesh passes. With GPU batches off, instanced entities are
/// drawn on their own and no batch is.
pub fn collect_draws(entities: &Vec<MeshDraw>, batches: &Vec<MeshDraw>, gpu_batches: bool) -> (d:
    DrawLists)
    ensures
        lists_of(d.entities, entities@.filter(own_mesh(gpu_batches))),
        lists_of(
            d.batches,
            if gpu_batches {
                first_of_each(batches@)
            } else {
                Seq::empty()
            },
        ),
{
    let own = own_meshes(entities, gpu_batches);
    let lists = bucket_passes(&own);
    let firsts = if gpu_batches {
        first_of_each_id(batches)
    } else {
        Vec::new()
    };
    let batch_lists = bucket_passes(&firsts);
    DrawLists { entities: lists, batches: batch_lists }
}

/// The first occurrence of each id, in order.
pub open spec fn first_ids(s: Seq<u64>) -> Seq<u64>
    decreases s.len(),
{
    if s.len() == 0 {
        Seq::empty()
    } else {
        let d = first_ids(s.drop_last());
        if s.drop_last().contains(s.last()) {
            d
        } else {
            d.push(s.last())
        }
    }
}

/// The ids of `ids`, each once, where it first occurs.
pub fn distinct_in_order(ids: &Vec<u64>) -> (out: Vec<u64>)
    ensures
        out@ == first_ids(ids@),
        forall|x: u64| #[trigger] out@.contains(x) == ids@.contains(x),
{
    let mut out: Vec<u64> = Vec::new();
    let mut i: usize = 0;
    while i < ids.len()
        invariant
            i <= ids@.len(),
            out@ == first_ids(ids@.take(i as int)),
            forall|x: u64| #[trigger] out@.contains(x) == ids@.take(i as int).contains(x),
        decreases ids@.len() - i,
    {
        let x = ids[i];
        let mut seen = false;
        let mut k: usize = 0;
        while k < out.len()
            invariant
                k <= out@.len(),
                seen == exists|q: int| 0 <= q < k && out@[q] == x,
            decreases out@.len() - k,
        {
            if out[k] == x {
                seen = true;
            }
            k = k + 1;
        }
        let ghost t = ids@.take(i + 1);
        let ghost before = out@;
        proof {
            assert(t.drop_last() =~= ids@.take(i as int));
            assert(t.last() == x);
            assert(seen == before.contains(x));
        }
        if !seen {
            out.push(x);
        }
        proof {
            assert forall|y: u64| #[trigger] out@.contains(y) == t.contains(y) by {
                if t.contains(y) {
                    let j = choose|j: int| 0 <= j < t.len() && t[j] == y;
                    if j < i {
                        assert(ids@.take(i as int)[j] == y);
                        assert(before.contains(y));
                        let q = choose|q: int| 0 <= q < before.len() && before[q] == y;
                        assert(out@[q] == y);
                    } else if !seen {
                        assert(out@[before.len() as int] == y);
                    }
                }
                if out@.contains(y) {
                    let q = choose|q: int| 0 <= q < out@.len() && out@[q] == y;
                    if q < before.len() {
                        assert(before[q] == y);
                        assert(before.contains(y));
                        let j = choose|j: int| 0 <= j < i && ids@.take(i as int)[j] == y;
                        assert(t[j] == y);
                    } else {
                        assert(t[i as int] == y);
                    }
                }
            }
        }
        i = i + 1;
    }
    assert(ids@.take(i as int) =~= ids@);
    out
}

/// The batches the main view culls on the GPU, and how many it draws whole
/// because they lie inside the view.
pub struct MainCulls {
    pub compacted: Vec<u64>,
    pub inside: u32,
}

pub open spec fn is_visibility(v: Visibility) -> spec_fn((u64, Visibility)) -> bool {
    |p: (u64, Visibility)| p.1 == v
}

pub open spec fn first_of_pair() -> spec_fn((u64, Visibility)) -> u64 {
    |p: (u64, Visibility)| p.0
}

/// Split the batches the main passes draw, each with where its bounds lie:
/// a batch straddling the frustum is culled per instance, one inside it is
/// drawn whole. None of them may lie outside.
pub fn main_culls(batches: &Vec<(u64, Visibility)>) -> (m: MainCulls)
    requires
        batches@.len() <= u32::MAX,
        forall|i: int| 0 <= i < batches@.len() ==> #[trigger] batches@[i].1 != Visibility::Outside,
    ensures
        m.compacted@ == batches@.filter(is_visibility(Visibility::Intersecting)).map_values(first_of_pair()),
        m.inside == batches@.filter(is_visibility(Visibility::Inside)).len(),
        m.compacted@.len() + m.inside == batches@.len(),
{
    let mut compacted: Vec<u64> = Vec::new();
    let mut inside: u32 = 0;
    let mut i: usize = 0;
    while i < batches.len()
        invariant
            batches@.len() <= u32::MAX,
            i <= batches@.len(),
            compacted@ == batches@.take(i as int).filter(is_visibility(Visibility::Intersecting)).map_values(first_of_pair()),
            inside == batches@.take(i as int).filter(is_visibility(Visibility::Inside)).len(),
            forall|k: int| 0 <= k < batches@.len() ==> #[trigger] batches@[k].1 != Visibility::Outside,
            compacted@.len() + inside == i,
        decreases batches@.len() - i,
    {
        proof {
            reveal_with_fuel(Seq::filter, 1);
            let t = batches@.take(i + 1);
            assert(t.drop_last() =~= batches@.take(i as int));
            batches@.take(i as int).lemma_filter_len(is_visibility(Visibility::Inside));
            let f = batches@.take(i as int).filter(is_visibility(Visibility::Intersecting));
            assert(f.push(batches@[i as int]).map_values(first_of_pair()) =~= f.map_values(first_of_pair()).push(batches@[i as int].0));
        }
        let (id, v) = batches[i];
        match v {
            Visibility::Intersecting => compacted.push(id),
            Visibility::Inside => inside = inside + 1,
            Visibility::Outside => {},
        }
        i = i + 1;
    }
    assert(batches@.take(i as int) =~= batches@);
    MainCulls { compacted, inside }
}

/// What the shadow pass reads of an entity's own mesh.
#[derive(Clone, Copy, Debug)]
pub struct ShadowCandidate {
    pub id: u64,
    pub instanced: bool,
    pub casts_shadow: bool,
    pub material: Option<SurfaceMaterialRef>,
    /// The mesh has been uploaded.
    pub uploaded: bool,
    pub instance_count: usize,
    pub opaque_index_count: usize,
    /// Where its bounds lie against the light's frustum; `None` without bounds.
    pub visibility: Option<Visibility>,
}

/// What the shadow pass reads of an instance batch and its prototype.
#[derive(Clone, Copy, Debug)]
pub struct ShadowBatch {
    pub prototype: u64,
    pub casts_shadow: bool,
    pub material: Option<SurfaceMaterialRef>,
    pub instance_count: usize,
    pub opaque_index_count: usize,
    pub visibility: Option<Visibility>,
}

/// An entity's own mesh enters the shadow maps: it is a single mesh that
/// casts, is uploaded, has placements and opaque indices, and its bounds
/// reach into the light's frustum.
pub open spec fn casts_into_shadow() -> spec_fn(ShadowCandidate) -> bool {
    |c: ShadowCandidate| {
        &&& !c.instanced
        &&& c.casts_shadow
        &&& casts_shadow_spec(c.material)
        &&& c.uploaded
        &&& c.instance_count > 0
        &&& c.opaque_index_count > 0
        &&& c.visibility matches Some(v)
        &&& v != Visibility::Outside
    }
}

/// A batch that casts and has something opaque to draw.
pub open spec fn batch_casts(b: ShadowBatch) -> bool {
    b.casts_shadow && casts_shadow_spec(b.material) && b.instance_count > 0 && b.opaque_index_count > 0
}

/// A casting batch whose bounds lie as `v` against the light's frustum.
pub open spec fn batch_lies(v: Visibility) -> spec_fn(ShadowBatch) -> bool {
    |b: ShadowBatch| batch_casts(b) && b.visibility == Some(v)
}

/// A casting batch that reaches into the light's frustum.
pub open spec fn batch_drawn() -> spec_fn(ShadowBatch) -> bool {
    |b: ShadowBatch| batch_casts(b) && b.visibility != Some(Visibility::Outside)
}

pub open spec fn candidate_id() -> spec_fn(ShadowCandidate) -> u64 {
    |c: ShadowCandidate| c.id
}

pub open spec fn batch_id() -> spec_fn(ShadowBatch) -> u64 {
    |b: ShadowBatch| b.prototype
}

/// How a shadow-casting batch is drawn: whole when inside, from its
/// compacted buffer when straddling.
pub open spec fn batch_submission() -> spec_fn(ShadowBatch) -> (u64, MeshSubmit) {
    |b: ShadowBatch|
        (
            b.prototype,
            if b.visibility == Some(Visibility::Inside) {
                MeshSubmit::Direct
            } else {
                MeshSubmit::Compacted
            },
        )
}

/// The shadow pass's draws.
pub struct ShadowCulls {
    /// Entities drawn from their own meshes.
    pub draws: Vec<u64>,
    /// Batches drawn, and how.
    pub batch_draws: Vec<(u64, MeshSubmit)>,
    /// Batches culled per instance against the light's frustum.
    pub compact_batches: Vec<u64>,
    /// Batches drawn whole.
    pub inside: u32,
}

/// Choose what enters the shadow maps. A batch that casts must have bounds.
pub fn shadow_culls(entities: &Vec<ShadowCandidate>, batches: &Vec<ShadowBatch>) -> (s: ShadowCulls)
    requires
        batches@.len() <= u32::MAX,
        forall|i: int| 0 <= i < batches@.len() && batch_casts(#[trigger] batches@[i]) ==> batches@[i].visibility is Some,
    ensures
        s.draws@ == entities@.filter(casts_into_shadow()).map_values(candidate_id()),
        s.batch_draws@ == batches@.filter(batch_drawn()).map_values(batch_submission()),
        s.compact_batches@ == batches@.filter(batch_lies(Visibility::Intersecting)).map_values(batch_id()),
        s.inside == batches@.filter(batch_lies(Visibility::Inside)).len(),
        s.batch_draws@.len() == s.compact_batches@.len() + s.inside,
{
    let mut draws: Vec<u64> = Vec::new();
    let mut i: usize = 0;
    while i < entities.len()
        invariant
            i <= entities@.len(),
            draws@ == entities@.take(i as int).filter(casts_into_shadow()).map_values(candidate_id()),
        decreases entities@.len() - i,
    {
        proof {
            reveal_with_fuel(Seq::filter, 1);
            assert(entities@.take(i + 1).drop_last() =~= entities@.take(i as int));
            let f = entities@.take(i as int).filter(casts_into_shadow());
            assert(f.push(entities@[i as int]).map_values(candidate_id()) =~= f.map_values(candidate_id()).push(entities@[i as int].id));
        }
        let c = entities[i];
        let lit = match c.visibility {
            Some(Visibility::Intersecting) | Some(Visibility::Inside) => true,
            _ => false,
        };
        if !c.instanced && c.casts_shadow && material_casts_shadow(c.material) && c.uploaded
            && c.instance_count > 0 && c.opaque_index_count > 0 && lit {
            draws.push(c.id);
        }
        i = i + 1;
    }
    assert(entities@.take(i as int) =~= entities@);
    let mut batch_draws: Vec<(u64, MeshSubmit)> = Vec::new();
    let mut compact_batches: Vec<u64> = Vec::new();
    let mut inside: u32 = 0;
    let mut j: usize = 0;
    while j < batches.len()
        invariant
            batches@.len() <= u32::MAX,
            forall|i: int| 0 <= i < batches@.len() && batch_casts(#[trigger] batches@[i]) ==> batches@[i].visibility is Some,
            j <= batches@.len(),
            batch_draws@ == batches@.take(j as int).filter(batch_drawn()).map_values(batch_submission()),
            compact_batches@ == batches@.take(j as int).filter(batch_lies(Visibility::Intersecting)).map_values(batch_id()),
            inside == batches@.take(j as int).filter(batch_lies(Visibility::Inside)).len(),
            batch_draws@.len() == compact_batches@.len() + inside,
        decreases batches@.len() - j,
    {
        let b = batches[j];
        proof {
            reveal_with_fuel(Seq::filter, 1);
            let t = batches@.take(j as int);
            assert(batches@.take(j + 1).drop_last() =~= t);
            t.lemma_filter_len(batch_lies(Visibility::Inside));
            let f1 = t.filter(batch_drawn());
            assert(f1.push(b).map_values(batch_submission()) =~= f1.map_values(batch_submission()).push(batch_submission()(b)));
            let f2 = t.filter(batch_lies(Visibility::Intersecting));
            assert(f2.push(b).map_values(batch_id()) =~= f2.map_values(batch_id()).push(b.prototype));
        }
        if b.casts_shadow && material_casts_shadow(b.material) && b.instance_count > 0
            && b.opaque_index_count > 0 {
            match b.visibility {
                Some(Visibility::Inside) => {
                    inside = inside + 1;
                    batch_draws.push((b.prototype, MeshSubmit::Direct));
                },
                Some(Visibility::Intersecting) => {
                    compact_batches.push(b.prototype);
                    batch_draws.push((b.prototype, MeshSubmit::Compacted));
                },
                _ => {},
            }
        }
        j = j + 1;
    }
    assert(batches@.take(j as int) =~= batches@);
    ShadowCulls { draws, batch_draws, compact_batches, inside }
}

/// Cull jobs a frame may need: one per batch per view, with three shadow
/// cascades beside the main view when shadows are on.
pub fn cull_job_budget(batches: usize, shadows: bool) -> (n: usize)
    requires
        batches * 4 <= usize::MAX,
    ensures
        n == batches * if shadows {
            4int
        } else {
            1int
        },
{
    if shadows {
        batches * 4
    } else {
        batches
    }
}

/// The index ranges one batch's cull feeds: the main view also compacts the
/// translucent range when there is one; a shadow view only the opaque one.
pub fn cull_draws_for(main_view: bool, opaque_index_count: usize, index_count: usize) -> (d: CullDraws)
    ensures
        d == if main_view && opaque_index_count < index_count {
            CullDraws::OpaqueAndTranslucent
        } else {
            CullDraws::OpaqueOnly
        },
{
    if main_view && opaque_index_count < index_count {
        CullDraws::OpaqueAndTranslucent
    } else {
        CullDraws::OpaqueOnly
    }
}

/// Workgroups that cover `n` placements.
pub open spec fn ceil_groups(n: int) -> int {
    n / (WORKGROUP as int) + if n % (WORKGROUP as int) == 0 {
        0int
    } else {
        1int
    }
}

/// Placements tested and workgroups run by culling batches of these sizes.
pub open spec fn tested(counts: Seq<usize>) -> int
    decreases counts.len(),
{
    if counts.len() == 0 {
        0
    } else {
        tested(counts.drop_last()) + counts.last()
    }
}

pub open spec fn groups(counts: Seq<usize>) -> int
    decreases counts.len(),
{
    if counts.len() == 0 {
        0
    } else {
        groups(counts.drop_last()) + ceil_groups(counts.last() as int)
    }
}

proof fn lemma_groups_bounded(counts: Seq<usize>)
    ensures
        0 <= groups(counts) <= tested(counts),
        0 <= tested(counts),
    decreases counts.len(),
{
    if counts.len() > 0 {
        lemma_groups_bounded(counts.drop_last());
        let c = counts.last() as int;
        assert(ceil_groups(c) <= c) by (nonlinear_arith)
            requires
                c >= 0,
        {
            assert(c / 64 * 64 + c % 64 == c);
        }
    }
}

/// What one cull dispatch adds to the frame's counters.
pub struct CullStats {
    pub jobs: u32,
    pub instances: u64,
    pub workgroups: u64,
}

/// Counters for culling batches with `counts` placements each; every batch
/// culled has at least one.
pub fn cull_stats(counts: &Vec<usize>) -> (s: CullStats)
    requires
        counts@.len() <= u32::MAX,
        tested(counts@) <= u64::MAX,
        forall|i: int| 0 <= i < counts@.len() ==> #[trigger] counts@[i] > 0,
    ensures
        s.jobs == counts@.len(),
        s.instances == tested(counts@),
        s.workgroups == groups(counts@),
{
    let mut instances: u64 = 0;
    let mut workgroups: u64 = 0;
    let mut i: usize = 0;
    while i < counts.len()
        invariant
            i <= counts@.len(),
            tested(counts@) <= u64::MAX,
            instances == tested(counts@.take(i as int)),
            workgroups == groups(counts@.take(i as int)),
        decreases counts@.len() - i,
    {
        proof {
            let t = counts@.take(i + 1);
            assert(t.drop_last() =~= counts@.take(i as int));
            lemma_groups_bounded(t);
            lemma_tested_prefix(counts@, i + 1);
        }
        let c = counts[i] as u64;
        instances = instances + c;
        let w = WORKGROUP as u64;
        workgroups = workgroups + c / w + if c % w == 0 {
            0
        } else {
            1
        };
        i = i + 1;
    }
    assert(counts@.take(i as int) =~= counts@);
    CullStats { jobs: counts.len() as u32, instances, workgroups }
}

proof fn lemma_tested_prefix(counts: Seq<usize>, n: int)
    requires
        0 <= n <= counts.len(),
    ensures
        tested(counts.take(n)) <= tested(counts),
    decreases counts.len() - n,
{
    if n < counts.len() {
        lemma_tested_prefix(counts, n + 1);
        let t = counts.take(n + 1);
        assert(t.drop_last() =~= counts.take(n));
    } else {
        assert(counts.take(n) =~= counts);
    }
}

/// What decides an instance batch, read from one instanced entity and the
/// prototype whose mesh it is drawn with.
#[derive(Clone, Copy, Debug)]
pub struct BatchSource {
    pub id: u64,
    pub prototype: u64,
    pub xform_rev: u64,
    pub instance_count: usize,
    pub material: Option<SurfaceMaterialRef>,
    pub albedo: Option<TextureId>,
    pub casts_shadow: bool,
    pub prototype_material: Option<SurfaceMaterialRef>,
    pub prototype_albedo: Option<TextureId>,
    pub prototype_casts_shadow: bool,
}

/// One batch: its prototype and the `(entity, transform revision)` pairs
/// whose placements it holds, in entity order.
pub type BatchKey = (u64, Seq<(u64, u64)>);

/// The index of the group for prototype `p` in `g`, if any.
pub open spec fn has_group(g: Seq<BatchKey>, p: u64) -> bool {
    exists|k: int| 0 <= k < g.len() && #[trigger] g[k].0 == p
}

pub open spec fn group_index(g: Seq<BatchKey>, p: u64) -> int {
    choose|k: int| 0 <= k < g.len() && #[trigger] g[k].0 == p
}

/// The sources grouped by prototype: one group per prototype, in the order
/// prototypes first appear, each listing its sources in order.
pub open spec fn group_sources(s: Seq<BatchSource>) -> Seq<BatchKey>
    decreases s.len(),
{
    if s.len() == 0 {
        Seq::empty()
    } else {
        let g = group_sources(s.drop_last());
        let x = s.last();
        if has_group(g, x.prototype) {
            let k = group_index(g, x.prototype);
            g.update(k, (x.prototype, g[k].1.push((x.id, x.xform_rev))))
        } else {
            g.push((x.prototype, seq![(x.id, x.xform_rev)]))
        }
    }
}

/// No two groups share a prototype.
pub open spec fn distinct_groups(g: Seq<BatchKey>) -> bool {
    forall|i: int, j: int| 0 <= i < j < g.len() ==> #[trigger] g[i].0 != #[trigger] g[j].0
}

proof fn lemma_groups_distinct(s: Seq<BatchSource>)
    ensures
        distinct_groups(group_sources(s)),
        forall|p: u64| has_group(group_sources(s), p) <==> exists|i: int| 0 <= i < s.len() && #[trigger] s[i].prototype == p,
    decreases s.len(),
{
    if s.len() > 0 {
        let t = s.drop_last();
        lemma_groups_distinct(t);
        let g = group_sources(t);
        let x = s.last();
        let r = group_sources(s);
        if has_group(g, x.prototype) {
            let k = group_index(g, x.prototype);
            assert forall|i: int, j: int| 0 <= i < j < r.len() implies #[trigger] r[i].0 != #[trigger] r[j].0 by {
                assert(r[i].0 == g[i].0);
                assert(r[j].0 == g[j].0);
            }
            assert forall|p: u64| has_group(r, p) <==> exists|i: int| 0 <= i < s.len() && #[trigger] s[i].prototype == p by {
                if has_group(r, p) {
                    let q = choose|q: int| 0 <= q < r.len() && #[trigger] r[q].0 == p;
                    assert(g[q].0 == p);
                    assert(has_group(g, p));
                    let i = choose|i: int| 0 <= i < t.len() && #[trigger] t[i].prototype == p;
                    assert(s[i].prototype == p);
                }
                if exists|i: int| 0 <= i < s.len() && #[trigger] s[i].prototype == p {
                    let i = choose|i: int| 0 <= i < s.len() && #[trigger] s[i].prototype == p;
                    if i < t.len() {
                        assert(t[i].prototype == p);
                        assert(has_group(g, p));
                        let q = choose|q: int| 0 <= q < g.len() && #[trigger] g[q].0 == p;
                        assert(r[q].0 == p);
                    } else {
                        assert(r[k].0 == p);
                    }
                }
            }
        } else {
            assert forall|i: int, j: int| 0 <= i < j < r.len() implies #[trigger] r[i].0 != #[trigger] r[j].0 by {
                if j == g.len() {
                    assert(r[i].0 == g[i].0);
                    if g[i].0 == x.prototype {
                        assert(has_group(g, x.prototype));
                    }
                } else {
                    assert(r[i].0 == g[i].0);
                    assert(r[j].0 == g[j].0);
                }
            }
            assert forall|p: u64| has_group(r, p) <==> exists|i: int| 0 <= i < s.len() && #[trigger] s[i].prototype == p by {
                if has_group(r, p) {
                    let q = choose|q: int| 0 <= q < r.len() && #[trigger] r[q].0 == p;
                    if q < g.len() {
                        assert(g[q].0 == p);
                        assert(has_group(g, p));
                        let i = choose|i: int| 0 <= i < t.len() && #[trigger] t[i].prototype == p;
                        assert(s[i].prototype == p);
                    } else {
                        assert(s[s.len() - 1].prototype == p);
                    }
                }
                if exists|i: int| 0 <= i < s.len() && #[trigger] s[i].prototype == p {
                    let i = choose|i: int| 0 <= i < s.len() && #[trigger] s[i].prototype == p;
                    if i < t.len() {
                        assert(t[i].prototype == p);
                        assert(has_group(g, p));
                        let q = choose|q: int| 0 <= q < g.len() && #[trigger] g[q].0 == p;
                        assert(r[q].0 == p);
                    } else {
                        assert(r[g.len() as int].0 == p);
                    }
                }
            }
        }
    }
}

/// Whether two sources are the same.
fn same_source(a: BatchSource, b: BatchSource) -> (same: bool)
    ensures
        same == (a == b),
{
    let albedo = match (a.albedo, b.albedo) {
        (None, None) => true,
        (Some(x), Some(y)) => x.0 == y.0,
        _ => false,
    };
    let prototype_albedo = match (a.prototype_albedo, b.prototype_albedo) {
        (None, None) => true,
        (Some(x), Some(y)) => x.0 == y.0,
        _ => false,
    };
    a.id == b.id && a.prototype == b.prototype && a.xform_rev == b.xform_rev
        && a.instance_count == b.instance_count && same_material(a.material, b.material) && albedo
        && a.casts_shadow == b.casts_shadow && same_material(a.prototype_material, b.prototype_material)
        && prototype_albedo && a.prototype_casts_shadow == b.prototype_casts_shadow
}

fn same_sources(a: &Vec<BatchSource>, b: &Vec<BatchSource>) -> (same: bool)
    ensures
        same == (a@ == b@),
{
    if a.len() != b.len() {
        return false;
    }
    let mut i: usize = 0;
    while i < a.len()
        invariant
            a@.len() == b@.len(),
            i <= a@.len(),
            forall|k: int| 0 <= k < i ==> a@[k] == b@[k],
        decreases a@.len() - i,
    {
        if !same_source(a[i], b[i]) {
            return false;
        }
        i = i + 1;
    }
    assert(a@ =~= b@);
    true
}

fn same_pairs(a: &Vec<(u64, u64)>, b: &Vec<(u64, u64)>) -> (same: bool)
    ensures
        same == (a@ == b@),
{
    if a.len() != b.len() {
        return false;
    }
    let mut i: usize = 0;
    while i < a.len()
        invariant
            a@.len() == b@.len(),
            i <= a@.len(),
            forall|k: int| 0 <= k < i ==> a@[k] == b@[k],
        decreases a@.len() - i,
    {
        if a[i].0 != b[i].0 || a[i].1 != b[i].1 {
            return false;
        }
        i = i + 1;
    }
    assert(a@ =~= b@);
    true
}

fn copy_pairs(a: &Vec<(u64, u64)>) -> (out: Vec<(u64, u64)>)
    ensures
        out@ == a@,
{
    let mut out: Vec<(u64, u64)> = Vec::new();
    let mut i: usize = 0;
    while i < a.len()
        invariant
            i <= a@.len(),
            out@ == a@.take(i as int),
        decreases a@.len() - i,
    {
        out.push(a[i]);
        proof {
            assert(out@ =~= a@.take(i + 1));
        }
        i = i + 1;
    }
    assert(a@.take(i as int) =~= a@);
    out
}

/// The table of batches as plain sequences.
pub open spec fn table_view(t: Seq<(u64, Vec<(u64, u64)>)>) -> Seq<BatchKey> {
    t.map_values(|e: (u64, Vec<(u64, u64)>)| (e.0, e.1@))
}

/// Group `sources` by prototype.
fn group(sources: &Vec<BatchSource>) -> (g: Vec<(u64, Vec<(u64, u64)>)>)
    ensures
        table_view(g@) == group_sources(sources@),
{
    let mut g: Vec<(u64, Vec<(u64, u64)>)> = Vec::new();
    let mut i: usize = 0;
    while i < sources.len()
        invariant
            i <= sources@.len(),
            table_view(g@) == group_sources(sources@.take(i as int)),
        decreases sources@.len() - i,
    {
        let x = sources[i];
        let ghost t = sources@.take(i + 1);
        proof {
            assert(t.drop_last() =~= sources@.take(i as int));
            assert(t.last() == x);
            lemma_groups_distinct(sources@.take(i as int));
        }
        let ghost gv = table_view(g@);
        let mut k: usize = 0;
        let mut found = false;
        while k < g.len() && !found
            invariant
                k <= g@.len(),
                gv == table_view(g@),
                !found ==> forall|q: int| 0 <= q < k ==> #[trigger] g@[q].0 != x.prototype,
                found ==> k < g@.len() && g@[k as int].0 == x.prototype,
            decreases g@.len() - k + if found {
                0int
            } else {
                1int
            },
        {
            if g[k].0 == x.prototype {
                found = true;
            } else {
                k = k + 1;
            }
        }
        if found {
            let mut members = copy_pairs(&g[k].1);
            members.push((x.id, x.xform_rev));
            proof {
                assert(gv[k as int].0 == x.prototype);
                assert(has_group(gv, x.prototype));
                let c = group_index(gv, x.prototype);
                if c != k as int {
                    assert(distinct_groups(gv));
                    if c < k {
                        assert(gv[c].0 != gv[k as int].0);
                    } else {
                        assert(gv[k as int].0 != gv[c].0);
                    }
                }
            }
            g.set(k, (x.prototype, members));
            proof {
                assert(table_view(g@) =~= gv.update(k as int, (x.prototype, gv[k as int].1.push((x.id, x.xform_rev)))));
                assert(group_sources(t.drop_last()) == gv);
                assert(group_index(gv, x.prototype) == k as int);
                assert(group_sources(t) == gv.update(k as int, (x.prototype, gv[k as int].1.push((x.id, x.xform_rev)))));
            }
        } else {
            let mut members: Vec<(u64, u64)> = Vec::new();
            members.push((x.id, x.xform_rev));
            proof {
                if has_group(gv, x.prototype) {
                    let q = choose|q: int| 0 <= q < gv.len() && #[trigger] gv[q].0 == x.prototype;
                    assert(g@[q].0 == gv[q].0);
                }
                assert(members@ =~= seq![(x.id, x.xform_rev)]);
            }
            g.push((x.prototype, members));
            proof {
                assert(table_view(g@) =~= gv.push((x.prototype, seq![(x.id, x.xform_rev)])));
                assert(group_sources(t.drop_last()) == gv);
                assert(!has_group(gv, x.prototype));
                assert(group_sources(t) == gv.push((x.prototype, seq![(x.id, x.xform_rev)])));
            }
        }
        i = i + 1;
    }
    assert(sources@.take(i as int) =~= sources@);
    g
}

/// Batches whose prototype no longer has a group.
pub open spec fn gone_from(builds: Seq<BatchKey>) -> spec_fn(BatchKey) -> bool {
    |b: BatchKey| !has_group(builds, b.0)
}

/// Groups that differ from every batch there was.
pub open spec fn changed_against(before: Seq<BatchKey>) -> spec_fn(BatchKey) -> bool {
    |b: BatchKey| !before.contains(b)
}

pub open spec fn group_key() -> spec_fn(BatchKey) -> u64 {
    |b: BatchKey| b.0
}

/// A rebuilt group and whether its batch is new.
pub open spec fn rebuild_entry(before: Seq<BatchKey>) -> spec_fn(BatchKey) -> (u64, bool) {
    |b: BatchKey| (b.0, !has_group(before, b.0))
}

/// What a frame's batch sync asks of the renderer.
pub struct BatchSync {
    /// No instanced entity changed since the last sync.
    pub unchanged: bool,
    /// Prototypes whose batches are dropped.
    pub dropped: Vec<u64>,
    /// Prototypes whose batches are filled again from their sources, in
    /// order, each marked when the batch is new.
    pub rebuilt: Vec<(u64, bool)>,
    /// Batches alive afterwards.
    pub batch_count: usize,
}

/// The GPU instance batches: instanced entities grouped by the prototype
/// whose mesh they draw, rebuilt only when their sources change.
pub struct InstanceBatches {
    sources: Vec<BatchSource>,
    batches: Vec<(u64, Vec<(u64, u64)>)>,
}

impl InstanceBatches {
    /// The sources the batches were last built from.
    pub closed spec fn last_sources(&self) -> Seq<BatchSource> {
        self.sources@
    }

    /// The batches, each with the sources it holds.
    pub closed spec fn table(&self) -> Seq<BatchKey> {
        table_view(self.batches@)
    }

    pub open spec fn wf(&self) -> bool {
        distinct_groups(self.table())
    }

    pub fn new() -> (b: Self)
        ensures
            b.wf(),
            b.last_sources() == Seq::<BatchSource>::empty(),
            b.table() == Seq::<BatchKey>::empty(),
    {
        let b = InstanceBatches { sources: Vec::new(), batches: Vec::new() };
        assert(b.table() =~= Seq::<BatchKey>::empty());
        b
    }

    /// Batches alive.
    pub fn batch_count(&self) -> (n: usize)
        ensures
            n == self.table().len(),
    {
        self.batches.len()
    }

    fn find_batch(&self, p: u64) -> (k: Option<usize>)
        requires
            self.wf(),
        ensures
            match k {
                Some(k) => k < self.table().len() && self.table()[k as int].0 == p,
                None => !has_group(self.table(), p),
            },
    {
        let mut k: usize = 0;
        while k < self.batches.len()
            invariant
                k <= self.batches@.len(),
                forall|q: int| 0 <= q < k ==> #[trigger] self.batches@[q].0 != p,
            decreases self.batches@.len() - k,
        {
            if self.batches[k].0 == p {
                return Some(k);
            }
            k = k + 1;
        }
        proof {
            if has_group(self.table(), p) {
                let q = choose|q: int| 0 <= q < self.table().len() && #[trigger] self.table()[q].0 == p;
                assert(self.batches@[q].0 == p);
            }
        }
        None
    }

    /// Bring the batches up to date with this frame's `sources`, one per
    /// instanced entity in entity order. When nothing changed, nothing is
    /// rebuilt; otherwise batches of prototypes no longer instanced are
    /// dropped, and a batch is rebuilt exactly when its sources differ.
    pub fn sync(&mut self, sources: Vec<BatchSource>) -> (s: BatchSync)
        requires
            old(self).wf(),
        ensures
            final(self).wf(),
            s.batch_count == final(self).table().len(),
            sources@ == old(self).last_sources() ==> s.unchanged && *final(self) == *old(self)
                && s.dropped@.len() == 0 && s.rebuilt@.len() == 0,
            sources@ != old(self).last_sources() ==> ({
                let builds = group_sources(sources@);
                &&& !s.unchanged
                &&& s.dropped@ == old(self).table().filter(gone_from(builds)).map_values(group_key())
                &&& s.rebuilt@ == builds.filter(changed_against(old(self).table())).map_values(
                    rebuild_entry(old(self).table()),
                )
                &&& final(self).table() == builds
                &&& final(self).last_sources() == sources@
            }),
    {
        if same_sources(&sources, &self.sources) {
            return BatchSync { unchanged: true, dropped: Vec::new(), rebuilt: Vec::new(), batch_count: self.batches.len() };
        }
        let builds = group(&sources);
        let ghost bv = table_view(builds@);
        proof {
            lemma_groups_distinct(sources@);
        }
        let ghost before = self.table();
        let mut dropped: Vec<u64> = Vec::new();
        let mut i: usize = 0;
        while i < self.batches.len()
            invariant
                *self == *old(self),
                before == self.table(),
                bv == table_view(builds@),
                bv == group_sources(sources@),
                i <= self.batches@.len(),
                dropped@ == before.take(i as int).filter(gone_from(bv)).map_values(group_key()),
            decreases self.batches@.len() - i,
        {
            let p = self.batches[i].0;
            let mut present = false;
            let mut j: usize = 0;
            while j < builds.len()
                invariant
                    j <= builds@.len(),
                    bv == table_view(builds@),
                    present == exists|q: int| 0 <= q < j && #[trigger] builds@[q].0 == p,
                decreases builds@.len() - j,
            {
                if builds[j].0 == p {
                    present = true;
                }
                j = j + 1;
            }
            proof {
                reveal_with_fuel(Seq::filter, 1);
                assert(before.take(i + 1).drop_last() =~= before.take(i as int));
                assert(before[i as int].0 == p);
                if present {
                    let q = choose|q: int| 0 <= q < builds@.len() && #[trigger] builds@[q].0 == p;
                    assert(bv[q].0 == p);
                }
                if has_group(bv, p) {
                    let q = choose|q: int| 0 <= q < bv.len() && #[trigger] bv[q].0 == p;
                    assert(builds@[q].0 == p);
                }
                let f = before.take(i as int).filter(gone_from(bv));
                assert(f.push(before[i as int]).map_values(group_key()) =~= f.map_values(group_key()).push(p));
            }
            if !present {
                dropped.push(p);
            }
            i = i + 1;
        }
        proof {
            assert(before.take(i as int) =~= before);
        }
        let mut rebuilt: Vec<(u64, bool)> = Vec::new();
        let mut j: usize = 0;
        while j < builds.len()
            invariant
                *self == *old(self),
                self.wf(),
                before == self.table(),
                bv == table_view(builds@),
                j <= builds@.len(),
                rebuilt@ == bv.take(j as int).filter(changed_against(before)).map_values(rebuild_entry(before)),
            decreases builds@.len() - j,
        {
            let p = builds[j].0;
            let ghost b = bv[j as int];
            let (changed, fresh) = match self.find_batch(p) {
                Some(k) => (!same_pairs(&self.batches[k].1, &builds[j].1), false),
                None => (true, true),
            };
            proof {
                reveal_with_fuel(Seq::filter, 1);
                assert(bv.take(j + 1).drop_last() =~= bv.take(j as int));
                assert(b == (p, builds@[j as int].1@));
                assert(changed == !before.contains(b)) by {
                    if before.contains(b) {
                        let q = choose|q: int| 0 <= q < before.len() && before[q] == b;
                        assert(before[q].0 == p);
                        assert(has_group(before, p));
                    }
                }
                assert(fresh == !has_group(before, p));
                let f = bv.take(j as int).filter(changed_against(before));
                assert(f.push(b).map_values(rebuild_entry(before)) =~= f.map_values(rebuild_entry(before)).push((p, fresh)));
            }
            if changed {
                rebuilt.push((p, fresh));
            }
            j = j + 1;
        }
        proof {
            assert(bv.take(j as int) =~= bv);
        }
        self.batches = builds;
        self.sources = sources;
        BatchSync { unchanged: false, dropped, rebuilt, batch_count: self.batches.len() }
    }
}

/// The prototype an entity's instances are drawn with: the one it was made
/// like, or itself.
pub open spec fn prototype_of(e: (u64, EntityRecord)) -> u64 {
    match e.1.instance_of {
        Some(p) => p.0,
        None => e.0,
    }
}

/// An instanced entity and its prototype are drawn alike.
pub open spec fn drawn_alike(e: EntityRecord, p: EntityRecord) -> bool {
    e.material == p.material && e.albedo == p.albedo && e.casts_shadow == p.casts_shadow
}

/// Entry `i` of `w` is instanced, and its prototype is live and drawn alike.
pub open spec fn source_ok<V: Copy>(w: &EntityRegistry<V>, i: int) -> bool {
    let e = w.entries()[i];
    e.1.instanced ==> w.has(prototype_of(e)) && drawn_alike(e.1, w.record(prototype_of(e)))
}

/// The batch source of instanced entity `e`.
pub open spec fn source_of<V: Copy>(w: &EntityRegistry<V>, e: (u64, EntityRecord)) -> BatchSource {
    let p = w.record(prototype_of(e));
    BatchSource {
        id: e.0,
        prototype: prototype_of(e),
        xform_rev: e.1.xform_rev,
        instance_count: e.1.placements,
        material: e.1.material,
        albedo: e.1.albedo,
        casts_shadow: e.1.casts_shadow,
        prototype_material: p.material,
        prototype_albedo: p.albedo,
        prototype_casts_shadow: p.casts_shadow,
    }
}

pub open spec fn is_instanced() -> spec_fn((u64, EntityRecord)) -> bool {
    |e: (u64, EntityRecord)| e.1.instanced
}

/// An instanced entity whose prototype is gone, or is drawn otherwise.
#[derive(Clone, Copy, Debug, PartialEq, Eq, Structural)]
pub enum BatchFault {
    MissingPrototype { id: u64, prototype: u64 },
    Incompatible { id: u64, prototype: u64 },
}

fn same_albedo(x: Option<TextureId>, y: Option<TextureId>) -> (b: bool)
    ensures
        b == (x == y),
{
    match (x, y) {
        (None, None) => true,
        (Some(a), Some(c)) => a.0 == c.0,
        _ => false,
    }
}

/// The batch sources of `w`'s instanced entities, in entity order; or the
/// first instanced entity whose prototype is gone or drawn otherwise.
pub fn batch_sources<V: Copy>(w: &EntityRegistry<V>) -> (r: Result<Vec<BatchSource>, BatchFault>)
    requires
        w.wf(),
    ensures
        r is Ok <==> forall|i: int| 0 <= i < w.entries().len() ==> #[trigger] source_ok(w, i),
        r matches Ok(s) ==> s@ == w.entries().filter(is_instanced()).map_values(
            |e: (u64, EntityRecord)| source_of(w, e),
        ),
        r matches Err(f) ==> exists|i: int|
            0 <= i < w.entries().len() && !#[trigger] source_ok(w, i) && (forall|j: int|
                0 <= j < i ==> source_ok(w, j)) && f == if w.has(prototype_of(w.entries()[i])) {
                BatchFault::Incompatible { id: w.entries()[i].0, prototype: prototype_of(w.entries()[i]) }
            } else {
                BatchFault::MissingPrototype { id: w.entries()[i].0, prototype: prototype_of(w.entries()[i]) }
            },
{
    let entries = w.entities();
    let mut out: Vec<BatchSource> = Vec::new();
    let mut i: usize = 0;
    while i < entries.len()
        invariant
            w.wf(),
            entries@ == w.entries(),
            i <= entries@.len(),
            forall|j: int| 0 <= j < i ==> #[trigger] source_ok(w, j),
            out@ == entries@.take(i as int).filter(is_instanced()).map_values(
                |e: (u64, EntityRecord)| source_of(w, e),
            ),
        decreases entries@.len() - i,
    {
        let (id, rec) = entries[i];
        proof {
            reveal_with_fuel(Seq::filter, 1);
            assert(entries@.take(i + 1).drop_last() =~= entries@.take(i as int));
        }
        if !rec.instanced {
            assert(source_ok(w, i as int));
        }
        if rec.instanced {
            let p = match rec.instance_of {
                Some(p) => p.0,
                None => id,
            };
            let ghost e = entries@[i as int];
            assert(prototype_of(e) == p);
            let pr = match w.entity(EntityId(p)) {
                Ok(pr) => pr,
                Err(_) => {
                    proof {
                        assert(!source_ok(w, i as int));
                        assert(!(forall|j: int| 0 <= j < w.entries().len() ==> #[trigger] source_ok(w, j)));
                    }
                    return Err(BatchFault::MissingPrototype { id, prototype: p });
                },
            };
            if !(same_material(rec.material, pr.material) && same_albedo(rec.albedo, pr.albedo)
                && rec.casts_shadow == pr.casts_shadow) {
                proof {
                    assert(!source_ok(w, i as int));
                    assert(!(forall|j: int| 0 <= j < w.entries().len() ==> #[trigger] source_ok(w, j)));
                }
                return Err(BatchFault::Incompatible { id, prototype: p });
            }
            let src = BatchSource {
                id,
                prototype: p,
                xform_rev: rec.xform_rev,
                instance_count: rec.placements,
                material: rec.material,
                albedo: rec.albedo,
                casts_shadow: rec.casts_shadow,
                prototype_material: pr.material,
                prototype_albedo: pr.albedo,
                prototype_casts_shadow: pr.casts_shadow,
            };
            proof {
                assert(source_ok(w, i as int));
                let f = entries@.take(i as int).filter(is_instanced());
                assert(f.push(entries@[i as int]).map_values(|e: (u64, EntityRecord)| source_of(w, e))
                    =~= f.map_values(|e: (u64, EntityRecord)| source_of(w, e)).push(src));
            }
            out.push(src);
        }
        i = i + 1;
    }
    proof {
        assert(entries@.take(i as int) =~= entries@);
    }
    Ok(out)
}

/// Handles present in `ids`.
pub open spec fn listed(ids: Seq<u64>) -> spec_fn(u64) -> bool {
    |k: u64| ids.contains(k)
}

/// Handles absent from `ids`.
pub open spec fn unlisted(ids: Seq<u64>) -> spec_fn(u64) -> bool {
    |k: u64| !ids.contains(k)
}

/// What a GPU-side cache of world resources must do this frame: upload the
/// resources it lacks, in the world's order, and drop the ones the world no
/// longer holds, in the cache's order.
#[derive(Clone, Debug, PartialEq, Eq)]
pub struct ResidencyPlan {
    pub upload: Vec<u64>,
    pub evict: Vec<u64>,
}

/// The members of `s` that `other` lists (with `keep_listed`) or does not
/// list (without), in order.
fn filter_ids(s: &Vec<u64>, other: &Vec<u64>, keep_listed: bool) -> (out: Vec<u64>)
    ensures
        out@ == if keep_listed {
            s@.filter(listed(other@))
        } else {
            s@.filter(unlisted(other@))
        },
{
    let ghost p = if keep_listed {
        listed(other@)
    } else {
        unlisted(other@)
    };
    let mut out: Vec<u64> = Vec::new();
    let mut i: usize = 0;
    while i < s.len()
        invariant
            i <= s@.len(),
            p == (if keep_listed {
                listed(other@)
            } else {
                unlisted(other@)
            }),
            out@ == s@.take(i as int).filter(p),
        decreases s@.len() - i,
    {
        proof {
            reveal_with_fuel(Seq::filter, 1);
            assert(s@.take(i + 1).drop_last() =~= s@.take(i as int));
        }
        let k = s[i];
        let found = contains_id(other, k);
        if found == keep_listed {
            out.push(k);
        }
        i = i + 1;
    }
    proof {
        assert(s@.take(i as int) =~= s@);
    }
    out
}

/// The uploads and evictions that bring a cache holding `resident` in line
/// with a world holding `wanted`.
pub fn residency_plan(wanted: &Vec<u64>, resident: &Vec<u64>) -> (plan: ResidencyPlan)
    ensures
        plan.upload@ == wanted@.filter(unlisted(resident@)),
        plan.evict@ == resident@.filter(unlisted(wanted@)),
{
    ResidencyPlan { upload: filter_ids(wanted, resident, false), evict: filter_ids(resident, wanted, false) }
}

/// A cache that keeps what the world still holds and then uploads what the
/// plan lists holds exactly what the world holds, each handle once, and
/// evicts exactly what the world no longer holds.
pub proof fn residency_plan_reaches_the_world(wanted: Seq<u64>, resident: Seq<u64>, k: u64)
    requires
        wanted.no_duplicates(),
        resident.no_duplicates(),
    ensures
        ({
            let after = resident.filter(listed(wanted)) + wanted.filter(unlisted(resident));
            &&& after.contains(k) <==> wanted.contains(k)
            &&& after.no_duplicates()
            &&& resident.filter(unlisted(wanted)).contains(k) <==> resident.contains(k)
                && !wanted.contains(k)
        }),
{
    let kept = resident.filter(listed(wanted));
    let fresh = wanted.filter(unlisted(resident));
    let after = kept + fresh;
    lemma_filter_contains_iff(resident, listed(wanted), k);
    lemma_filter_contains_iff(wanted, unlisted(resident), k);
    lemma_filter_contains_iff(resident, unlisted(wanted), k);
    lemma_filter_no_duplicates(resident, listed(wanted));
    lemma_filter_no_duplicates(wanted, unlisted(resident));
    assert(after.contains(k) <==> kept.contains(k) || fresh.contains(k)) by {
        if after.contains(k) {
            let i = choose|i: int| 0 <= i < after.len() && after[i] == k;
            if i < kept.len() {
                assert(kept[i] == k);
            } else {
                assert(fresh[i - kept.len()] == k);
            }
        }
        if kept.contains(k) {
            let i = choose|i: int| 0 <= i < kept.len() && kept[i] == k;
            assert(after[i] == k);
        }
        if fresh.contains(k) {
            let i = choose|i: int| 0 <= i < fresh.len() && fresh[i] == k;
            assert(after[kept.len() + i] == k);
        }
    }
    assert forall|i: int, j: int| 0 <= i < j < after.len() implies after[i] != after[j] by {
        if j < kept.len() {
        } else if i >= kept.len() {
            assert(after[i] == fresh[i - kept.len()]);
            assert(after[j] == fresh[j - kept.len()]);
        } else {
            let x = after[i];
            assert(x == kept[i]);
            assert(after[j] == fresh[j - kept.len()]);
            lemma_filter_contains_iff(resident, listed(wanted), x);
            lemma_filter_contains_iff(wanted, unlisted(resident), after[j]);
            assert(kept.contains(x));
            assert(fresh.contains(after[j]));
        }
    }
}

/// What the renderer holds of an entity's uploaded mesh.
#[derive(Clone, Copy, Debug, PartialEq, Eq, Structural)]
pub struct CachedMesh {
    pub vertex_count: usize,
    pub index_count: usize,
    /// The transform revision its instance buffer was written at.
    pub xform_rev: u64,
}

/// How one entity's GPU mesh is brought up to date this frame.
#[derive(Clone, Copy, Debug, PartialEq, Eq, Structural)]
pub enum MeshSync {
    /// Nothing changed.
    Keep,
    /// An emptied scatter layer: clear its instances, keep its buffers.
    ClearInstances,
    /// A scatter layer with no placements yet: upload its mesh with none.
    UploadEmpty,
    /// Upload the entity's own mesh with its instances.
    Upload,
    /// A like-entity drawn for the first time: share the vertex buffers of
    /// this prototype and write its own instances.
    ShareVertices(EntityId),
    /// The mesh changed shape: upload it again.
    Rebuild,
    /// Only the transform or the placements changed: rewrite the instances.
    RewriteInstances,
}

/// The uploaded mesh has the entity's counts, or the entity is a like-entity,
/// whose vertices its prototype owns.
pub open spec fn same_shape(rec: EntityRecord, vertex_count: usize, index_count: usize, c: CachedMesh) -> bool {
    rec.instance_of is Some || (c.vertex_count == vertex_count && c.index_count == index_count)
}

/// The update of one entity's mesh, given its record, the counts of its own
/// mesh, and what is uploaded for it.
pub open spec fn mesh_sync_spec(
    rec: EntityRecord,
    vertex_count: usize,
    index_count: usize,
    cached: Option<CachedMesh>,
) -> MeshSync {
    if rec.instanced && rec.placements == 0 {
        match cached {
            Some(c) => if c.xform_rev != rec.xform_rev {
                MeshSync::ClearInstances
            } else {
                MeshSync::Keep
            },
            None => if rec.instance_of is None {
                MeshSync::UploadEmpty
            } else {
                MeshSync::Keep
            },
        }
    } else {
        match cached {
            Some(c) => if same_shape(rec, vertex_count, index_count, c) {
                if c.xform_rev == rec.xform_rev {
                    MeshSync::Keep
                } else {
                    MeshSync::RewriteInstances
                }
            } else {
                MeshSync::Rebuild
            },
            None => match rec.instance_of {
                Some(p) => MeshSync::ShareVertices(p),
                None => MeshSync::Upload,
            },
        }
    }
}

/// Decide how an entity's GPU mesh is brought up to date: an emptied
/// scatter layer only clears its instances, a like-entity shares its
/// prototype's vertices, a mesh whose counts changed is uploaded again, and
/// an unchanged transform revision costs nothing.
pub fn mesh_sync(rec: &EntityRecord, vertex_count: usize, index_count: usize, cached: Option<CachedMesh>) -> (m: MeshSync)
    ensures
        m == mesh_sync_spec(*rec, vertex_count, index_count, cached),
{
    if rec.instanced && rec.placements == 0 {
        return match cached {
            Some(c) => if c.xform_rev != rec.xform_rev {
                MeshSync::ClearInstances
            } else {
                MeshSync::Keep
            },
            None => if rec.instance_of.is_none() {
                MeshSync::UploadEmpty
            } else {
                MeshSync::Keep
            },
        };
    }
    match cached {
        Some(c) => {
            let same = rec.instance_of.is_some() || (c.vertex_count == vertex_count && c.index_count
                == index_count);
            if same {
                if c.xform_rev == rec.xform_rev {
                    MeshSync::Keep
                } else {
                    MeshSync::RewriteInstances
                }
            } else {
                MeshSync::Rebuild
            }
        },
        None => match rec.instance_of {
            Some(p) => MeshSync::ShareVertices(p),
            None => MeshSync::Upload,
        },
    }
}

/// After the update the uploaded mesh is written at the entity's transform
/// revision, whatever was uploaded before, unless the entity is a
/// like-entity with no placements and nothing uploaded yet, which stays
/// without a mesh until it is placed.
pub proof fn mesh_sync_catches_up(
    rec: EntityRecord,
    vertex_count: usize,
    index_count: usize,
    cached: Option<CachedMesh>,
)
    ensures
        ({
            let m = mesh_sync_spec(rec, vertex_count, index_count, cached);
            &&& m is Keep ==> (cached matches Some(c) && c.xform_rev == rec.xform_rev) || (cached
                is None && rec.instanced && rec.placements == 0 && rec.instance_of is Some)
            &&& m is ShareVertices ==> cached is None && rec.instance_of == Some(m->0)
            &&& (m is Rebuild || m is Upload || m is UploadEmpty) ==> rec.instance_of is None
        }),
{
}

/// For an entity with a mesh of its own that is not an emptied scatter layer,
/// an uploaded mesh is drawn as it is only when both its vertex and its
/// index counts are the entity's: a difference in either count uploads the
/// mesh again, and with equal counts a new transform revision rewrites only
/// the instances. A like-entity, whose vertices its prototype owns, never
/// rebuilds.
pub proof fn changed_meshes_are_rebuilt(
    rec: EntityRecord,
    vertex_count: usize,
    index_count: usize,
    c: CachedMesh,
)
    requires
        !(rec.instanced && rec.placements == 0),
    ensures
        rec.instance_of is None && (c.vertex_count != vertex_count || c.index_count != index_count)
            ==> mesh_sync_spec(rec, vertex_count, index_count, Some(c)) == MeshSync::Rebuild,
        rec.instance_of is None && c.vertex_count == vertex_count && c.index_count == index_count
            ==> mesh_sync_spec(rec, vertex_count, index_count, Some(c)) == if c.xform_rev
            == rec.xform_rev {
            MeshSync::Keep
        } else {
            MeshSync::RewriteInstances
        },
        rec.instance_of is Some ==> mesh_sync_spec(rec, vertex_count, index_count, Some(c)) == if c.xform_rev
            == rec.xform_rev {
            MeshSync::Keep
        } else {
            MeshSync::RewriteInstances
        },
{
}

/// Some batch of `batches` with prototype `p` casts shadows, has placements
/// and opaque indices, and reaches into the light's frustum.
pub open spec fn drawn_from_casting_batch(batches: Seq<ShadowBatch>, p: u64) -> bool {
    exists|i: int|
        0 <= i < batches.len() && #[trigger] batches[i].prototype == p && batches[i].casts_shadow
            && batches[i].instance_count > 0 && batches[i].opaque_index_count > 0
            && batches[i].visibility != Some(Visibility::Outside)
}

/// Some batch of `batches` with prototype `p` casts shadows and straddles
/// the light's frustum.
pub open spec fn culled_from_casting_batch(batches: Seq<ShadowBatch>, p: u64) -> bool {
    exists|i: int|
        0 <= i < batches.len() && #[trigger] batches[i].prototype == p && batches[i].casts_shadow
            && batches[i].visibility == Some(Visibility::Intersecting)
}

/// Only batches whose prototype casts shadows reach the shadow maps: every
/// batch drawn there, drawn whole, or culled per instance comes from a batch
/// with shadows on, opaque indices and placements, and when no batch has
/// shadows on the shadow pass draws no batch at all.
pub proof fn batches_without_shadows_stay_out(batches: Seq<ShadowBatch>, s: ShadowCulls)
    requires
        s.batch_draws@ == batches.filter(batch_drawn()).map_values(batch_submission()),
        s.compact_batches@ == batches.filter(batch_lies(Visibility::Intersecting)).map_values(batch_id()),
        s.inside == batches.filter(batch_lies(Visibility::Inside)).len(),
    ensures
        forall|k: int|
            0 <= k < s.batch_draws@.len() ==> drawn_from_casting_batch(batches, (#[trigger] s.batch_draws@[k]).0),
        forall|k: int|
            0 <= k < s.compact_batches@.len() ==> culled_from_casting_batch(batches, #[trigger] s.compact_batches@[k]),
        (forall|i: int| 0 <= i < batches.len() ==> !(#[trigger] batches[i]).casts_shadow) ==> (
        s.batch_draws@.len() == 0 && s.compact_batches@.len() == 0 && s.inside == 0),
{
    broadcast use Seq::lemma_filter_pred;
    let d = batches.filter(batch_drawn());
    let x = batches.filter(batch_lies(Visibility::Intersecting));
    let n = batches.filter(batch_lies(Visibility::Inside));
    lemma_filter_subset(batches, batch_drawn());
    lemma_filter_subset(batches, batch_lies(Visibility::Intersecting));
    lemma_filter_subset(batches, batch_lies(Visibility::Inside));
    assert forall|k: int| 0 <= k < s.batch_draws@.len() implies drawn_from_casting_batch(batches, (#[trigger] s.batch_draws@[k]).0) by {
        assert(batch_drawn()(d[k]));
        assert(batches.contains(d[k]));
        let i = choose|i: int| 0 <= i < batches.len() && batches[i] == d[k];
        assert(batches[i].prototype == s.batch_draws@[k].0);
    }
    assert forall|k: int| 0 <= k < s.compact_batches@.len() implies culled_from_casting_batch(batches, #[trigger] s.compact_batches@[k]) by {
        assert(batch_lies(Visibility::Intersecting)(x[k]));
        assert(batches.contains(x[k]));
        let i = choose|i: int| 0 <= i < batches.len() && batches[i] == x[k];
        assert(batches[i].prototype == s.compact_batches@[k]);
    }
    if forall|i: int| 0 <= i < batches.len() ==> !(#[trigger] batches[i]).casts_shadow {
        if d.len() > 0 {
            assert(batch_drawn()(d[0]));
            assert(batches.contains(d[0]));
            let i = choose|i: int| 0 <= i < batches.len() && batches[i] == d[0];
            assert(!batches[i].casts_shadow);
        }
        if x.len() > 0 {
            assert(batch_lies(Visibility::Intersecting)(x[0]));
            assert(batches.contains(x[0]));
            let i = choose|i: int| 0 <= i < batches.len() && batches[i] == x[0];
            assert(!batches[i].casts_shadow);
        }
        if n.len() > 0 {
            assert(batch_lies(Visibility::Inside)(n[0]));
            assert(batches.contains(n[0]));
            let i = choose|i: int| 0 <= i < batches.len() && batches[i] == n[0];
            assert(!batches[i].casts_shadow);
        }
    }
}

/// Every index of a drawable mesh is drawn by exactly one pass, except the
/// opaque part of a water sheet, which no pass draws: its opaque indices go
/// to the terrain pass when it wears a ground material and to the opaque pass
/// when it wears none; its translucent indices go to the water pass for a
/// water sheet and to the transparent pass otherwise. A mesh that is not
/// drawable enters no pass.
pub proof fn passes_split_every_mesh(m: MeshDraw)
    ensures
        !m.drawable ==> !opaque_pass()(m) && !terrain_pass()(m) && !transparent_pass()(m)
            && !water_pass()(m),
        !(opaque_pass()(m) && terrain_pass()(m)),
        !(transparent_pass()(m) && water_pass()(m)),
        opaque_pass()(m) || terrain_pass()(m) <==> m.drawable && m.opaque_index_count > 0 && !(
        m.material matches Some(SurfaceMaterialRef::Water(_))),
        transparent_pass()(m) || water_pass()(m) <==> m.drawable && m.opaque_index_count
            < m.index_count,
        terrain_pass()(m) ==> m.material matches Some(SurfaceMaterialRef::Terrain(_)),
        opaque_pass()(m) ==> m.material is None,
        water_pass()(m) ==> m.material matches Some(SurfaceMaterialRef::Water(_)),
{
}

/// A streamed chunk layer that receives a default material is drawn by the
/// passes that material belongs to: a wholly opaque layer wearing the
/// ground material is drawn only by the terrain pass, and a wholly
/// translucent layer wearing the water material only by the water pass.
pub proof fn chunk_layers_reach_their_passes(
    m: MeshDraw,
    terrain: Option<MaterialId>,
    water: Option<WaterMaterialId>,
)
    requires
        m.drawable,
        m.opaque_index_count <= m.index_count,
        m.material == chunk_material_spec(
            m.index_count as nat,
            m.opaque_index_count as nat,
            terrain,
            water,
        ),
    ensures
        m.material matches Some(SurfaceMaterialRef::Terrain(_)) ==> terrain_pass()(m)
            && !opaque_pass()(m) && !transparent_pass()(m) && !water_pass()(m)
            && m.opaque_index_count == m.index_count > 0,
        m.material matches Some(SurfaceMaterialRef::Water(_)) ==> water_pass()(m)
            && !opaque_pass()(m) && !terrain_pass()(m) && !transparent_pass()(m)
            && m.opaque_index_count == 0 < m.index_count,
        m.index_count > 0 && m.opaque_index_count == m.index_count && terrain is Some ==> m.material
            == Some(SurfaceMaterialRef::Terrain(terrain->0)),
        m.index_count > 0 && m.opaque_index_count == 0 && water is Some ==> m.material == Some(
            SurfaceMaterialRef::Water(water->0),
        ),
        0 < m.opaque_index_count < m.index_count ==> m.material is None,
{
}

/// Enough workgroups of `WORKGROUP` threads run to test every placement, and
/// one fewer would not be enough.
pub proof fn cull_groups_cover_their_placements(n: int)
    requires
        n >= 0,
    ensures
        ceil_groups(n) * WORKGROUP >= n,
        ceil_groups(n) == 0 || (ceil_groups(n) - 1) * WORKGROUP < n,
{
    assert(n / 64 * 64 + n % 64 == n) by (nonlinear_arith)
        requires
            n >= 0,
    {
        vstd::arithmetic::div_mod::lemma_fundamental_div_mod(n, 64);
    }
    assert(0 <= n / 64) by (nonlinear_arith)
        requires
            n >= 0,
    ;
}

/// The batch walk draws each prototype once: the entries kept hold pairwise
/// different ids, every id of the walk is kept, and every kept entry is the
/// first entry of its id in the walk.
pub proof fn each_batch_is_drawn_once(s: Seq<MeshDraw>)
    ensures
        forall|i: int, j: int|
            0 <= i < j < first_of_each(s).len() ==> #[trigger] first_of_each(s)[i].id
                != #[trigger] first_of_each(s)[j].id,
        forall|x: u64| id_among(s, s.len() as int, x) <==> id_among(first_of_each(s), first_of_each(s).len() as int, x),
        forall|i: int|
            0 <= i < first_of_each(s).len() ==> exists|j: int|
                0 <= j < s.len() && s[j] == #[trigger] first_of_each(s)[i] && forall|q: int|
                    0 <= q < j ==> s[q].id != s[j].id,
    decreases s.len(),
{
    if s.len() > 0 {
        let t = s.drop_last();
        each_batch_is_drawn_once(t);
        let d = first_of_each(t);
        let f = first_of_each(s);
        let n = s.len() - 1;
        assert forall|x: u64| id_among(t, t.len() as int, x) <==> id_among(s, n, x) by {
            if id_among(t, t.len() as int, x) {
                let j = choose|j: int| 0 <= j < t.len() && #[trigger] t[j].id == x;
                assert(s[j].id == x);
            }
            if id_among(s, n, x) {
                let j = choose|j: int| 0 <= j < n && #[trigger] s[j].id == x;
                assert(t[j].id == x);
            }
        }
        if seen_before(s, n) {
            assert(f == d);
            assert forall|x: u64| id_among(s, s.len() as int, x) <==> id_among(f, f.len() as int, x) by {
                if id_among(s, s.len() as int, x) {
                    let j = choose|j: int| 0 <= j < s.len() && #[trigger] s[j].id == x;
                    if j == n {
                        let q = choose|q: int| 0 <= q < n && #[trigger] s[q].id == s[n].id;
                        assert(id_among(s, n, x));
                    } else {
                        assert(id_among(s, n, x));
                    }
                }
                if id_among(f, f.len() as int, x) {
                    assert(id_among(t, t.len() as int, x));
                    let j = choose|j: int| 0 <= j < t.len() && #[trigger] t[j].id == x;
                    assert(s[j].id == x);
                }
            }
            assert forall|i: int| 0 <= i < f.len() implies exists|j: int|
                0 <= j < s.len() && s[j] == #[trigger] f[i] && forall|q: int| 0 <= q < j ==> s[q].id != s[j].id by {
                let j = choose|j: int| 0 <= j < t.len() && t[j] == #[trigger] d[i] && forall|q: int| 0 <= q < j ==> t[q].id != t[j].id;
                assert(s[j] == f[i]);
                assert forall|q: int| 0 <= q < j implies s[q].id != s[j].id by {
                    assert(t[q] == s[q]);
                }
            }
        } else {
            assert(f == d.push(s[n]));
            assert forall|i: int, j: int| 0 <= i < j < f.len() implies #[trigger] f[i].id != #[trigger] f[j].id by {
                if j == f.len() - 1 {
                    assert(f[i] == d[i]);
                    if d[i].id == s[n].id {
                        assert(id_among(d, d.len() as int, s[n].id));
                        assert(id_among(s, n, s[n].id));
                        let q = choose|q: int| 0 <= q < n && #[trigger] s[q].id == s[n].id;
                        assert(seen_before(s, n));
                    }
                } else {
                    assert(f[i] == d[i]);
                    assert(f[j] == d[j]);
                }
            }
            assert forall|x: u64| id_among(s, s.len() as int, x) <==> id_among(f, f.len() as int, x) by {
                if id_among(s, s.len() as int, x) {
                    let j = choose|j: int| 0 <= j < s.len() && #[trigger] s[j].id == x;
                    if j == n {
                        assert(f[f.len() - 1].id == x);
                    } else {
                        assert(id_among(s, n, x));
                        assert(id_among(d, d.len() as int, x));
                        let q = choose|q: int| 0 <= q < d.len() && #[trigger] d[q].id == x;
                        assert(f[q].id == x);
                    }
                }
                if id_among(f, f.len() as int, x) {
                    let q = choose|q: int| 0 <= q < f.len() && #[trigger] f[q].id == x;
                    if q == f.len() - 1 {
                        assert(s[n].id == x);
                    } else {
                        assert(d[q].id == x);
                        assert(id_among(d, d.len() as int, x));
                        assert(id_among(s, n, x));
                        let j = choose|j: int| 0 <= j < n && #[trigger] s[j].id == x;
                        assert(s[j].id == x);
                    }
                }
            }
            assert forall|i: int| 0 <= i < f.len() implies exists|j: int|
                0 <= j < s.len() && s[j] == #[trigger] f[i] && forall|q: int| 0 <= q < j ==> s[q].id != s[j].id by {
                if i == f.len() - 1 {
                    assert(s[n] == f[i]);
                    assert forall|q: int| 0 <= q < n implies s[q].id != s[n].id by {
                        if s[q].id == s[n].id {
                            assert(seen_before(s, n));
                        }
                    }
                } else {
                    let j = choose|j: int| 0 <= j < t.len() && t[j] == #[trigger] d[i] && forall|q: int| 0 <= q < j ==> t[q].id != t[j].id;
                    assert(s[j] == f[i]);
                    assert forall|q: int| 0 <= q < j implies s[q].id != s[j].id by {
                        assert(t[q] == s[q]);
                    }
                }
            }
        }
    }
}

/// Entities whose meshes are synced this frame, in order: every entity with
/// a mesh of its own first, then, on the CPU submit path, the like-entities,
/// so a like-entity finds its prototype's buffers already uploaded. On the
/// GPU path the like-entities are drawn through instance batches instead.
pub open spec fn sync_order_spec(entries: Seq<(u64, EntityRecord)>, submit: InstanceSubmit) -> Seq<u64> {
    let own = entries.filter(|e: (u64, EntityRecord)| e.1.instance_of is None).map_values(
        |e: (u64, EntityRecord)| e.0,
    );
    let like = entries.filter(|e: (u64, EntityRecord)| e.1.instance_of is Some).map_values(
        |e: (u64, EntityRecord)| e.0,
    );
    match submit {
        InstanceSubmit::CpuIndexed => own + like,
        InstanceSubmit::GpuIndirect => own,
    }
}

/// The handles of `entries` whose records have (`like`) or lack a prototype.
fn ids_where(entries: &Vec<(u64, EntityRecord)>, like: bool) -> (out: Vec<u64>)
    ensures
        out@ == if like {
            entries@.filter(|e: (u64, EntityRecord)| e.1.instance_of is Some).map_values(
                |e: (u64, EntityRecord)| e.0,
            )
        } else {
            entries@.filter(|e: (u64, EntityRecord)| e.1.instance_of is None).map_values(
                |e: (u64, EntityRecord)| e.0,
            )
        },
{
    let ghost p = if like {
        |e: (u64, EntityRecord)| e.1.instance_of is Some
    } else {
        |e: (u64, EntityRecord)| e.1.instance_of is None
    };
    let mut out: Vec<u64> = Vec::new();
    let mut i: usize = 0;
    while i < entries.len()
        invariant
            i <= entries@.len(),
            p == (if like {
                |e: (u64, EntityRecord)| e.1.instance_of is Some
            } else {
                |e: (u64, EntityRecord)| e.1.instance_of is None
            }),
            out@ == entries@.take(i as int).filter(p).map_values(|e: (u64, EntityRecord)| e.0),
        decreases entries@.len() - i,
    {
        proof {
            reveal_with_fuel(Seq::filter, 1);
            assert(entries@.take(i + 1).drop_last() =~= entries@.take(i as int));
        }
        let e = entries[i];
        if e.1.instance_of.is_some() == like {
            proof {
                let f = entries@.take(i as int).filter(p);
                assert(f.push(e).map_values(|e: (u64, EntityRecord)| e.0) =~= f.map_values(
                    |e: (u64, EntityRecord)| e.0,
                ).push(e.0));
            }
            out.push(e.0);
        }
        i = i + 1;
    }
    proof {
        assert(entries@.take(i as int) =~= entries@);
    }
    out
}

/// The order in which the renderer syncs entity meshes this frame.
pub fn sync_order<V: Copy>(w: &EntityRegistry<V>) -> (order: Vec<u64>)
    ensures
        order@ == sync_order_spec(w.entries(), w.submit()),
{
    let entries = w.entities();
    let mut own = ids_where(entries, false);
    match w.instance_submit() {
        InstanceSubmit::CpuIndexed => {
            let mut like = ids_where(entries, true);
            own.append(&mut like);
            own
        },
        InstanceSubmit::GpuIndirect => own,
    }
}

/// On the CPU submit path every like-entity is synced after a live prototype
/// that owns its mesh, so the prototype's buffers are there to share.
pub proof fn prototypes_sync_before_their_likes(entries: Seq<(u64, EntityRecord)>, x: int, p: int)
    requires
        0 <= x < entries.len(),
        0 <= p < entries.len(),
        entries[x].1.instance_of == Some(EntityId(entries[p].0)),
        entries[p].1.instance_of is None,
    ensures
        ({
            let order = sync_order_spec(entries, InstanceSubmit::CpuIndexed);
            exists|i: int, j: int|
                0 <= i < j < order.len() && #[trigger] order[i] == entries[p].0 && #[trigger] order[j]
                    == entries[x].0
        }),
{
    let own_p = |e: (u64, EntityRecord)| e.1.instance_of is None;
    let like_p = |e: (u64, EntityRecord)| e.1.instance_of is Some;
    let own_f = entries.filter(own_p);
    let like_f = entries.filter(like_p);
    let own = own_f.map_values(|e: (u64, EntityRecord)| e.0);
    let like = like_f.map_values(|e: (u64, EntityRecord)| e.0);
    let order = sync_order_spec(entries, InstanceSubmit::CpuIndexed);
    assert(order == own + like);
    lemma_filter_contains_iff(entries, own_p, entries[p]);
    lemma_filter_contains_iff(entries, like_p, entries[x]);
    assert(entries.contains(entries[p]));
    assert(entries.contains(entries[x]));
    let i = choose|i: int| 0 <= i < own_f.len() && own_f[i] == entries[p];
    let k = choose|k: int| 0 <= k < like_f.len() && like_f[k] == entries[x];
    let j = own.len() + k;
    assert(order[i] == entries[p].0);
    assert(order[j] == entries[x].0);
}

} // verus!
