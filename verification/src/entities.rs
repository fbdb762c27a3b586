//! Entity bookkeeping of a world: handles issued in spawn order, what each
//! entity is drawn as, linked portal openings, and the streamed chunks that
//! own an entity. Meshes, transforms and instance matrices stay with the
//! caller; the decisions about them are made here.
use vstd::prelude::*;
use crate::filtering::{
    lemma_filter_all, lemma_filter_contains_iff, lemma_filter_drops, lemma_filter_no_duplicates,
    lemma_filter_ordered, lemma_filter_subset,
};
use crate::error::{invalid_value, is_invalid_value, is_resource_limit, EngineError};
use crate::resources::Resources;
use crate::space::ChunkId;
use crate::spaces::{space_known, SpaceId, Spaces, unknown_space_message};
use crate::text::{decimal, push_decimal};
use crate::texture::{MaterialId, TextureId, WaterMaterialId};
use crate::volume::ChunkKey;
use crate::world::{same_material, EntityId, InstanceSubmit, SurfaceMaterialRef};

verus! {

/// What the world knows of one spawned entity besides its mesh and transform.
#[derive(Clone, Copy, Debug)]
pub struct EntityRecord {
    /// Drawn once per placement rather than at one transform.
    pub instanced: bool,
    /// The prototype whose mesh a like-entity draws.
    pub instance_of: Option<EntityId>,
    /// Whether the entity enters the cascaded shadow maps.
    pub casts_shadow: bool,
    /// The space it is drawn in.
    pub space: SpaceId,
    /// The world-space material, if any.
    pub material: Option<SurfaceMaterialRef>,
    /// The albedo texture uploaded for its mesh, if any.
    pub albedo: Option<TextureId>,
    /// How many placements an instanced entity is drawn at.
    pub placements: usize,
    /// Placements its GPU batch slot has room for.
    pub instance_reserve: usize,
    /// Changes whenever its transform or placements change, so the renderer
    /// can skip rewriting an unchanged instance buffer.
    pub xform_rev: u64,
}

/// A linked pair of openings, and how the far side is viewed through it.
#[derive(Clone, Copy, Debug)]
pub struct PortalLink<V> {
    pub a: EntityId,
    pub b: EntityId,
    pub view: V,
}

/// A freshly spawned single-mesh entity.
pub open spec fn plain_record(space: SpaceId) -> EntityRecord {
    EntityRecord {
        instanced: false,
        instance_of: None,
        casts_shadow: true,
        space,
        material: None,
        albedo: None,
        placements: 0,
        instance_reserve: 0,
        xform_rev: 1,
    }
}

/// A freshly spawned instanced entity drawn at, and with room for,
/// `placements` placements.
pub open spec fn instanced_record(space: SpaceId, placements: usize) -> EntityRecord {
    EntityRecord {
        instanced: true,
        placements,
        instance_reserve: placements,
        ..plain_record(space)
    }
}

/// `p` has the entity `id` as one of its two openings.
pub open spec fn involves<V>(p: PortalLink<V>, id: u64) -> bool {
    p.a.0 == id || p.b.0 == id
}

/// `"entity <id>"` followed by `tail`.
pub open spec fn entity_message(id: u64, tail: Seq<char>) -> Seq<char> {
    "entity "@ + decimal(id as nat) + tail
}

/// `<head><n> instances (limit <limit>)`.
pub open spec fn count_message(head: Seq<char>, n: u64, limit: u64) -> Seq<char> {
    head + decimal(n as nat) + " instances (limit "@ + decimal(limit as nat) + ")"@
}

/// An `InvalidValue` naming entity `id`.
fn entity_error(id: u64, tail: &str) -> (e: EngineError)
    ensures
        is_invalid_value(e, entity_message(id, tail@)),
{
    let mut msg = String::from_str("entity ");
    push_decimal(&mut msg, id);
    msg.append(tail);
    proof {
        reveal_strlit("entity ");
    }
    assert(msg@ =~= entity_message(id, tail@));
    EngineError::InvalidValue(msg)
}

/// A `ResourceLimit` for `n` placements over `limit`.
fn count_error(head: &str, n: u64, limit: u64) -> (e: EngineError)
    ensures
        is_resource_limit(e, count_message(head@, n, limit)),
{
    let mut msg = String::from_str(head);
    push_decimal(&mut msg, n);
    msg.append(" instances (limit ");
    push_decimal(&mut msg, limit);
    msg.append(")");
    assert(msg@ =~= count_message(head@, n, limit));
    EngineError::ResourceLimit(msg)
}

/// `p` joins the openings `a` and `b`, in either order.
pub open spec fn joins<V>(p: PortalLink<V>, a: u64, b: u64) -> bool {
    (p.a.0 == a && p.b.0 == b) || (p.a.0 == b && p.b.0 == a)
}

/// Whether `link(a, b, a_spans, b_spans, _)` succeeds on `w`.
pub open spec fn link_allowed<V: Copy>(w: &EntityRegistry<V>, a: u64, b: u64, a_spans: bool, b_spans: bool) -> bool {
    &&& a != b
    &&& w.has(a) && !w.record(a).instanced
    &&& w.has(b) && !w.record(b).instanced
    &&& a_spans && b_spans
    &&& !w.linked(a) && !w.linked(b)
}

/// The error `link(a, b, a_spans, b_spans, _)` gives on `w`: the first check
/// that fails, in the order same opening, `a` live, `a` single-mesh, `b` live,
/// `b` single-mesh, `a` spans, `b` spans, neither linked.
pub open spec fn link_error<V: Copy>(w: &EntityRegistry<V>, a: u64, b: u64, a_spans: bool, b_spans: bool, e: EngineError) -> bool {
    if a == b {
        is_invalid_value(e, "a portal cannot link an opening to itself"@)
    } else if !w.has(a) {
        e is UnknownEntity
    } else if w.record(a).instanced {
        is_invalid_value(e, entity_message(a, " is instanced; openings must be a single mesh"@))
    } else if !w.has(b) {
        e is UnknownEntity
    } else if w.record(b).instanced {
        is_invalid_value(e, entity_message(b, " is instanced; openings must be a single mesh"@))
    } else if !a_spans {
        is_invalid_value(e, entity_message(a, " has no XY extent to use as an opening"@))
    } else if !b_spans {
        is_invalid_value(e, entity_message(b, " has no XY extent to use as an opening"@))
    } else {
        is_invalid_value(e, "opening is already linked"@)
    }
}

/// The default material a streamed layer gets from how much of it is opaque:
/// a fully opaque layer is ground, a fully translucent one a water sheet,
/// and an empty or mixed one gets none.
pub open spec fn chunk_material_spec(
    index_count: nat,
    opaque_index_count: nat,
    terrain: Option<MaterialId>,
    water: Option<WaterMaterialId>,
) -> Option<SurfaceMaterialRef> {
    if index_count == 0 {
        None
    } else if opaque_index_count == index_count {
        match terrain {
            Some(m) => Some(SurfaceMaterialRef::Terrain(m)),
            None => None,
        }
    } else if opaque_index_count == 0 {
        match water {
            Some(m) => Some(SurfaceMaterialRef::Water(m)),
            None => None,
        }
    } else {
        None
    }
}

/// The default material of a streamed layer with `index_count` indices,
/// `opaque_index_count` of them opaque, under the defaults of `res`.
pub fn chunk_material<T, W>(res: &Resources<T, W>, index_count: usize, opaque_index_count: usize) -> (m:
    Option<SurfaceMaterialRef>)
    ensures
        m == chunk_material_spec(
            index_count as nat,
            opaque_index_count as nat,
            res.default_terrain(),
            res.default_water(),
        ),
{
    if index_count == 0 {
        return None;
    }
    if opaque_index_count == index_count {
        return match res.default_terrain_material() {
            Some(m) => Some(SurfaceMaterialRef::Terrain(m)),
            None => None,
        };
    }
    if opaque_index_count == 0 {
        return match res.default_water_material() {
            Some(m) => Some(SurfaceMaterialRef::Water(m)),
            None => None,
        };
    }
    None
}

/// Entries of other entities than `id`.
pub open spec fn other_entry(id: u64) -> spec_fn((u64, EntityRecord)) -> bool {
    |e: (u64, EntityRecord)| e.0 != id
}

/// Portals `id` is not an opening of.
pub open spec fn other_portal<V>(id: u64) -> spec_fn(PortalLink<V>) -> bool {
    |p: PortalLink<V>| !involves(p, id)
}

/// Table rows drawn by other entities than `id`.
pub open spec fn other_row<K>(id: u64) -> spec_fn((K, u64)) -> bool {
    |c: (K, u64)| c.1 != id
}

/// Handles other than `id`.
pub open spec fn other_id(id: u64) -> spec_fn(u64) -> bool {
    |x: u64| x != id
}

/// Whether `x` is one of `ids`.
pub(crate) fn contains_id(ids: &Vec<u64>, x: u64) -> (b: bool)
    ensures
        b == ids@.contains(x),
{
    let mut i: usize = 0;
    while i < ids.len()
        invariant
            i <= ids@.len(),
            forall|k: int| 0 <= k < i ==> ids@[k] != x,
        decreases ids@.len() - i,
    {
        if ids[i] == x {
            assert(ids@[i as int] == x);
            return true;
        }
        i = i + 1;
    }
    false
}

/// Entries whose handle is not doomed.
pub open spec fn keeps_entry(doomed: Seq<u64>) -> spec_fn((u64, EntityRecord)) -> bool {
    |e: (u64, EntityRecord)| !doomed.contains(e.0)
}

/// Portals neither of whose openings is doomed.
pub open spec fn keeps_portal<V>(doomed: Seq<u64>) -> spec_fn(PortalLink<V>) -> bool {
    |p: PortalLink<V>| !doomed.contains(p.a.0) && !doomed.contains(p.b.0)
}

/// Table rows whose entity is not doomed.
pub open spec fn keeps_row<K>(doomed: Seq<u64>) -> spec_fn((K, u64)) -> bool {
    |c: (K, u64)| !doomed.contains(c.1)
}

/// Handles that are not doomed.
pub open spec fn keeps_id(doomed: Seq<u64>) -> spec_fn(u64) -> bool {
    |x: u64| !doomed.contains(x)
}

fn kept_entries(v: &Vec<(u64, EntityRecord)>, doomed: &Vec<u64>) -> (r: Vec<(u64, EntityRecord)>)
    ensures
        r@ == v@.filter(keeps_entry(doomed@)),
{
    let mut r: Vec<(u64, EntityRecord)> = Vec::new();
    let mut i: usize = 0;
    while i < v.len()
        invariant
            i <= v@.len(),
            r@ == v@.take(i as int).filter(keeps_entry(doomed@)),
        decreases v@.len() - i,
    {
        proof {
            reveal_with_fuel(Seq::filter, 1);
            assert(v@.take(i + 1).drop_last() =~= v@.take(i as int));
        }
        let e = v[i];
        if !contains_id(doomed, e.0) {
            r.push(e);
        }
        i = i + 1;
    }
    assert(v@.take(i as int) =~= v@);
    r
}

fn kept_portals<V: Copy>(v: &Vec<PortalLink<V>>, doomed: &Vec<u64>) -> (r: Vec<PortalLink<V>>)
    ensures
        r@ == v@.filter(keeps_portal(doomed@)),
{
    let mut r: Vec<PortalLink<V>> = Vec::new();
    let mut i: usize = 0;
    while i < v.len()
        invariant
            i <= v@.len(),
            r@ == v@.take(i as int).filter(keeps_portal(doomed@)),
        decreases v@.len() - i,
    {
        proof {
            reveal_with_fuel(Seq::filter, 1);
            assert(v@.take(i + 1).drop_last() =~= v@.take(i as int));
        }
        let p = v[i];
        if !contains_id(doomed, p.a.0) && !contains_id(doomed, p.b.0) {
            r.push(p);
        }
        i = i + 1;
    }
    assert(v@.take(i as int) =~= v@);
    r
}

fn kept_rows<K: Copy>(v: &Vec<(K, u64)>, doomed: &Vec<u64>) -> (r: Vec<(K, u64)>)
    ensures
        r@ == v@.filter(keeps_row(doomed@)),
{
    let mut r: Vec<(K, u64)> = Vec::new();
    let mut i: usize = 0;
    while i < v.len()
        invariant
            i <= v@.len(),
            r@ == v@.take(i as int).filter(keeps_row(doomed@)),
        decreases v@.len() - i,
    {
        proof {
            reveal_with_fuel(Seq::filter, 1);
            assert(v@.take(i + 1).drop_last() =~= v@.take(i as int));
        }
        let c = v[i];
        if !contains_id(doomed, c.1) {
            r.push(c);
        }
        i = i + 1;
    }
    assert(v@.take(i as int) =~= v@);
    r
}

fn kept_ids(v: &Vec<u64>, doomed: &Vec<u64>) -> (r: Vec<u64>)
    ensures
        r@ == v@.filter(keeps_id(doomed@)),
{
    let mut r: Vec<u64> = Vec::new();
    let mut i: usize = 0;
    while i < v.len()
        invariant
            i <= v@.len(),
            r@ == v@.take(i as int).filter(keeps_id(doomed@)),
        decreases v@.len() - i,
    {
        proof {
            reveal_with_fuel(Seq::filter, 1);
            assert(v@.take(i + 1).drop_last() =~= v@.take(i as int));
        }
        let x = v[i];
        if !contains_id(doomed, x) {
            r.push(x);
        }
        i = i + 1;
    }
    assert(v@.take(i as int) =~= v@);
    r
}

/// The entities of one world, with the portal links and streamed chunks that
/// refer to them.
pub struct EntityRegistry<V> {
    next_id: u64,
    entries: Vec<(u64, EntityRecord)>,
    portals: Vec<PortalLink<V>>,
    chunks: Vec<(ChunkKey, u64)>,
    anchored_chunks: Vec<(ChunkId, u64)>,
    anchored: Vec<u64>,
    render_epoch: u64,
    submit: InstanceSubmit,
}

impl<V: Copy> EntityRegistry<V> {
    /// Live entities with their records, in spawn order.
    pub closed spec fn entries(&self) -> Seq<(u64, EntityRecord)> {
        self.entries@
    }

    /// Linked openings, in linking order.
    pub closed spec fn links(&self) -> Seq<PortalLink<V>> {
        self.portals@
    }

    /// Streamed volume chunks and the entity drawing each.
    pub closed spec fn chunks(&self) -> Seq<(ChunkKey, u64)> {
        self.chunks@
    }

    /// Anchored streamed chunks and the entity drawing each.
    pub closed spec fn anchored_chunks(&self) -> Seq<(ChunkId, u64)> {
        self.anchored_chunks@
    }

    /// Entities placed by a global anchor rather than in render space.
    pub closed spec fn anchored(&self) -> Seq<u64> {
        self.anchored@
    }

    /// The handle the next spawn gets.
    pub closed spec fn next_id(&self) -> u64 {
        self.next_id
    }

    /// Changes whenever static render state could need a GPU resync.
    pub closed spec fn epoch(&self) -> u64 {
        self.render_epoch
    }

    /// How instanced meshes reach the GPU.
    pub closed spec fn submit(&self) -> InstanceSubmit {
        self.submit
    }

    /// `id` is a live entity.
    pub open spec fn has(&self, id: u64) -> bool {
        exists|i: int| 0 <= i < self.entries().len() && #[trigger] self.entries()[i].0 == id
    }

    /// Where the live entity `id` stands in spawn order.
    pub open spec fn slot(&self, id: u64) -> int {
        choose|i: int| 0 <= i < self.entries().len() && #[trigger] self.entries()[i].0 == id
    }

    /// The record of the live entity `id`.
    pub open spec fn record(&self, id: u64) -> EntityRecord {
        self.entries()[self.slot(id)].1
    }

    /// `id` is one of the openings of a linked portal.
    pub open spec fn linked(&self, id: u64) -> bool {
        exists|i: int| 0 <= i < self.links().len() && involves(#[trigger] self.links()[i], id)
    }

    /// `self` is `before`, or `before` with `gone` despawned.
    pub open spec fn cleared(&self, before: &Self, gone: Option<u64>) -> bool {
        match gone {
            Some(x) => self.despawned(before, x),
            None => *self == *before,
        }
    }

    /// The entity drawing the streamed chunk `key`, if any.
    pub open spec fn chunk_row(&self, key: ChunkKey) -> Option<u64> {
        if exists|i: int| 0 <= i < self.chunks().len() && #[trigger] self.chunks()[i].0 == key {
            Some(
                self.chunks()[choose|i: int|
                    0 <= i < self.chunks().len() && #[trigger] self.chunks()[i].0 == key].1,
            )
        } else {
            None
        }
    }

    /// The entity drawing the anchored chunk `id`, if any.
    pub open spec fn anchored_row(&self, id: ChunkId) -> Option<u64> {
        if exists|i: int|
            0 <= i < self.anchored_chunks().len() && #[trigger] self.anchored_chunks()[i].0 == id {
            Some(
                self.anchored_chunks()[choose|i: int|
                    0 <= i < self.anchored_chunks().len() && #[trigger] self.anchored_chunks()[i].0
                        == id].1,
            )
        } else {
            None
        }
    }

    /// `self` is `mid` with entity `id` spawned from `rec` and recorded as
    /// drawing the chunk row `row`.
    pub open spec fn spawned_row(&self, mid: &Self, id: u64, rec: EntityRecord) -> bool {
        &&& id == mid.next_id()
        &&& self.submit() == mid.submit()
        &&& self.entries() == mid.entries().push((id, rec))
        &&& self.links() == mid.links()
        &&& self.anchored() == mid.anchored()
        &&& self.next_id() == mid.next_id() + 1
        &&& self.epoch() == mid.epoch() + 1
    }

    /// How many times a rebase moves entity `id`: once if it is anchored by
    /// itself and once if it draws an anchored chunk.
    pub open spec fn rebase_moves(&self, id: u64) -> u64 {
        ((if self.anchored().contains(id) { 1int } else { 0int }) + (if exists|i: int|
            0 <= i < self.anchored_chunks().len() && #[trigger] self.anchored_chunks()[i].1 == id {
            1int
        } else {
            0int
        })) as u64
    }

    /// `self` is `before` with entity `id` despawned: its record, the
    /// portals it opens, and the table rows it draws are gone, and the epoch
    /// moved on if it was live.
    pub open spec fn despawned(&self, before: &Self, id: u64) -> bool {
        &&& self.submit() == before.submit()
        &&& self.entries() == before.entries().filter(other_entry(id))
        &&& self.links() == before.links().filter(other_portal(id))
        &&& self.chunks() == before.chunks().filter(other_row(id))
        &&& self.anchored_chunks() == before.anchored_chunks().filter(other_row(id))
        &&& self.anchored() == before.anchored().filter(other_id(id))
        &&& self.next_id() == before.next_id()
        &&& self.epoch() == before.epoch() + if before.has(id) {
            1int
        } else {
            0int
        }
    }

    /// The entries with the record of the live entity `id` replaced.
    pub open spec fn with_record(&self, id: u64, rec: EntityRecord) -> Seq<(u64, EntityRecord)> {
        self.entries().update(self.slot(id), (id, rec))
    }

    /// `self` is `before` with a new instanced entity `id` spawned in `space`
    /// at `placements` placements.
    pub open spec fn spawned_instanced(&self, before: &Self, space: SpaceId, placements: usize, id: EntityId) -> bool {
        &&& id.0 == before.next_id()
        &&& self.entries() == before.entries().push((id.0, instanced_record(space, placements)))
        &&& self.next_id() == before.next_id() + 1
        &&& self.epoch() == before.epoch() + 1
        &&& self.links() == before.links()
        &&& self.chunks() == before.chunks()
        &&& self.anchored_chunks() == before.anchored_chunks()
        &&& self.anchored() == before.anchored()
        &&& self.submit() == before.submit()
    }

    /// `self` is `before` with a like-entity `id` of `prototype` spawned in
    /// `space`: it draws the prototype's mesh, albedo, material and shadow
    /// choice, with no placements yet.
    pub open spec fn spawned_like(&self, before: &Self, prototype: EntityId, space: SpaceId, id: EntityId) -> bool {
        let src = before.record(prototype.0);
        &&& id.0 == before.next_id()
        &&& self.entries() == before.entries().push(
            (
                id.0,
                EntityRecord {
                    instance_of: Some(prototype),
                    material: src.material,
                    albedo: src.albedo,
                    casts_shadow: src.casts_shadow,
                    ..instanced_record(space, 0)
                },
            ),
        )
        &&& self.next_id() == before.next_id() + 1
        &&& self.epoch() == before.epoch() + 1
        &&& self.links() == before.links()
        &&& self.chunks() == before.chunks()
        &&& self.anchored_chunks() == before.anchored_chunks()
        &&& self.anchored() == before.anchored()
    }

    /// `self` is `before` with the live entity `id` entering the shadow maps
    /// exactly when `casts`.
    pub open spec fn shadow_choice_set(&self, before: &Self, id: EntityId, casts: bool) -> bool {
        let rec = before.record(id.0);
        &&& self.entries() == before.with_record(id.0, EntityRecord { casts_shadow: casts, ..rec })
        &&& self.same_tables(before)
        &&& self.epoch() == before.epoch() + if rec.casts_shadow == casts {
            0int
        } else {
            1int
        }
    }

    /// Same portals, chunk tables, anchors and next handle as `other`.
    pub open spec fn same_tables(&self, other: &Self) -> bool {
        &&& self.submit() == other.submit()
        &&& self.links() == other.links()
        &&& self.chunks() == other.chunks()
        &&& self.anchored_chunks() == other.anchored_chunks()
        &&& self.anchored() == other.anchored()
        &&& self.next_id() == other.next_id()
    }

    /// Handles count up from 1 in spawn order.
    pub open spec fn ids_wf(&self) -> bool {
        let e = self.entries();
        &&& self.next_id() >= 1
        &&& forall|i: int| 0 <= i < e.len() ==> 1 <= #[trigger] e[i].0 < self.next_id()
        &&& forall|i: int, j: int| 0 <= i < j < e.len() ==> #[trigger] e[i].0 < #[trigger] e[j].0
    }

    /// Every portal joins two live, distinct openings and no opening is in
    /// two portals; every chunk table names each key once and only live
    /// entities, and no entity draws two anchored chunks.
    pub open spec fn tables_wf(&self) -> bool {
        let p = self.links();
        let c = self.chunks();
        let a = self.anchored_chunks();
        let n = self.anchored();
        &&& forall|i: int|
            0 <= i < p.len() ==> #[trigger] p[i].a != p[i].b && self.has(p[i].a.0) && self.has(
                p[i].b.0,
            )
        &&& forall|i: int, j: int|
            0 <= i < j < p.len() ==> !involves(#[trigger] p[j], p[i].a.0) && !involves(
                p[j],
                #[trigger] p[i].b.0,
            )
        &&& forall|i: int| 0 <= i < c.len() ==> self.has(#[trigger] c[i].1)
        &&& forall|i: int, j: int| 0 <= i < j < c.len() ==> #[trigger] c[i].0 != #[trigger] c[j].0
        &&& forall|i: int| 0 <= i < a.len() ==> self.has(#[trigger] a[i].1)
        &&& forall|i: int, j: int|
            0 <= i < j < a.len() ==> #[trigger] a[i].0 != #[trigger] a[j].0 && a[i].1 != a[j].1
        &&& forall|i: int| 0 <= i < n.len() ==> self.has(#[trigger] n[i])
        &&& n.no_duplicates()
    }

    pub open spec fn wf(&self) -> bool {
        self.ids_wf() && self.tables_wf()
    }

    /// The tables stay well formed when they are unchanged and no live
    /// entity went away.
    proof fn lemma_tables_kept(a: &Self, b: &Self)
        requires
            a.tables_wf(),
            b.links() == a.links(),
            b.chunks() == a.chunks(),
            b.anchored_chunks() == a.anchored_chunks(),
            b.anchored() == a.anchored(),
            forall|k: u64| a.has(k) ==> #[trigger] b.has(k),
        ensures
            b.tables_wf(),
    {
        let p = b.links();
        assert forall|i: int| 0 <= i < p.len() implies #[trigger] p[i].a != p[i].b && b.has(p[i].a.0) && b.has(p[i].b.0) by {
            assert(a.has(p[i].a.0));
            assert(a.has(p[i].b.0));
        }
        assert forall|i: int, j: int| 0 <= i < j < p.len() implies !involves(#[trigger] p[j], p[i].a.0) && !involves(p[j], #[trigger] p[i].b.0) by {
            assert(!involves(a.links()[j], a.links()[i].a.0));
        }
        let c = b.chunks();
        assert forall|i: int| 0 <= i < c.len() implies b.has(#[trigger] c[i].1) by {
            assert(a.has(a.chunks()[i].1));
        }
        assert forall|i: int, j: int| 0 <= i < j < c.len() implies #[trigger] c[i].0 != #[trigger] c[j].0 by {
            assert(a.chunks()[i].0 != a.chunks()[j].0);
        }
        let ac = b.anchored_chunks();
        assert forall|i: int| 0 <= i < ac.len() implies b.has(#[trigger] ac[i].1) by {
            assert(a.has(a.anchored_chunks()[i].1));
        }
        assert forall|i: int, j: int| 0 <= i < j < ac.len() implies #[trigger] ac[i].0 != #[trigger] ac[j].0 && ac[i].1 != ac[j].1 by {
            assert(a.anchored_chunks()[i].0 != a.anchored_chunks()[j].0);
        }
        let n = b.anchored();
        assert forall|i: int| 0 <= i < n.len() implies b.has(#[trigger] n[i]) by {
            assert(a.has(a.anchored()[i]));
        }
    }

    /// Two registries with the same entries have the same live entities.
    proof fn lemma_same_entries(a: &Self, b: &Self)
        requires
            b.entries() == a.entries(),
        ensures
            forall|k: u64| #[trigger] b.has(k) == a.has(k),
            forall|k: u64| a.has(k) ==> b.slot(k) == a.slot(k),
    {
        assert forall|k: u64| #[trigger] b.has(k) == a.has(k) by {
            if a.has(k) {
                let i = a.slot(k);
                assert(b.entries()[i].0 == k);
            }
            if b.has(k) {
                let i = b.slot(k);
                assert(a.entries()[i].0 == k);
            }
        }
    }

    /// Rewriting records in place keeps the handles and who is live.
    proof fn lemma_same_ids(a: &Self, b: &Self)
        requires
            a.ids_wf(),
            b.next_id() == a.next_id(),
            b.entries().len() == a.entries().len(),
            forall|i: int| 0 <= i < a.entries().len() ==> #[trigger] b.entries()[i].0 == a.entries()[i].0,
        ensures
            b.ids_wf(),
            forall|k: u64| #[trigger] b.has(k) == a.has(k),
            forall|k: u64| a.has(k) ==> b.slot(k) == a.slot(k),
    {
        let e = b.entries();
        assert forall|i: int| 0 <= i < e.len() implies 1 <= #[trigger] e[i].0 < b.next_id() by {
            assert(a.entries()[i].0 == e[i].0);
        }
        assert forall|i: int, j: int| 0 <= i < j < e.len() implies #[trigger] e[i].0 < #[trigger] e[j].0 by {
            assert(a.entries()[i].0 == e[i].0);
            assert(a.entries()[j].0 == e[j].0);
        }
        assert forall|k: u64| #[trigger] b.has(k) == a.has(k) by {
            if b.has(k) {
                let i = choose|i: int| 0 <= i < e.len() && #[trigger] e[i].0 == k;
                assert(a.entries()[i].0 == k);
            }
            if a.has(k) {
                let i = choose|i: int| 0 <= i < a.entries().len() && #[trigger] a.entries()[i].0 == k;
                assert(e[i].0 == k);
            }
        }
        assert forall|k: u64| a.has(k) implies b.slot(k) == a.slot(k) by {
            let s = a.slot(k);
            let t = b.slot(k);
            assert(a.entries()[s].0 == k);
            assert(b.has(k));
            assert(e[t].0 == k);
            assert(a.entries()[t].0 == k);
            if s < t {
                assert(a.entries()[s].0 < a.entries()[t].0);
            } else if t < s {
                assert(a.entries()[t].0 < a.entries()[s].0);
            }
        }
    }

    /// An empty world: no entities, portals or chunks.
    pub fn new() -> (r: Self)
        ensures
            r.wf(),
            r.entries() == Seq::<(u64, EntityRecord)>::empty(),
            r.links() == Seq::<PortalLink<V>>::empty(),
            r.chunks() == Seq::<(ChunkKey, u64)>::empty(),
            r.anchored_chunks() == Seq::<(ChunkId, u64)>::empty(),
            r.anchored() == Seq::<u64>::empty(),
            r.next_id() == 1,
            r.epoch() == 1,
            r.submit() == InstanceSubmit::CpuIndexed,
    {
        EntityRegistry {
            next_id: 1,
            entries: Vec::new(),
            portals: Vec::new(),
            chunks: Vec::new(),
            anchored_chunks: Vec::new(),
            anchored: Vec::new(),
            render_epoch: 1,
            submit: InstanceSubmit::CpuIndexed,
        }
    }

    /// The render epoch.
    pub fn render_epoch(&self) -> (e: u64)
        ensures
            e == self.epoch(),
    {
        self.render_epoch
    }

    /// How instanced meshes reach the GPU; the CPU path until changed.
    pub fn instance_submit(&self) -> (s: InstanceSubmit)
        ensures
            s == self.submit(),
    {
        self.submit
    }

    /// Choose the instanced submit path. Both are first-class; neither falls
    /// back. A change moves the render epoch on.
    pub fn set_instance_submit(&mut self, submit: InstanceSubmit)
        requires
            old(self).wf(),
            old(self).epoch() < u64::MAX,
        ensures
            final(self).wf(),
            final(self).submit() == submit,
            final(self).entries() == old(self).entries(),
            final(self).links() == old(self).links(),
            final(self).chunks() == old(self).chunks(),
            final(self).anchored_chunks() == old(self).anchored_chunks(),
            final(self).anchored() == old(self).anchored(),
            final(self).next_id() == old(self).next_id(),
            final(self).epoch() == old(self).epoch() + if old(self).submit() == submit {
                0int
            } else {
                1int
            },
    {
        let same = match (self.submit, submit) {
            (InstanceSubmit::CpuIndexed, InstanceSubmit::CpuIndexed) => true,
            (InstanceSubmit::GpuIndirect, InstanceSubmit::GpuIndirect) => true,
            _ => false,
        };
        if same {
            return;
        }
        self.submit = submit;
        self.render_epoch = self.render_epoch + 1;
        proof {
            Self::lemma_same_ids(old(self), self);
            Self::lemma_tables_kept(old(self), self);
        }
    }

    /// The handle the next spawn will get.
    pub fn next_handle(&self) -> (n: u64)
        ensures
            n == self.next_id(),
    {
        self.next_id
    }

    /// Number of live entities.
    pub fn entity_count(&self) -> (n: usize)
        ensures
            n == self.entries().len(),
    {
        self.entries.len()
    }

    /// The live entities with their records, in spawn order.
    pub fn entities(&self) -> (e: &Vec<(u64, EntityRecord)>)
        ensures
            e@ == self.entries(),
    {
        &self.entries
    }

    /// Handles of the live entities, in spawn order.
    pub fn order(&self) -> (ids: Vec<EntityId>)
        ensures
            ids@.len() == self.entries().len(),
            forall|i: int| 0 <= i < ids@.len() ==> #[trigger] ids@[i].0 == self.entries()[i].0,
    {
        let mut ids: Vec<EntityId> = Vec::new();
        let mut i: usize = 0;
        while i < self.entries.len()
            invariant
                i <= self.entries@.len(),
                ids@.len() == i,
                forall|k: int| 0 <= k < i ==> #[trigger] ids@[k].0 == self.entries@[k].0,
            decreases self.entries@.len() - i,
        {
            ids.push(EntityId(self.entries[i].0));
            i = i + 1;
        }
        ids
    }

    /// The position of `id` in spawn order, if it is live.
    fn find(&self, id: u64) -> (r: Option<usize>)
        requires
            self.wf(),
        ensures
            match r {
                Some(k) => k < self.entries().len() && self.entries()[k as int].0 == id && self.has(id)
                    && self.slot(id) == k,
                None => !self.has(id),
            },
    {
        let mut i: usize = 0;
        while i < self.entries.len()
            invariant
                self.wf(),
                i <= self.entries@.len(),
                forall|k: int| 0 <= k < i ==> #[trigger] self.entries@[k].0 != id,
            decreases self.entries@.len() - i,
        {
            if self.entries[i].0 == id {
                proof {
                    let s = self.slot(id);
                    assert(self.entries()[i as int].0 == id);
                    assert(self.has(id));
                    if s < i {
                        assert(self.entries()[s].0 < self.entries()[i as int].0);
                    } else if s > i {
                        assert(self.entries()[i as int].0 < self.entries()[s].0);
                    }
                }
                return Some(i);
            }
            i = i + 1;
        }
        None
    }

    /// Whether `id` is a live entity.
    pub fn contains_entity(&self, id: EntityId) -> (b: bool)
        requires
            self.wf(),
        ensures
            b == self.has(id.0),
    {
        self.find(id.0).is_some()
    }

    /// The record of a live entity.
    pub fn entity(&self, id: EntityId) -> (r: Result<EntityRecord, EngineError>)
        requires
            self.wf(),
        ensures
            r is Ok <==> self.has(id.0),
            r matches Ok(rec) ==> rec == self.record(id.0),
            r matches Err(e) ==> e is UnknownEntity,
    {
        match self.find(id.0) {
            Some(k) => Ok(self.entries[k].1),
            None => Err(EngineError::UnknownEntity),
        }
    }

    /// Append a record under the next handle.
    fn push_entity(&mut self, rec: EntityRecord) -> (id: EntityId)
        requires
            old(self).wf(),
            old(self).next_id() < u64::MAX,
            old(self).epoch() < u64::MAX,
        ensures
            final(self).wf(),
            id.0 == old(self).next_id(),
            !old(self).has(id.0),
            final(self).entries() == old(self).entries().push((id.0, rec)),
            final(self).next_id() == old(self).next_id() + 1,
            final(self).epoch() == old(self).epoch() + 1,
            final(self).links() == old(self).links(),
            final(self).chunks() == old(self).chunks(),
            final(self).anchored_chunks() == old(self).anchored_chunks(),
            final(self).anchored() == old(self).anchored(),
            final(self).submit() == old(self).submit(),
            final(self).has(id.0),
            final(self).record(id.0) == rec,
            forall|k: u64| #[trigger] final(self).has(k) <==> old(self).has(k) || k == id.0,
    {
        let id = self.next_id;
        let ghost before = self.entries@;
        assert(before == old(self).entries());
        self.next_id = id + 1;
        self.entries.push((id, rec));
        self.render_epoch = self.render_epoch + 1;
        proof {
            let e = self.entries@;
            assert(e[before.len() as int].0 == id);
            assert(!old(self).has(id as u64)) by {
                if old(self).has(id as u64) {
                    let i = choose|i: int| 0 <= i < before.len() && #[trigger] before[i].0 == id;
                    assert(before[i].0 < id);
                }
            }
            assert forall|k: u64| self.has(k) <==> old(self).has(k) || k == id by {
                if self.has(k) {
                    let i = choose|i: int| 0 <= i < e.len() && #[trigger] e[i].0 == k;
                    if i < before.len() {
                        assert(before[i].0 == k);
                    }
                }
                if old(self).has(k) {
                    let i = choose|i: int| 0 <= i < before.len() && #[trigger] before[i].0 == k;
                    assert(e[i].0 == k);
                }
            }
            let s = self.slot(id);
            if s < before.len() {
                assert(e[s].0 == before[s].0);
                assert(before[s].0 < id);
            }
            assert(self.has(id));
            Self::lemma_tables_kept(old(self), self);
        }
        EntityId(id)
    }

    /// Replace the record at position `k` in spawn order.
    fn set_record(&mut self, k: usize, rec: EntityRecord)
        requires
            old(self).wf(),
            k < old(self).entries().len(),
        ensures
            final(self).wf(),
            final(self).entries() == old(self).entries().update(
                k as int,
                (old(self).entries()[k as int].0, rec),
            ),
            final(self).next_id() == old(self).next_id(),
            final(self).epoch() == old(self).epoch(),
            final(self).links() == old(self).links(),
            final(self).chunks() == old(self).chunks(),
            final(self).anchored_chunks() == old(self).anchored_chunks(),
            final(self).anchored() == old(self).anchored(),
            final(self).submit() == old(self).submit(),
            forall|x: u64| #[trigger] final(self).has(x) == old(self).has(x),
            forall|x: u64| old(self).has(x) ==> final(self).slot(x) == old(self).slot(x),
    {
        let id = self.entries[k].0;
        self.entries.set(k, (id, rec));
        proof {
            Self::lemma_same_ids(old(self), self);
            Self::lemma_tables_kept(old(self), self);
        }
    }

    fn bump(&mut self)
        requires
            old(self).wf(),
            old(self).epoch() < u64::MAX,
        ensures
            final(self).wf(),
            final(self).epoch() == old(self).epoch() + 1,
            final(self).entries() == old(self).entries(),
            final(self).next_id() == old(self).next_id(),
            final(self).links() == old(self).links(),
            final(self).chunks() == old(self).chunks(),
            final(self).anchored_chunks() == old(self).anchored_chunks(),
            final(self).anchored() == old(self).anchored(),
            final(self).submit() == old(self).submit(),
    {
        self.render_epoch = self.render_epoch + 1;
        proof {
            Self::lemma_same_ids(old(self), self);
            Self::lemma_tables_kept(old(self), self);
        }
    }

    /// Drop every doomed entity, with the portals and table rows naming it.
    fn remove_entities(&mut self, doomed: &Vec<u64>)
        requires
            old(self).wf(),
        ensures
            final(self).wf(),
            final(self).entries() == old(self).entries().filter(keeps_entry(doomed@)),
            final(self).links() == old(self).links().filter(keeps_portal(doomed@)),
            final(self).chunks() == old(self).chunks().filter(keeps_row(doomed@)),
            final(self).anchored_chunks() == old(self).anchored_chunks().filter(
                keeps_row(doomed@),
            ),
            final(self).anchored() == old(self).anchored().filter(keeps_id(doomed@)),
            final(self).submit() == old(self).submit(),
            final(self).next_id() == old(self).next_id(),
            final(self).epoch() == old(self).epoch(),
            forall|k: u64| #[trigger] final(self).has(k) == (old(self).has(k) && !doomed@.contains(k)),
    {
        self.entries = kept_entries(&self.entries, doomed);
        self.portals = kept_portals(&self.portals, doomed);
        self.chunks = kept_rows(&self.chunks, doomed);
        self.anchored_chunks = kept_rows(&self.anchored_chunks, doomed);
        self.anchored = kept_ids(&self.anchored, doomed);
        proof {
            let a = old(self);
            let d = doomed@;
            let e0 = a.entries();
            let e = self.entries();
            lemma_filter_subset(e0, keeps_entry(d));
            lemma_filter_ordered(e0, keeps_entry(d), |x: (u64, EntityRecord), y: (u64, EntityRecord)| x.0 < y.0);
            assert forall|i: int| 0 <= i < e.len() implies 1 <= #[trigger] e[i].0 < self.next_id() by {
                assert(e0.contains(e[i]));
            }
            assert forall|i: int, j: int| 0 <= i < j < e.len() implies #[trigger] e[i].0 < #[trigger] e[j].0 by {
                let r = |x: (u64, EntityRecord), y: (u64, EntityRecord)| x.0 < y.0;
                assert(r(e[i], e[j]));
            }
            assert forall|k: u64| #[trigger] self.has(k) == (a.has(k) && !d.contains(k)) by {
                if self.has(k) {
                    let i = choose|i: int| 0 <= i < e.len() && #[trigger] e[i].0 == k;
                    lemma_filter_contains_iff(e0, keeps_entry(d), e[i]);
                    let j = choose|j: int| 0 <= j < e0.len() && e0[j] == e[i];
                    assert(e0[j].0 == k);
                }
                if a.has(k) && !d.contains(k) {
                    let j = choose|j: int| 0 <= j < e0.len() && #[trigger] e0[j].0 == k;
                    lemma_filter_contains_iff(e0, keeps_entry(d), e0[j]);
                    let i = choose|i: int| 0 <= i < e.len() && e[i] == e0[j];
                    assert(e[i].0 == k);
                }
            }
            let p0 = a.links();
            let p = self.links();
            lemma_filter_subset(p0, keeps_portal(d));
            assert forall|i: int| 0 <= i < p.len() implies #[trigger] p[i].a != p[i].b && self.has(p[i].a.0) && self.has(p[i].b.0) by {
                lemma_filter_contains_iff(p0, keeps_portal(d), p[i]);
                let j = choose|j: int| 0 <= j < p0.len() && p0[j] == p[i];
                assert(a.has(p0[j].a.0));
                assert(a.has(p0[j].b.0));
                assert(self.has(p[i].a.0));
                assert(self.has(p[i].b.0));
            }
            let rp = |x: PortalLink<V>, y: PortalLink<V>| !involves(y, x.a.0) && !involves(y, x.b.0);
            assert forall|i: int, j: int| 0 <= i < j < p0.len() implies #[trigger] rp(p0[i], p0[j]) by {
                assert(!involves(p0[j], p0[i].a.0));
            }
            lemma_filter_ordered(p0, keeps_portal(d), rp);
            assert forall|i: int, j: int| 0 <= i < j < p.len() implies !involves(#[trigger] p[j], p[i].a.0) && !involves(p[j], #[trigger] p[i].b.0) by {
                assert(rp(p[i], p[j]));
            }
            let c0 = a.chunks();
            let c = self.chunks();
            assert forall|i: int| 0 <= i < c.len() implies self.has(#[trigger] c[i].1) by {
                lemma_filter_contains_iff(c0, keeps_row(d), c[i]);
                let j = choose|j: int| 0 <= j < c0.len() && c0[j] == c[i];
                assert(a.has(c0[j].1));
            }
            let rc = |x: (ChunkKey, u64), y: (ChunkKey, u64)| x.0 != y.0;
            assert forall|i: int, j: int| 0 <= i < j < c0.len() implies #[trigger] rc(c0[i], c0[j]) by {
                assert(c0[i].0 != c0[j].0);
            }
            lemma_filter_ordered(c0, keeps_row(d), rc);
            assert forall|i: int, j: int| 0 <= i < j < c.len() implies #[trigger] c[i].0 != #[trigger] c[j].0 by {
                assert(rc(c[i], c[j]));
            }
            let ac0 = a.anchored_chunks();
            let ac = self.anchored_chunks();
            assert forall|i: int| 0 <= i < ac.len() implies self.has(#[trigger] ac[i].1) by {
                lemma_filter_contains_iff(ac0, keeps_row(d), ac[i]);
                let j = choose|j: int| 0 <= j < ac0.len() && ac0[j] == ac[i];
                assert(a.has(ac0[j].1));
            }
            let ra = |x: (ChunkId, u64), y: (ChunkId, u64)| x.0 != y.0 && x.1 != y.1;
            assert forall|i: int, j: int| 0 <= i < j < ac0.len() implies #[trigger] ra(ac0[i], ac0[j]) by {
                assert(ac0[i].0 != ac0[j].0);
            }
            lemma_filter_ordered(ac0, keeps_row(d), ra);
            assert forall|i: int, j: int| 0 <= i < j < ac.len() implies #[trigger] ac[i].0 != #[trigger] ac[j].0 && ac[i].1 != ac[j].1 by {
                assert(ra(ac[i], ac[j]));
            }
            let n0 = a.anchored();
            let n = self.anchored();
            assert forall|i: int| 0 <= i < n.len() implies self.has(#[trigger] n[i]) by {
                lemma_filter_contains_iff(n0, keeps_id(d), n[i]);
                let j = choose|j: int| 0 <= j < n0.len() && n0[j] == n[i];
                assert(a.has(n0[j]));
            }
            lemma_filter_no_duplicates(n0, keeps_id(d));
        }
    }

    /// Whether `id` is one of the openings of a linked portal.
    pub fn is_portal_surface(&self, id: EntityId) -> (b: bool)
        ensures
            b == self.linked(id.0),
    {
        let mut i: usize = 0;
        while i < self.portals.len()
            invariant
                i <= self.portals@.len(),
                forall|k: int| 0 <= k < i ==> !involves(#[trigger] self.portals@[k], id.0),
            decreases self.portals@.len() - i,
        {
            if self.portals[i].a.0 == id.0 || self.portals[i].b.0 == id.0 {
                assert(involves(self.links()[i as int], id.0));
                return true;
            }
            i = i + 1;
        }
        false
    }

    /// The linked openings, in linking order.
    pub fn portals(&self) -> (p: &Vec<PortalLink<V>>)
        ensures
            p@ == self.links(),
    {
        &self.portals
    }

    /// Despawn an entity: its portals are unlinked and the chunk rows it
    /// draws are forgotten. An unknown handle changes nothing.
    pub fn despawn(&mut self, id: EntityId)
        requires
            old(self).wf(),
            old(self).epoch() < u64::MAX,
        ensures
            final(self).wf(),
            final(self).despawned(old(self), id.0),
            !final(self).has(id.0),
            !final(self).linked(id.0),
    {
        let removed = self.find(id.0).is_some();
        let linked = self.is_portal_surface(id);
        let doomed = vec![id.0];
        proof {
            assert(doomed@ =~= seq![id.0]);
            assert forall|x: u64| #[trigger] doomed@.contains(x) == (x == id.0) by {
                if x == id.0 {
                    assert(doomed@[0] == x);
                }
            }
            assert(keeps_entry(doomed@) =~= other_entry(id.0));
            assert(keeps_portal::<V>(doomed@) =~= other_portal(id.0));
            assert(keeps_row::<ChunkKey>(doomed@) =~= other_row(id.0));
            assert(keeps_row::<ChunkId>(doomed@) =~= other_row(id.0));
            assert(keeps_id(doomed@) =~= other_id(id.0));
            if linked {
                let i = choose|i: int| 0 <= i < old(self).links().len() && involves(#[trigger] old(self).links()[i], id.0);
                assert(old(self).has(id.0));
            }
        }
        self.remove_entities(&doomed);
        if removed || linked {
            self.bump();
        }
        proof {
            assert(doomed@.contains(id.0));
            if self.linked(id.0) {
                let i = choose|i: int| 0 <= i < self.links().len() && involves(#[trigger] self.links()[i], id.0);
                assert(self.has(self.links()[i].a.0));
                assert(self.has(self.links()[i].b.0));
            }
        }
    }

    /// Link two openings into one hole seen through `view`. Each must be a
    /// live single-mesh entity whose mesh spans some width and height in its
    /// local XY plane (`a_spans`, `b_spans`), and neither may be linked yet.
    pub fn link(&mut self, a: EntityId, b: EntityId, a_spans: bool, b_spans: bool, view: V) -> (r:
        Result<(), EngineError>)
        requires
            old(self).wf(),
            old(self).epoch() < u64::MAX,
        ensures
            final(self).wf(),
            r is Ok <==> link_allowed(old(self), a.0, b.0, a_spans, b_spans),
            r matches Err(e) ==> link_error(old(self), a.0, b.0, a_spans, b_spans, e),
            r is Err ==> *final(self) == *old(self),
            r is Ok ==> final(self).entries() == old(self).entries() && final(self).links()
                == old(self).links().push(PortalLink { a, b, view }) && final(self).chunks()
                == old(self).chunks() && final(self).anchored_chunks() == old(self).anchored_chunks()
                && final(self).anchored() == old(self).anchored() && final(self).next_id()
                == old(self).next_id() && final(self).epoch() == old(self).epoch() + 1,
    {
        if a.0 == b.0 {
            proof {
                reveal_strlit("a portal cannot link an opening to itself");
            }
            return Err(invalid_value("a portal cannot link an opening to itself"));
        }
        match self.opening(a) {
            Ok(()) => {},
            Err(e) => return Err(e),
        }
        match self.opening(b) {
            Ok(()) => {},
            Err(e) => return Err(e),
        }
        if !a_spans {
            proof {
                reveal_strlit(" has no XY extent to use as an opening");
            }
            return Err(entity_error(a.0, " has no XY extent to use as an opening"));
        }
        if !b_spans {
            proof {
                reveal_strlit(" has no XY extent to use as an opening");
            }
            return Err(entity_error(b.0, " has no XY extent to use as an opening"));
        }
        if self.is_portal_surface(a) || self.is_portal_surface(b) {
            proof {
                reveal_strlit("opening is already linked");
            }
            return Err(invalid_value("opening is already linked"));
        }
        self.portals.push(PortalLink { a, b, view });
        proof {
            let p = self.links();
            let p0 = old(self).links();
            assert(p =~= p0.push(PortalLink { a, b, view }));
            assert(old(self).has(a.0));
            assert(old(self).has(b.0));
            let ka = old(self).slot(a.0);
            let kb = old(self).slot(b.0);
            assert(self.entries()[ka].0 == a.0);
            assert(self.entries()[kb].0 == b.0);
            assert forall|i: int| 0 <= i < p.len() implies #[trigger] p[i].a != p[i].b && self.has(p[i].a.0) && self.has(p[i].b.0) by {
                if i < p0.len() {
                    assert(p[i] == p0[i]);
                    let x = old(self).slot(p0[i].a.0);
                    let y = old(self).slot(p0[i].b.0);
                    assert(self.entries()[x].0 == p0[i].a.0);
                    assert(self.entries()[y].0 == p0[i].b.0);
                } else {
                    assert(p[i] == PortalLink { a, b, view });
                }
            }
            assert forall|i: int, j: int| 0 <= i < j < p.len() implies !involves(#[trigger] p[j], p[i].a.0) && !involves(p[j], #[trigger] p[i].b.0) by {
                assert(p[i] == p0[i]);
                if j < p0.len() {
                    assert(p[j] == p0[j]);
                } else {
                    assert(!involves(p0[i], a.0));
                    assert(!involves(p0[i], b.0));
                }
            }
            Self::lemma_tables_kept_but_links(old(self), self);
        }
        self.bump();
        Ok(())
    }

    /// A live single-mesh entity can serve as an opening.
    fn opening(&self, id: EntityId) -> (r: Result<(), EngineError>)
        requires
            self.wf(),
        ensures
            r is Ok <==> self.has(id.0) && !self.record(id.0).instanced,
            r matches Err(e) ==> if self.has(id.0) {
                is_invalid_value(
                    e,
                    entity_message(id.0, " is instanced; openings must be a single mesh"@),
                )
            } else {
                e is UnknownEntity
            },
    {
        let k = match self.find(id.0) {
            Some(k) => k,
            None => return Err(EngineError::UnknownEntity),
        };
        if self.entries[k].1.instanced {
            proof {
                reveal_strlit(" is instanced; openings must be a single mesh");
            }
            return Err(entity_error(id.0, " is instanced; openings must be a single mesh"));
        }
        Ok(())
    }

    /// The other tables stay well formed when only the portals changed.
    proof fn lemma_tables_kept_but_links(a: &Self, b: &Self)
        requires
            a.tables_wf(),
            b.entries() == a.entries(),
            b.chunks() == a.chunks(),
            b.anchored_chunks() == a.anchored_chunks(),
            b.anchored() == a.anchored(),
            forall|i: int| 0 <= i < b.links().len() ==> #[trigger] b.links()[i].a != b.links()[i].b && b.has(b.links()[i].a.0) && b.has(b.links()[i].b.0),
            forall|i: int, j: int| 0 <= i < j < b.links().len() ==> !involves(#[trigger] b.links()[j], b.links()[i].a.0) && !involves(b.links()[j], #[trigger] b.links()[i].b.0),
        ensures
            b.tables_wf(),
    {
        let c = b.chunks();
        assert forall|i: int| 0 <= i < c.len() implies b.has(#[trigger] c[i].1) by {
            assert(a.has(a.chunks()[i].1));
        }
        assert forall|i: int, j: int| 0 <= i < j < c.len() implies #[trigger] c[i].0 != #[trigger] c[j].0 by {
            assert(a.chunks()[i].0 != a.chunks()[j].0);
        }
        let ac = b.anchored_chunks();
        assert forall|i: int| 0 <= i < ac.len() implies b.has(#[trigger] ac[i].1) by {
            assert(a.has(a.anchored_chunks()[i].1));
        }
        assert forall|i: int, j: int| 0 <= i < j < ac.len() implies #[trigger] ac[i].0 != #[trigger] ac[j].0 && ac[i].1 != ac[j].1 by {
            assert(a.anchored_chunks()[i].0 != a.anchored_chunks()[j].0);
        }
        let n = b.anchored();
        assert forall|i: int| 0 <= i < n.len() implies b.has(#[trigger] n[i]) by {
            assert(a.has(a.anchored()[i]));
        }
    }

    /// Drop the portal joining `a` and `b`, in either order. The openings
    /// stay; walking through them no longer teleports.
    pub fn unlink(&mut self, a: EntityId, b: EntityId) -> (r: Result<(), EngineError>)
        requires
            old(self).wf(),
            old(self).epoch() < u64::MAX,
        ensures
            final(self).wf(),
            r is Ok <==> exists|i: int| 0 <= i < old(self).links().len() && joins(#[trigger] old(self).links()[i], a.0, b.0),
            r matches Err(e) ==> is_invalid_value(e, "those openings are not linked"@),
            r is Err ==> *final(self) == *old(self),
            r is Ok ==> final(self).entries() == old(self).entries() && final(self).links()
                == old(self).links().filter(|p: PortalLink<V>| !joins(p, a.0, b.0))
                && final(self).chunks() == old(self).chunks() && final(self).anchored_chunks()
                == old(self).anchored_chunks() && final(self).anchored() == old(self).anchored()
                && final(self).next_id() == old(self).next_id() && final(self).epoch()
                == old(self).epoch() + 1,
    {
        let ghost keep = |p: PortalLink<V>| !joins(p, a.0, b.0);
        let mut kept: Vec<PortalLink<V>> = Vec::new();
        let mut i: usize = 0;
        while i < self.portals.len()
            invariant
                i <= self.portals@.len(),
                *self == *old(self),
                keep == (|p: PortalLink<V>| !joins(p, a.0, b.0)),
                kept@ == self.portals@.take(i as int).filter(keep),
            decreases self.portals@.len() - i,
        {
            proof {
                reveal_with_fuel(Seq::filter, 1);
                assert(self.portals@.take(i + 1).drop_last() =~= self.portals@.take(i as int));
            }
            let p = self.portals[i];
            if !((p.a.0 == a.0 && p.b.0 == b.0) || (p.a.0 == b.0 && p.b.0 == a.0)) {
                kept.push(p);
            }
            i = i + 1;
        }
        proof {
            assert(self.portals@.take(i as int) =~= self.portals@);
        }
        if kept.len() == self.portals.len() {
            proof {
                reveal_strlit("those openings are not linked");
                let p0 = self.links();
                assert forall|j: int| 0 <= j < p0.len() implies !joins(#[trigger] p0[j], a.0, b.0) by {
                    if joins(p0[j], a.0, b.0) {
                        lemma_filter_drops(p0, keep, j);
                    }
                }
            }
            return Err(invalid_value("those openings are not linked"));
        }
        proof {
            let p0 = self.links();
            if forall|j: int| 0 <= j < p0.len() ==> !joins(#[trigger] p0[j], a.0, b.0) {
                assert(p0.filter(keep) =~= p0) by {
                    lemma_filter_all(p0, keep);
                }
            }
            lemma_filter_subset(p0, keep);
            let p = kept@;
            assert forall|j: int| 0 <= j < p.len() implies #[trigger] p[j].a != p[j].b && self.has(p[j].a.0) && self.has(p[j].b.0) by {
                assert(p0.contains(p[j]));
                let k = choose|k: int| 0 <= k < p0.len() && p0[k] == p[j];
                assert(self.has(p0[k].a.0));
                assert(self.has(p0[k].b.0));
            }
            let rp = |x: PortalLink<V>, y: PortalLink<V>| !involves(y, x.a.0) && !involves(y, x.b.0);
            assert forall|x: int, y: int| 0 <= x < y < p0.len() implies #[trigger] rp(p0[x], p0[y]) by {
                assert(!involves(p0[y], p0[x].a.0));
            }
            lemma_filter_ordered(p0, keep, rp);
            assert forall|x: int, y: int| 0 <= x < y < p.len() implies !involves(#[trigger] p[y], p[x].a.0) && !involves(p[y], #[trigger] p[x].b.0) by {
                assert(rp(p[x], p[y]));
            }
        }
        self.portals = kept;
        proof {
            Self::lemma_tables_kept_but_links(old(self), self);
        }
        self.bump();
        Ok(())
    }

    fn find_chunk(&self, key: ChunkKey) -> (r: Option<usize>)
        requires
            self.wf(),
        ensures
            match r {
                Some(k) => k < self.chunks().len() && self.chunks()[k as int].0 == key
                    && self.chunk_row(key) == Some(self.chunks()[k as int].1),
                None => self.chunk_row(key) is None,
            },
    {
        let mut i: usize = 0;
        while i < self.chunks.len()
            invariant
                self.wf(),
                i <= self.chunks@.len(),
                forall|k: int| 0 <= k < i ==> #[trigger] self.chunks@[k].0 != key,
            decreases self.chunks@.len() - i,
        {
            let c = self.chunks[i];
            if c.0.0 == key.0 && c.0.1 == key.1 && c.0.2 == key.2 {
                proof {
                    let c = self.chunks();
                    assert(c[i as int].0 == key);
                    let j = choose|j: int| 0 <= j < c.len() && #[trigger] c[j].0 == key;
                    if j < i {
                        assert(c[j].0 != c[i as int].0);
                    } else if j > i {
                        assert(c[i as int].0 != c[j].0);
                    }
                }
                return Some(i);
            }
            i = i + 1;
        }
        None
    }

    fn find_anchored_chunk(&self, id: ChunkId) -> (r: Option<usize>)
        requires
            self.wf(),
        ensures
            match r {
                Some(k) => k < self.anchored_chunks().len() && self.anchored_chunks()[k as int].0 == id
                    && self.anchored_row(id) == Some(self.anchored_chunks()[k as int].1),
                None => self.anchored_row(id) is None,
            },
    {
        let mut i: usize = 0;
        while i < self.anchored_chunks.len()
            invariant
                self.wf(),
                i <= self.anchored_chunks@.len(),
                forall|k: int| 0 <= k < i ==> #[trigger] self.anchored_chunks@[k].0 != id,
            decreases self.anchored_chunks@.len() - i,
        {
            if self.anchored_chunks[i].0 == id {
                proof {
                    let c = self.anchored_chunks();
                    assert(c[i as int].0 == id);
                    let j = choose|j: int| 0 <= j < c.len() && #[trigger] c[j].0 == id;
                    if j < i {
                        assert(c[j].0 != c[i as int].0);
                    } else if j > i {
                        assert(c[i as int].0 != c[j].0);
                    }
                }
                return Some(i);
            }
            i = i + 1;
        }
        None
    }

    /// Whether a streamed chunk is drawn under `key`.
    pub fn has_chunk(&self, key: ChunkKey) -> (b: bool)
        requires
            self.wf(),
        ensures
            b == self.chunk_row(key) is Some,
    {
        self.find_chunk(key).is_some()
    }

    /// Forget a streamed chunk and despawn its entity, if there is one.
    pub fn clear_chunk(&mut self, key: ChunkKey)
        requires
            old(self).wf(),
            old(self).epoch() < u64::MAX,
        ensures
            final(self).wf(),
            final(self).cleared(old(self), old(self).chunk_row(key)),
            final(self).chunk_row(key) is None,
    {
        match self.find_chunk(key) {
            Some(k) => {
                let x = self.chunks[k].1;
                self.despawn(EntityId(x));
                proof {
                    self.lemma_no_row_after_despawn(old(self), key, x);
                }
            },
            None => {},
        }
    }

    /// After despawning the entity of `key`'s row, no row has `key`.
    proof fn lemma_no_row_after_despawn(&self, before: &Self, key: ChunkKey, x: u64)
        requires
            before.wf(),
            before.chunk_row(key) == Some(x),
            self.chunks() == before.chunks().filter(other_row(x)),
        ensures
            self.chunk_row(key) is None,
            forall|i: int| 0 <= i < self.chunks().len() ==> #[trigger] self.chunks()[i].0 != key,
    {
        let c0 = before.chunks();
        let k = choose|i: int| 0 <= i < c0.len() && #[trigger] c0[i].0 == key;
        assert(c0[k].1 == x);
        assert forall|i: int| 0 <= i < self.chunks().len() implies #[trigger] self.chunks()[i].0 != key by {
            let c = self.chunks();
            lemma_filter_contains_iff(c0, other_row(x), c[i]);
            let j = choose|j: int| 0 <= j < c0.len() && c0[j] == c[i];
            if c[i].0 == key {
                if j < k {
                    assert(c0[j].0 != c0[k].0);
                } else if j > k {
                    assert(c0[k].0 != c0[j].0);
                }
            }
        }
    }

    /// After despawning the entity of `id`'s anchored row, no row has `id`.
    proof fn lemma_no_anchored_row_after_despawn(&self, before: &Self, id: ChunkId, x: u64)
        requires
            before.wf(),
            before.anchored_row(id) == Some(x),
            self.anchored_chunks() == before.anchored_chunks().filter(other_row(x)),
        ensures
            self.anchored_row(id) is None,
            forall|i: int| 0 <= i < self.anchored_chunks().len() ==> #[trigger] self.anchored_chunks()[i].0 != id,
    {
        let c0 = before.anchored_chunks();
        let k = choose|i: int| 0 <= i < c0.len() && #[trigger] c0[i].0 == id;
        assert(c0[k].1 == x);
        assert forall|i: int| 0 <= i < self.anchored_chunks().len() implies #[trigger] self.anchored_chunks()[i].0 != id by {
            let c = self.anchored_chunks();
            lemma_filter_contains_iff(c0, other_row(x), c[i]);
            let j = choose|j: int| 0 <= j < c0.len() && c0[j] == c[i];
            if c[i].0 == id {
                if j < k {
                    assert(c0[j].0 != c0[k].0);
                } else if j > k {
                    assert(c0[k].0 != c0[j].0);
                }
            }
        }
    }

    /// Replace or create the streamed chunk mesh under `key`. A remesh gets a
    /// new entity so the renderer uploads it afresh; the layer's default
    /// material follows from how much of its `index_count` indices are opaque.
    pub fn set_chunk_built<T, W>(
        &mut self,
        res: &Resources<T, W>,
        key: ChunkKey,
        space: SpaceId,
        index_count: usize,
        opaque_index_count: usize,
    ) -> (id: EntityId)
        requires
            old(self).wf(),
            old(self).next_id() < u64::MAX,
            old(self).epoch() + 2 <= u64::MAX,
        ensures
            final(self).wf(),
            final(self).chunk_row(key) == Some(id.0),
            exists|mid: Self| #![trigger mid.next_id()] {
                &&& mid.cleared(old(self), old(self).chunk_row(key))
                &&& final(self).spawned_row(
                    &mid,
                    id.0,
                    EntityRecord {
                        material: chunk_material_spec(
                            index_count as nat,
                            opaque_index_count as nat,
                            res.default_terrain(),
                            res.default_water(),
                        ),
                        ..plain_record(space)
                    },
                )
                &&& final(self).chunks() == mid.chunks().push((key, id.0))
                &&& final(self).anchored_chunks() == mid.anchored_chunks()
            },
    {
        match self.find_chunk(key) {
            Some(k) => {
                let x = self.chunks[k].1;
                self.despawn(EntityId(x));
                proof {
                    self.lemma_no_row_after_despawn(old(self), key, x);
                }
            },
            None => {},
        }
        let ghost mid = *self;
        let material = chunk_material(res, index_count, opaque_index_count);
        let id = self.push_entity(EntityRecord {
            instanced: false,
            instance_of: None,
            casts_shadow: true,
            space,
            material,
            albedo: None,
            placements: 0,
            instance_reserve: 0,
            xform_rev: 1,
        });
        let ghost spawned = *self;
        self.chunks.push((key, id.0));
        proof {
            let c0 = spawned.chunks();
            let c = self.chunks();
            assert(c =~= c0.push((key, id.0)));
            assert forall|i: int| 0 <= i < c0.len() implies #[trigger] c0[i].0 != key by {
                if old(self).chunk_row(key) is None {
                    assert(c0[i].0 != key);
                }
            }
            assert forall|i: int| 0 <= i < c.len() implies self.has(#[trigger] c[i].1) by {
                if i < c0.len() {
                    assert(c[i] == c0[i]);
                    assert(spawned.has(c0[i].1));
                    let j = spawned.slot(c0[i].1);
                    assert(self.entries()[j].0 == c0[i].1);
                } else {
                    let j = spawned.slot(id.0);
                    assert(self.entries()[j].0 == id.0);
                }
            }
            assert forall|i: int, j: int| 0 <= i < j < c.len() implies #[trigger] c[i].0 != #[trigger] c[j].0 by {
                assert(c[i] == c0[i]);
                if j < c0.len() {
                    assert(c[j] == c0[j]);
                }
            }
            Self::lemma_tables_kept_but_chunks(&spawned, self);
            assert(c.last() == (key, id.0));
            assert(c[c.len() - 1].0 == key);
            let w = choose|i: int| 0 <= i < c.len() && #[trigger] c[i].0 == key;
            if w < c.len() - 1 {
                assert(c[w].0 != c[c.len() - 1].0);
            }
            assert(self.spawned_row(&mid, id.0, EntityRecord { material, ..plain_record(space) }));
        }
        id
    }

    /// The other tables stay well formed when only the streamed chunks
    /// changed.
    proof fn lemma_tables_kept_but_chunks(a: &Self, b: &Self)
        requires
            a.tables_wf(),
            b.entries() == a.entries(),
            b.links() == a.links(),
            b.anchored_chunks() == a.anchored_chunks(),
            b.anchored() == a.anchored(),
            forall|i: int| 0 <= i < b.chunks().len() ==> b.has(#[trigger] b.chunks()[i].1),
            forall|i: int, j: int| 0 <= i < j < b.chunks().len() ==> #[trigger] b.chunks()[i].0 != #[trigger] b.chunks()[j].0,
        ensures
            b.tables_wf(),
    {
        assert forall|k: u64| a.has(k) implies #[trigger] b.has(k) by {
            let i = a.slot(k);
            assert(b.entries()[i].0 == k);
        }
        let p = b.links();
        assert forall|i: int| 0 <= i < p.len() implies #[trigger] p[i].a != p[i].b && b.has(p[i].a.0) && b.has(p[i].b.0) by {
            assert(a.has(p[i].a.0));
            assert(a.has(p[i].b.0));
        }
        assert forall|i: int, j: int| 0 <= i < j < p.len() implies !involves(#[trigger] p[j], p[i].a.0) && !involves(p[j], #[trigger] p[i].b.0) by {
            assert(!involves(a.links()[j], a.links()[i].a.0));
        }
        let ac = b.anchored_chunks();
        assert forall|i: int| 0 <= i < ac.len() implies b.has(#[trigger] ac[i].1) by {
            assert(a.has(a.anchored_chunks()[i].1));
        }
        assert forall|i: int, j: int| 0 <= i < j < ac.len() implies #[trigger] ac[i].0 != #[trigger] ac[j].0 && ac[i].1 != ac[j].1 by {
            assert(a.anchored_chunks()[i].0 != a.anchored_chunks()[j].0);
        }
        let n = b.anchored();
        assert forall|i: int| 0 <= i < n.len() implies b.has(#[trigger] n[i]) by {
            assert(a.has(a.anchored()[i]));
        }
    }

    /// Whether an anchored chunk is drawn under `id`.
    pub fn has_anchored_chunk(&self, id: ChunkId) -> (b: bool)
        requires
            self.wf(),
        ensures
            b == self.anchored_row(id) is Some,
    {
        self.find_anchored_chunk(id).is_some()
    }

    /// Number of anchored chunks drawn.
    pub fn anchored_chunk_count(&self) -> (n: usize)
        ensures
            n == self.anchored_chunks().len(),
    {
        self.anchored_chunks.len()
    }

    /// Forget an anchored chunk and despawn its entity, if there is one.
    pub fn clear_anchored_chunk(&mut self, id: ChunkId)
        requires
            old(self).wf(),
            old(self).epoch() < u64::MAX,
        ensures
            final(self).wf(),
            final(self).cleared(old(self), old(self).anchored_row(id)),
            final(self).anchored_row(id) is None,
    {
        match self.find_anchored_chunk(id) {
            Some(k) => {
                let x = self.anchored_chunks[k].1;
                self.despawn(EntityId(x));
                proof {
                    self.lemma_no_anchored_row_after_despawn(old(self), id, x);
                }
            },
            None => {},
        }
    }

    /// Replace or create the anchored chunk `id`, drawn by a new entity in
    /// `space` with the default material its opacity calls for. The caller
    /// keeps the chunk's global anchor and places the entity from it.
    #[verifier::spinoff_prover]
    pub fn set_anchored_chunk<T, W>(
        &mut self,
        res: &Resources<T, W>,
        id: ChunkId,
        space: SpaceId,
        index_count: usize,
        opaque_index_count: usize,
    ) -> (e: EntityId)
        requires
            old(self).wf(),
            old(self).next_id() < u64::MAX,
            old(self).epoch() + 2 <= u64::MAX,
        ensures
            final(self).wf(),
            final(self).anchored_row(id) == Some(e.0),
            exists|mid: Self| #![trigger mid.next_id()] {
                &&& mid.cleared(old(self), old(self).anchored_row(id))
                &&& final(self).spawned_row(
                    &mid,
                    e.0,
                    EntityRecord {
                        material: chunk_material_spec(
                            index_count as nat,
                            opaque_index_count as nat,
                            res.default_terrain(),
                            res.default_water(),
                        ),
                        ..plain_record(space)
                    },
                )
                &&& final(self).anchored_chunks() == mid.anchored_chunks().push((id, e.0))
                &&& final(self).chunks() == mid.chunks()
            },
    {
        match self.find_anchored_chunk(id) {
            Some(k) => {
                let x = self.anchored_chunks[k].1;
                self.despawn(EntityId(x));
                proof {
                    self.lemma_no_anchored_row_after_despawn(old(self), id, x);
                }
            },
            None => {},
        }
        let ghost mid = *self;
        let material = chunk_material(res, index_count, opaque_index_count);
        let e = self.push_entity(EntityRecord {
            instanced: false,
            instance_of: None,
            casts_shadow: true,
            space,
            material,
            albedo: None,
            placements: 0,
            instance_reserve: 0,
            xform_rev: 1,
        });
        let ghost spawned = *self;
        self.anchored_chunks.push((id, e.0));
        proof {
            let c0 = spawned.anchored_chunks();
            let c = self.anchored_chunks();
            assert(c =~= c0.push((id, e.0)));
            assert forall|i: int| 0 <= i < c0.len() implies #[trigger] c0[i].0 != id by {
                if old(self).anchored_row(id) is None {
                    assert(c0[i].0 != id);
                }
            }
            assert forall|i: int| 0 <= i < c0.len() implies #[trigger] c0[i].1 != e.0 by {
                assert(spawned.has(c0[i].1));
                let j = spawned.slot(c0[i].1);
                assert(spawned.entries()[j].0 < spawned.next_id());
                if j < mid.entries().len() {
                    assert(spawned.entries()[j] == mid.entries()[j]);
                }
            }
            assert forall|i: int| 0 <= i < c.len() implies self.has(#[trigger] c[i].1) by {
                if i < c0.len() {
                    assert(c[i] == c0[i]);
                    assert(spawned.has(c0[i].1));
                    let j = spawned.slot(c0[i].1);
                    assert(self.entries()[j].0 == c0[i].1);
                } else {
                    let j = spawned.slot(e.0);
                    assert(self.entries()[j].0 == e.0);
                }
            }
            assert forall|i: int, j: int| 0 <= i < j < c.len() implies #[trigger] c[i].0 != #[trigger] c[j].0 && c[i].1 != c[j].1 by {
                assert(c[i] == c0[i]);
                if j < c0.len() {
                    assert(c[j] == c0[j]);
                    assert(spawned.tables_wf());
                    assert(c0[i].0 != c0[j].0 && c0[i].1 != c0[j].1);
                } else {
                    assert(c[j] == (id, e.0));
                    assert(c0[i].0 != id);
                    assert(c0[i].1 != e.0);
                }
            }
            Self::lemma_tables_kept_but_anchored_chunks(&spawned, self);
            assert(c[c.len() - 1].0 == id);
            let w = choose|i: int| 0 <= i < c.len() && #[trigger] c[i].0 == id;
            if w < c.len() - 1 {
                assert(c[w].0 != c[c.len() - 1].0);
            }
            assert(self.spawned_row(&mid, e.0, EntityRecord { material, ..plain_record(space) }));
        }
        e
    }

    /// The other tables stay well formed when only the anchored chunks
    /// changed.
    proof fn lemma_tables_kept_but_anchored_chunks(a: &Self, b: &Self)
        requires
            a.tables_wf(),
            b.entries() == a.entries(),
            b.links() == a.links(),
            b.chunks() == a.chunks(),
            b.anchored() == a.anchored(),
            forall|i: int| 0 <= i < b.anchored_chunks().len() ==> b.has(#[trigger] b.anchored_chunks()[i].1),
            forall|i: int, j: int| 0 <= i < j < b.anchored_chunks().len() ==> #[trigger] b.anchored_chunks()[i].0 != #[trigger] b.anchored_chunks()[j].0 && b.anchored_chunks()[i].1 != b.anchored_chunks()[j].1,
        ensures
            b.tables_wf(),
    {
        assert forall|k: u64| a.has(k) implies #[trigger] b.has(k) by {
            let i = a.slot(k);
            assert(b.entries()[i].0 == k);
        }
        let p = b.links();
        assert forall|i: int| 0 <= i < p.len() implies #[trigger] p[i].a != p[i].b && b.has(p[i].a.0) && b.has(p[i].b.0) by {
            assert(a.has(p[i].a.0));
            assert(a.has(p[i].b.0));
        }
        assert forall|i: int, j: int| 0 <= i < j < p.len() implies !involves(#[trigger] p[j], p[i].a.0) && !involves(p[j], #[trigger] p[i].b.0) by {
            assert(!involves(a.links()[j], a.links()[i].a.0));
        }
        let c = b.chunks();
        assert forall|i: int| 0 <= i < c.len() implies b.has(#[trigger] c[i].1) by {
            assert(a.has(a.chunks()[i].1));
        }
        assert forall|i: int, j: int| 0 <= i < j < c.len() implies #[trigger] c[i].0 != #[trigger] c[j].0 by {
            assert(a.chunks()[i].0 != a.chunks()[j].0);
        }
        let n = b.anchored();
        assert forall|i: int| 0 <= i < n.len() implies b.has(#[trigger] n[i]) by {
            assert(a.has(a.anchored()[i]));
        }
    }

    /// Drop every anchored chunk, when leaving a world or regenerating it.
    /// Each chunk's entity is despawned, moving the epoch on once per chunk.
    pub fn clear_anchored_chunks(&mut self)
        requires
            old(self).wf(),
            old(self).epoch() + old(self).anchored_chunks().len() <= u64::MAX,
        ensures
            final(self).wf(),
            ({
                let d = old(self).anchored_chunks().map_values(|c: (ChunkId, u64)| c.1);
                &&& final(self).entries() == old(self).entries().filter(keeps_entry(d))
                &&& final(self).links() == old(self).links().filter(keeps_portal(d))
                &&& final(self).chunks() == old(self).chunks().filter(keeps_row(d))
                &&& final(self).anchored() == old(self).anchored().filter(keeps_id(d))
            }),
            final(self).anchored_chunks() == Seq::<(ChunkId, u64)>::empty(),
            final(self).next_id() == old(self).next_id(),
            final(self).epoch() == old(self).epoch() + old(self).anchored_chunks().len(),
    {
        let n = self.anchored_chunks.len();
        let mut doomed: Vec<u64> = Vec::new();
        let mut i: usize = 0;
        while i < self.anchored_chunks.len()
            invariant
                *self == *old(self),
                i <= self.anchored_chunks@.len(),
                doomed@ == self.anchored_chunks@.take(i as int).map_values(|c: (ChunkId, u64)| c.1),
            decreases self.anchored_chunks@.len() - i,
        {
            proof {
                assert(self.anchored_chunks@.take(i + 1).map_values(|c: (ChunkId, u64)| c.1)
                    =~= self.anchored_chunks@.take(i as int).map_values(|c: (ChunkId, u64)| c.1).push(self.anchored_chunks@[i as int].1));
            }
            doomed.push(self.anchored_chunks[i].1);
            i = i + 1;
        }
        proof {
            assert(self.anchored_chunks@.take(i as int) =~= self.anchored_chunks@);
        }
        let ghost d = doomed@;
        self.remove_entities(&doomed);
        proof {
            let c0 = old(self).anchored_chunks();
            let c = self.anchored_chunks();
            if c.len() > 0 {
                lemma_filter_contains_iff(c0, keeps_row(d), c[0]);
                let j = choose|j: int| 0 <= j < c0.len() && c0[j] == c[0];
                assert(d[j] == c0[j].1);
                assert(d.contains(c[0].1));
            }
            assert(c =~= Seq::<(ChunkId, u64)>::empty());
        }
        let ghost removed = *self;
        self.render_epoch = self.render_epoch + n as u64;
        proof {
            Self::lemma_same_ids(&removed, self);
            Self::lemma_tables_kept(&removed, self);
        }
    }

    /// Take the next handle for an entity kept elsewhere (a skinned model),
    /// so handles stay unique across both.
    pub fn issue_handle(&mut self) -> (id: EntityId)
        requires
            old(self).wf(),
            old(self).next_id() < u64::MAX,
        ensures
            final(self).wf(),
            id.0 == old(self).next_id(),
            !old(self).has(id.0),
            final(self).next_id() == old(self).next_id() + 1,
            final(self).entries() == old(self).entries(),
            final(self).links() == old(self).links(),
            final(self).chunks() == old(self).chunks(),
            final(self).anchored_chunks() == old(self).anchored_chunks(),
            final(self).anchored() == old(self).anchored(),
            final(self).submit() == old(self).submit(),
            final(self).epoch() == old(self).epoch(),
    {
        let id = self.next_id;
        self.next_id = id + 1;
        proof {
            assert(!old(self).has(id)) by {
                if old(self).has(id) {
                    let i = old(self).slot(id);
                    assert(old(self).entries()[i].0 < id);
                }
            }
            Self::lemma_same_entries(old(self), self);
            Self::lemma_tables_kept(old(self), self);
        }
        EntityId(id)
    }

    /// Spawn a single-mesh entity placed by a global anchor, which the
    /// caller keeps.
    pub fn spawn_anchored(&mut self, space: SpaceId) -> (id: EntityId)
        requires
            old(self).wf(),
            old(self).next_id() < u64::MAX,
            old(self).epoch() < u64::MAX,
        ensures
            final(self).wf(),
            id.0 == old(self).next_id(),
            final(self).entries() == old(self).entries().push((id.0, plain_record(space))),
            final(self).anchored() == old(self).anchored().push(id.0),
            final(self).next_id() == old(self).next_id() + 1,
            final(self).epoch() == old(self).epoch() + 1,
            final(self).links() == old(self).links(),
            final(self).chunks() == old(self).chunks(),
            final(self).anchored_chunks() == old(self).anchored_chunks(),
    {
        let id = self.spawn_built(space);
        assert(self.entries()[old(self).entries().len() as int].0 == id.0);
        self.anchor(id);
        proof {
            assert(!old(self).anchored().contains(id.0)) by {
                if old(self).anchored().contains(id.0) {
                    let i = choose|i: int| 0 <= i < old(self).anchored().len() && old(self).anchored()[i] == id.0;
                    assert(old(self).has(old(self).anchored()[i]));
                }
            }
        }
        id
    }

    /// Mark a live entity as placed by a global anchor.
    pub fn anchor(&mut self, id: EntityId)
        requires
            old(self).wf(),
            old(self).has(id.0),
        ensures
            final(self).wf(),
            final(self).anchored() == if old(self).anchored().contains(id.0) {
                old(self).anchored()
            } else {
                old(self).anchored().push(id.0)
            },
            final(self).entries() == old(self).entries(),
            final(self).links() == old(self).links(),
            final(self).chunks() == old(self).chunks(),
            final(self).anchored_chunks() == old(self).anchored_chunks(),
            final(self).next_id() == old(self).next_id(),
            final(self).epoch() == old(self).epoch(),
    {
        if contains_id(&self.anchored, id.0) {
            return;
        }
        self.anchored.push(id.0);
        proof {
            let n0 = old(self).anchored();
            let n = self.anchored();
            assert(n =~= n0.push(id.0));
            Self::lemma_same_entries(old(self), self);
            assert forall|i: int| 0 <= i < n.len() implies self.has(#[trigger] n[i]) by {
                if i < n0.len() {
                    assert(old(self).has(n0[i]));
                }
            }
            assert forall|i: int, j: int| 0 <= i < j < n.len() implies n[i] != n[j] by {
                if j == n.len() - 1 {
                    assert(n0.contains(n0[i]));
                }
            }
            Self::lemma_same_ids(old(self), self);
            let p = self.links();
            assert forall|i: int| 0 <= i < p.len() implies #[trigger] p[i].a != p[i].b && self.has(p[i].a.0) && self.has(p[i].b.0) by {
                assert(old(self).links()[i] == p[i]);
                assert(old(self).has(p[i].a.0));
                assert(old(self).has(p[i].b.0));
            }
            assert forall|i: int, j: int| 0 <= i < j < p.len() implies !involves(#[trigger] p[j], p[i].a.0) && !involves(p[j], #[trigger] p[i].b.0) by {
                assert(!involves(old(self).links()[j], old(self).links()[i].a.0));
            }
            let c = self.chunks();
            assert forall|i: int| 0 <= i < c.len() implies self.has(#[trigger] c[i].1) by {
                assert(old(self).chunks()[i] == c[i]);
                assert(old(self).has(c[i].1));
            }
            assert forall|i: int, j: int| 0 <= i < j < c.len() implies #[trigger] c[i].0 != #[trigger] c[j].0 by {
                assert(old(self).chunks()[i].0 != old(self).chunks()[j].0);
            }
            let ac = self.anchored_chunks();
            assert forall|i: int| 0 <= i < ac.len() implies self.has(#[trigger] ac[i].1) by {
                assert(old(self).anchored_chunks()[i] == ac[i]);
                assert(old(self).has(ac[i].1));
            }
            assert forall|i: int, j: int| 0 <= i < j < ac.len() implies #[trigger] ac[i].0 != #[trigger] ac[j].0 && ac[i].1 != ac[j].1 by {
                assert(old(self).anchored_chunks()[i].0 != old(self).anchored_chunks()[j].0);
            }
        }
    }

    /// Anchored entities can be moved by a global place; others are moved
    /// in render space.
    pub fn check_anchored(&self, id: EntityId) -> (r: Result<(), EngineError>)
        ensures
            r is Ok <==> self.anchored().contains(id.0),
            r matches Err(e) ==> is_invalid_value(
                e,
                entity_message(id.0, " is not anchored; use set_place for render-space entities"@),
            ),
    {
        if contains_id(&self.anchored, id.0) {
            Ok(())
        } else {
            proof {
                reveal_strlit(" is not anchored; use set_place for render-space entities");
            }
            Err(entity_error(id.0, " is not anchored; use set_place for render-space entities"))
        }
    }

    /// A live entity was moved: its transform revision and the epoch move on.
    pub fn set_place(&mut self, id: EntityId) -> (r: Result<(), EngineError>)
        requires
            old(self).wf(),
            old(self).epoch() < u64::MAX,
        ensures
            final(self).wf(),
            r is Ok <==> old(self).has(id.0),
            r matches Err(e) ==> e is UnknownEntity && *final(self) == *old(self),
            r is Ok ==> ({
                let before = old(self).record(id.0);
                &&& final(self).entries() == old(self).with_record(
                    id.0,
                    EntityRecord { xform_rev: before.xform_rev.wrapping_add(1), ..before },
                )
                &&& final(self).same_tables(old(self))
                &&& final(self).epoch() == old(self).epoch() + 1
            }),
    {
        let k = match self.find(id.0) {
            Some(k) => k,
            None => return Err(EngineError::UnknownEntity),
        };
        let before = self.entries[k].1;
        self.update_record(k, EntityRecord { xform_rev: before.xform_rev.wrapping_add(1), ..before }, true);
        Ok(())
    }

    /// How many times a rebase moves entity `id`.
    fn rebase_count(&self, id: u64) -> (n: u64)
        ensures
            n == self.rebase_moves(id),
    {
        let mut n: u64 = 0;
        if contains_id(&self.anchored, id) {
            n = 1;
        }
        let mut i: usize = 0;
        while i < self.anchored_chunks.len()
            invariant
                i <= self.anchored_chunks@.len(),
                n == if self.anchored().contains(id) { 1u64 } else { 0u64 },
                forall|k: int| 0 <= k < i ==> #[trigger] self.anchored_chunks@[k].1 != id,
            decreases self.anchored_chunks@.len() - i,
        {
            if self.anchored_chunks[i].1 == id {
                assert(self.anchored_chunks()[i as int].1 == id);
                return n + 1;
            }
            i = i + 1;
        }
        n
    }

    /// Render space was rebased: every anchored entity and anchored chunk
    /// was placed again from its global anchor, so their transform
    /// revisions and the epoch move on.
    pub fn rebase(&mut self)
        requires
            old(self).wf(),
            old(self).epoch() < u64::MAX,
        ensures
            final(self).wf(),
            final(self).entries().len() == old(self).entries().len(),
            forall|i: int| 0 <= i < old(self).entries().len() ==> {
                let (id, r) = #[trigger] old(self).entries()[i];
                final(self).entries()[i] == (
                    id,
                    EntityRecord {
                        xform_rev: r.xform_rev.wrapping_add(old(self).rebase_moves(id)),
                        ..r
                    },
                )
            },
            final(self).same_tables(old(self)),
            final(self).epoch() == old(self).epoch() + 1,
    {
        let mut moved: Vec<(u64, EntityRecord)> = Vec::new();
        let mut i: usize = 0;
        while i < self.entries.len()
            invariant
                *self == *old(self),
                i <= self.entries@.len(),
                moved@.len() == i,
                forall|k: int| 0 <= k < i ==> {
                    let (id, r) = #[trigger] self.entries@[k];
                    moved@[k] == (
                        id,
                        EntityRecord {
                            xform_rev: r.xform_rev.wrapping_add(self.rebase_moves(id)),
                            ..r
                        },
                    )
                },
            decreases self.entries@.len() - i,
        {
            let (id, r) = self.entries[i];
            let n = self.rebase_count(id);
            moved.push((id, EntityRecord { xform_rev: r.xform_rev.wrapping_add(n), ..r }));
            i = i + 1;
        }
        self.entries = moved;
        proof {
            Self::lemma_same_ids(old(self), self);
            Self::lemma_tables_kept(old(self), self);
        }
        self.bump();
    }

    /// Rewrite the record of a live entity, bumping the epoch when it changed.
    fn update_record(&mut self, k: usize, rec: EntityRecord, changed: bool)
        requires
            old(self).wf(),
            k < old(self).entries().len(),
            old(self).epoch() < u64::MAX,
        ensures
            final(self).wf(),
            final(self).entries() == old(self).with_record(old(self).entries()[k as int].0, rec),
            final(self).same_tables(old(self)),
            final(self).epoch() == old(self).epoch() + if changed { 1int } else { 0int },
    {
        proof {
            let id = old(self).entries()[k as int].0;
            assert(old(self).has(id));
            let s = old(self).slot(id);
            if s < k {
                assert(old(self).entries()[s].0 < old(self).entries()[k as int].0);
            } else if s > k {
                assert(old(self).entries()[k as int].0 < old(self).entries()[s].0);
            }
        }
        self.set_record(k, rec);
        if changed {
            self.bump();
        }
    }

    /// Move an entity to another known space.
    pub fn set_space(&mut self, spaces: &Spaces, id: EntityId, space: SpaceId) -> (r: Result<
        (),
        EngineError,
    >)
        requires
            old(self).wf(),
            old(self).epoch() < u64::MAX,
        ensures
            final(self).wf(),
            r is Ok <==> space_known(spaces.names(), space) && old(self).has(id.0),
            !space_known(spaces.names(), space) ==> (r matches Err(e) && is_invalid_value(
                e,
                unknown_space_message(space),
            )),
            space_known(spaces.names(), space) && !old(self).has(id.0) ==> (r matches Err(e)
                && e is UnknownEntity),
            r is Err ==> *final(self) == *old(self),
            r is Ok ==> ({
                let before = old(self).record(id.0);
                &&& final(self).entries() == old(self).with_record(
                    id.0,
                    EntityRecord { space, ..before },
                )
                &&& final(self).same_tables(old(self))
                &&& final(self).epoch() == old(self).epoch() + if before.space == space {
                    0int
                } else {
                    1int
                }
            }),
    {
        match spaces.require_space(space) {
            Ok(()) => {},
            Err(e) => return Err(e),
        }
        let k = match self.find(id.0) {
            Some(k) => k,
            None => return Err(EngineError::UnknownEntity),
        };
        let before = self.entries[k].1;
        let changed = before.space.0 != space.0;
        self.update_record(k, EntityRecord { space, ..before }, changed);
        Ok(())
    }

    /// Whether the entity enters the cascaded shadow maps.
    pub fn set_casts_shadow(&mut self, id: EntityId, casts: bool) -> (r: Result<(), EngineError>)
        requires
            old(self).wf(),
            old(self).epoch() < u64::MAX,
        ensures
            final(self).wf(),
            r is Ok <==> old(self).has(id.0),
            r matches Err(e) ==> e is UnknownEntity && *final(self) == *old(self),
            r is Ok ==> final(self).shadow_choice_set(old(self), id, casts),
    {
        let k = match self.find(id.0) {
            Some(k) => k,
            None => return Err(EngineError::UnknownEntity),
        };
        let before = self.entries[k].1;
        let changed = before.casts_shadow != casts;
        self.update_record(k, EntityRecord { casts_shadow: casts, ..before }, changed);
        Ok(())
    }

    /// Draw an entity with a world-space material, or with none. The
    /// material must exist in `res`.
    pub fn set_entity_material<T, W>(
        &mut self,
        res: &Resources<T, W>,
        id: EntityId,
        material: Option<SurfaceMaterialRef>,
    ) -> (r: Result<(), EngineError>)
        requires
            old(self).wf(),
            old(self).epoch() < u64::MAX,
        ensures
            final(self).wf(),
            ({
                let known = match material {
                    Some(SurfaceMaterialRef::Terrain(m)) => res.materials().contains_key(m.0),
                    Some(SurfaceMaterialRef::Water(m)) => res.water_materials().contains_key(m.0),
                    None => true,
                };
                &&& r is Ok <==> known && old(self).has(id.0)
                &&& !known ==> (r matches Err(e) && e is UnknownMaterial)
                &&& known && !old(self).has(id.0) ==> (r matches Err(e) && e is UnknownEntity)
            }),
            r is Err ==> *final(self) == *old(self),
            r is Ok ==> ({
                let before = old(self).record(id.0);
                &&& final(self).entries() == old(self).with_record(
                    id.0,
                    EntityRecord { material, ..before },
                )
                &&& final(self).same_tables(old(self))
                &&& final(self).epoch() == old(self).epoch() + if before.material == material {
                    0int
                } else {
                    1int
                }
            }),
    {
        match res.check_material_ref(material) {
            Ok(()) => {},
            Err(e) => return Err(e),
        }
        let k = match self.find(id.0) {
            Some(k) => k,
            None => return Err(EngineError::UnknownEntity),
        };
        let before = self.entries[k].1;
        let changed = !same_material(before.material, material);
        self.update_record(k, EntityRecord { material, ..before }, changed);
        Ok(())
    }

    /// Record the albedo uploaded for a just-spawned entity's mesh.
    pub fn attach_albedo(&mut self, id: EntityId, texture: TextureId)
        requires
            old(self).wf(),
            old(self).has(id.0),
            old(self).epoch() < u64::MAX,
        ensures
            final(self).wf(),
            final(self).entries() == old(self).with_record(
                id.0,
                EntityRecord { albedo: Some(texture), ..old(self).record(id.0) },
            ),
            final(self).same_tables(old(self)),
            final(self).epoch() == old(self).epoch() + 1,
    {
        let k = self.find(id.0).unwrap();
        let before = self.entries[k].1;
        self.update_record(k, EntityRecord { albedo: Some(texture), ..before }, true);
    }

    /// Replace the placements of an instanced entity with `placements` new
    /// ones, refused above `limit`.
    pub fn set_instances(&mut self, id: EntityId, placements: usize, limit: u64) -> (r: Result<
        (),
        EngineError,
    >)
        requires
            old(self).wf(),
            old(self).epoch() < u64::MAX,
        ensures
            final(self).wf(),
            r is Ok <==> placements <= limit && old(self).has(id.0) && old(self).record(
                id.0,
            ).instanced,
            placements > limit ==> (r matches Err(e) && is_resource_limit(
                e,
                count_message("set_instances has "@, placements as u64, limit),
            )),
            placements <= limit && !old(self).has(id.0) ==> (r matches Err(e) && e is UnknownEntity),
            placements <= limit && old(self).has(id.0) && !old(self).record(id.0).instanced ==> (r matches Err(
                e,
            ) && is_invalid_value(
                e,
                entity_message(id.0, " was not spawned instanced; use set_place"@),
            )),
            r is Err ==> *final(self) == *old(self),
            r is Ok ==> ({
                let before = old(self).record(id.0);
                &&& final(self).entries() == old(self).with_record(
                    id.0,
                    EntityRecord {
                        placements,
                        xform_rev: before.xform_rev.wrapping_add(1),
                        ..before
                    },
                )
                &&& final(self).same_tables(old(self))
                &&& final(self).epoch() == old(self).epoch() + 1
            }),
    {
        if placements as u64 > limit {
            proof {
                reveal_strlit("set_instances has ");
            }
            return Err(count_error("set_instances has ", placements as u64, limit));
        }
        let k = match self.find(id.0) {
            Some(k) => k,
            None => return Err(EngineError::UnknownEntity),
        };
        if !self.entries[k].1.instanced {
            proof {
                reveal_strlit(" was not spawned instanced; use set_place");
            }
            return Err(entity_error(id.0, " was not spawned instanced; use set_place"));
        }
        let before = self.entries[k].1;
        self.update_record(
            k,
            EntityRecord { placements, xform_rev: before.xform_rev.wrapping_add(1), ..before },
            true,
        );
        Ok(())
    }

    /// Reserve room for `minimum` placements in an instanced entity's batch
    /// slot, refused above `limit`. A smaller request changes nothing.
    pub fn reserve_instances(&mut self, id: EntityId, minimum: usize, limit: u64) -> (r: Result<
        (),
        EngineError,
    >)
        requires
            old(self).wf(),
            old(self).epoch() < u64::MAX,
        ensures
            final(self).wf(),
            r is Ok <==> minimum <= limit && old(self).has(id.0) && old(self).record(
                id.0,
            ).instanced,
            minimum > limit ==> (r matches Err(e) && is_resource_limit(
                e,
                count_message("reserve_instances requested "@, minimum as u64, limit),
            )),
            minimum <= limit && !old(self).has(id.0) ==> (r matches Err(e) && e is UnknownEntity),
            minimum <= limit && old(self).has(id.0) && !old(self).record(id.0).instanced ==> (r matches Err(
                e,
            ) && is_invalid_value(
                e,
                entity_message(id.0, " was not spawned instanced; it cannot reserve instances"@),
            )),
            r is Err ==> *final(self) == *old(self),
            r is Ok ==> ({
                let before = old(self).record(id.0);
                if minimum <= before.instance_reserve {
                    *final(self) == *old(self)
                } else {
                    &&& final(self).entries() == old(self).with_record(
                        id.0,
                        EntityRecord { instance_reserve: minimum, ..before },
                    )
                    &&& final(self).same_tables(old(self))
                    &&& final(self).epoch() == old(self).epoch() + 1
                }
            }),
    {
        if minimum as u64 > limit {
            proof {
                reveal_strlit("reserve_instances requested ");
            }
            return Err(count_error("reserve_instances requested ", minimum as u64, limit));
        }
        let k = match self.find(id.0) {
            Some(k) => k,
            None => return Err(EngineError::UnknownEntity),
        };
        let before = self.entries[k].1;
        if !before.instanced {
            proof {
                reveal_strlit(" was not spawned instanced; it cannot reserve instances");
            }
            return Err(entity_error(id.0, " was not spawned instanced; it cannot reserve instances"));
        }
        if minimum <= before.instance_reserve {
            return Ok(());
        }
        self.update_record(k, EntityRecord { instance_reserve: minimum, ..before }, true);
        Ok(())
    }

    /// Spawn one mesh at `placements` places, refused above `limit`.
    pub fn spawn_many(&mut self, space: SpaceId, placements: usize, limit: u64) -> (r: Result<
        EntityId,
        EngineError,
    >)
        requires
            old(self).wf(),
            old(self).next_id() < u64::MAX,
            old(self).epoch() < u64::MAX,
        ensures
            final(self).wf(),
            r is Ok <==> placements <= limit,
            r matches Err(e) ==> is_resource_limit(
                e,
                count_message("spawn_many has "@, placements as u64, limit),
            ) && *final(self) == *old(self),
            r matches Ok(id) ==> id.0 == old(self).next_id() && final(self).entries()
                == old(self).entries().push((id.0, instanced_record(space, placements)))
                && final(self).next_id() == old(self).next_id() + 1 && final(self).epoch()
                == old(self).epoch() + 1 && final(self).links() == old(self).links()
                && final(self).chunks() == old(self).chunks() && final(self).anchored_chunks()
                == old(self).anchored_chunks() && final(self).anchored() == old(self).anchored(),
    {
        if placements as u64 > limit {
            proof {
                reveal_strlit("spawn_many has ");
            }
            return Err(count_error("spawn_many has ", placements as u64, limit));
        }
        Ok(self.spawn_built_instanced(space, placements))
    }

    /// Another instanced entity drawing `prototype`'s mesh, albedo, material
    /// and shadow choice, with no placements yet.
    pub fn spawn_instanced_like(&mut self, prototype: EntityId, space: SpaceId) -> (r: Result<
        EntityId,
        EngineError,
    >)
        requires
            old(self).wf(),
            old(self).next_id() < u64::MAX,
            old(self).epoch() < u64::MAX,
        ensures
            final(self).wf(),
            r is Ok <==> old(self).has(prototype.0) && old(self).record(prototype.0).instanced
                && old(self).record(prototype.0).instance_of is None,
            !old(self).has(prototype.0) ==> (r matches Err(e) && e is UnknownEntity),
            old(self).has(prototype.0) && !old(self).record(prototype.0).instanced ==> (r matches Err(
                e,
            ) && is_invalid_value(
                e,
                entity_message(prototype.0, " was not spawned instanced"@),
            )),
            old(self).has(prototype.0) && old(self).record(prototype.0).instanced && old(
                self,
            ).record(prototype.0).instance_of is Some ==> (r matches Err(e) && is_invalid_value(
                e,
                entity_message(prototype.0, " is already a like-entity; instance the prototype"@),
            )),
            r is Err ==> *final(self) == *old(self),
            r matches Ok(id) ==> final(self).spawned_like(old(self), prototype, space, id),
    {
        let k = match self.find(prototype.0) {
            Some(k) => k,
            None => return Err(EngineError::UnknownEntity),
        };
        let src = self.entries[k].1;
        if !src.instanced {
            proof {
                reveal_strlit(" was not spawned instanced");
            }
            return Err(entity_error(prototype.0, " was not spawned instanced"));
        }
        if src.instance_of.is_some() {
            proof {
                reveal_strlit(" is already a like-entity; instance the prototype");
            }
            return Err(entity_error(prototype.0, " is already a like-entity; instance the prototype"));
        }
        Ok(self.push_entity(EntityRecord {
            instanced: true,
            instance_of: Some(prototype),
            casts_shadow: src.casts_shadow,
            space,
            material: src.material,
            albedo: src.albedo,
            placements: 0,
            instance_reserve: 0,
            xform_rev: 1,
        }))
    }

    /// Spawn a single-mesh entity in `space`.
    pub fn spawn_built(&mut self, space: SpaceId) -> (id: EntityId)
        requires
            old(self).wf(),
            old(self).next_id() < u64::MAX,
            old(self).epoch() < u64::MAX,
        ensures
            final(self).wf(),
            id.0 == old(self).next_id(),
            !old(self).has(id.0),
            final(self).entries() == old(self).entries().push((id.0, plain_record(space))),
            final(self).next_id() == old(self).next_id() + 1,
            final(self).epoch() == old(self).epoch() + 1,
            final(self).links() == old(self).links(),
            final(self).chunks() == old(self).chunks(),
            final(self).anchored_chunks() == old(self).anchored_chunks(),
            final(self).anchored() == old(self).anchored(),
            final(self).submit() == old(self).submit(),
    {
        self.push_entity(EntityRecord {
            instanced: false,
            instance_of: None,
            casts_shadow: true,
            space,
            material: None,
            albedo: None,
            placements: 0,
            instance_reserve: 0,
            xform_rev: 1,
        })
    }

    /// Spawn an instanced entity in `space` with `placements` instances.
    pub fn spawn_built_instanced(&mut self, space: SpaceId, placements: usize) -> (id: EntityId)
        requires
            old(self).wf(),
            old(self).next_id() < u64::MAX,
            old(self).epoch() < u64::MAX,
        ensures
            final(self).wf(),
            !old(self).has(id.0),
            final(self).spawned_instanced(old(self), space, placements, id),
    {
        self.push_entity(EntityRecord {
            instanced: true,
            instance_of: None,
            casts_shadow: true,
            space,
            material: None,
            albedo: None,
            placements,
            instance_reserve: placements,
            xform_rev: 1,
        })
    }
}

/// Reading an entity back after its record was rewritten gives the record
/// that was written.
pub proof fn record_reads_back_what_was_written<V: Copy>(
    before: &EntityRegistry<V>,
    after: &EntityRegistry<V>,
    id: u64,
    rec: EntityRecord,
)
    requires
        before.wf(),
        after.wf(),
        before.has(id),
        after.entries() == before.with_record(id, rec),
    ensures
        after.has(id),
        after.record(id) == rec,
{
    let k = before.slot(id);
    assert(after.entries()[k] == (id, rec));
    let j = after.slot(id);
    if j < k {
        assert(after.entries()[j].0 < after.entries()[k].0);
    } else if j > k {
        assert(after.entries()[k].0 < after.entries()[j].0);
    }
}

/// Unlinking the pair just linked gives back the portals there were.
pub proof fn unlink_undoes_link<V: Copy>(
    before: &EntityRegistry<V>,
    linked: Seq<PortalLink<V>>,
    unlinked: Seq<PortalLink<V>>,
    a: EntityId,
    b: EntityId,
    a_spans: bool,
    b_spans: bool,
    view: V,
)
    requires
        before.wf(),
        link_allowed(before, a.0, b.0, a_spans, b_spans),
        linked == before.links().push(PortalLink { a, b, view }),
        unlinked == linked.filter(|p: PortalLink<V>| !joins(p, a.0, b.0)),
    ensures
        unlinked == before.links(),
{
    let keep = |p: PortalLink<V>| !joins(p, a.0, b.0);
    let p0 = before.links();
    assert forall|i: int| 0 <= i < p0.len() implies keep(#[trigger] p0[i]) by {
        if joins(p0[i], a.0, b.0) {
            assert(involves(p0[i], a.0));
        }
    }
    lemma_filter_all(p0, keep);
    reveal_with_fuel(Seq::filter, 1);
    assert(linked.drop_last() =~= p0);
}

/// A despawned handle is gone and below every handle spawned later, so it
/// is never issued again.
pub proof fn despawned_handles_are_not_reissued<V: Copy>(
    before: &EntityRegistry<V>,
    after: &EntityRegistry<V>,
    id: u64,
)
    requires
        before.wf(),
        after.wf(),
        before.has(id),
        after.despawned(before, id),
    ensures
        !after.has(id),
        id < after.next_id(),
{
    let k = before.slot(id);
    assert(before.entries()[k].0 < before.next_id());
    if after.has(id) {
        let j = after.slot(id);
        lemma_filter_contains_iff(before.entries(), other_entry(id), after.entries()[j]);
    }
}

/// An entity pushed onto a registry reads back as pushed, and every entity
/// that was there reads back unchanged.
proof fn lemma_pushed_record<V: Copy>(
    before: &EntityRegistry<V>,
    after: &EntityRegistry<V>,
    id: u64,
    rec: EntityRecord,
    k: u64,
)
    requires
        after.wf(),
        after.entries() == before.entries().push((id, rec)),
    ensures
        after.has(id),
        after.record(id) == rec,
        before.has(k) ==> after.has(k) && after.record(k) == before.record(k),
{
    let n = before.entries().len();
    assert(after.entries()[n as int] == (id, rec));
    let j = after.slot(id);
    if j < n {
        assert(after.entries()[j].0 < after.entries()[n as int].0);
    }
    if before.has(k) {
        let i = before.slot(k);
        assert(after.entries()[i] == before.entries()[i]);
        let m = after.slot(k);
        if m < i {
            assert(after.entries()[m].0 < after.entries()[i].0);
        } else if m > i {
            assert(after.entries()[i].0 < after.entries()[m].0);
        }
    }
}

/// A prototype spawned instanced, whether or not its shadow choice was
/// changed afterwards, can be instanced again; the like-entity that comes
/// out draws the prototype's mesh, albedo, material and shadow choice, is
/// instanced with no placements, and, being a like-entity itself, cannot be
/// instanced in its turn.
pub proof fn like_entities_share_their_prototype<V: Copy>(
    w0: &EntityRegistry<V>,
    w1: &EntityRegistry<V>,
    w2: &EntityRegistry<V>,
    w3: &EntityRegistry<V>,
    space: SpaceId,
    placements: usize,
    proto: EntityId,
    casts: Option<bool>,
    like_space: SpaceId,
    like: EntityId,
)
    requires
        w0.wf(),
        w1.wf(),
        w1.spawned_instanced(w0, space, placements, proto),
        match casts {
            None => *w2 == *w1,
            Some(c) => w2.wf() && w2.shadow_choice_set(w1, proto, c),
        },
        w3.wf(),
        w3.spawned_like(w2, proto, like_space, like),
    ensures
        w2.has(proto.0),
        w2.record(proto.0).instanced,
        w2.record(proto.0).instance_of is None,
        w3.has(like.0),
        w3.record(like.0).instance_of == Some(proto),
        w3.record(like.0).instanced,
        w3.record(like.0).placements == 0,
        w3.record(like.0).casts_shadow == w3.record(proto.0).casts_shadow,
        w3.record(like.0).material == w3.record(proto.0).material,
        w3.record(like.0).albedo == w3.record(proto.0).albedo,
        w3.record(proto.0).casts_shadow == match casts {
            None => true,
            Some(c) => c,
        },
{
    lemma_pushed_record(w0, w1, proto.0, instanced_record(space, placements), proto.0);
    match casts {
        None => {},
        Some(c) => {
            record_reads_back_what_was_written(
                w1,
                w2,
                proto.0,
                EntityRecord { casts_shadow: c, ..w1.record(proto.0) },
            );
        },
    }
    let src = w2.record(proto.0);
    let rec = EntityRecord {
        instance_of: Some(proto),
        material: src.material,
        albedo: src.albedo,
        casts_shadow: src.casts_shadow,
        ..instanced_record(like_space, 0)
    };
    lemma_pushed_record(w2, w3, like.0, rec, proto.0);
}

} // verus!
