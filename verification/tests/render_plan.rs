use engine::entities::{EntityRecord, EntityRegistry};
use engine::instance_cull::CullDraws;
use engine::render::MeshSubmit;
use engine::render_plan::{
    batch_sources, bucket_passes, collect_draws, cull_draws_for, cull_job_budget, cull_stats,
    distinct_in_order, main_culls, mesh_sync, residency_plan, shadow_culls, sync_order,
    BatchFault, CachedMesh, InstanceBatches, MeshDraw, MeshSync,
    ShadowBatch, ShadowCandidate, Visibility,
};
use engine::spaces::SpaceId;
use engine::texture::{MaterialId, WaterMaterialId};
use engine::world::{EntityId, InstanceSubmit, SurfaceMaterialRef};

fn mesh(id: u64, opaque: usize, total: usize, material: Option<SurfaceMaterialRef>) -> MeshDraw {
    MeshDraw { id, instanced: false, drawable: true, opaque_index_count: opaque, index_count: total, material }
}

#[test]
fn meshes_are_bucketed_by_material_and_opacity() {
    let ground = Some(SurfaceMaterialRef::Terrain(MaterialId(1)));
    let water = Some(SurfaceMaterialRef::Water(WaterMaterialId(2)));
    let meshes = vec![
        mesh(1, 6, 6, None),
        mesh(2, 6, 9, None),
        mesh(3, 6, 9, ground),
        mesh(4, 3, 9, water),
        mesh(5, 6, 6, water),
        MeshDraw { drawable: false, ..mesh(6, 6, 6, None) },
    ];
    let l = bucket_passes(&meshes);
    assert_eq!(l.opaque, vec![1, 2]);
    assert_eq!(l.terrain, vec![3]);
    assert_eq!(l.transparent, vec![2, 3]);
    // A water sheet is drawn only in the water pass, and only its translucent part.
    assert_eq!(l.water, vec![4]);
}

#[test]
fn gpu_batches_take_instanced_entities_out_of_the_entity_walk() {
    let plain = mesh(1, 6, 6, None);
    let scatter = MeshDraw { instanced: true, ..mesh(2, 6, 6, None) };
    let batches = vec![mesh(2, 6, 6, None), mesh(2, 6, 6, None), mesh(7, 0, 3, None)];
    let d = collect_draws(&vec![plain, scatter], &batches, true);
    assert_eq!(d.entities.opaque, vec![1]);
    assert_eq!(d.batches.opaque, vec![2]);
    assert_eq!(d.batches.transparent, vec![7]);
    let d = collect_draws(&vec![plain, scatter], &batches, false);
    assert_eq!(d.entities.opaque, vec![1, 2]);
    assert!(d.batches.opaque.is_empty() && d.batches.transparent.is_empty());
}

#[test]
fn main_view_culls_only_straddling_batches() {
    let ids = distinct_in_order(&vec![4, 2, 4, 9, 2]);
    assert_eq!(ids, vec![4, 2, 9]);
    let m = main_culls(&vec![(4, Visibility::Intersecting), (2, Visibility::Inside), (9, Visibility::Intersecting)]);
    assert_eq!(m.compacted, vec![4, 9]);
    assert_eq!(m.inside, 1);
}

#[test]
fn shadow_maps_take_casters_inside_the_light_frustum() {
    let base = ShadowCandidate {
        id: 1,
        instanced: false,
        casts_shadow: true,
        material: None,
        uploaded: true,
        instance_count: 1,
        opaque_index_count: 6,
        visibility: Some(Visibility::Inside),
    };
    let entities = vec![
        base,
        ShadowCandidate { id: 2, material: Some(SurfaceMaterialRef::Terrain(MaterialId(1))), ..base },
        ShadowCandidate { id: 3, visibility: Some(Visibility::Outside), ..base },
        ShadowCandidate { id: 4, visibility: None, ..base },
        ShadowCandidate { id: 5, casts_shadow: false, ..base },
        ShadowCandidate { id: 6, visibility: Some(Visibility::Intersecting), ..base },
    ];
    let batch = ShadowBatch {
        prototype: 10,
        casts_shadow: true,
        material: None,
        instance_count: 3,
        opaque_index_count: 6,
        visibility: Some(Visibility::Inside),
    };
    let batches = vec![
        batch,
        ShadowBatch { prototype: 11, visibility: Some(Visibility::Intersecting), ..batch },
        ShadowBatch { prototype: 12, instance_count: 0, visibility: None, ..batch },
    ];
    let s = shadow_culls(&entities, &batches);
    assert_eq!(s.draws, vec![1, 6]);
    assert_eq!(s.batch_draws, vec![(10, MeshSubmit::Direct), (11, MeshSubmit::Compacted)]);
    assert_eq!(s.compact_batches, vec![11]);
    assert_eq!(s.inside, 1);
}

#[test]
fn cull_counters_and_budgets() {
    assert_eq!(cull_job_budget(5, true), 20);
    assert_eq!(cull_job_budget(5, false), 5);
    assert_eq!(cull_draws_for(true, 6, 9), CullDraws::OpaqueAndTranslucent);
    assert_eq!(cull_draws_for(false, 6, 9), CullDraws::OpaqueOnly);
    assert_eq!(cull_draws_for(true, 9, 9), CullDraws::OpaqueOnly);
    let s = cull_stats(&vec![1, 64, 65, 130]);
    assert_eq!(s.jobs, 4);
    assert_eq!(s.instances, 260);
    assert_eq!(s.workgroups, 1 + 1 + 2 + 3);
}

#[test]
fn instance_batches_rebuild_only_what_changed() {
    let mut world: EntityRegistry<()> = EntityRegistry::new();
    let proto = world.spawn_built_instanced(SpaceId(0), 2);
    let like = world.spawn_instanced_like(proto, SpaceId(0)).unwrap();
    let other = world.spawn_built_instanced(SpaceId(0), 1);
    let mut batches = InstanceBatches::new();

    let first = batches.sync(batch_sources(&world).unwrap());
    assert!(!first.unchanged);
    assert_eq!(first.rebuilt, vec![(proto.0, true), (other.0, true)]);
    assert_eq!(first.batch_count, 2);

    let again = batches.sync(batch_sources(&world).unwrap());
    assert!(again.unchanged);
    assert!(again.rebuilt.is_empty());

    world.set_instances(like, 4, 100).unwrap();
    let moved = batches.sync(batch_sources(&world).unwrap());
    assert_eq!(moved.rebuilt, vec![(proto.0, false)]);
    assert!(moved.dropped.is_empty());

    world.despawn(other);
    let gone = batches.sync(batch_sources(&world).unwrap());
    assert_eq!(gone.dropped, vec![other.0]);
    assert!(gone.rebuilt.is_empty());
    assert_eq!(gone.batch_count, 1);
}

#[test]
fn a_like_entity_whose_prototype_is_gone_is_a_fault() {
    let mut world: EntityRegistry<()> = EntityRegistry::new();
    let proto = world.spawn_built_instanced(SpaceId(0), 1);
    let like = world.spawn_instanced_like(proto, SpaceId(0)).unwrap();
    world.despawn(proto);
    assert_eq!(
        batch_sources(&world).unwrap_err(),
        BatchFault::MissingPrototype { id: like.0, prototype: proto.0 }
    );
    let mut world: EntityRegistry<()> = EntityRegistry::new();
    let proto = world.spawn_built_instanced(SpaceId(0), 1);
    let like = world.spawn_instanced_like(proto, SpaceId(0)).unwrap();
    world.set_casts_shadow(like, false).unwrap();
    assert_eq!(
        batch_sources(&world).unwrap_err(),
        BatchFault::Incompatible { id: like.0, prototype: proto.0 }
    );
}

#[test]
fn caches_upload_what_they_lack_and_evict_what_the_world_dropped() {
    let plan = residency_plan(&vec![1, 2, 5, 7], &vec![7, 3, 1]);
    assert_eq!(plan.upload, vec![2, 5]);
    assert_eq!(plan.evict, vec![3]);
    let same = residency_plan(&vec![4, 9], &vec![9, 4]);
    assert!(same.upload.is_empty() && same.evict.is_empty());
    let empty = residency_plan(&vec![], &vec![6]);
    assert_eq!((empty.upload, empty.evict), (vec![], vec![6]));
}

fn record(instanced: bool, placements: usize, instance_of: Option<u64>, xform_rev: u64) -> EntityRecord {
    EntityRecord {
        instanced,
        instance_of: instance_of.map(EntityId),
        casts_shadow: true,
        space: SpaceId(0),
        material: None,
        albedo: None,
        placements,
        instance_reserve: placements,
        xform_rev,
    }
}

fn cached(vertex_count: usize, index_count: usize, xform_rev: u64) -> Option<CachedMesh> {
    Some(CachedMesh { vertex_count, index_count, xform_rev })
}

#[test]
fn an_emptied_scatter_layer_clears_instances_and_keeps_its_mesh() {
    let empty = record(true, 0, None, 4);
    assert_eq!(mesh_sync(&empty, 8, 12, cached(8, 12, 3)), MeshSync::ClearInstances);
    assert_eq!(mesh_sync(&empty, 8, 12, cached(8, 12, 4)), MeshSync::Keep);
    assert_eq!(mesh_sync(&empty, 8, 12, None), MeshSync::UploadEmpty);
    let empty_like = record(true, 0, Some(1), 4);
    assert_eq!(mesh_sync(&empty_like, 0, 0, None), MeshSync::Keep);
}

#[test]
fn meshes_are_uploaded_shared_rebuilt_or_rewritten() {
    let plain = record(false, 0, None, 2);
    assert_eq!(mesh_sync(&plain, 8, 12, None), MeshSync::Upload);
    assert_eq!(mesh_sync(&plain, 8, 12, cached(8, 12, 2)), MeshSync::Keep);
    assert_eq!(mesh_sync(&plain, 8, 12, cached(8, 12, 1)), MeshSync::RewriteInstances);
    assert_eq!(mesh_sync(&plain, 9, 12, cached(8, 12, 2)), MeshSync::Rebuild);
    let like = record(true, 3, Some(7), 5);
    assert_eq!(mesh_sync(&like, 0, 0, None), MeshSync::ShareVertices(EntityId(7)));
    assert_eq!(mesh_sync(&like, 0, 0, cached(8, 12, 5)), MeshSync::Keep);
    assert_eq!(mesh_sync(&like, 0, 0, cached(8, 12, 4)), MeshSync::RewriteInstances);
}

#[test]
fn prototypes_are_synced_before_like_entities() {
    let mut world: EntityRegistry<()> = EntityRegistry::new();
    let a = world.spawn_built(SpaceId(0));
    let proto = world.spawn_built_instanced(SpaceId(0), 2);
    let like = world.spawn_instanced_like(proto, SpaceId(0)).unwrap();
    let b = world.spawn_built(SpaceId(0));
    assert_eq!(sync_order(&world), vec![a.0, proto.0, b.0, like.0]);
    world.set_instance_submit(InstanceSubmit::GpuIndirect);
    assert_eq!(sync_order(&world), vec![a.0, proto.0, b.0]);
}
