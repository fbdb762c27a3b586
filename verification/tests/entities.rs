use engine::entities::{chunk_material, EntityRegistry};
use engine::error::EngineError;
use engine::resources::{Resources, TerrainLayers};
use engine::space::{ChunkCoord, ChunkId, ChunkLayer};
use engine::spaces::{SpaceId, Spaces};
use engine::texture::{generate_terrain_albedo, MaterialId, TerrainAlbedo, TextureId, WaterMaterialId};
use engine::world::{EntityId, InstanceSubmit, SurfaceMaterialRef};

const LIMIT: u64 = 1_000_000;

fn outdoors() -> SpaceId {
    SpaceId(0)
}

fn message(e: EngineError) -> String {
    match e {
        EngineError::InvalidValue(m) | EngineError::ResourceLimit(m) | EngineError::InvalidMesh(m) => m,
        other => panic!("expected a message, got {other:?}"),
    }
}

#[test]
fn a_scatter_layer_reuses_its_mesh_when_the_placements_change() {
    let mut world: EntityRegistry<()> = EntityRegistry::new();
    let id = world.spawn_built_instanced(outdoors(), 0);
    assert_eq!(world.entity(id).unwrap().placements, 0);

    world.set_instances(id, 3, LIMIT).unwrap();
    assert_eq!(world.entity(id).unwrap().placements, 3);

    // Emptying the set hides the layer instead of dropping it back to one copy
    // sitting at the origin.
    world.set_instances(id, 0, LIMIT).unwrap();
    let e = world.entity(id).unwrap();
    assert!(e.instanced && e.placements == 0);
}

#[test]
fn moving_or_scattering_an_entity_bumps_xform_rev() {
    let mut world: EntityRegistry<()> = EntityRegistry::new();
    let id = world.spawn_built(outdoors());
    let rev = world.entity(id).unwrap().xform_rev;
    world.set_place(id).unwrap();
    assert_ne!(world.entity(id).unwrap().xform_rev, rev);

    let scatter = world.spawn_built_instanced(outdoors(), 0);
    let rev = world.entity(scatter).unwrap().xform_rev;
    world.set_instances(scatter, 1, LIMIT).unwrap();
    assert_ne!(world.entity(scatter).unwrap().xform_rev, rev);
}

#[test]
fn spawn_instanced_like_shares_albedo_and_owns_no_mesh() {
    let mut world: EntityRegistry<()> = EntityRegistry::new();
    let proto = world.spawn_built_instanced(outdoors(), 0);
    world.attach_albedo(proto, TextureId(9));
    let like = world.spawn_instanced_like(proto, outdoors()).expect("like");
    assert_eq!(world.entity(like).unwrap().instance_of, Some(proto));
    assert_eq!(world.entity(like).unwrap().albedo, Some(TextureId(9)));
    assert!(world.entity(like).unwrap().instanced);
    world.set_instances(like, 1, LIMIT).unwrap();
    assert_eq!(world.entity(like).unwrap().placements, 1);
    assert!(world.spawn_instanced_like(like, outdoors()).is_err());
}

#[test]
fn placing_instances_on_a_plain_entity_is_an_error() {
    let mut world: EntityRegistry<()> = EntityRegistry::new();
    let id = world.spawn_built(outdoors());
    assert!(world.set_instances(id, 1, LIMIT).is_err());
}

#[test]
fn like_entities_inherit_whether_they_cast_shadow() {
    let mut world: EntityRegistry<()> = EntityRegistry::new();
    let proto = world.spawn_built_instanced(outdoors(), 0);
    world.set_casts_shadow(proto, false).expect("proto");
    let like = world.spawn_instanced_like(proto, outdoors()).expect("like");
    assert!(!world.entity(like).expect("like").casts_shadow);
    let caster = world.spawn_built_instanced(outdoors(), 0);
    let like_cast = world.spawn_instanced_like(caster, outdoors()).expect("caster like");
    assert!(world.entity(like_cast).expect("caster like").casts_shadow);
}

fn albedo(res: &mut Resources<(), ()>, kind: TerrainAlbedo, seed: u32) -> TextureId {
    let (w, h, rgba) = generate_terrain_albedo(kind, 16, seed);
    res.create_texture_rgba(w, h, rgba).unwrap()
}

#[test]
fn translucent_chunk_layers_become_water_and_opaque_ones_ground() {
    let mut res: Resources<(), ()> = Resources::new();
    let grass = albedo(&mut res, TerrainAlbedo::Grass, 1);
    let grass_dry = albedo(&mut res, TerrainAlbedo::GrassDry, 4);
    let grass_moor = albedo(&mut res, TerrainAlbedo::GrassMoor, 5);
    let mud = albedo(&mut res, TerrainAlbedo::Mud, 6);
    let tundra = albedo(&mut res, TerrainAlbedo::Tundra, 7);
    let scree = albedo(&mut res, TerrainAlbedo::Scree, 8);
    let sand = albedo(&mut res, TerrainAlbedo::Sand, 2);
    let rock = albedo(&mut res, TerrainAlbedo::Rock, 3);
    let layers = TerrainLayers { grass, grass_dry, grass_moor, mud, tundra, scree, sand, rock };
    // Every albedo is required; an unset one is refused, not replaced.
    assert!(matches!(
        res.create_terrain_material(TerrainLayers { mud: TextureId(0), ..layers }, true, ()),
        Err(EngineError::UnknownTexture)
    ));
    let ground = res.create_terrain_material(layers, true, ()).unwrap();
    let water = res.create_water_material(true, ()).unwrap();
    res.set_default_terrain_material(Some(ground));
    res.set_default_water_material(Some(water));

    let mut world: EntityRegistry<()> = EntityRegistry::new();
    let coord = ChunkCoord::new(0, 0);
    // A unit quad: two opaque triangles.
    let land = world.set_anchored_chunk(&res, ChunkId::new(coord, ChunkLayer::Land), outdoors(), 6, 6);
    // One half-transparent triangle.
    let wet = world.set_anchored_chunk(&res, ChunkId::new(coord, ChunkLayer::Water), outdoors(), 3, 0);

    assert_eq!(world.entity(land).unwrap().material, Some(SurfaceMaterialRef::Terrain(ground)));
    assert_eq!(world.entity(wet).unwrap().material, Some(SurfaceMaterialRef::Water(water)));
}

#[test]
fn handles_count_up_from_one_and_are_not_reused() {
    let mut world: EntityRegistry<()> = EntityRegistry::new();
    let a = world.spawn_built(outdoors());
    let b = world.spawn_built(outdoors());
    assert_eq!((a, b), (EntityId(1), EntityId(2)));
    assert_eq!(world.entity_count(), 2);
    world.despawn(a);
    assert_eq!(world.entity_count(), 1);
    assert!(matches!(world.entity(a), Err(EngineError::UnknownEntity)));
    let c = world.spawn_built(outdoors());
    assert_eq!(c, EntityId(3));
    assert_eq!(world.order(), vec![b, c]);
    let skinned = world.issue_handle();
    assert_eq!(skinned, EntityId(4));
    assert_eq!(world.spawn_built(outdoors()), EntityId(5));
}

#[test]
fn the_render_epoch_moves_only_when_something_changed() {
    let mut world: EntityRegistry<()> = EntityRegistry::new();
    assert_eq!(world.render_epoch(), 1);
    let id = world.spawn_built(outdoors());
    assert_eq!(world.render_epoch(), 2);
    world.set_casts_shadow(id, true).unwrap();
    assert_eq!(world.render_epoch(), 2);
    world.set_casts_shadow(id, false).unwrap();
    assert_eq!(world.render_epoch(), 3);
    world.despawn(EntityId(77));
    assert_eq!(world.render_epoch(), 3);
    world.despawn(id);
    assert_eq!(world.render_epoch(), 4);
}

#[test]
fn like_entities_refuse_plain_and_like_prototypes() {
    let mut world: EntityRegistry<()> = EntityRegistry::new();
    let plain = world.spawn_built(outdoors());
    assert_eq!(
        message(world.spawn_instanced_like(plain, outdoors()).unwrap_err()),
        "entity 1 was not spawned instanced"
    );
    let proto = world.spawn_built_instanced(outdoors(), 2);
    let like = world.spawn_instanced_like(proto, outdoors()).unwrap();
    assert_eq!(
        message(world.spawn_instanced_like(like, outdoors()).unwrap_err()),
        "entity 3 is already a like-entity; instance the prototype"
    );
    assert!(matches!(
        world.spawn_instanced_like(EntityId(40), outdoors()),
        Err(EngineError::UnknownEntity)
    ));
}

#[test]
fn instance_counts_over_the_limit_are_refused() {
    let mut world: EntityRegistry<()> = EntityRegistry::new();
    assert_eq!(
        message(world.spawn_many(outdoors(), 5, 4).unwrap_err()),
        "spawn_many has 5 instances (limit 4)"
    );
    assert_eq!(world.entity_count(), 0);
    let id = world.spawn_many(outdoors(), 4, 4).unwrap();
    assert_eq!(world.entity(id).unwrap().placements, 4);
    assert_eq!(world.entity(id).unwrap().instance_reserve, 4);
    assert_eq!(
        message(world.set_instances(id, 9, 8).unwrap_err()),
        "set_instances has 9 instances (limit 8)"
    );
    assert_eq!(
        message(world.reserve_instances(id, 12, 10).unwrap_err()),
        "reserve_instances requested 12 instances (limit 10)"
    );
}

#[test]
fn reserving_grows_but_never_shrinks_a_batch_slot() {
    let mut world: EntityRegistry<()> = EntityRegistry::new();
    let id = world.spawn_built_instanced(outdoors(), 2);
    let epoch = world.render_epoch();
    world.reserve_instances(id, 1, LIMIT).unwrap();
    assert_eq!(world.entity(id).unwrap().instance_reserve, 2);
    assert_eq!(world.render_epoch(), epoch);
    world.reserve_instances(id, 10, LIMIT).unwrap();
    assert_eq!(world.entity(id).unwrap().instance_reserve, 10);
    assert_eq!(world.render_epoch(), epoch + 1);
    let plain = world.spawn_built(outdoors());
    assert_eq!(
        message(world.reserve_instances(plain, 3, LIMIT).unwrap_err()),
        "entity 2 was not spawned instanced; it cannot reserve instances"
    );
    assert_eq!(
        message(world.set_instances(plain, 3, LIMIT).unwrap_err()),
        "entity 2 was not spawned instanced; use set_place"
    );
}

#[test]
fn portals_link_once_and_unlink_in_either_order() {
    let mut world: EntityRegistry<u8> = EntityRegistry::new();
    let a = world.spawn_built(outdoors());
    let b = world.spawn_built(outdoors());
    let c = world.spawn_built(outdoors());
    assert_eq!(
        message(world.link(a, a, true, true, 0).unwrap_err()),
        "a portal cannot link an opening to itself"
    );
    assert_eq!(
        message(world.link(a, b, false, true, 0).unwrap_err()),
        "entity 1 has no XY extent to use as an opening"
    );
    assert_eq!(
        message(world.link(a, b, true, false, 0).unwrap_err()),
        "entity 2 has no XY extent to use as an opening"
    );
    assert!(matches!(world.link(a, EntityId(99), true, true, 0), Err(EngineError::UnknownEntity)));
    world.link(a, b, true, true, 7).unwrap();
    assert!(world.is_portal_surface(a) && world.is_portal_surface(b));
    assert!(!world.is_portal_surface(c));
    assert_eq!(world.portals().len(), 1);
    assert_eq!(world.portals()[0].view, 7);
    assert_eq!(
        message(world.link(b, c, true, true, 0).unwrap_err()),
        "opening is already linked"
    );
    assert_eq!(
        message(world.unlink(a, c).unwrap_err()),
        "those openings are not linked"
    );
    world.unlink(b, a).unwrap();
    assert!(world.portals().is_empty());
    assert!(!world.is_portal_surface(a));
}

#[test]
fn an_instanced_entity_cannot_be_an_opening() {
    let mut world: EntityRegistry<()> = EntityRegistry::new();
    let a = world.spawn_built(outdoors());
    let scatter = world.spawn_built_instanced(outdoors(), 1);
    assert_eq!(
        message(world.link(a, scatter, true, true, ()).unwrap_err()),
        "entity 2 is instanced; openings must be a single mesh"
    );
}

#[test]
fn despawning_an_opening_unlinks_its_portal() {
    let mut world: EntityRegistry<()> = EntityRegistry::new();
    let a = world.spawn_built(outdoors());
    let b = world.spawn_built(outdoors());
    world.link(a, b, true, true, ()).unwrap();
    world.despawn(b);
    assert!(world.portals().is_empty());
    assert!(!world.is_portal_surface(a));
    assert!(world.contains_entity(a));
}

#[test]
fn remeshing_a_chunk_replaces_its_entity() {
    let res: Resources<(), ()> = Resources::new();
    let mut world: EntityRegistry<()> = EntityRegistry::new();
    let key = (1, 2, 3);
    let first = world.set_chunk_built(&res, key, outdoors(), 6, 6);
    assert!(world.has_chunk(key));
    let second = world.set_chunk_built(&res, key, outdoors(), 6, 6);
    assert_ne!(first, second);
    assert!(!world.contains_entity(first));
    assert_eq!(world.entity_count(), 1);
    world.clear_chunk(key);
    assert!(!world.has_chunk(key));
    assert_eq!(world.entity_count(), 0);
}

#[test]
fn clearing_anchored_chunks_despawns_each_entity() {
    let res: Resources<(), ()> = Resources::new();
    let mut world: EntityRegistry<()> = EntityRegistry::new();
    let keep = world.spawn_built(outdoors());
    for x in 0..3 {
        world.set_anchored_chunk(&res, ChunkId::new(ChunkCoord::new(x, 0), ChunkLayer::Land), outdoors(), 6, 6);
    }
    assert_eq!(world.anchored_chunk_count(), 3);
    assert_eq!(world.entity_count(), 4);
    let epoch = world.render_epoch();
    world.clear_anchored_chunks();
    assert_eq!(world.anchored_chunk_count(), 0);
    assert_eq!(world.entity_count(), 1);
    assert!(world.contains_entity(keep));
    assert_eq!(world.render_epoch(), epoch + 3);
    let id = ChunkId::new(ChunkCoord::new(0, 0), ChunkLayer::Land);
    assert!(!world.has_anchored_chunk(id));
}

#[test]
fn chunk_layers_get_ground_water_or_nothing() {
    let mut res: Resources<(), ()> = Resources::new();
    assert_eq!(chunk_material(&res, 6, 6), None);
    res.set_default_terrain_material(Some(MaterialId(3)));
    res.set_default_water_material(Some(WaterMaterialId(4)));
    assert_eq!(chunk_material(&res, 0, 0), None);
    assert_eq!(chunk_material(&res, 6, 6), Some(SurfaceMaterialRef::Terrain(MaterialId(3))));
    assert_eq!(chunk_material(&res, 6, 0), Some(SurfaceMaterialRef::Water(WaterMaterialId(4))));
    assert_eq!(chunk_material(&res, 6, 3), None);
}

#[test]
fn moving_an_entity_to_an_unknown_space_is_refused() {
    let mut spaces = Spaces::new();
    let cave = spaces.space("cave").unwrap();
    let mut world: EntityRegistry<()> = EntityRegistry::new();
    let id = world.spawn_built(outdoors());
    assert_eq!(
        message(world.set_space(&spaces, id, SpaceId(7)).unwrap_err()),
        "unknown space 7"
    );
    assert!(matches!(world.set_space(&spaces, EntityId(50), cave), Err(EngineError::UnknownEntity)));
    let epoch = world.render_epoch();
    world.set_space(&spaces, id, cave).unwrap();
    assert_eq!(world.entity(id).unwrap().space, cave);
    assert_eq!(world.render_epoch(), epoch + 1);
    world.set_space(&spaces, id, cave).unwrap();
    assert_eq!(world.render_epoch(), epoch + 1);
}

#[test]
fn an_entity_material_must_exist() {
    let mut res: Resources<(), ()> = Resources::new();
    let water = res.create_water_material(true, ()).unwrap();
    let mut world: EntityRegistry<()> = EntityRegistry::new();
    let id = world.spawn_built(outdoors());
    assert!(matches!(
        world.set_entity_material(&res, id, Some(SurfaceMaterialRef::Terrain(MaterialId(99)))),
        Err(EngineError::UnknownMaterial)
    ));
    world.set_entity_material(&res, id, Some(SurfaceMaterialRef::Water(water))).unwrap();
    assert_eq!(world.entity(id).unwrap().material, Some(SurfaceMaterialRef::Water(water)));
}

#[test]
fn only_anchored_entities_move_by_global_place() {
    let mut world: EntityRegistry<()> = EntityRegistry::new();
    let plain = world.spawn_built(outdoors());
    let pinned = world.spawn_anchored(outdoors());
    assert!(world.check_anchored(pinned).is_ok());
    assert_eq!(
        message(world.check_anchored(plain).unwrap_err()),
        "entity 1 is not anchored; use set_place for render-space entities"
    );
    let before = world.entity(pinned).unwrap().xform_rev;
    let plain_before = world.entity(plain).unwrap().xform_rev;
    world.rebase();
    assert_eq!(world.entity(pinned).unwrap().xform_rev, before + 1);
    assert_eq!(world.entity(plain).unwrap().xform_rev, plain_before);
}

#[test]
fn instance_submit_defaults_to_cpu_and_switches_explicitly() {
    let mut world: EntityRegistry<()> = EntityRegistry::new();
    assert_eq!(world.instance_submit(), InstanceSubmit::CpuIndexed);
    world.set_instance_submit(InstanceSubmit::GpuIndirect);
    assert_eq!(world.instance_submit(), InstanceSubmit::GpuIndirect);
    world.set_instance_submit(InstanceSubmit::CpuIndexed);
    assert_eq!(world.instance_submit(), InstanceSubmit::CpuIndexed);
}

#[test]
fn switching_the_submit_path_moves_the_render_epoch_once() {
    let mut world: EntityRegistry<()> = EntityRegistry::new();
    let e0 = world.render_epoch();
    world.set_instance_submit(InstanceSubmit::CpuIndexed);
    assert_eq!(world.render_epoch(), e0);
    world.set_instance_submit(InstanceSubmit::GpuIndirect);
    assert_eq!(world.render_epoch(), e0 + 1);
    world.set_instance_submit(InstanceSubmit::GpuIndirect);
    assert_eq!(world.render_epoch(), e0 + 1);
}
