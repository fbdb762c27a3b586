use engine::error::{invalid_value, resource_limit, EngineError};
use engine::instance_cull::{
    indirect_records, next_power_of_two, workgroups_for, CullDraws, CullParamSlots,
    WORKGROUP,
};
use engine::render::{mesh_submit, GpuFrameStats, MeshSubmit};
use engine::space::{ChunkCoord, ChunkId, ChunkLayer};
use engine::text::{decimal_string, push_bool, push_decimal};
use engine::tree::{hash, LeafKind, TreeKind, TreeLod, TreeSettings};
use engine::world::{same_material, EntityId, InstanceSubmit, SurfaceMaterialRef};
use engine::texture::{MaterialId, WaterMaterialId};
use std::collections::HashSet;

#[test]
fn chunk_distances_are_chebyshev_and_manhattan() {
    let a = ChunkCoord::new(2, -3);
    let b = ChunkCoord::new(-1, 1);
    assert_eq!(a.ring_distance(b), 4);
    assert_eq!(b.ring_distance(a), 4);
    assert_eq!(a.walk_distance(b), 7);
    assert_eq!(a.ring_distance(a), 0);
    assert_eq!(a.walk_distance(a), 0);
}

#[test]
fn offset_moves_by_its_own_distance() {
    let c = ChunkCoord::new(5, 5);
    let moved = c.offset(-3, 2);
    assert_eq!(moved, ChunkCoord::new(2, 7));
    assert_eq!(c.ring_distance(moved), 3);
    assert_eq!(c.walk_distance(moved), 5);
}

#[test]
fn chunk_layers_draw_land_before_water() {
    assert_eq!(ChunkLayer::all(), [ChunkLayer::Land, ChunkLayer::Water]);
    let id = ChunkId::new(ChunkCoord::new(1, 2), ChunkLayer::Water);
    assert_eq!(id.coord, ChunkCoord::new(1, 2));
    assert_eq!(id.layer, ChunkLayer::Water);
}

#[test]
fn tree_hash_matches_known_values() {
    assert_eq!(hash(0, 0), 0);
    assert_eq!(hash(1, 0), 2473152308);
    assert_eq!(hash(0, 1), 2247091509);
    assert_eq!(hash(7, 3), 4208611678);
    assert_eq!(hash(123456, 789), 644040224);
}

#[test]
fn species_grow_their_leaf_shapes() {
    assert_eq!(TreeKind::Oak.leaf_kind(), LeafKind::Broad);
    assert_eq!(TreeKind::Beech.leaf_kind(), LeafKind::Broad);
    assert_eq!(TreeKind::Birch.leaf_kind(), LeafKind::Pointed);
    assert_eq!(TreeKind::Pine.leaf_kind(), LeafKind::Needle);
    assert_eq!(TreeKind::Spruce.leaf_kind(), LeafKind::Needle);
    assert_eq!(TreeKind::Willow.leaf_kind(), LeafKind::Willow);
}

#[test]
fn tree_settings_start_at_full_detail() {
    assert_eq!(TreeLod::Hero.level(), 0);
    assert_eq!(TreeLod::Mid.level(), 1);
    assert_eq!(TreeLod::Far.level(), 2);
    let s = TreeSettings::new(TreeKind::Birch, 9);
    assert_eq!((s.kind, s.seed, s.lod), (TreeKind::Birch, 9, TreeLod::Hero));
    let far = s.with_lod(TreeLod::Far);
    assert_eq!((far.kind, far.seed, far.lod), (TreeKind::Birch, 9, TreeLod::Far));
    assert_eq!(TreeSettings::broadleaf(3).kind, TreeKind::Oak);
    assert_eq!(TreeSettings::conifer(3).kind, TreeKind::Pine);
}

#[test]
fn decimal_text_matches_rust_formatting() {
    for n in [0u64, 7, 10, 99, 100, 4096, 18446744073709551615] {
        assert_eq!(decimal_string(n), format!("{}", n));
    }
    let mut s = String::from("x=");
    push_decimal(&mut s, 305);
    push_bool(&mut s, false);
    push_bool(&mut s, true);
    assert_eq!(s, "x=305falsetrue");
}

#[test]
fn entity_handles_print_their_number() {
    assert_eq!(EntityId(0).to_text(), "0");
    assert_eq!(EntityId(42).to_text(), "42");
}

#[test]
fn submit_paths_have_stable_names() {
    assert_eq!(InstanceSubmit::CpuIndexed.as_str(), "cpu_indexed");
    assert_eq!(InstanceSubmit::GpuIndirect.as_str(), "gpu_indirect");
    assert_eq!(InstanceSubmit::default(), InstanceSubmit::CpuIndexed);
}

#[test]
fn material_choices_compare_by_kind_and_handle() {
    let t1 = Some(SurfaceMaterialRef::Terrain(MaterialId(1)));
    let t2 = Some(SurfaceMaterialRef::Terrain(MaterialId(2)));
    let w1 = Some(SurfaceMaterialRef::Water(WaterMaterialId(1)));
    assert!(same_material(None, None));
    assert!(same_material(t1, t1));
    assert!(!same_material(t1, t2));
    assert!(!same_material(t1, w1));
    assert!(!same_material(t1, None));
}

#[test]
fn hitch_log_lines_list_every_counter() {
    let mut s = GpuFrameStats::default();
    assert_eq!(
        s.sync_line(),
        "mesh_new=0 rebuild=0 inst=0 batches=0 batch_rewrites=0 skinned_new=0 skinned_model=0 pose=0 entities=0 animated=0"
    );
    assert_eq!(
        s.draw_line(),
        "shadow_atlas=false submit=cpu_indexed inside=0 boundary=0 tested=0 groups=0 indirect=0"
    );
    s.mesh_new = 3;
    s.mesh_rebuild = 1;
    s.entities = 120;
    s.animated = 4;
    s.shadow_atlas = true;
    s.instance_submit = InstanceSubmit::GpuIndirect;
    s.direct_inside_batches = 2;
    s.boundary_batches = 5;
    s.cull_instances = 1000;
    s.cull_workgroups = 16;
    s.indirect_draws = 7;
    assert_eq!(
        s.sync_line(),
        "mesh_new=3 rebuild=1 inst=0 batches=0 batch_rewrites=0 skinned_new=0 skinned_model=0 pose=0 entities=120 animated=4"
    );
    assert_eq!(
        s.draw_line(),
        "shadow_atlas=true submit=gpu_indirect inside=2 boundary=5 tested=1000 groups=16 indirect=7"
    );
}

#[test]
fn compacted_entities_draw_from_the_compacted_buffer() {
    let mut compacted = HashSet::new();
    compacted.insert(5u64);
    assert_eq!(mesh_submit(&compacted, EntityId(5)), MeshSubmit::Compacted);
    assert_eq!(mesh_submit(&compacted, EntityId(6)), MeshSubmit::Direct);
}

#[test]
fn workgroups_cover_every_instance() {
    assert_eq!(WORKGROUP, 64);
    assert_eq!(workgroups_for(0), 0);
    assert_eq!(workgroups_for(1), 1);
    assert_eq!(workgroups_for(64), 1);
    assert_eq!(workgroups_for(65), 2);
    assert_eq!(workgroups_for(1000), 16);
}

#[test]
fn indirect_records_split_opaque_and_translucent_ranges() {
    let [opaque, rest] = indirect_records(36, 60);
    assert_eq!((opaque.index_count, opaque.first_index, opaque.instance_count), (36, 0, 0));
    assert_eq!((rest.index_count, rest.first_index, rest.instance_count), (24, 36, 0));
    assert_eq!(CullDraws::OpaqueOnly.slots(), 1);
    assert_eq!(CullDraws::OpaqueAndTranslucent.slots(), 2);
}

#[test]
fn powers_of_two_round_up() {
    assert_eq!(next_power_of_two(1), 1);
    assert_eq!(next_power_of_two(2), 2);
    assert_eq!(next_power_of_two(3), 4);
    assert_eq!(next_power_of_two(17), 32);
    assert_eq!(next_power_of_two(64), 64);
}

#[test]
fn cull_param_slots_grow_and_are_never_shared_in_a_frame() {
    let mut slots = CullParamSlots::new(48, 256);
    assert_eq!(slots.stride_bytes(), 256);
    assert_eq!(slots.slot_capacity(), 1);
    assert_eq!(slots.begin_frame(0), None);
    assert_eq!(slots.begin_frame(5), Some(8));
    assert_eq!(slots.slot_capacity(), 8);
    let a = slots.take(2);
    let b = slots.take(3);
    assert_eq!((a, b), (0, 2));
    assert_eq!(slots.remaining(), 3);
    assert_eq!(slots.begin_frame(8), None);
    assert_eq!(slots.take(1), 0);
}

#[test]
fn error_constructors_carry_their_messages() {
    match invalid_value("bad radius") {
        EngineError::InvalidValue(m) => assert_eq!(m, "bad radius"),
        other => panic!("unexpected {:?}", other),
    }
    match resource_limit("pool full") {
        EngineError::ResourceLimit(m) => assert_eq!(m, "pool full"),
        other => panic!("unexpected {:?}", other),
    }
}
