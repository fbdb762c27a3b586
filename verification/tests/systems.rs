use engine::clipmap::{grid_indices, ring_count, ring_index_range};
use engine::error::EngineError;
use engine::gpu_profile::{parse_u32, profile_interval, FrameSampler, IntervalError, ParseIntKind};
use engine::pipeline::{scene_shader_prefix, SCENE_WGSL};
use engine::shade::{fade, fold, lattice, lerp, mix, ridge, scale, smooth, tile_noise, to_byte, ONE};
use engine::shadow::{SCENE_SHADOW_WGSL, SHADOW_EVAL_WGSL, SHADOW_UNIFORMS_WGSL};
use engine::spaces::{SpaceId, Spaces};
use engine::volume::{desired_chunks_around, ChunkStreamer};
use engine::resources::{Resources, TerrainLayers};
use engine::texture::{MaterialId, TextureId, WaterMaterialId};
use engine::world::SurfaceMaterialRef;

#[test]
fn fixed_point_shading_values() {
    assert_eq!(ONE, 1000);
    assert_eq!(fade(0), 0);
    assert_eq!(fade(250), 156);
    assert_eq!(fade(500), 500);
    assert_eq!(fade(1000), 1000);
    assert_eq!(lerp(0, 1000, 250), 250);
    assert_eq!(lerp(400, 200, 500), 300);
    assert_eq!(smooth(200, 400, 100), 0);
    assert_eq!(smooth(0, 1000, 500), 500);
    assert_eq!(smooth(200, 400, 999), 1000);
    assert_eq!(fold(600, 2), 800);
    assert_eq!(fold(300, 2), 600);
    assert_eq!(ridge(500), 1000);
    assert_eq!(ridge(450), 700);
    assert_eq!(ridge(0), 0);
    assert_eq!(to_byte(0), 0);
    assert_eq!(to_byte(500), 127);
    assert_eq!(to_byte(1000), 255);
    assert_eq!(to_byte(5000), 255);
    assert_eq!(mix((0, 0, 0), (1000, 500, 100), 500), (500, 250, 50));
    assert_eq!(mix((0, 0, 0), (1000, 500, 100), 2000), (1000, 500, 100));
    assert_eq!(scale((1000, 500, 0), 500), (500, 250, 0));
}

#[test]
fn lattice_noise_is_seeded_and_bounded() {
    assert_eq!(lattice(7, 0, 0), 919);
    assert_eq!(lattice(7, 3, 5), 417);
    assert_eq!(tile_noise(7, 0, 0, 64, 4, 4), lattice(7, 0, 0));
    for y in 0..16 {
        for x in 0..16 {
            assert!(tile_noise(3, x, y, 16, 4, 2) <= ONE);
        }
    }
}

#[test]
fn scene_shader_prefix_concatenates_declarations_then_shadow_blocks() {
    let s = scene_shader_prefix();
    let expected = format!(
        "{}{}{}{}",
        SCENE_WGSL, SHADOW_UNIFORMS_WGSL, SCENE_SHADOW_WGSL, SHADOW_EVAL_WGSL
    );
    assert_eq!(s, expected);
    assert!(s.starts_with(SCENE_WGSL));
}

#[test]
fn clipmap_grid_has_full_and_annulus_lists() {
    let (indices, full, annulus) = grid_indices(8);
    assert_eq!(full, (0, 384));
    assert_eq!(annulus, (384, 288));
    assert_eq!(indices.len(), 672);
    assert_eq!(&indices[0..6], &[0, 9, 10, 0, 10, 1]);
    assert!(indices.iter().all(|&i| i < 81));
    let (small, full_small, _) = grid_indices(3);
    assert_eq!(full_small, (0, 384));
    assert_eq!(small, indices);
    assert_eq!(ring_count(0), 1);
    assert_eq!(ring_count(4), 4);
    assert_eq!(ring_count(9), 6);
    assert_eq!(ring_index_range(0, full, annulus), full);
    assert_eq!(ring_index_range(2, full, annulus), annulus);
}

#[test]
fn integer_parsing_follows_rust() {
    assert_eq!(parse_u32("17"), Ok(17));
    assert_eq!(parse_u32("+17"), Ok(17));
    assert_eq!(parse_u32("4294967295"), Ok(u32::MAX));
    assert_eq!(parse_u32(""), Err(ParseIntKind::Empty));
    assert_eq!(parse_u32("+"), Err(ParseIntKind::InvalidDigit));
    assert_eq!(parse_u32("-1"), Err(ParseIntKind::InvalidDigit));
    assert_eq!(parse_u32("1x"), Err(ParseIntKind::InvalidDigit));
    assert_eq!(parse_u32("4294967296"), Err(ParseIntKind::PosOverflow));
    for text in ["0", "12", "+3", "-", "", "99999999999", "7a", " 1"] {
        assert_eq!(parse_u32(text).is_ok(), text.parse::<u32>().is_ok(), "{text:?}");
        if let Ok(v) = text.parse::<u32>() {
            assert_eq!(parse_u32(text), Ok(v));
        }
    }
}

#[test]
fn profile_interval_must_be_a_positive_number() {
    assert_eq!(profile_interval("60"), Ok(60));
    assert_eq!(profile_interval("0"), Err(IntervalError::Zero));
    assert_eq!(profile_interval("soon"), Err(IntervalError::NotANumber(ParseIntKind::InvalidDigit)));
    assert_eq!(profile_interval(""), Err(IntervalError::NotANumber(ParseIntKind::Empty)));
}

#[test]
fn frame_sampler_times_every_nth_frame() {
    let mut s = FrameSampler::new(3);
    let timed: Vec<bool> = (0..7).map(|_| s.begin_frame()).collect();
    assert_eq!(timed, vec![false, false, true, false, false, true, false]);
    assert_eq!(s.frame(), 7);
    let mut never = FrameSampler::new(0);
    assert!(!never.begin_frame());
    assert!(!never.begin_frame());
}

#[test]
fn spaces_are_interned_by_name() {
    let mut spaces = Spaces::new();
    assert_eq!(SpaceId::default_space(), SpaceId(0));
    assert_eq!(spaces.spawning_in(), SpaceId(0));
    assert_eq!(spaces.living_in(), SpaceId(0));
    let cave = spaces.space("cave").unwrap();
    let house = spaces.space("house").unwrap();
    assert_eq!(cave, SpaceId(1));
    assert_eq!(house, SpaceId(2));
    assert_eq!(spaces.space("cave").unwrap(), cave);
    assert_eq!(cave.raw(), 1);
    match spaces.space("") {
        Err(EngineError::InvalidValue(m)) => assert_eq!(m, "space name must not be empty"),
        other => panic!("unexpected {other:?}"),
    }
}

#[test]
fn unknown_spaces_are_refused_by_number() {
    let mut spaces = Spaces::new();
    let cave = spaces.space("cave").unwrap();
    assert!(spaces.require_space(cave).is_ok());
    assert!(spaces.require_space(SpaceId(0)).is_ok());
    match spaces.in_space(SpaceId(5)) {
        Err(EngineError::InvalidValue(m)) => assert_eq!(m, "unknown space 5"),
        other => panic!("unexpected {other:?}"),
    }
    assert_eq!(spaces.spawning_in(), SpaceId(0));
    spaces.in_space(cave).unwrap();
    assert_eq!(spaces.spawning_in(), cave);
}

#[test]
fn moving_the_camera_reports_a_change_once() {
    let mut spaces = Spaces::new();
    let cave = spaces.space("cave").unwrap();
    assert_eq!(spaces.live_in(cave).unwrap(), true);
    assert_eq!(spaces.live_in(cave).unwrap(), false);
    assert_eq!(spaces.living_in(), cave);
    assert!(spaces.live_in(SpaceId(9)).is_err());
    assert_eq!(spaces.living_in(), cave);
}

#[test]
fn only_opted_in_spaces_draw_the_environment() {
    let mut spaces = Spaces::new();
    let cave = spaces.space("cave").unwrap();
    assert!(spaces.space_draws_environment(SpaceId(0)));
    assert!(!spaces.space_draws_environment(cave));
    spaces.set_space_draws_environment(cave, true).unwrap();
    assert!(spaces.space_draws_environment(cave));
    spaces.set_space_draws_environment(cave, false).unwrap();
    assert!(!spaces.space_draws_environment(cave));
    assert!(spaces.set_space_draws_environment(SpaceId(0), true).is_ok());
    match spaces.set_space_draws_environment(SpaceId(0), false) {
        Err(EngineError::InvalidValue(m)) => {
            assert_eq!(m, "the default space always draws the outdoor environment")
        }
        other => panic!("unexpected {other:?}"),
    }
    match spaces.set_space_draws_environment(SpaceId(4), true) {
        Err(EngineError::InvalidValue(m)) => assert_eq!(m, "unknown space 4"),
        other => panic!("unexpected {other:?}"),
    }
}

#[test]
fn desired_chunks_form_a_ball_in_stream_order() {
    assert_eq!(desired_chunks_around((3, 4, 5), -1), vec![]);
    assert_eq!(desired_chunks_around((3, 4, 5), 0), vec![(3, 4, 5)]);
    assert_eq!(
        desired_chunks_around((0, 0, 0), 1),
        vec![(0, -1, 0), (0, 0, -1), (-1, 0, 0), (0, 0, 0), (1, 0, 0), (0, 0, 1), (0, 1, 0)]
    );
    let ball = desired_chunks_around((10, -2, 7), 3);
    assert!(ball.iter().all(|k| {
        let (dx, dy, dz) = (k.0 - 10, k.1 + 2, k.2 - 7);
        dx * dx + dy * dy + dz * dz <= 9
    }));
    assert_eq!(ball.len(), 123);
}

#[test]
fn chunk_streamer_forgets_chunks_outside_the_ball() {
    let mut s = ChunkStreamer::new(1);
    assert_eq!(s.radius_chunks(), 1);
    s.mark_loaded((0, 0, 0));
    s.mark_loaded((5, 0, 0));
    s.mark_loaded((0, 0, 0));
    s.mark_loaded((0, 1, 0));
    assert!(s.is_loaded((5, 0, 0)));
    let desired = desired_chunks_around((0, 0, 0), 1);
    let removed = s.unload_outside(&desired);
    assert_eq!(removed, vec![(5, 0, 0)]);
    assert!(!s.is_loaded((5, 0, 0)));
    assert!(s.is_loaded((0, 0, 0)));
    assert!(s.is_loaded((0, 1, 0)));
}

fn layers_of(t: TextureId) -> TerrainLayers {
    TerrainLayers {
        grass: t,
        grass_dry: t,
        grass_moor: t,
        mud: t,
        tundra: t,
        scree: t,
        sand: t,
        rock: t,
    }
}

#[test]
fn textures_are_validated_and_numbered_from_one() {
    let mut res: Resources<(), ()> = Resources::new();
    assert_eq!(res.resource_epoch(), 1);
    match res.create_texture_rgba(0, 4, vec![]) {
        Err(EngineError::InvalidValue(m)) => assert_eq!(m, "texture size must be non-zero"),
        other => panic!("unexpected {other:?}"),
    }
    match res.create_texture_rgba(2, 2, vec![0; 15]) {
        Err(EngineError::InvalidValue(m)) => assert_eq!(m, "texture rgba len 15 != 2x2x4"),
        other => panic!("unexpected {other:?}"),
    }
    assert_eq!(res.resource_epoch(), 1);
    let a = res.create_texture_rgba(2, 2, vec![7; 16]).unwrap();
    let b = res.create_texture_rgba(1, 1, vec![1, 2, 3, 4]).unwrap();
    assert_eq!((a, b), (TextureId(1), TextureId(2)));
    assert_eq!(res.resource_epoch(), 3);
    let t = res.texture(b).unwrap();
    assert_eq!((t.width, t.height, t.rgba.clone()), (1, 1, vec![1, 2, 3, 4]));
    assert!(res.texture(TextureId(3)).is_none());
}

#[test]
fn materials_need_every_albedo_and_positive_scales() {
    let mut res: Resources<u8, u8> = Resources::new();
    let t = res.create_texture_rgba(1, 1, vec![0; 4]).unwrap();
    let mut missing = layers_of(t);
    missing.rock = TextureId(99);
    assert!(matches!(
        res.create_terrain_material(missing, true, 0),
        Err(EngineError::UnknownTexture)
    ));
    match res.create_terrain_material(layers_of(t), false, 0) {
        Err(EngineError::InvalidValue(m)) => assert_eq!(m, "metres_per_tile must be > 0"),
        other => panic!("unexpected {other:?}"),
    }
    let m = res.create_terrain_material(layers_of(t), true, 5).unwrap();
    assert_eq!(m, MaterialId(1));
    assert_eq!(res.material(m).unwrap().tuning, 5);
    match res.create_water_material(false, 1) {
        Err(EngineError::InvalidValue(msg)) => {
            assert_eq!(msg, "water depth scale and wave length must be > 0")
        }
        other => panic!("unexpected {other:?}"),
    }
    let w = res.create_water_material(true, 9).unwrap();
    assert_eq!(w, WaterMaterialId(2));
    assert_eq!(res.water_material(w), Some(&9));
    assert!(res.check_material_ref(Some(SurfaceMaterialRef::Terrain(m))).is_ok());
    assert!(res.check_material_ref(Some(SurfaceMaterialRef::Water(w))).is_ok());
    assert!(res.check_material_ref(None).is_ok());
    assert!(matches!(
        res.check_material_ref(Some(SurfaceMaterialRef::Terrain(MaterialId(2)))),
        Err(EngineError::UnknownMaterial)
    ));
    res.set_default_terrain_material(Some(m));
    res.set_default_water_material(Some(w));
    assert_eq!(res.default_terrain_material(), Some(m));
    assert_eq!(res.default_water_material(), Some(w));
}
