use engine::texture::{generate_cave_albedo, generate_terrain_albedo, TerrainAlbedo};

#[test]
fn cave_albedo_has_eight_deterministic_material_cells() {
    let (w, h, first) = generate_cave_albedo(32, 7);
    let (w2, h2, second) = generate_cave_albedo(32, 7);
    assert_eq!((w, h), (128, 64));
    assert_eq!((w, h, first.clone()), (w2, h2, second));
    let mut cells = Vec::new();
    for cy in 0..2 {
        for cx in 0..4 {
            let i = (((cy * 32 + 16) * w + cx * 32 + 16) * 4) as usize;
            cells.push([first[i], first[i + 1], first[i + 2]]);
        }
    }
    assert!(cells.windows(2).any(|pair| pair[0] != pair[1]));
}

#[test]
fn albedo_size_and_opaque() {
    for kind in [
        TerrainAlbedo::Grass,
        TerrainAlbedo::GrassDry,
        TerrainAlbedo::GrassMoor,
        TerrainAlbedo::Mud,
        TerrainAlbedo::Tundra,
        TerrainAlbedo::Scree,
        TerrainAlbedo::Sand,
        TerrainAlbedo::Rock,
    ] {
        let (w, h, rgba) = generate_terrain_albedo(kind, 64, 1);
        assert_eq!(w, 64);
        assert_eq!(h, 64);
        assert_eq!(rgba.len(), 64 * 64 * 4);
        assert!(
            rgba.chunks(4).all(|c| c[3] == 255),
            "{kind:?} albedo is not opaque"
        );
    }
}

#[test]
fn albedo_is_tileable_edge_close() {
    for kind in [
        TerrainAlbedo::Mud,
        TerrainAlbedo::Tundra,
        TerrainAlbedo::Scree,
    ] {
        let (w, h, a) = generate_terrain_albedo(kind, 32, 7);
        let (_, _, b) = generate_terrain_albedo(kind, 32, 7);
        assert_eq!(a, b, "terrain albedo must be deterministic: {kind:?}");
        assert_eq!(a.len(), (w * h * 4) as usize);
    }
    let (w, h, rgba) = generate_terrain_albedo(TerrainAlbedo::Rock, 32, 7);
    let pix = |x: u32, y: u32| {
        let i = ((y * w + x) * 4) as usize;
        [rgba[i], rgba[i + 1], rgba[i + 2]]
    };
    // Left/right edges should be near-identical (seamless wrap).
    let mut max_d = 0i32;
    for y in 0..h {
        let a = pix(0, y);
        let b = pix(w - 1, y);
        for i in 0..3 {
            max_d = max_d.max((a[i] as i32 - b[i] as i32).abs());
        }
    }
    assert!(
        max_d < 48,
        "left/right seam too large (max channel delta {max_d})"
    );
}
