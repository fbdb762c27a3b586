//! Texture and material handles, and the generated terrain and cave albedos.
//!
//! The albedos are computed entirely in integer fixed point: periodic value
//! noise on an integer lattice with whole-number cell counts, blended in
//! thousandths (see `shade`). Every byte is fixed by the contracts below.
use vstd::prelude::*;
use crate::shade::{
    byte_spec, fold, fold_spec, mix, mix_spec, min_int, rgb_le, rgb_view, ridge, ridge_spec, scale,
    scale_spec, smooth, smooth_spec, tile_noise, tile_noise_spec, tile_noise_wraps_in_x,
    tile_noise_wraps_in_y, to_byte, Rgb, Rgb64,
};
use crate::tree::{add32, mul32};
use crate::error::{is_invalid_value, EngineError};
use crate::text::{decimal, push_decimal};

verus! {

/// Opaque texture handle.
#[derive(Clone, Copy, Debug, PartialEq, Eq, Structural, Hash)]
pub struct TextureId(pub u64);

/// Opaque terrain-material handle.
///
/// A terrain material owns the complete eight-layer albedo set: lush grass,
/// dry grass, moor, mud, tundra, scree, sand, and rock.
#[derive(Clone, Copy, Debug, PartialEq, Eq, Structural, Hash)]
pub struct MaterialId(pub u64);

/// Opaque water-material handle.
#[derive(Clone, Copy, Debug, PartialEq, Eq, Structural, Hash)]
pub struct WaterMaterialId(pub u64);


/// Kind of built-in tileable albedo.
///
/// Generated albedos are deterministic for a `(kind, size, seed)` tuple and are
/// tileable in both axes. They are intentionally colour/albedo only; terrain
/// slope, elevation, moisture, and snow response are controlled by the
/// terrain material and the terrain shader.
#[derive(Clone, Copy, Debug, PartialEq, Eq, Structural)]
pub enum TerrainAlbedo {
    Grass,
    /// Straw and earth: the dry flank of a meadow, not a second sand.
    GrassDry,
    /// Dark peat and leaf-mould: banks, wetlands, and the floor of a stand.
    GrassMoor,
    /// Wet clods and organic mud for saturated low ground.
    Mud,
    /// Cold low vegetation, lichen, and exposed frost soil.
    Tundra,
    /// Angular debris and fines on exposed alpine slopes.
    Scree,
    Sand,
    Rock,
}

/// The per-kind salt mixed into every noise seed, so two kinds generated with
/// the same seed do not share features.
pub open spec fn kind_seed_spec(kind: TerrainAlbedo) -> u32 {
    match kind {
        TerrainAlbedo::Grass => 0x67A55,
        TerrainAlbedo::GrassDry => 0xD8A11,
        TerrainAlbedo::GrassMoor => 0x3EA7,
        TerrainAlbedo::Mud => 0xBADC0,
        TerrainAlbedo::Tundra => 0x7A2D2,
        TerrainAlbedo::Scree => 0x5C0EE,
        TerrainAlbedo::Sand => 0x5A11D,
        TerrainAlbedo::Rock => 0x20C6,
    }
}

pub fn kind_seed(kind: TerrainAlbedo) -> (s: u32)
    ensures
        s == kind_seed_spec(kind),
{
    match kind {
        TerrainAlbedo::Grass => 0x67A55,
        TerrainAlbedo::GrassDry => 0xD8A11,
        TerrainAlbedo::GrassMoor => 0x3EA7,
        TerrainAlbedo::Mud => 0xBADC0,
        TerrainAlbedo::Tundra => 0x7A2D2,
        TerrainAlbedo::Scree => 0x5C0EE,
        TerrainAlbedo::Sand => 0x5A11D,
        TerrainAlbedo::Rock => 0x20C6,
    }
}

/// The four independent noise fields one albedo draws from.
#[derive(Clone, Copy, Debug)]
pub struct NoiseSeeds {
    pub s0: u32,
    pub s1: u32,
    pub s2: u32,
    pub s3: u32,
}

/// Noise seeds of a terrain albedo: the seed scrambled four ways, each salted
/// with the kind.
pub open spec fn terrain_seeds_spec(kind: TerrainAlbedo, seed: u32) -> NoiseSeeds {
    let k = kind_seed_spec(kind);
    NoiseSeeds {
        s0: seed ^ k,
        s1: mul32(seed, 0x9E37_79B9u32) ^ k,
        s2: add32(seed, 0xA5A5_A5A5u32) ^ k,
        s3: mul32(seed, 0x85EB_CA6Bu32) ^ k,
    }
}

fn terrain_seeds(kind: TerrainAlbedo, seed: u32) -> (n: NoiseSeeds)
    ensures
        n == terrain_seeds_spec(kind, seed),
{
    let k = kind_seed(kind);
    NoiseSeeds {
        s0: seed ^ k,
        s1: seed.wrapping_mul(0x9E37_79B9) ^ k,
        s2: seed.wrapping_add(0xA5A5_A5A5) ^ k,
        s3: seed.wrapping_mul(0x85EB_CA6B) ^ k,
    }
}

/// The Grass recipe, in thousandths per channel.
pub open spec fn grass_texel_spec(n: NoiseSeeds, x: int, y: int, size: int) -> Rgb {
    let blades = tile_noise_spec(n.s2, x, y, size, 28, 28);
    let fibre = tile_noise_spec(n.s3, x, y, size, 9, 52);
    let clump = tile_noise_spec(n.s1, x, y, size, 6, 6);
    let drift = tile_noise_spec(n.s0, x, y, size, 2, 2);
    let health = min_int(1000, (320 * clump + 400 * drift + 280 * blades) / 1000);
    let dry_n = tile_noise_spec(n.s0, x, y, size, 3, 3);
    let dry = smooth_spec(420, 820, dry_n);
    let bare = smooth_spec(740, 960, 1000 - health);
    let lush: Rgb = (200, 460, 120);
    let bright: Rgb = (320, 540, 160);
    let straw: Rgb = (500, 480, 200);
    let earth: Rgb = (280, 220, 130);
    let c = mix_spec(lush, bright, blades * 550 / 1000);
    let c = mix_spec(c, straw, dry * 400 / 1000);
    let c = mix_spec(c, earth, bare * 650 / 1000);
    let c = scale_spec(c, 880 + 220 * health / 1000 + 120 * fibre / 1000);
    c
}

/// The GrassDry recipe, in thousandths per channel.
pub open spec fn grass_dry_texel_spec(n: NoiseSeeds, x: int, y: int, size: int) -> Rgb {
    let blades = tile_noise_spec(n.s2, x, y, size, 24, 24);
    let fibre = tile_noise_spec(n.s3, x, y, size, 9, 40);
    let clump = tile_noise_spec(n.s1, x, y, size, 5, 5);
    let drift = tile_noise_spec(n.s0, x, y, size, 1, 1);
    let health = min_int(1000, (220 * clump + 380 * drift + 400 * blades) / 1000);
    let straw_n = tile_noise_spec(n.s0, x, y, size, 3, 3);
    let straw_w = smooth_spec(180, 620, straw_n);
    let bare = smooth_spec(520, 880, 1000 - health);
    let straw: Rgb = (580, 500, 220);
    let ochre: Rgb = (480, 380, 160);
    let earth: Rgb = (340, 260, 140);
    let leftover: Rgb = (300, 420, 140);
    let c = mix_spec(leftover, straw, 450 + 400 * straw_w / 1000);
    let c = mix_spec(c, ochre, 220 * fibre / 1000);
    let c = mix_spec(c, earth, bare * 700 / 1000);
    let c = scale_spec(c, 900 + 160 * health / 1000 + 80 * drift / 1000);
    c
}

/// The GrassMoor recipe, in thousandths per channel.
pub open spec fn grass_moor_texel_spec(n: NoiseSeeds, x: int, y: int, size: int) -> Rgb {
    let clump = tile_noise_spec(n.s1, x, y, size, 4, 4);
    let fibre = tile_noise_spec(n.s3, x, y, size, 5, 36);
    let wet_n = tile_noise_spec(n.s2, x, y, size, 2, 2);
    let wet = smooth_spec(350, 820, wet_n);
    let moss_n = tile_noise_spec(n.s0, x, y, size, 8, 8);
    let moss = smooth_spec(620, 920, moss_n);
    let peat: Rgb = (160, 140, 100);
    let russet: Rgb = (320, 220, 120);
    let sedge: Rgb = (180, 260, 120);
    let c = mix_spec(peat, russet, 280 + 350 * clump / 1000);
    let c = mix_spec(c, sedge, moss * 400 / 1000);
    let c = scale_spec(c, 780 + 140 * fibre / 1000 - 120 * wet / 1000);
    c
}

/// The Mud recipe, in thousandths per channel.
pub open spec fn mud_texel_spec(n: NoiseSeeds, x: int, y: int, size: int) -> Rgb {
    let clods = tile_noise_spec(n.s0, x, y, size, 7, 7);
    let wet = tile_noise_spec(n.s2, x, y, size, 2, 2);
    let grit = tile_noise_spec(n.s3, x, y, size, 64, 64);
    let cracks_n = tile_noise_spec(n.s1, x, y, size, 13, 13);
    let cracks = smooth_spec(620, 940, cracks_n);
    let dark: Rgb = (160, 120, 80);
    let wet_soil: Rgb = (250, 180, 110);
    let clay: Rgb = (340, 250, 160);
    let c = mix_spec(dark, wet_soil, wet * 700 / 1000 + clods * 200 / 1000);
    let c = mix_spec(c, clay, grit * 180 / 1000);
    let c = mix_spec(c, dark, cracks * 280 / 1000);
    let c = scale_spec(c, 880 + 120 * grit / 1000);
    c
}

/// The Tundra recipe, in thousandths per channel.
pub open spec fn tundra_texel_spec(n: NoiseSeeds, x: int, y: int, size: int) -> Rgb {
    let mat = tile_noise_spec(n.s0, x, y, size, 5, 5);
    let lichen = tile_noise_spec(n.s1, x, y, size, 19, 19);
    let frost_n = tile_noise_spec(n.s2, x, y, size, 3, 3);
    let frost = smooth_spec(580, 920, frost_n);
    let grit = tile_noise_spec(n.s3, x, y, size, 72, 72);
    let moss: Rgb = (250, 310, 180);
    let heath: Rgb = (390, 340, 200);
    let soil: Rgb = (280, 250, 190);
    let frost_tone: Rgb = (580, 610, 570);
    let c = mix_spec(moss, heath, mat * 750 / 1000);
    let c = mix_spec(c, soil, (1000 - lichen) * 480 / 1000);
    let c = mix_spec(c, frost_tone, frost * 200 / 1000);
    let c = scale_spec(c, 900 + 120 * grit / 1000);
    c
}

/// The Scree recipe, in thousandths per channel.
pub open spec fn scree_texel_spec(n: NoiseSeeds, x: int, y: int, size: int) -> Rgb {
    let stones = tile_noise_spec(n.s0, x, y, size, 9, 9);
    let facets = tile_noise_spec(n.s1, x, y, size, 26, 26);
    let fines = tile_noise_spec(n.s2, x, y, size, 70, 70);
    let lichen_n = tile_noise_spec(n.s3, x, y, size, 11, 11);
    let lichen = smooth_spec(720, 960, lichen_n);
    let base: Rgb = (320, 310, 290);
    let pale: Rgb = (500, 470, 410);
    let dark: Rgb = (180, 180, 170);
    let moss: Rgb = (240, 290, 180);
    let c = mix_spec(dark, pale, stones * 720 / 1000 + facets * 160 / 1000);
    let c = mix_spec(c, base, fines * 340 / 1000);
    let c = mix_spec(c, moss, lichen * 180 / 1000);
    c
}

/// The Sand recipe, in thousandths per channel.
pub open spec fn sand_texel_spec(n: NoiseSeeds, x: int, y: int, size: int) -> Rgb {
    let ripple_n = tile_noise_spec(n.s0, x, y, size, 3, 3);
    let ripple = fold_spec(ripple_n, 6);
    let grain = tile_noise_spec(n.s1, x, y, size, 58, 58);
    let shell_n = tile_noise_spec(n.s3, x, y, size, 34, 34);
    let shell = smooth_spec(880, 980, shell_n);
    let damp_n = tile_noise_spec(n.s2, x, y, size, 2, 2);
    let damp = smooth_spec(500, 880, damp_n);
    let dry: Rgb = (860, 740, 480);
    let wet: Rgb = (550, 420, 280);
    let c = mix_spec(dry, wet, damp * 450 / 1000);
    let c = scale_spec(c, 920 + 160 * ripple / 1000 + 100 * grain / 1000);
    let c = (c.0 + shell * 140 / 1000, c.1 + shell * 120 / 1000, c.2 + shell * 80 / 1000);
    c
}

/// The Rock recipe, in thousandths per channel.
pub open spec fn rock_texel_spec(n: NoiseSeeds, x: int, y: int, size: int) -> Rgb {
    let strata_n = tile_noise_spec(n.s0, x, y, size, 1, 2);
    let strata = fold_spec(strata_n, 4);
    let grit = tile_noise_spec(n.s1, x, y, size, 30, 30);
    let fracture_n = tile_noise_spec(n.s2, x, y, size, 7, 7);
    let fracture_r = ridge_spec(fracture_n);
    let fracture = smooth_spec(550, 950, fracture_r);
    let lichen_n = tile_noise_spec(n.s3, x, y, size, 9, 9);
    let lichen = smooth_spec(700, 950, lichen_n * 700 / 1000 + fracture * 500 / 1000);
    let warmth = tile_noise_spec(n.s0, x, y, size, 1, 1);
    let cool: Rgb = (460, 460, 480);
    let warm: Rgb = (520, 440, 380);
    let dark: Rgb = (200, 190, 180);
    let moss: Rgb = (220, 320, 160);
    let c = mix_spec(cool, warm, 350 + 400 * warmth / 1000);
    let c = mix_spec(c, dark, 280 + 500 * strata / 1000);
    let c = mix_spec(c, dark, fracture * 700 / 1000);
    let c = mix_spec(c, moss, lichen * 350 / 1000);
    let c = scale_spec(c, 940 + 120 * grit / 1000);
    c
}

/// Colour of texel `(x, y)` of a terrain albedo, in thousandths per channel.
pub open spec fn terrain_colour_spec(kind: TerrainAlbedo, seed: u32, size: int, x: int, y: int) -> Rgb {
    let n = terrain_seeds_spec(kind, seed);
    match kind {
        TerrainAlbedo::Grass => grass_texel_spec(n, x, y, size),
        TerrainAlbedo::GrassDry => grass_dry_texel_spec(n, x, y, size),
        TerrainAlbedo::GrassMoor => grass_moor_texel_spec(n, x, y, size),
        TerrainAlbedo::Mud => mud_texel_spec(n, x, y, size),
        TerrainAlbedo::Tundra => tundra_texel_spec(n, x, y, size),
        TerrainAlbedo::Scree => scree_texel_spec(n, x, y, size),
        TerrainAlbedo::Sand => sand_texel_spec(n, x, y, size),
        TerrainAlbedo::Rock => rock_texel_spec(n, x, y, size),
    }
}

/// The RGB bytes of texel `(x, y)` of a terrain albedo.
pub open spec fn terrain_texel_spec(kind: TerrainAlbedo, seed: u32, size: int, x: int, y: int) -> (int, int, int) {
    let c = terrain_colour_spec(kind, seed, size, x, y);
    (byte_spec(c.0), byte_spec(c.1), byte_spec(c.2))
}

fn grass_texel(n: NoiseSeeds, x: u64, y: u64, size: u64) -> (c: Rgb64)
    requires
        0 < size <= 0x1_0000,
        x < size,
        y < size,
    ensures
        rgb_view(c) == grass_texel_spec(n, x as int, y as int, size as int),
        rgb_le(c, 4000),
{
    let blades = tile_noise(n.s2, x, y, size, 28, 28);
    let fibre = tile_noise(n.s3, x, y, size, 9, 52);
    let clump = tile_noise(n.s1, x, y, size, 6, 6);
    let drift = tile_noise(n.s0, x, y, size, 2, 2);
    let health_raw = (320 * clump + 400 * drift + 280 * blades) / 1000;
    let health = if health_raw < 1000 { health_raw } else { 1000 };
    let dry_n = tile_noise(n.s0, x, y, size, 3, 3);
    let dry = smooth(420, 820, dry_n);
    let bare = smooth(740, 960, 1000 - health);
    let lush: Rgb64 = (200, 460, 120);
    let bright: Rgb64 = (320, 540, 160);
    let straw: Rgb64 = (500, 480, 200);
    let earth: Rgb64 = (280, 220, 130);
    let c = mix(lush, bright, blades * 550 / 1000);
    let c = mix(c, straw, dry * 400 / 1000);
    let c = mix(c, earth, bare * 650 / 1000);
    let c = scale(c, 880 + 220 * health / 1000 + 120 * fibre / 1000);
    c
}

fn grass_dry_texel(n: NoiseSeeds, x: u64, y: u64, size: u64) -> (c: Rgb64)
    requires
        0 < size <= 0x1_0000,
        x < size,
        y < size,
    ensures
        rgb_view(c) == grass_dry_texel_spec(n, x as int, y as int, size as int),
        rgb_le(c, 4000),
{
    let blades = tile_noise(n.s2, x, y, size, 24, 24);
    let fibre = tile_noise(n.s3, x, y, size, 9, 40);
    let clump = tile_noise(n.s1, x, y, size, 5, 5);
    let drift = tile_noise(n.s0, x, y, size, 1, 1);
    let health_raw = (220 * clump + 380 * drift + 400 * blades) / 1000;
    let health = if health_raw < 1000 { health_raw } else { 1000 };
    let straw_n = tile_noise(n.s0, x, y, size, 3, 3);
    let straw_w = smooth(180, 620, straw_n);
    let bare = smooth(520, 880, 1000 - health);
    let straw: Rgb64 = (580, 500, 220);
    let ochre: Rgb64 = (480, 380, 160);
    let earth: Rgb64 = (340, 260, 140);
    let leftover: Rgb64 = (300, 420, 140);
    let c = mix(leftover, straw, 450 + 400 * straw_w / 1000);
    let c = mix(c, ochre, 220 * fibre / 1000);
    let c = mix(c, earth, bare * 700 / 1000);
    let c = scale(c, 900 + 160 * health / 1000 + 80 * drift / 1000);
    c
}

fn grass_moor_texel(n: NoiseSeeds, x: u64, y: u64, size: u64) -> (c: Rgb64)
    requires
        0 < size <= 0x1_0000,
        x < size,
        y < size,
    ensures
        rgb_view(c) == grass_moor_texel_spec(n, x as int, y as int, size as int),
        rgb_le(c, 4000),
{
    let clump = tile_noise(n.s1, x, y, size, 4, 4);
    let fibre = tile_noise(n.s3, x, y, size, 5, 36);
    let wet_n = tile_noise(n.s2, x, y, size, 2, 2);
    let wet = smooth(350, 820, wet_n);
    let moss_n = tile_noise(n.s0, x, y, size, 8, 8);
    let moss = smooth(620, 920, moss_n);
    let peat: Rgb64 = (160, 140, 100);
    let russet: Rgb64 = (320, 220, 120);
    let sedge: Rgb64 = (180, 260, 120);
    let c = mix(peat, russet, 280 + 350 * clump / 1000);
    let c = mix(c, sedge, moss * 400 / 1000);
    let c = scale(c, 780 + 140 * fibre / 1000 - 120 * wet / 1000);
    c
}

fn mud_texel(n: NoiseSeeds, x: u64, y: u64, size: u64) -> (c: Rgb64)
    requires
        0 < size <= 0x1_0000,
        x < size,
        y < size,
    ensures
        rgb_view(c) == mud_texel_spec(n, x as int, y as int, size as int),
        rgb_le(c, 4000),
{
    let clods = tile_noise(n.s0, x, y, size, 7, 7);
    let wet = tile_noise(n.s2, x, y, size, 2, 2);
    let grit = tile_noise(n.s3, x, y, size, 64, 64);
    let cracks_n = tile_noise(n.s1, x, y, size, 13, 13);
    let cracks = smooth(620, 940, cracks_n);
    let dark: Rgb64 = (160, 120, 80);
    let wet_soil: Rgb64 = (250, 180, 110);
    let clay: Rgb64 = (340, 250, 160);
    let c = mix(dark, wet_soil, wet * 700 / 1000 + clods * 200 / 1000);
    let c = mix(c, clay, grit * 180 / 1000);
    let c = mix(c, dark, cracks * 280 / 1000);
    let c = scale(c, 880 + 120 * grit / 1000);
    c
}

fn tundra_texel(n: NoiseSeeds, x: u64, y: u64, size: u64) -> (c: Rgb64)
    requires
        0 < size <= 0x1_0000,
        x < size,
        y < size,
    ensures
        rgb_view(c) == tundra_texel_spec(n, x as int, y as int, size as int),
        rgb_le(c, 4000),
{
    let mat = tile_noise(n.s0, x, y, size, 5, 5);
    let lichen = tile_noise(n.s1, x, y, size, 19, 19);
    let frost_n = tile_noise(n.s2, x, y, size, 3, 3);
    let frost = smooth(580, 920, frost_n);
    let grit = tile_noise(n.s3, x, y, size, 72, 72);
    let moss: Rgb64 = (250, 310, 180);
    let heath: Rgb64 = (390, 340, 200);
    let soil: Rgb64 = (280, 250, 190);
    let frost_tone: Rgb64 = (580, 610, 570);
    let c = mix(moss, heath, mat * 750 / 1000);
    let c = mix(c, soil, (1000 - lichen) * 480 / 1000);
    let c = mix(c, frost_tone, frost * 200 / 1000);
    let c = scale(c, 900 + 120 * grit / 1000);
    c
}

fn scree_texel(n: NoiseSeeds, x: u64, y: u64, size: u64) -> (c: Rgb64)
    requires
        0 < size <= 0x1_0000,
        x < size,
        y < size,
    ensures
        rgb_view(c) == scree_texel_spec(n, x as int, y as int, size as int),
        rgb_le(c, 4000),
{
    let stones = tile_noise(n.s0, x, y, size, 9, 9);
    let facets = tile_noise(n.s1, x, y, size, 26, 26);
    let fines = tile_noise(n.s2, x, y, size, 70, 70);
    let lichen_n = tile_noise(n.s3, x, y, size, 11, 11);
    let lichen = smooth(720, 960, lichen_n);
    let base: Rgb64 = (320, 310, 290);
    let pale: Rgb64 = (500, 470, 410);
    let dark: Rgb64 = (180, 180, 170);
    let moss: Rgb64 = (240, 290, 180);
    let c = mix(dark, pale, stones * 720 / 1000 + facets * 160 / 1000);
    let c = mix(c, base, fines * 340 / 1000);
    let c = mix(c, moss, lichen * 180 / 1000);
    c
}

fn sand_texel(n: NoiseSeeds, x: u64, y: u64, size: u64) -> (c: Rgb64)
    requires
        0 < size <= 0x1_0000,
        x < size,
        y < size,
    ensures
        rgb_view(c) == sand_texel_spec(n, x as int, y as int, size as int),
        rgb_le(c, 4000),
{
    let ripple_n = tile_noise(n.s0, x, y, size, 3, 3);
    let ripple = fold(ripple_n, 6);
    let grain = tile_noise(n.s1, x, y, size, 58, 58);
    let shell_n = tile_noise(n.s3, x, y, size, 34, 34);
    let shell = smooth(880, 980, shell_n);
    let damp_n = tile_noise(n.s2, x, y, size, 2, 2);
    let damp = smooth(500, 880, damp_n);
    let dry: Rgb64 = (860, 740, 480);
    let wet: Rgb64 = (550, 420, 280);
    let c = mix(dry, wet, damp * 450 / 1000);
    let c = scale(c, 920 + 160 * ripple / 1000 + 100 * grain / 1000);
    let c = (c.0 + shell * 140 / 1000, c.1 + shell * 120 / 1000, c.2 + shell * 80 / 1000);
    c
}

fn rock_texel(n: NoiseSeeds, x: u64, y: u64, size: u64) -> (c: Rgb64)
    requires
        0 < size <= 0x1_0000,
        x < size,
        y < size,
    ensures
        rgb_view(c) == rock_texel_spec(n, x as int, y as int, size as int),
        rgb_le(c, 4000),
{
    let strata_n = tile_noise(n.s0, x, y, size, 1, 2);
    let strata = fold(strata_n, 4);
    let grit = tile_noise(n.s1, x, y, size, 30, 30);
    let fracture_n = tile_noise(n.s2, x, y, size, 7, 7);
    let fracture_r = ridge(fracture_n);
    let fracture = smooth(550, 950, fracture_r);
    let lichen_n = tile_noise(n.s3, x, y, size, 9, 9);
    let lichen = smooth(700, 950, lichen_n * 700 / 1000 + fracture * 500 / 1000);
    let warmth = tile_noise(n.s0, x, y, size, 1, 1);
    let cool: Rgb64 = (460, 460, 480);
    let warm: Rgb64 = (520, 440, 380);
    let dark: Rgb64 = (200, 190, 180);
    let moss: Rgb64 = (220, 320, 160);
    let c = mix(cool, warm, 350 + 400 * warmth / 1000);
    let c = mix(c, dark, 280 + 500 * strata / 1000);
    let c = mix(c, dark, fracture * 700 / 1000);
    let c = mix(c, moss, lichen * 350 / 1000);
    let c = scale(c, 940 + 120 * grit / 1000);
    c
}

fn terrain_colour(kind: TerrainAlbedo, n: NoiseSeeds, x: u64, y: u64, size: u64) -> (c: Rgb64)
    requires
        0 < size <= 0x1_0000,
        x < size,
        y < size,
    ensures
        rgb_view(c) == (match kind {
            TerrainAlbedo::Grass => grass_texel_spec(n, x as int, y as int, size as int),
            TerrainAlbedo::GrassDry => grass_dry_texel_spec(n, x as int, y as int, size as int),
            TerrainAlbedo::GrassMoor => grass_moor_texel_spec(n, x as int, y as int, size as int),
            TerrainAlbedo::Mud => mud_texel_spec(n, x as int, y as int, size as int),
            TerrainAlbedo::Tundra => tundra_texel_spec(n, x as int, y as int, size as int),
            TerrainAlbedo::Scree => scree_texel_spec(n, x as int, y as int, size as int),
            TerrainAlbedo::Sand => sand_texel_spec(n, x as int, y as int, size as int),
            TerrainAlbedo::Rock => rock_texel_spec(n, x as int, y as int, size as int),
        }),
{
    match kind {
        TerrainAlbedo::Grass => grass_texel(n, x, y, size),
        TerrainAlbedo::GrassDry => grass_dry_texel(n, x, y, size),
        TerrainAlbedo::GrassMoor => grass_moor_texel(n, x, y, size),
        TerrainAlbedo::Mud => mud_texel(n, x, y, size),
        TerrainAlbedo::Tundra => tundra_texel(n, x, y, size),
        TerrainAlbedo::Scree => scree_texel(n, x, y, size),
        TerrainAlbedo::Sand => sand_texel(n, x, y, size),
        TerrainAlbedo::Rock => rock_texel(n, x, y, size),
    }
}

/// Side of a generated terrain albedo: the requested size, at least 16.
pub open spec fn albedo_side(size: u32) -> int {
    if size < 16 {
        16
    } else {
        size as int
    }
}

/// The four bytes of pixel `p` of an RGBA8 buffer.
pub open spec fn pixel(rgba: Seq<u8>, p: int) -> (int, int, int, int) {
    (rgba[4 * p] as int, rgba[4 * p + 1] as int, rgba[4 * p + 2] as int, rgba[4 * p + 3] as int)
}

/// An opaque pixel of the given colour.
pub open spec fn opaque(c: (int, int, int)) -> (int, int, int, int) {
    (c.0, c.1, c.2, 255)
}

/// `rgba` holds `count` pixels of a `width`-wide image, pixel `p` sitting at
/// column `p % width` and row `p / width`, each opaque and of colour `texel`.
pub open spec fn pixels_match(
    rgba: Seq<u8>,
    count: int,
    width: int,
    texel: spec_fn(int, int) -> (int, int, int),
) -> bool {
    &&& rgba.len() == 4 * count
    &&& forall|p: int|
        0 <= p < count ==> #[trigger] pixel(rgba, p) == opaque(texel(p % width, p / width))
}

fn push_pixel(rgba: &mut Vec<u8>, r: u8, g: u8, b: u8)
    ensures
        final(rgba)@ == old(rgba)@.push(r).push(g).push(b).push(255u8),
{
    rgba.push(r);
    rgba.push(g);
    rgba.push(b);
    rgba.push(255);
}

proof fn lemma_pixel_step(
    old_rgba: Seq<u8>,
    new_rgba: Seq<u8>,
    count: int,
    width: int,
    x: int,
    y: int,
    texel: spec_fn(int, int) -> (int, int, int),
)
    requires
        0 <= x < width,
        0 <= y,
        count == y * width + x,
        pixels_match(old_rgba, count, width, texel),
        new_rgba.len() == old_rgba.len() + 4,
        forall|i: int| 0 <= i < old_rgba.len() ==> new_rgba[i] == old_rgba[i],
        opaque(texel(x, y)) == (
            new_rgba[4 * count] as int,
            new_rgba[4 * count + 1] as int,
            new_rgba[4 * count + 2] as int,
            new_rgba[4 * count + 3] as int,
        ),
    ensures
        pixels_match(new_rgba, count + 1, width, texel),
{
    vstd::arithmetic::div_mod::lemma_fundamental_div_mod_converse(count, width, y, x);
    assert forall|p: int| 0 <= p < count + 1 implies #[trigger] pixel(new_rgba, p) == opaque(
        texel(p % width, p / width),
    ) by {
        if p < count {
            assert(pixel(old_rgba, p) == opaque(texel(p % width, p / width)));
        }
    }
}

/// Generate a tileable RGBA8 albedo, in integer fixed point.
///
/// Each kind is built from a few named ingredients rather than one noise sum,
/// because ground only reads as ground when the eye can pick out features at
/// several scales at once: blades and pebbles up close, clumps and dirt at a
/// few metres, drifts across the whole tile.
pub fn generate_terrain_albedo(kind: TerrainAlbedo, size: u32, seed: u32) -> (out: (
    u32,
    u32,
    Vec<u8>,
))
    requires
        albedo_side(size) * albedo_side(size) * 4 <= u32::MAX,
    ensures
        out.0 == albedo_side(size),
        out.1 == albedo_side(size),
        pixels_match(
            out.2@,
            albedo_side(size) * albedo_side(size),
            albedo_side(size),
            |x: int, y: int| terrain_texel_spec(kind, seed, albedo_side(size), x, y),
        ),
{
    let side: u32 = if size < 16 {
        16
    } else {
        size
    };
    let n = terrain_seeds(kind, seed);
    let s = side as u64;
    let ghost texel = |x: int, y: int| terrain_texel_spec(kind, seed, side as int, x, y);
    proof {
        assert(s <= 0x1_0000) by (nonlinear_arith)
            requires
                s * s * 4 <= u32::MAX,
                s >= 16,
        ;
    }
    let mut rgba: Vec<u8> = Vec::new();
    let mut y: u64 = 0;
    while y < s
        invariant
            s == side,
            16 <= s <= 0x1_0000,
            y <= s,
            n == terrain_seeds_spec(kind, seed),
            texel == (|x: int, y: int| terrain_texel_spec(kind, seed, side as int, x, y)),
            pixels_match(rgba@, y * s, s as int, texel),
        decreases s - y,
    {
        let mut x: u64 = 0;
        while x < s
            invariant
                s == side,
                16 <= s <= 0x1_0000,
                y < s,
                x <= s,
                n == terrain_seeds_spec(kind, seed),
                texel == (|x: int, y: int| terrain_texel_spec(kind, seed, side as int, x, y)),
                pixels_match(rgba@, y * s + x, s as int, texel),
            decreases s - x,
        {
            let c = terrain_colour(kind, n, x, y, s);
            let ghost old_rgba = rgba@;
            push_pixel(&mut rgba, to_byte(c.0), to_byte(c.1), to_byte(c.2));
            proof {
                lemma_pixel_step(old_rgba, rgba@, y * s + x, s as int, x as int, y as int, texel);
            }
            x = x + 1;
        }
        proof {
            assert(y * s + s == (y + 1) * s) by (nonlinear_arith);
        }
        y = y + 1;
    }
    (side, side, rgba)
}

/// Side of one material cell of the cave atlas: the requested size, at least 32.
pub open spec fn cave_tile(size: u32) -> int {
    if size < 32 {
        32
    } else {
        size as int
    }
}

/// Base colour of each of the eight cave cells, as bytes: dry rock, warm and
/// cool strata, damp rock, calcite, algae, iron stain, and dark talus.
pub open spec fn cave_base_spec(kind: int) -> (int, int, int) {
    if kind == 0 {
        (128, 116, 98)
    } else if kind == 1 {
        (154, 132, 103)
    } else if kind == 2 {
        (101, 113, 119)
    } else if kind == 3 {
        (67, 81, 78)
    } else if kind == 4 {
        (205, 198, 177)
    } else if kind == 5 {
        (62, 112, 91)
    } else if kind == 6 {
        (126, 73, 48)
    } else {
        (55, 50, 45)
    }
}

/// Cell index of atlas pixel `(x, y)`: four cells across, two down.
pub open spec fn cave_cell(tile: int, x: int, y: int) -> int {
    (y / tile) * 4 + x / tile
}

/// Noise seeds of the cave atlas.
pub open spec fn cave_seeds_spec(seed: u32) -> NoiseSeeds {
    NoiseSeeds {
        s0: seed ^ 0xCAFE_51A7u32,
        s1: mul32(seed, 0x9E37_79B9u32) ^ 0x51A7_3D21u32,
        s2: add32(seed, 0xA5A5_A5A5u32),
        s3: 0,
    }
}

/// A cell's base colour lit by grain and strata, plus its mineral veins.
pub open spec fn cave_lit_spec(kind: int, grain: int, strata: int, vein: int) -> (int, int, int) {
    let value = 780 + 280 * grain / 1000 + 100 * strata / 1000;
    let base = cave_base_spec(kind);
    let lit = (base.0 * value / 1000, base.1 * value / 1000, base.2 * value / 1000);
    if kind == 4 {
        (lit.0 + 28 * vein / 1000, lit.1 + 26 * vein / 1000, lit.2 + 22 * vein / 1000)
    } else if kind == 5 {
        (lit.0, lit.1 + 20 * vein / 1000, lit.2)
    } else if kind == 6 {
        (lit.0 + 22 * vein / 1000, lit.1 + 7 * vein / 1000, lit.2)
    } else {
        lit
    }
}

/// Colour of atlas pixel `(x, y)`, in byte units before saturation: the
/// cell's base colour lit by grain and horizontal strata, with mineral veins
/// brightening calcite, algae, and iron stain.
pub open spec fn cave_colour_spec(seed: u32, tile: int, x: int, y: int) -> (int, int, int) {
    let n = cave_seeds_spec(seed);
    let u = x % tile;
    let v = y % tile;
    cave_lit_spec(
        cave_cell(tile, x, y),
        tile_noise_spec(n.s0, u, v, tile, 18, 18),
        tile_noise_spec(n.s1, u, v, tile, 1, 11),
        smooth_spec(680, 900, tile_noise_spec(n.s2, u, v, tile, 7, 7)),
    )
}

/// The RGB bytes of atlas pixel `(x, y)`.
pub open spec fn cave_texel_spec(seed: u32, tile: int, x: int, y: int) -> (int, int, int) {
    let c = cave_colour_spec(seed, tile, x, y);
    (min_int(c.0, 255), min_int(c.1, 255), min_int(c.2, 255))
}

fn cave_base(kind: u64) -> (c: Rgb64)
    ensures
        rgb_view(c) == cave_base_spec(kind as int),
        rgb_le(c, 255),
{
    if kind == 0 {
        (128, 116, 98)
    } else if kind == 1 {
        (154, 132, 103)
    } else if kind == 2 {
        (101, 113, 119)
    } else if kind == 3 {
        (67, 81, 78)
    } else if kind == 4 {
        (205, 198, 177)
    } else if kind == 5 {
        (62, 112, 91)
    } else if kind == 6 {
        (126, 73, 48)
    } else {
        (55, 50, 45)
    }
}

fn sat_byte(c: u64) -> (b: u8)
    ensures
        b == min_int(c as int, 255),
{
    if c < 255 {
        c as u8
    } else {
        255
    }
}

fn cave_lit(kind: u64, grain: u64, strata: u64, vein: u64) -> (c: Rgb64)
    requires
        grain <= 1000,
        strata <= 1000,
        vein <= 1000,
    ensures
        rgb_view(c) == cave_lit_spec(kind as int, grain as int, strata as int, vein as int),
{
    let value = 780 + 280 * grain / 1000 + 100 * strata / 1000;
    let base = cave_base(kind);
    proof {
        assert(base.0 * value <= 255 * 1160 && base.1 * value <= 255 * 1160 && base.2 * value
            <= 255 * 1160) by (nonlinear_arith)
            requires
                rgb_le(base, 255),
                value <= 1160,
        ;
    }
    let lit = (base.0 * value / 1000, base.1 * value / 1000, base.2 * value / 1000);
    if kind == 4 {
        (lit.0 + 28 * vein / 1000, lit.1 + 26 * vein / 1000, lit.2 + 22 * vein / 1000)
    } else if kind == 5 {
        (lit.0, lit.1 + 20 * vein / 1000, lit.2)
    } else if kind == 6 {
        (lit.0 + 22 * vein / 1000, lit.1 + 7 * vein / 1000, lit.2)
    } else {
        lit
    }
}

fn cave_seeds(seed: u32) -> (n: NoiseSeeds)
    ensures
        n == cave_seeds_spec(seed),
{
    NoiseSeeds {
        s0: seed ^ 0xCAFE_51A7,
        s1: seed.wrapping_mul(0x9E37_79B9) ^ 0x51A7_3D21,
        s2: seed.wrapping_add(0xA5A5_A5A5),
        s3: 0,
    }
}

fn cave_colour(seed: u32, n: NoiseSeeds, tile: u64, x: u64, y: u64) -> (c: Rgb64)
    requires
        32 <= tile <= 0x1_0000,
        x < 4 * tile,
        y < 2 * tile,
        n == cave_seeds_spec(seed),
    ensures
        rgb_view(c) == cave_colour_spec(seed, tile as int, x as int, y as int),
{
    let u = x % tile;
    let v = y % tile;
    let kind = (y / tile) * 4 + x / tile;
    let grain = tile_noise(n.s0, u, v, tile, 18, 18);
    let strata = tile_noise(n.s1, u, v, tile, 1, 11);
    let vein = smooth(680, 900, tile_noise(n.s2, u, v, tile, 7, 7));
    cave_lit(kind, grain, strata, vein)
}

/// Generate an eight-cell atlas for generated limestone cave meshes.
/// Cells cover dry rock, warm/cool strata, damp rock, calcite, algae, iron
/// stain, and dark talus. The atlas is deterministic for a stable seed and
/// is computed in integer fixed point, so its bytes are those of this
/// fixed-point recipe.
pub fn generate_cave_albedo(size: u32, seed: u32) -> (out: (u32, u32, Vec<u8>))
    requires
        32 * cave_tile(size) * cave_tile(size) <= u32::MAX,
    ensures
        out.0 == 4 * cave_tile(size),
        out.1 == 2 * cave_tile(size),
        pixels_match(
            out.2@,
            8 * cave_tile(size) * cave_tile(size),
            4 * cave_tile(size),
            |x: int, y: int| cave_texel_spec(seed, cave_tile(size), x, y),
        ),
{
    let tile: u32 = if size < 32 {
        32
    } else {
        size
    };
    let t = tile as u64;
    proof {
        assert(t <= 0x1_0000) by (nonlinear_arith)
            requires
                32 * t * t <= u32::MAX,
                t >= 32,
        ;
    }
    let width = 4 * t;
    let height = 2 * t;
    let n = cave_seeds(seed);
    let ghost texel = |x: int, y: int| cave_texel_spec(seed, tile as int, x, y);
    let mut rgba: Vec<u8> = Vec::new();
    let mut y: u64 = 0;
    while y < height
        invariant
            t == tile,
            32 <= t <= 0x1_0000,
            width == 4 * t,
            height == 2 * t,
            y <= height,
            n == cave_seeds_spec(seed),
            texel == (|x: int, y: int| cave_texel_spec(seed, tile as int, x, y)),
            pixels_match(rgba@, y * width, width as int, texel),
        decreases height - y,
    {
        let mut x: u64 = 0;
        while x < width
            invariant
                t == tile,
                32 <= t <= 0x1_0000,
                width == 4 * t,
                height == 2 * t,
                y < height,
                x <= width,
                    n == cave_seeds_spec(seed),
                texel == (|x: int, y: int| cave_texel_spec(seed, tile as int, x, y)),
                pixels_match(rgba@, y * width + x, width as int, texel),
            decreases width - x,
        {
            let c = cave_colour(seed, n, t, x, y);
            let ghost old_rgba = rgba@;
            push_pixel(&mut rgba, sat_byte(c.0), sat_byte(c.1), sat_byte(c.2));
            proof {
                lemma_pixel_step(
                    old_rgba,
                    rgba@,
                    y * width + x,
                    width as int,
                    x as int,
                    y as int,
                    texel,
                );
            }
            x = x + 1;
        }
        proof {
            assert(y * width + width == (y + 1) * width) by (nonlinear_arith);
        }
        y = y + 1;
    }
    proof {
        assert(height * width == 8 * t * t) by (nonlinear_arith)
            requires
                width == 4 * t,
                height == 2 * t,
        ;
    }
    (4 * tile, 2 * tile, rgba)
}

/// The refusal of a decoded image `path` with no pixels.
pub open spec fn zero_size_message(path: Seq<char>) -> Seq<char> {
    "texture "@ + path + " has zero size"@
}

/// A decoded image must have pixels.
pub fn check_decoded_size(path: &str, width: u32, height: u32) -> (r: Result<(), EngineError>)
    ensures
        r is Ok <==> width > 0 && height > 0,
        r matches Err(e) ==> is_invalid_value(e, zero_size_message(path@)),
{
    if width == 0 || height == 0 {
        let mut msg = String::from_str("texture ");
        msg.append(path);
        msg.append(" has zero size");
        proof {
            reveal_strlit("texture ");
            reveal_strlit(" has zero size");
        }
        assert(msg@ =~= zero_size_message(path@));
        return Err(EngineError::InvalidValue(msg));
    }
    Ok(())
}

/// The refusal of `len` bytes as a `width` by `height` RGBA8 image for `path`.
pub open spec fn pixel_count_message(path: Seq<char>, width: u32, height: u32, len: nat) -> Seq<char> {
    path + ": "@ + decimal(width as nat) + "x"@ + decimal(height as nat) + " needs "@ + decimal(
        (width * height * 4) as nat,
    ) + " bytes, got "@ + decimal(len)
}

/// Pixels to be written as an image must be a non-empty `width` by `height`
/// RGBA8 buffer.
pub fn check_rgba_buffer(path: &str, width: u32, height: u32, len: usize) -> (r: Result<(), EngineError>)
    requires
        width * height * 4 <= usize::MAX,
    ensures
        r is Ok <==> width > 0 && height > 0 && len == width * height * 4,
        r matches Err(e) ==> is_invalid_value(e, pixel_count_message(path@, width, height, len as nat)),
{
    let want = (width as usize) * (height as usize) * 4;
    if width == 0 || height == 0 || len != want {
        let mut msg = String::new();
        msg.append(path);
        msg.append(": ");
        push_decimal(&mut msg, width as u64);
        msg.append("x");
        push_decimal(&mut msg, height as u64);
        msg.append(" needs ");
        push_decimal(&mut msg, want as u64);
        msg.append(" bytes, got ");
        push_decimal(&mut msg, len as u64);
        assert(msg@ =~= pixel_count_message(path@, width, height, len as nat));
        return Err(EngineError::InvalidValue(msg));
    }
    Ok(())
}

/// The cave atlas is four cells across and two down, and the cell in column
/// `col` and row `row` is material number `4 * row + col` of the eight
/// listed: the top row holds dry rock, warm strata, cool strata and damp
/// rock, and the bottom row calcite, algae, iron stain and dark talus. Every
/// pixel `(u, v)` inside a cell is that material's base colour lit by the
/// noise at `(u, v)`, the same in every cell.
pub proof fn cave_cells_hold_the_eight_materials(seed: u32, tile: int, col: int, row: int, u: int, v: int)
    requires
        tile > 0,
        0 <= col < 4,
        0 <= row < 2,
        0 <= u < tile,
        0 <= v < tile,
    ensures
        ({
            let n = cave_seeds_spec(seed);
            cave_colour_spec(seed, tile, col * tile + u, row * tile + v) == cave_lit_spec(
                4 * row + col,
                tile_noise_spec(n.s0, u, v, tile, 18, 18),
                tile_noise_spec(n.s1, u, v, tile, 1, 11),
                smooth_spec(680, 900, tile_noise_spec(n.s2, u, v, tile, 7, 7)),
            )
        }),
        row == 1 ==> cave_base_spec(4 * row + col) != cave_base_spec(col),
{
    vstd::arithmetic::div_mod::lemma_fundamental_div_mod_converse(col * tile + u, tile, col, u);
    vstd::arithmetic::div_mod::lemma_fundamental_div_mod_converse(row * tile + v, tile, row, v);
}

/// Every generated terrain albedo tiles: texel `(x, y)` and the texels one
/// whole tile further along either axis have the same colour, so the image
/// repeats seamlessly in both directions.
#[verifier::rlimit(40)]
pub proof fn terrain_albedos_tile(kind: TerrainAlbedo, seed: u32, size: int, x: int, y: int)
    requires
        size > 0,
        x >= 0,
        y >= 0,
    ensures
        terrain_texel_spec(kind, seed, size, x + size, y) == terrain_texel_spec(kind, seed, size, x, y),
        terrain_texel_spec(kind, seed, size, x, y + size) == terrain_texel_spec(kind, seed, size, x, y),
{
    assert forall|s: u32, fx: int, fy: int| fx > 0 && fy > 0 implies #[trigger] tile_noise_spec(
        s,
        x + size,
        y,
        size,
        fx,
        fy,
    ) == tile_noise_spec(s, x, y, size, fx, fy) by {
        tile_noise_wraps_in_x(s, x, y, size, fx, fy);
    }
    assert forall|s: u32, fx: int, fy: int| fx > 0 && fy > 0 implies #[trigger] tile_noise_spec(
        s,
        x,
        y + size,
        size,
        fx,
        fy,
    ) == tile_noise_spec(s, x, y, size, fx, fy) by {
        tile_noise_wraps_in_y(s, x, y, size, fx, fy);
    }
}

} // verus!
