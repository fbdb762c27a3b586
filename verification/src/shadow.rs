//! Which surfaces the depth-map shadow pass draws.
use vstd::prelude::*;
use crate::world::SurfaceMaterialRef;

verus! {

/// Terrain and water are height-marched, not depth-map casters.
pub open spec fn casts_shadow_spec(material: Option<SurfaceMaterialRef>) -> bool {
    match material {
        Some(SurfaceMaterialRef::Terrain(_)) => false,
        Some(SurfaceMaterialRef::Water(_)) => false,
        None => true,
    }
}

/// Terrain and water are height-marched, not depth-map casters.
pub fn material_casts_shadow(material: Option<SurfaceMaterialRef>) -> (casts: bool)
    ensures
        casts == casts_shadow_spec(material),
{
    match material {
        Some(SurfaceMaterialRef::Terrain(_)) => false,
        Some(SurfaceMaterialRef::Water(_)) => false,
        None => true,
    }
}

/// The shadow uniform block, shared by every shader that reads shadows.
pub const SHADOW_UNIFORMS_WGSL: &'static str = r#"
struct ShadowUniforms {
    light_vp0: mat4x4<f32>,
    light_vp1: mat4x4<f32>,
    light_vp2: mat4x4<f32>,
    cascade_end: vec4<f32>,
    atlas_origin_xz: vec2<f32>,
    atlas_extent: f32,
    flags: u32,
    light_dir: vec3<f32>,
    map_texel: f32,
    seed: u32,
    _pad0: u32,
    base_height: f32,
    hill_height: f32,
    hill_scale: f32,
    lake_scale: f32,
    lake_threshold: f32,
    water_level: f32,
};
"#;

/// Shadow bindings and the ground-height models the shadow ray marches over.
pub const SCENE_SHADOW_WGSL: &'static str = r#"
@group(0) @binding(1) var<uniform> shadow: ShadowUniforms;
@group(0) @binding(2) var shadow_map: texture_depth_2d_array;
@group(0) @binding(3) var shadow_samp: sampler_comparison;
@group(0) @binding(4) var height_atlas: texture_2d<f32>;
@group(0) @binding(5) var height_samp: sampler;

fn hash21(ix: i32, iy: i32, seed: u32) -> f32 {
    var n = u32(ix) * 1597334677u + u32(iy) * 3812015801u + seed * 2747636419u;
    n = n ^ (n >> 16u);
    n = n * 2246822519u;
    n = n ^ (n >> 13u);
    return f32(n >> 8u) / 16777215.0;
}

fn value_noise(p: vec2<f32>, seed: u32) -> f32 {
    let i = floor(p);
    let f = p - i;
    let u = f * f * (3.0 - 2.0 * f);
    let ix = i32(i.x);
    let iy = i32(i.y);
    let a = hash21(ix, iy, seed);
    let b = hash21(ix + 1, iy, seed);
    let c = hash21(ix, iy + 1, seed);
    let d = hash21(ix + 1, iy + 1, seed);
    let v = a + (b - a) * u.x + (c - a) * u.y + (a - b - c + d) * u.x * u.y;
    return v * 2.0 - 1.0;
}

fn fbm2(p0: vec2<f32>, seed: u32, octaves: u32, lacunarity: f32, gain: f32) -> f32 {
    var p = p0;
    var amp = 1.0;
    var sum = 0.0;
    var norm = 0.0;
    for (var o = 0u; o < octaves; o++) {
        sum += amp * value_noise(p, seed);
        norm += amp;
        amp *= gain;
        p *= lacunarity;
    }
    if norm > 0.0 {
        return sum / norm;
    }
    return 0.0;
}

const WATER_CLEARANCE: f32 = 0.02;

fn formula_ground(xz: vec2<f32>) -> f32 {
    let n = fbm2(xz * shadow.hill_scale, shadow.seed, 5u, 2.1, 0.5);
    let h_raw = shadow.base_height + shadow.hill_height * n;
    let lake = fbm2(
        xz * shadow.lake_scale + vec2(17.0, 9.0),
        shadow.seed ^ 0xC0FFEEu,
        3u,
        2.0,
        0.55,
    );
    let lake_t = lake * 0.5 + 0.5;
    let span = max(1.0 - shadow.lake_threshold, 1e-3);
    let basin = clamp((lake_t - shadow.lake_threshold) / span, 0.0, 1.0);
    let floor_h = max(h_raw, shadow.water_level);
    let carved = floor_h - basin * 3.5;
    let near_shore = floor_h <= shadow.water_level + 1.5;
    let in_basin = basin > 0.25 && near_shore;
    var ground = floor_h;
    if in_basin {
        let water_top = shadow.water_level;
        ground = min(carved, water_top - WATER_CLEARANCE - 0.001);
    }
    return ground;
}

fn atlas_ground(xz: vec2<f32>) -> f32 {
    if shadow.atlas_extent <= 0.0 {
        return -10000.0;
    }
    let uv = (xz - shadow.atlas_origin_xz) / shadow.atlas_extent;
    if uv.x < 0.0 || uv.y < 0.0 || uv.x > 1.0 || uv.y > 1.0 {
        return -10000.0;
    }
    return textureSampleLevel(height_atlas, height_samp, uv, 0.0).r;
}

fn shadow_ground(xz: vec2<f32>) -> f32 {
    if (shadow.flags & 4u) != 0u {
        return formula_ground(xz);
    }
    if (shadow.flags & 2u) != 0u {
        return atlas_ground(xz);
    }
    return -10000.0;
}
"#;

/// Visibility of a lit point: cascades, then the height march.
pub const SHADOW_EVAL_WGSL: &'static str = r#"
fn height_visibility(world_p: vec3<f32>) -> f32 {
    let l = normalize(shadow.light_dir);
    let xz_len = length(l.xz);
    if xz_len < 1e-4 {
        return 1.0;
    }
    let dir_xz = l.xz / xz_len;
    let rise = l.y / xz_len;
    let max_dist = max(shadow.cascade_end.z, 56.0);
    let fade_m = 12.0;
    let base = max(shadow.atlas_extent * shadow.map_texel, 0.45);
    var t = base;
    var hit_t = -1.0;
    for (var i = 0u; i < 10u; i++) {
        // Slope-scaled: a low sun (small rise) still covers distance in 10 taps.
        let step = base * (1.0 + 0.35 * f32(i)) / max(abs(rise), 0.18);
        t += step;
        let h = world_p.y + rise * t;
        let g = shadow_ground(world_p.xz + dir_xz * t);
        if g > -9999.0 && h + 0.12 < g {
            hit_t = t;
            break;
        }
    }
    if hit_t < 0.0 {
        return 1.0;
    }
    let fade = clamp((max_dist - hit_t) / fade_m, 0.0, 1.0);
    return mix(1.0, 0.42, fade);
}

fn csm_visibility(world_p: vec3<f32>, n: vec3<f32>, eye: vec3<f32>) -> f32 {
    let d = distance(world_p, eye);
    var layer = 0i;
    var vp = shadow.light_vp0;
    if d >= shadow.cascade_end.z && shadow.cascade_end.z > 0.0 {
        return 1.0;
    } else if d >= shadow.cascade_end.y {
        layer = 2i;
        vp = shadow.light_vp2;
    } else if d >= shadow.cascade_end.x {
        layer = 1i;
        vp = shadow.light_vp1;
    }
    let bias_p = world_p + n * max(shadow.map_texel * 4.0, 0.04);
    let clip = vp * vec4(bias_p, 1.0);
    let ndc = clip.xyz / max(clip.w, 1e-6);
    let uv = vec2(ndc.x * 0.5 + 0.5, -ndc.y * 0.5 + 0.5);
    if uv.x < 0.0 || uv.y < 0.0 || uv.x > 1.0 || uv.y > 1.0 || ndc.z < 0.0 || ndc.z > 1.0 {
        return 1.0;
    }
    let texel = shadow.map_texel;
    var s = 0.0;
    s += textureSampleCompare(shadow_map, shadow_samp, uv + vec2(-texel, -texel), layer, ndc.z);
    s += textureSampleCompare(shadow_map, shadow_samp, uv + vec2( texel, -texel), layer, ndc.z);
    s += textureSampleCompare(shadow_map, shadow_samp, uv + vec2(-texel,  texel), layer, ndc.z);
    s += textureSampleCompare(shadow_map, shadow_samp, uv + vec2( texel,  texel), layer, ndc.z);
    return s * 0.25;
}

fn sun_visibility(world_p: vec3<f32>, n: vec3<f32>, eye: vec3<f32>) -> f32 {
    var vis = 1.0;
    if (shadow.flags & 1u) != 0u {
        vis = min(vis, csm_visibility(world_p, n, eye));
    }
    if (shadow.flags & 6u) != 0u {
        vis = min(vis, height_visibility(world_p));
    }
    return vis;
}
"#;

} // verus!
