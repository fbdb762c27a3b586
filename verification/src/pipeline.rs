//! The WGSL prefix that every surface shader is compiled with.
use vstd::prelude::*;
use crate::shadow::{SCENE_SHADOW_WGSL, SHADOW_EVAL_WGSL, SHADOW_UNIFORMS_WGSL};

verus! {

/// Declarations every surface shader shares: the frame uniforms and the air
/// between the eye and what it is looking at.
///
/// One copy, because four shaders drifting apart on the layout of a single
/// uniform buffer is a class of bug that only shows up as garbage on screen.
pub const SCENE_WGSL: &'static str = r#"
struct Uniforms {
    view_proj: mat4x4<f32>,
    light_dir: vec3<f32>,
    ambient: f32,
    light_color: vec3<f32>,
    _pad: f32,
    eye: vec3<f32>,
    time: f32,
    haze_color: vec3<f32>,
    haze_density: f32,
    haze_height_m: f32,
    haze_base_y: f32,
    torch_radius_m: f32,
    torch_curve: f32,
    torch_color: vec4<f32>,
};

@group(0) @binding(0) var<uniform> u: Uniforms;

// Light from the viewer's own lantern. A point light at the eye with a
// distance falloff that stays gentle near the holder and dies at `reach`:
//   1 - (d/reach)^2  clamped â€” quadratic near, linear tail, zero past reach.
// The 1/(1+d*d) term keeps a hand's-breadth wall from blowing out.
fn torch_light(world_p: vec3<f32>, n: vec3<f32>) -> vec3<f32> {
    if u.torch_radius_m <= 0.0 {
        return vec3<f32>(0.0);
    }
    let to_p = world_p - u.eye;
    let d = length(to_p);
    let reach = max(u.torch_radius_m, 0.5);
    let fall = pow(clamp(1.0 - d / reach, 0.0, 1.0), max(u.torch_curve, 0.05));
    // Surfaces facing away get only the wrap spill, never a hard black edge.
    let ndl = max(dot(n, -to_p / max(d, 1e-4)), 0.0);
    let wrap = ndl * 0.7 + 0.3;
    return u.torch_color.rgb * (2.2 * fall * wrap);
}

// Fade a surface into the sky by how much air the view ray crossed.
//
// Without this the ground simply ends at the last chunk. Air thins with height,
// so the amount crossed is the integral of exp(-(y - base) / H) along the ray,
// which has a closed form: a summit looks out over tens of kilometres while the
// valley below it is milk within five. Taking the density at the midpoint
// instead â€” the obvious shortcut â€” all but switches the haze off as soon as the
// eye climbs a mountain, and the view from up there is the one that matters.
fn haze(color: vec3<f32>, world_p: vec3<f32>) -> vec3<f32> {
    if u.haze_density <= 0.0 {
        return color;
    }
    let d = distance(u.eye, world_p);
    let h = max(u.haze_height_m, 1.0);
    let a0 = exp(-max(u.eye.y - u.haze_base_y, 0.0) / h);
    let a1 = exp(-max(world_p.y - u.haze_base_y, 0.0) / h);
    let rise = world_p.y - u.eye.y;
    var air = d * a0;
    if abs(rise) > 1.0 {
        air = d * h * (a0 - a1) / rise;
    }
    let optical = air * u.haze_density;
    let f = 1.0 - exp(-optical * optical);
    return mix(color, u.haze_color, clamp(f, 0.0, 1.0));
}
"#;

/// Scene declarations, then the shadow uniforms, bindings, and evaluation, in
/// that order: each later block uses names the earlier ones declare.
pub open spec fn scene_shader_prefix_spec() -> Seq<char> {
    SCENE_WGSL@ + SHADOW_UNIFORMS_WGSL@ + SCENE_SHADOW_WGSL@ + SHADOW_EVAL_WGSL@
}

pub fn scene_shader_prefix() -> (s: String)
    ensures
        s@ == scene_shader_prefix_spec(),
{
    let mut s = String::new();
    s.append(SCENE_WGSL);
    s.append(SHADOW_UNIFORMS_WGSL);
    s.append(SCENE_SHADOW_WGSL);
    s.append(SHADOW_EVAL_WGSL);
    assert(s@ =~= scene_shader_prefix_spec());
    s
}

} // verus!
