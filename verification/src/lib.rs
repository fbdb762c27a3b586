//! A bounded procedural 3D engine's integer core: chunk addressing, handle
//! tables, resource validation, generated albedos, index buffers, and the
//! diagnostic text the renderer prints.
use vstd::prelude::*;

pub mod clipmap;
pub mod entities;
pub mod error;
pub mod filtering;
pub mod gpu_profile;
pub mod instance_cull;
pub mod pipeline;
pub mod render;
pub mod render_plan;
pub mod resources;
pub mod ribbons;
pub mod shade;
pub mod shadow;
pub mod space;
pub mod spaces;
pub mod text;
pub mod terrain_stream;
pub mod texture;
pub mod tree;
pub mod vfx;
pub mod volume;
pub mod world;

verus! {

} // verus!
