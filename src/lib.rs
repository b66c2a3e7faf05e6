use vstd::prelude::*;

pub mod frames;
pub mod mesh;
pub mod render;
pub mod tracker;
pub mod watched_shaders;

verus! {

} // verus!
