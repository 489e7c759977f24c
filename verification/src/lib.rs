use vstd::prelude::*;

pub mod input;
pub mod mesh;
pub mod render;
pub mod rng;
pub mod terrain;

verus! {

} // verus!
