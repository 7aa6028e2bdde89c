use vstd::prelude::*;

pub mod entity;
pub mod frame;
pub mod render;
pub mod scene;

verus! {

} // verus!
