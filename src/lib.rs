use vstd::prelude::*;

pub mod point;
pub mod branch;
pub mod vertex;
pub mod builder;
pub mod bookkeeping;
pub mod geometry;
pub mod svg;
pub mod laws;
pub mod model;
pub mod recent;

verus! {

} // verus!
