use vstd::prelude::*;

pub mod buffer;
pub mod color;
pub mod editor;
pub mod input;
pub mod raster;
pub mod scene;
pub mod vector;

verus! {

} // verus!
