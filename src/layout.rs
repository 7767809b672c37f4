use crate::shape::Shape;
use vstd::prelude::*;

verus! {

/// Where a tensor's elements lie: its shape, the stride of each dimension, and the
/// offset of the first element.
#[derive(Debug)]
pub struct Layout {
    pub shape: Shape,
    pub stride: Vec<usize>,
    pub start_offset: usize,
}

} // verus!
