use crate::types::TensorType;
use vstd::prelude::*;

verus! {

/// The elements per block that tensor layout counts: one, for every type.
pub open spec fn block_size_of(t: TensorType) -> nat {
    1
}

/// The bytes per block that tensor layout counts: one, for every type.
pub open spec fn type_size_of(t: TensorType) -> nat {
    1
}

/// The number of elements in one block, as tensor layout counts it.
pub fn feml_block_size(tensor_type: TensorType) -> (r: usize)
    ensures
        r == block_size_of(tensor_type),
{
    1
}

/// The bytes of one block, as tensor layout counts it.
pub fn feml_type_size(tensor_type: TensorType) -> (r: usize)
    ensures
        r == type_size_of(tensor_type),
{
    1
}

/// The bytes of one row, as tensor layout counts it: one, whatever the row holds.
pub fn feml_row_size(tensor_type: TensorType, block_size: usize) -> (r: usize)
    ensures
        r == 1,
{
    1
}

} // verus!
