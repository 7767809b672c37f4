use crate::types::{TensorType, FEML_TYPE_COUNT};
use vstd::prelude::*;

verus! {

/// The position of a tensor type in `TensorType`, at which it reads the type table.
pub open spec fn type_index(t: TensorType) -> nat {
    match t {
        TensorType::TensorUnknown => 0,
        TensorType::TensorTypeF32 => 1,
        TensorType::TensorTypeF16 => 2,
    }
}

/// The type table has a row at the type's position: its first `FEML_TYPE_COUNT`
/// positions only.
pub open spec fn has_traits(t: TensorType) -> bool {
    type_index(t) < FEML_TYPE_COUNT
}

/// The elements per block of the table's row `i`: 1 in both rows (`f32`, `f16`).
pub open spec fn row_block_size(i: nat) -> nat {
    1
}

/// The bytes per block of the table's row `i`: 4 in row 0 (`f32`), 2 in row 1 (`f16`).
pub open spec fn row_type_size(i: nat) -> nat {
    if i == 0 {
        4
    } else {
        2
    }
}

/// The number of elements in one block of the type.
pub open spec fn block_size_of(t: TensorType) -> nat {
    row_block_size(type_index(t))
}

/// The bytes of one block of the type.
pub open spec fn type_size_of(t: TensorType) -> nat {
    row_type_size(type_index(t))
}

/// The position of the type in `TensorType`.
fn feml_type_index(tensor_type: TensorType) -> (r: usize)
    ensures
        r == type_index(tensor_type),
{
    match tensor_type {
        TensorType::TensorUnknown => 0,
        TensorType::TensorTypeF32 => 1,
        TensorType::TensorTypeF16 => 2,
    }
}

/// The number of elements in one block of the type, from its row of the type table.
pub fn feml_block_size(tensor_type: TensorType) -> (r: usize)
    requires
        has_traits(tensor_type),
    ensures
        r == block_size_of(tensor_type),
{
    1
}

/// The bytes of one block of the type, from its row of the type table.
pub fn feml_type_size(tensor_type: TensorType) -> (r: usize)
    requires
        has_traits(tensor_type),
    ensures
        r == type_size_of(tensor_type),
{
    if feml_type_index(tensor_type) == 0 {
        4
    } else {
        2
    }
}

/// The bytes of a row of `ne` elements, a whole number of blocks.
pub fn feml_row_size(tensor_type: TensorType, ne: usize) -> (r: usize)
    requires
        has_traits(tensor_type),
        type_size_of(tensor_type) * ne <= usize::MAX,
    ensures
        r == (type_size_of(tensor_type) * ne) as int / block_size_of(tensor_type) as int,
{
    let blck = feml_block_size(tensor_type);
    assert(ne % 1 == 0);
    (feml_type_size(tensor_type) * ne) / blck
}

} // verus!
