use vstd::prelude::*;

verus! {

/// The different types of elements allowed in tensors.
#[derive(Debug, Copy, Clone, PartialEq, Eq, Hash, Structural)]
pub enum DataType {
    /// Unsigned 8 bits integer.
    U8,
    /// Unsigned 32 bits integer.
    U32,
    /// Signed 16 bits integer.
    I16,
    /// Signed 32 bits integer.
    I32,
    /// Signed 64 bits integer.
    I64,
    /// Floating-point using half precision (16 bits).
    F16,
    /// Floating-point using single precision (32 bits).
    F32,
    /// Floating-point using double precision (64 bits).
    F64,
}

/// The name of a data type, as written in its declaration.
pub open spec fn dtype_name(d: DataType) -> Seq<char> {
    match d {
        DataType::U8 => "U8"@,
        DataType::U32 => "U32"@,
        DataType::I16 => "I16"@,
        DataType::I32 => "I32"@,
        DataType::I64 => "I64"@,
        DataType::F16 => "F16"@,
        DataType::F32 => "F32"@,
        DataType::F64 => "F64"@,
    }
}

impl DataType {
    /// The name of the data type, as written in its declaration.
    pub fn name(&self) -> (r: &'static str)
        ensures
            r@ == dtype_name(*self),
    {
        match self {
            DataType::U8 => "U8",
            DataType::U32 => "U32",
            DataType::I16 => "I16",
            DataType::I32 => "I32",
            DataType::I64 => "I64",
            DataType::F16 => "F16",
            DataType::F32 => "F32",
            DataType::F64 => "F64",
        }
    }
}

} // verus!
