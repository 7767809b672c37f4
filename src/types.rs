use vstd::prelude::*;

verus! {

/// The kind of an object laid out in an arena.
#[derive(Debug, Clone, Copy, PartialEq, Eq, Structural)]
pub enum FemlObjectType {
    FemlObjectTypeTensor,
    FemlObjectTypeGraph,
    FemlObjectTypeBuffer,
}

/// The element type of a tensor.
#[derive(Debug, Clone, Copy, PartialEq, Eq, Structural)]
pub enum TensorType {
    TensorUnknown,
    TensorTypeF32,
    TensorTypeF16,
}

/// The operation that produces a tensor.
#[derive(Debug, Clone, Copy, PartialEq, Eq, Structural)]
pub enum FemlOpType {
    FemlOpTypeUnknown,
    FemlOpReshape,
    FemlOpView,
    FemlOpPermute,
    FemlOpTranspose,
    FemlOpCpy,
    FemlOpSetRows,
    FemlOpMulMat,
    FemlOpSoftMaxBack,
    FemlOpIm2ColBack,
    FemlOpGetRowsBack,
    FemlOpOutProd,
}

/// A storage type of tensor elements.
#[derive(Debug, Clone, Copy, PartialEq, Eq, Structural)]
pub enum FemlType {
    FemlTypeF32,
    FemlTypeF16,
}

/// The outcome of a backend operation.
#[derive(Debug, Clone, Copy, PartialEq, Eq, Structural)]
pub enum FemlStatus {
    AllocFailed,
    Failed,
    Success,
    Aborted,
}

/// The number of element types with a row in the type table.
pub const FEML_TYPE_COUNT: usize = 2;

/// The severity of a log line.
#[derive(Debug, Clone, Copy, PartialEq, Eq, Structural)]
pub enum FemlLogLevel {
    /// Nothing is logged.
    Off,
    Debug,
    Info,
    Warn,
    Error,
    /// Continues the previous line.
    Cont,
}

} // verus!
