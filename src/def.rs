use vstd::prelude::*;

verus! {

/// The number of dimensions that tensor sizes and strides are computed over.
pub const FEML_MAX_DIMS: usize = 3;

/// The most operation parameters a tensor holds.
pub const FEML_MAX_PARAMS: usize = 64;

/// The most source tensors an operation takes.
pub const FEML_MAX_SRC: usize = 10;

/// The bytes that a tensor's descriptor takes in an arena.
pub const FEML_TENSOR_SIZE: usize = 336;

/// The number of threads a CPU backend starts with.
pub const FEML_DEFAULT_N_THREAD: i32 = 4;

/// The version of the backend interface.
pub const FEML_BACKEND_API_VERION: i32 = 1;

/// The alignment of tensor data in a backend buffer.
pub const FEML_TENSOR_ALIGNMENT: usize = 32;

} // verus!
