pub mod backend;
pub mod compute_graph;
pub mod context;
pub mod data_type;
pub mod def;
pub mod error;
pub mod layout;
pub mod memory_manager;
pub mod pad;
pub mod runtime;
pub mod shape;
pub mod span;
pub mod tensor;
pub mod tensor_traits;
pub mod type_traits;
pub mod types;
