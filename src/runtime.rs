use crate::compute_graph::ComputeGraph;
use crate::data_type::DataType;
use crate::memory_manager::{MemoryBlock, MemoryManager};
use crate::span::Span;
use crate::shape::Shape;
use std::sync::Arc;
use vstd::prelude::*;

verus! {

/// Identifier of a tensor.
#[derive(Clone, Copy, Debug, PartialEq, Eq, Hash, Structural)]
pub struct TensorId(pub usize);

impl TensorId {
    /// The next identifier of the counter `next`, which moves on by one.
    pub fn new(next: &mut usize) -> (r: Self)
        requires
            *old(next) < usize::MAX,
        ensures
            r.0 == *old(next),
            *final(next) == *old(next) + 1,
    {
        let id = *next;
        *next = id + 1;
        TensorId(id)
    }
}

/// A named tensor of a context, with the pool block that stores it, if any.
#[derive(Debug)]
pub struct Tensor_ {
    pub id: TensorId,
    pub name: String,
    pub dtype: DataType,
    pub shape: Shape,
    pub storage: Option<MemoryBlock>,
}

/// A pool of memory for tensors, with the tensors and graphs made in it and the
/// counter that numbers them.
pub struct Context_ {
    pub memory_manager: MemoryManager,
    pub tensor_tables: Vec<Tensor_>,
    pub graph_tables: Vec<ComputeGraph>,
    pub next_id: usize,
}

/// A context shared by its owners.
pub struct Context(pub Arc<Context_>);

impl Context_ {
    /// A context with a pool of one region of `size` bytes, no tensor and no graph.
    /// Its pool hands a free segment out whole whenever it is large enough.
    pub fn new(size: &usize) -> (r: Option<Self>)
        ensures
            r matches Some(c) && {
                &&& c.memory_manager.wf()
                &&& c.memory_manager.bytes() == seq![Seq::new(*size as nat, |k: int| 0u8)]
                &&& c.memory_manager.free() == seq![Span { region: 0, start: 0, len: *size as nat }]
                &&& c.memory_manager.live().len() == 0
                &&& c.memory_manager.ratio() == 0
                &&& c.memory_manager.page_size() == *size
                &&& c.tensor_tables@.len() == 0
                &&& c.graph_tables@.len() == 0
                &&& c.next_id == 1
            },
    {
        Some(
            Context_ {
                memory_manager: MemoryManager::new(*size, 0),
                tensor_tables: Vec::new(),
                graph_tables: Vec::new(),
                next_id: 1,
            },
        )
    }
}

impl Tensor_ {
    /// A tensor numbered by the context's counter. `size` is the number of bytes that
    /// the caller meant for it; the storage block, if any, already has them.
    pub fn new(
        name: String,
        dtype: DataType,
        shape: Shape,
        storage: Option<MemoryBlock>,
        context: &mut Context_,
        size: usize,
    ) -> (r: Self)
        requires
            old(context).next_id < usize::MAX,
        ensures
            r.id.0 == old(context).next_id,
            final(context).next_id == old(context).next_id + 1,
            r.name == name,
            r.dtype == dtype,
            r.shape == shape,
            r.storage == storage,
    {
        let id = TensorId::new(&mut context.next_id);
        Tensor_ { id, name, dtype, shape, storage }
    }
}

} // verus!
