use vstd::prelude::*;

verus! {

/// Identifier of a compute graph.
#[derive(Clone, Copy, Debug, PartialEq, Eq, Hash, Structural)]
pub struct GraphId(pub usize);

impl GraphId {
    /// The next identifier of the counter `next`, which moves on by one.
    pub fn new(next: &mut usize) -> (r: Self)
        requires
            *old(next) < usize::MAX,
        ensures
            r.0 == *old(next),
            *final(next) == *old(next) + 1,
    {
        let id = *next;
        *next = id + 1;
        GraphId(id)
    }
}

/// A compute graph, known by its identifier.
#[derive(Debug)]
pub struct ComputeGraph {
    pub id: GraphId,
}

} // verus!
