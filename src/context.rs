use crate::pad::{feml_pad, lemma_align_is_pow2, round_up, FEML_MEM_ALIGN};
use crate::types::FemlObjectType;
use vstd::prelude::*;

verus! {

/// A zero-initialised byte buffer of a declared size.
#[derive(Debug, Clone)]
pub struct MemoryBuffer {
    pub size: usize,
    pub buf: Vec<u8>,
}

impl MemoryBuffer {
    /// A buffer of `size` zero bytes.
    pub fn new(size: usize) -> (r: Self)
        ensures
            r.size == size,
            r.buf@ == Seq::new(size as nat, |i: int| 0u8),
    {
        let mut buf: Vec<u8> = Vec::new();
        let mut i: usize = 0;
        while i < size
            invariant
                i <= size,
                buf@ == Seq::new(i as nat, |k: int| 0u8),
            decreases size - i,
        {
            buf.push(0u8);
            i = i + 1;
            assert(buf@ =~= Seq::new(i as nat, |k: int| 0u8));
        }
        MemoryBuffer { size, buf }
    }

    /// The buffer holds no byte.
    pub fn is_empty(&self) -> (r: bool)
        ensures
            r == (self.buf@.len() == 0),
    {
        self.buf.is_empty()
    }

    /// The buffer's bytes, from its first one.
    pub fn as_ptr(&self) -> (r: &[u8])
        ensures
            r@ == self.buf@,
    {
        self.buf.as_slice()
    }
}

/// One object of an arena: `size` bytes from `offset`.
#[derive(Debug, Clone, Copy)]
pub struct FemlObject {
    pub offset: usize,
    pub size: usize,
    pub object_type: FemlObjectType,
}

/// A fixed-capacity bump arena: objects are appended one after the other and never
/// removed one by one.
#[derive(Debug, Clone)]
pub struct FemlContext {
    pub memory_size: usize,
    pub mem_buffer: MemoryBuffer,
    pub n_objects: i32,
    pub objects: Vec<FemlObject>,
}

/// The capacity of an arena, and a buffer for it (empty when the arena has none of
/// its own yet).
#[derive(Debug, Clone)]
pub struct FemlInitParams {
    pub memory_size: usize,
    pub memory_buffer: MemoryBuffer,
}

/// The end of the last object, 0 when there is none.
pub open spec fn objects_end(objs: Seq<FemlObject>) -> nat {
    if objs.len() == 0 {
        0
    } else {
        (objs.last().offset + objs.last().size) as nat
    }
}

/// The capacity of an arena made from a requested capacity and a buffer: at least one
/// alignment unit, and padded to a multiple of it unless a buffer was supplied.
pub open spec fn arena_capacity(memory_size: usize, buffer_len: nat) -> int {
    let size = if memory_size == 0 { FEML_MEM_ALIGN } else { memory_size };
    if buffer_len > 0 {
        size as int
    } else {
        round_up(size as int, FEML_MEM_ALIGN as int)
    }
}

impl FemlContext {
    /// The arena's invariant: the objects lie back to back from offset 0, each padded to
    /// the alignment unit, and all within the capacity.
    pub open spec fn wf(&self) -> bool {
        let objs = self.objects@;
        &&& objs.len() > 0 ==> objs[0].offset == 0
        &&& forall|i: int|
            0 <= i < objs.len() ==> (#[trigger] objs[i]).size % FEML_MEM_ALIGN == 0
        &&& forall|i: int|
            0 <= i < objs.len() - 1 ==> #[trigger] objs[i + 1].offset == objs[i].offset
                + objs[i].size
        &&& objects_end(objs) <= self.memory_size
    }

    /// Whether the arena's invariant holds.
    pub fn is_well_formed(&self) -> (r: bool)
        ensures
            r == self.wf(),
    {
        let n = self.objects.len();
        let objs = &self.objects;
        if n > 0 && objs[0].offset != 0 {
            return false;
        }
        let mut i: usize = 0;
        while i < n
            invariant
                i <= n,
                n == objs@.len(),
                objs@ == self.objects@,
                forall|k: int| 0 <= k < i ==> (#[trigger] objs@[k]).size % FEML_MEM_ALIGN == 0,
                forall|k: int|
                    0 <= k < i && k < n - 1 ==> #[trigger] objs@[k + 1].offset == objs@[k].offset
                        + objs@[k].size,
            decreases n - i,
        {
            if objs[i].size % FEML_MEM_ALIGN != 0 {
                assert(objs@[i as int].size % FEML_MEM_ALIGN != 0);
                return false;
            }
            if i + 1 < n && (objs[i].offset > usize::MAX - objs[i].size || objs[i + 1].offset
                != objs[i].offset + objs[i].size) {
                let ghost k = i as int;
                assert(objs@[k + 1].offset != objs@[k].offset + objs@[k].size);
                return false;
            }
            i = i + 1;
        }
        if n == 0 {
            true
        } else {
            objs[n - 1].offset <= self.memory_size && objs[n - 1].size <= self.memory_size
                - objs[n - 1].offset
        }
    }

    /// Makes an empty arena. A zero capacity becomes one alignment unit; without a
    /// supplied buffer the capacity is padded up to the alignment unit, with one it is
    /// taken as it is.
    pub fn new(params: FemlInitParams) -> (r: Self)
        requires
            params.memory_buffer.buf@.len() == 0 ==> params.memory_size + FEML_MEM_ALIGN
                <= usize::MAX + 1,
        ensures
            r.wf(),
            r.memory_size == arena_capacity(params.memory_size, params.memory_buffer.buf@.len()),
            r.mem_buffer == params.memory_buffer,
            r.n_objects == 0,
            r.objects@.len() == 0,
    {
        let mut params = params;
        if params.memory_size == 0 {
            params.memory_size = FEML_MEM_ALIGN;
        }
        proof { lemma_align_is_pow2(); }
        let memory_size = if !params.memory_buffer.is_empty() {
            params.memory_size
        } else {
            feml_pad(params.memory_size, FEML_MEM_ALIGN)
        };
        FemlContext {
            memory_size,
            mem_buffer: params.memory_buffer,
            n_objects: 0,
            objects: Vec::new(),
        }
    }
}

/// Appends an object of `size` bytes, padded to the alignment unit, right after the
/// last one. When it would reach past the capacity nothing changes and `None` comes
/// back.
pub fn feml_new_object(ctx: &mut FemlContext, object_type: FemlObjectType, size: usize) -> (r:
    Option<FemlObject>)
    requires
        old(ctx).wf(),
    ensures
        final(ctx).wf(),
        final(ctx).memory_size == old(ctx).memory_size,
        final(ctx).mem_buffer == old(ctx).mem_buffer,
        final(ctx).n_objects == old(ctx).n_objects,
        objects_end(old(ctx).objects@) + round_up(size as int, FEML_MEM_ALIGN as int)
            > old(ctx).memory_size ==> r is None && final(ctx).objects@ == old(ctx).objects@,
        objects_end(old(ctx).objects@) + round_up(size as int, FEML_MEM_ALIGN as int)
            <= old(ctx).memory_size ==> r == Some(
            FemlObject {
                offset: objects_end(old(ctx).objects@) as usize,
                size: round_up(size as int, FEML_MEM_ALIGN as int) as usize,
                object_type,
            },
        ) && final(ctx).objects@ == old(ctx).objects@.push(r->Some_0),
{
    let n = ctx.objects.len();
    let cur_end = if n == 0 {
        0
    } else {
        ctx.objects[n - 1].offset + ctx.objects[n - 1].size
    };
    assert(cur_end == objects_end(ctx.objects@));
    if size > usize::MAX - (FEML_MEM_ALIGN - 1) {
        proof {
            assert(round_up(size as int, 16) >= size) by (nonlinear_arith)
                requires size >= 0;
            assert(round_up(size as int, 16) % 16 == 0) by (nonlinear_arith);
        }
        return None;
    }
    proof { lemma_align_is_pow2(); }
    let size_needed = feml_pad(size, FEML_MEM_ALIGN);
    if size_needed > ctx.memory_size - cur_end {
        return None;
    }
    let obj = FemlObject { offset: cur_end, size: size_needed, object_type };
    let ghost objs = ctx.objects@;
    ctx.objects.push(obj);
    assert(ctx.objects@ == objs.push(obj));
    Some(obj)
}

/// Packing: every object of an arena starts at or after the end of each object before
/// it, so the offsets never fall, and they rise strictly past a non-empty object.
pub proof fn lemma_arena_packing(ctx: FemlContext, i: int, j: int)
    requires
        ctx.wf(),
        0 <= i < j < ctx.objects@.len(),
    ensures
        ctx.objects@[j].offset >= ctx.objects@[i].offset + ctx.objects@[i].size,
        ctx.objects@[i].size > 0 ==> ctx.objects@[i].offset < ctx.objects@[j].offset,
    decreases j - i,
{
    let objs = ctx.objects@;
    let k = j - 1;
    assert(objs[k + 1].offset == objs[k].offset + objs[k].size);
    if j - 1 > i {
        lemma_arena_packing(ctx, i, j - 1);
    }
}

} // verus!
