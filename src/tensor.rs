use crate::context::{feml_new_object, objects_end, FemlContext, FemlObject};
use crate::def::{FEML_MAX_DIMS, FEML_TENSOR_SIZE};
use crate::pad::{round_up, FEML_MEM_ALIGN};
use crate::tensor_traits::{block_size_of, feml_block_size, feml_row_size, feml_type_size, type_size_of};
use crate::types::{FemlObjectType, FemlOpType, TensorType};
use vstd::prelude::*;

verus! {

/// A tensor descriptor: element type, sizes `ne` and byte strides `nb` per dimension,
/// the operation that makes it, and where its data lies. A view reads its data through
/// `view_src` from byte `view_offs` on. `data` is the offset of the tensor's data in
/// its arena's buffer, when it has any; `src` holds the operation's source tensors, and
/// `extra` the offset of backend data kept beside the tensor, when there is any.
#[derive(Debug)]
pub struct FemlTensor {
    pub tensor_type: TensorType,
    pub ne: [usize; 4],
    pub nb: [usize; 4],
    pub op: FemlOpType,
    pub op_params: [i32; 16],
    pub flags: i32,
    pub src: Vec<FemlTensor>,
    pub view_src: Option<Box<FemlTensor>>,
    pub view_offs: i64,
    pub data: Option<usize>,
    pub name: String,
    pub extra: Option<usize>,
}

/// The bytes that dimension `i` adds past the first element: `(ne[i] - 1) * nb[i]`,
/// or nothing when the dimension holds at most one element.
pub open spec fn extent(t: FemlTensor, i: int) -> int {
    if t.ne@[i] > 1 {
        (t.ne@[i] - 1) * t.nb@[i]
    } else {
        0
    }
}

/// The sum of `extent(t, i)` for `lo <= i < hi`.
pub open spec fn extents(t: FemlTensor, lo: int, hi: int) -> int
    decreases hi - lo,
{
    if hi <= lo {
        0
    } else {
        extents(t, lo, hi - 1) + extent(t, hi - 1)
    }
}

/// The bytes that a tensor's data spans: nothing when a dimension is empty; else one
/// element (or, for a blocked type, the first row) plus the extent of every further
/// dimension.
pub open spec fn nbytes_of(t: FemlTensor) -> int {
    let d = FEML_MAX_DIMS as int;
    if t.ne@[0] == 0 || t.ne@[1] == 0 || t.ne@[2] == 0 {
        0
    } else if block_size_of(t.tensor_type) == 1 {
        type_size_of(t.tensor_type) + extents(t, 0, d)
    } else {
        t.ne@[0] * t.nb@[0] / (block_size_of(t.tensor_type) as int) + extents(t, 1, d)
    }
}

/// Adding dimensions never shrinks the sum of extents.
proof fn lemma_extents_grow(t: FemlTensor, lo: int, mid: int, hi: int)
    requires
        lo <= mid <= hi,
    ensures
        extents(t, lo, mid) <= extents(t, lo, hi),
    decreases hi - mid,
{
    if mid < hi {
        lemma_extents_grow(t, lo, mid, hi - 1);
        assert(extent(t, hi - 1) >= 0) by (nonlinear_arith)
            requires
                extent(t, hi - 1) == if t.ne@[hi - 1] > 1 { (t.ne@[hi - 1] - 1) * t.nb@[hi - 1] } else { 0 },
                t.nb@[hi - 1] >= 0;
    }
}

/// The bytes that the tensor's data spans, from its first element to its last.
pub fn feml_nbytes(tensor: &FemlTensor) -> (r: usize)
    requires
        nbytes_of(*tensor) <= usize::MAX,
        block_size_of(tensor.tensor_type) != 1 ==> tensor.ne@[0] * tensor.nb@[0] <= usize::MAX,
    ensures
        r == nbytes_of(*tensor),
{
    let mut i: usize = 0;
    while i < FEML_MAX_DIMS
        invariant
            i <= FEML_MAX_DIMS,
            forall|k: int| 0 <= k < i ==> tensor.ne@[k] > 0,
        decreases FEML_MAX_DIMS - i,
    {
        if tensor.ne[i] == 0 {
            return 0;
        }
        i = i + 1;
    }
    let blck_size = feml_block_size(tensor.tensor_type);
    if blck_size == 1 {
        let mut nbytes = feml_type_size(tensor.tensor_type);
        let mut i: usize = 0;
        while i < FEML_MAX_DIMS
            invariant
                i <= FEML_MAX_DIMS,
                nbytes == type_size_of(tensor.tensor_type) + extents(*tensor, 0, i as int),
                type_size_of(tensor.tensor_type) + extents(*tensor, 0, FEML_MAX_DIMS as int) <= usize::MAX,
            decreases FEML_MAX_DIMS - i,
        {
            proof { lemma_extents_grow(*tensor, 0, i as int + 1, FEML_MAX_DIMS as int); }
            if tensor.ne[i] > 1 {
                proof {
                    assert((tensor.ne[i as int] - 1) * tensor.nb[i as int] >= 0) by (nonlinear_arith)
                        requires tensor.ne[i as int] > 1;
                }
                nbytes += (tensor.ne[i] - 1) * tensor.nb[i];
            }
            i = i + 1;
        }
        nbytes
    } else {
        let mut nbytes = tensor.ne[0] * tensor.nb[0] / blck_size;
        let mut i: usize = 1;
        while i < FEML_MAX_DIMS
            invariant
                1 <= i <= FEML_MAX_DIMS,
                blck_size == block_size_of(tensor.tensor_type),
                nbytes == tensor.ne@[0] * tensor.nb@[0] / (blck_size as int) + extents(*tensor, 1, i as int),
                tensor.ne@[0] * tensor.nb@[0] / (blck_size as int) + extents(*tensor, 1, FEML_MAX_DIMS as int) <= usize::MAX,
            decreases FEML_MAX_DIMS - i,
        {
            proof { lemma_extents_grow(*tensor, 1, i as int + 1, FEML_MAX_DIMS as int); }
            if tensor.ne[i] > 1 {
                proof {
                    assert((tensor.ne[i as int] - 1) * tensor.nb[i as int] >= 0) by (nonlinear_arith)
                        requires tensor.ne[i as int] > 1;
                }
                nbytes += (tensor.ne[i] - 1) * tensor.nb[i];
            }
            i = i + 1;
        }
        nbytes
    }
}

/// The product `ne[lo] * ... * ne[hi - 1]`.
pub open spec fn prod(ne: Seq<usize>, lo: int, hi: int) -> int
    decreases hi - lo,
{
    if hi <= lo {
        1
    } else {
        prod(ne, lo, hi - 1) * ne[hi - 1]
    }
}

/// The source and offset that a new view reads through: a view of a view reads
/// through the inner source, the two offsets added.
pub open spec fn view_base(view_src: Option<FemlTensor>, view_offs: i64) -> (Option<FemlTensor>, int) {
    match view_src {
        Some(vs) => match vs.view_src {
            Some(inner) => (Some(*inner), view_offs + vs.view_offs),
            None => (Some(vs), view_offs as int),
        },
        None => (None, view_offs as int),
    }
}

/// The sizes of a new tensor: the given ones for its `dims` dimensions, 1 past them.
pub open spec fn shape_of(ne: Seq<usize>, dims: nat) -> Seq<usize> {
    Seq::new(4, |i: int| if i < dims { ne[i] } else { 1usize })
}

/// The strides of a new tensor of sizes `ne`: one element, then one row, then one
/// plane; the last stays 0.
pub open spec fn strides_of(t: TensorType, ne: Seq<usize>) -> Seq<int> {
    let nb0 = type_size_of(t) as int;
    let nb1 = nb0 * (ne[0] as int / block_size_of(t) as int);
    let nb2 = nb1 * ne[1];
    seq![nb0, nb1, nb2, 0]
}

/// The bytes of data that a new tensor of `dims` dimensions holds: one row, times each
/// further size.
pub open spec fn data_size_of(ne: Seq<usize>, dims: nat) -> int {
    prod(ne, 1, dims as int)
}

/// Where a view's data lies: the data of its source, moved by the view's offset.
pub open spec fn view_data(base: Option<FemlTensor>, offs: int) -> Option<usize> {
    match base {
        Some(b) => match b.data {
            Some(d) => Some((d + offs) as usize),
            None => None,
        },
        None => None,
    }
}

/// `d` moved by `offs` bytes.
fn offset_by(d: usize, offs: i64) -> (r: usize)
    requires
        0 <= d + offs <= usize::MAX,
    ensures
        r == d + offs,
{
    if offs >= 0 {
        d + (offs as usize)
    } else {
        d - ((-(offs + 1)) as usize) - 1
    }
}

/// Lays a new tensor out in the arena: its descriptor, and its data too when it is no
/// view and the arena has no buffer supplied from outside; a view's data is its
/// source's, moved by the view's offset. A view of a view reads through the inner
/// source. When the arena lacks room, nothing changes and `None` comes back: running
/// out of arena capacity is an ordinary outcome for the caller to handle, never a
/// panic.
pub fn feml_new_tensor(
    ctx: &mut FemlContext,
    tensor_type: TensorType,
    dims: usize,
    ne: &Vec<usize>,
    view_src: Option<FemlTensor>,
    view_offs: i64,
) -> (r: Option<FemlTensor>)
    requires
        old(ctx).wf(),
        tensor_type != TensorType::TensorUnknown,
        0 < dims < FEML_MAX_DIMS,
        ne@.len() >= dims,
        forall|k: int|
            1 <= k <= dims ==> #[trigger] prod(ne@, 1, k) + FEML_TENSOR_SIZE + FEML_MEM_ALIGN
                <= usize::MAX,
        prod(ne@, 0, dims as int) <= usize::MAX,
        i64::MIN <= view_base(view_src, view_offs).1 <= i64::MAX,
        view_base(view_src, view_offs).0 matches Some(b) && b.data matches Some(d) ==> 0 <= d
            + view_base(view_src, view_offs).1 <= usize::MAX,
    ensures
        final(ctx).wf(),
        final(ctx).memory_size == old(ctx).memory_size,
        final(ctx).mem_buffer == old(ctx).mem_buffer,
        ({
            let (base, offs) = view_base(view_src, view_offs);
            let own = if base is None && old(ctx).mem_buffer.buf@.len() == 0 {
                data_size_of(ne@, dims as nat)
            } else {
                0
            };
            let need = round_up(FEML_TENSOR_SIZE + own, FEML_MEM_ALIGN as int);
            let at = objects_end(old(ctx).objects@);
            if at + need > old(ctx).memory_size {
                &&& r is None
                &&& final(ctx).objects@ == old(ctx).objects@
            } else {
                &&& r is Some
                &&& final(ctx).objects@ == old(ctx).objects@.push(
                    FemlObject { offset: at as usize, size: need as usize, object_type: FemlObjectType::FemlObjectTypeTensor },
                )
                &&& r->Some_0.tensor_type == tensor_type
                &&& r->Some_0.ne@ == shape_of(ne@, dims as nat)
                &&& r->Some_0.nb@.map_values(|x: usize| x as int) == strides_of(tensor_type, shape_of(ne@, dims as nat))
                &&& r->Some_0.op == FemlOpType::FemlOpTypeUnknown
                &&& r->Some_0.op_params@ == Seq::new(16, |i: int| 0i32)
                &&& r->Some_0.flags == 0
                &&& r->Some_0.src@.len() == 0
                &&& r->Some_0.extra is None
                &&& r->Some_0.view_offs == offs
                &&& (match r->Some_0.view_src { Some(b) => base == Some(*b), None => base is None })
                &&& r->Some_0.data == if own > 0 {
                    Some((at + FEML_TENSOR_SIZE) as usize)
                } else {
                    view_data(base, offs)
                }
            }
        }),
{
    let ghost orig_src = view_src;
    let ghost orig_offs = view_offs;
    let mut view_src = view_src;
    let mut view_offs = view_offs;
    if let Some(vs) = view_src {
        let mut vs = vs;
        let mut inner: Option<Box<FemlTensor>> = None;
        std::mem::swap(&mut vs.view_src, &mut inner);
        match inner {
            Some(inner) => {
                view_offs = view_offs + vs.view_offs;
                view_src = Some(*inner);
            },
            None => {
                view_src = Some(vs);
            },
        }
    }
    assert(view_base(orig_src, orig_offs) == (view_src, view_offs as int));

    let mut data_size = feml_row_size(tensor_type, ne[0]);
    let mut i: usize = 1;
    assert(prod(ne@, 1, 1) == 1);
    while i < dims
        invariant
            1 <= i <= dims,
            dims < FEML_MAX_DIMS,
            ne@.len() >= dims,
            data_size == prod(ne@, 1, i as int),
            forall|k: int|
                1 <= k <= dims ==> #[trigger] prod(ne@, 1, k) + FEML_TENSOR_SIZE + FEML_MEM_ALIGN
                    <= usize::MAX,
        decreases dims - i,
    {
        assert(prod(ne@, 1, i as int + 1) == prod(ne@, 1, i as int) * ne@[i as int]);
        assert(prod(ne@, 1, i as int + 1) + FEML_TENSOR_SIZE + FEML_MEM_ALIGN <= usize::MAX);
        data_size = data_size * ne[i];
        i = i + 1;
    }
    let data = match &view_src {
        Some(vs) => match vs.data {
            Some(d) => Some(offset_by(d, view_offs)),
            None => None,
        },
        None => None,
    };
    let obj_alloc_size = if view_src.is_none() && ctx.mem_buffer.is_empty() {
        data_size
    } else {
        0
    };
    let object = match feml_new_object(
        ctx,
        FemlObjectType::FemlObjectTypeTensor,
        FEML_TENSOR_SIZE + obj_alloc_size,
    ) {
        Some(o) => o,
        None => {
            return None;
        },
    };
    assert(ctx.objects@.last() == object);
    let ne0 = ne[0];
    let ne1 = if dims > 1 {
        ne[1]
    } else {
        1
    };
    assert(prod(ne@, 0, 1) == ne@[0]) by {
        assert(prod(ne@, 0, 0) == 1);
    }
    assert(ne0 * ne1 <= usize::MAX) by (nonlinear_arith)
        requires
            dims > 1 ==> prod(ne@, 0, 2) == prod(ne@, 0, 1) * ne@[1],
            prod(ne@, 0, 1) == ne@[0],
            prod(ne@, 0, dims as int) <= usize::MAX,
            ne0 == ne@[0],
            dims > 1 ==> ne1 == ne@[1],
            dims <= 1 ==> ne1 == 1,
            0 < dims < 3;
    let nb0 = feml_type_size(tensor_type);
    let nb1 = nb0 * (ne0 / feml_block_size(tensor_type));
    let nb2 = nb1 * ne1;
    let data = if obj_alloc_size > 0 {
        Some(object.offset + FEML_TENSOR_SIZE)
    } else {
        data
    };
    let result = FemlTensor {
        tensor_type,
        ne: [ne0, ne1, 1, 1],
        nb: [nb0, nb1, nb2, 0],
        op: FemlOpType::FemlOpTypeUnknown,
        op_params: [0i32, 0, 0, 0, 0, 0, 0, 0, 0, 0, 0, 0, 0, 0, 0, 0],
        flags: 0,
        src: Vec::new(),
        view_src: match view_src {
            Some(t) => Some(Box::new(t)),
            None => None,
        },
        view_offs,
        data,
        name: String::new(),
        extra: None,
    };
    assert(result.ne@ =~= shape_of(ne@, dims as nat));
    assert(result.nb@.map_values(|x: usize| x as int) =~= strides_of(tensor_type, shape_of(ne@, dims as nat)));
    assert(result.op_params@ =~= Seq::new(16, |i: int| 0i32));
    Some(result)
}

} // verus!
