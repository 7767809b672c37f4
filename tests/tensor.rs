use feml::context::{FemlContext, FemlInitParams, MemoryBuffer};
use feml::tensor::{feml_nbytes, feml_new_tensor, FemlTensor};
use feml::tensor_traits;
use feml::type_traits::{feml_block_size, feml_row_size, feml_type_size};
use feml::types::{FemlOpType, TensorType};

fn plain(tensor_type: TensorType, ne: [usize; 4], nb: [usize; 4]) -> FemlTensor {
    FemlTensor {
        tensor_type,
        ne,
        nb,
        op: FemlOpType::FemlOpTypeUnknown,
        op_params: [0; 16],
        flags: 0,
        src: Vec::new(),
        view_src: None,
        view_offs: 0,
        data: None,
        name: String::new(),
        extra: None,
    }
}

#[test]
fn type_table() {
    // Each type reads the row at its position: f32's row for the unknown type, f16's for f32.
    assert_eq!(feml_type_size(TensorType::TensorUnknown), 4);
    assert_eq!(feml_type_size(TensorType::TensorTypeF32), 2);
    assert_eq!(feml_block_size(TensorType::TensorTypeF32), 1);
    assert_eq!(feml_row_size(TensorType::TensorTypeF32, 10), 20);
    assert_eq!(feml_row_size(TensorType::TensorUnknown, 10), 40);
}

#[test]
fn tensor_layout_counts_units() {
    assert_eq!(tensor_traits::feml_type_size(TensorType::TensorTypeF16), 1);
    assert_eq!(tensor_traits::feml_block_size(TensorType::TensorTypeF32), 1);
    assert_eq!(tensor_traits::feml_row_size(TensorType::TensorTypeF32, 10), 1);
}

#[test]
fn nbytes_spans_first_to_last_element() {
    let t = plain(TensorType::TensorTypeF32, [2, 3, 1, 1], [1, 2, 6, 6]);
    assert_eq!(feml_nbytes(&t), 6);
    let h = plain(TensorType::TensorTypeF16, [3, 2, 1, 1], [4, 12, 24, 0]);
    assert_eq!(feml_nbytes(&h), 1 + 2 * 4 + 12);
    let empty = plain(TensorType::TensorTypeF32, [4, 0, 1, 1], [1, 4, 4, 4]);
    assert_eq!(feml_nbytes(&empty), 0);
}

#[test]
fn new_tensor_lays_out_descriptor_and_data() {
    let mut ctx = FemlContext::new(FemlInitParams { memory_size: 2048, memory_buffer: MemoryBuffer::new(0) });
    let t = feml_new_tensor(&mut ctx, TensorType::TensorTypeF32, 2, &vec![3, 5], None, 0).unwrap();
    assert_eq!(t.ne, [3, 5, 1, 1]);
    assert_eq!(t.nb, [1, 3, 15, 0]);
    assert_eq!(t.data, Some(336));
    assert!(t.src.is_empty() && t.extra.is_none());
    assert_eq!(ctx.objects.len(), 1);
    // Descriptor plus one row times the second size: 336 + 5, padded to 352.
    assert_eq!(ctx.objects[0].size, 352);
    assert_eq!(feml_nbytes(&t), 15);

    let v = feml_new_tensor(&mut ctx, TensorType::TensorTypeF16, 1, &vec![4], Some(t), 8).unwrap();
    assert_eq!(v.data, Some(344));
    assert_eq!(v.view_offs, 8);
    assert_eq!(ctx.objects[1].offset, 352);
    assert_eq!(ctx.objects[1].size, 336);

    let w = feml_new_tensor(&mut ctx, TensorType::TensorTypeF16, 1, &vec![2], Some(v), 2).unwrap();
    assert_eq!(w.view_offs, 10);
    assert_eq!(w.data, Some(346));
    assert_eq!(w.view_src.as_ref().unwrap().ne, [3, 5, 1, 1]);
}

#[test]
fn new_tensor_fails_when_arena_is_full() {
    let mut ctx = FemlContext::new(FemlInitParams { memory_size: 64, memory_buffer: MemoryBuffer::new(0) });
    assert!(feml_new_tensor(&mut ctx, TensorType::TensorTypeF32, 1, &vec![1], None, 0).is_none());
    assert!(ctx.objects.is_empty());
}
