use feml::context::{feml_new_object, FemlContext, FemlInitParams, MemoryBuffer};
use feml::pad::feml_pad;
use feml::types::FemlObjectType;

fn arena(memory_size: usize, buffer: usize) -> FemlContext {
    FemlContext::new(FemlInitParams { memory_size, memory_buffer: MemoryBuffer::new(buffer) })
}

#[test]
fn oversized_object_fails_and_leaves_arena_unchanged() {
    let mut ctx = arena(16, 0);
    assert_eq!(ctx.memory_size, 16);
    let r = feml_new_object(&mut ctx, FemlObjectType::FemlObjectTypeTensor, 20);
    assert!(r.is_none());
    assert_eq!(ctx.objects.len(), 0);
    assert_eq!(ctx.n_objects, 0);
}

#[test]
fn objects_are_packed_back_to_back() {
    let mut ctx = arena(100, 0);
    assert_eq!(ctx.memory_size, 112);
    let a = feml_new_object(&mut ctx, FemlObjectType::FemlObjectTypeTensor, 5).unwrap();
    let b = feml_new_object(&mut ctx, FemlObjectType::FemlObjectTypeGraph, 20).unwrap();
    let c = feml_new_object(&mut ctx, FemlObjectType::FemlObjectTypeBuffer, 16).unwrap();
    assert_eq!((a.offset, a.size), (0, 16));
    assert_eq!((b.offset, b.size), (16, 32));
    assert_eq!((c.offset, c.size), (48, 16));
    assert_eq!(b.object_type, FemlObjectType::FemlObjectTypeGraph);
    assert!(feml_new_object(&mut ctx, FemlObjectType::FemlObjectTypeTensor, 60).is_none());
    assert_eq!(ctx.objects.len(), 3);
    let d = feml_new_object(&mut ctx, FemlObjectType::FemlObjectTypeTensor, 48).unwrap();
    assert_eq!((d.offset, d.size), (64, 48));
    assert!(feml_new_object(&mut ctx, FemlObjectType::FemlObjectTypeTensor, 1).is_none());
}

#[test]
fn huge_object_fails_cleanly() {
    let mut ctx = arena(64, 0);
    assert!(feml_new_object(&mut ctx, FemlObjectType::FemlObjectTypeTensor, usize::MAX).is_none());
    assert!(ctx.objects.is_empty());
}

#[test]
fn capacity_rules() {
    assert_eq!(arena(0, 0).memory_size, 16);
    assert_eq!(arena(20, 0).memory_size, 32);
    assert_eq!(arena(20, 4).memory_size, 20);
    assert_eq!(arena(0, 4).memory_size, 16);
    assert_eq!(arena(32, 0).memory_size, 32);
}

#[test]
fn memory_buffer_basics() {
    let b = MemoryBuffer::new(3);
    assert_eq!(b.size, 3);
    assert!(!b.is_empty());
    assert_eq!(b.as_ptr(), &[0u8, 0, 0]);
    assert!(MemoryBuffer::new(0).is_empty());
}

#[test]
fn pad_rounds_up_to_power_of_two() {
    assert_eq!(feml_pad(20, 16), 32);
    assert_eq!(feml_pad(32, 16), 32);
    assert_eq!(feml_pad(0, 16), 0);
    assert_eq!(feml_pad(17, 0), 17);
    assert_eq!(feml_pad(5, 1), 5);
    assert_eq!(feml_pad(usize::MAX - 15, 16), usize::MAX - 15);
}

#[test]
fn well_formed_check() {
    let mut ctx = arena(64, 0);
    assert!(ctx.is_well_formed());
    feml_new_object(&mut ctx, FemlObjectType::FemlObjectTypeTensor, 5).unwrap();
    assert!(ctx.is_well_formed());
    ctx.objects[0].offset = 8;
    assert!(!ctx.is_well_formed());
}
