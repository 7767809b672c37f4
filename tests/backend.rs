use feml::backend::feml_backend_cpu_buffer_get_base;
use feml::backend::{
    cpu_device_props, cpu_memory, feml_backend_cpu_guid, feml_backend_cpu_init, BackendFunction,
    BackendRegistry, FemlBackendCpuContext, FemlBackendDeviceType,
};
use feml::compute_graph::GraphId;
use feml::runtime::{Context_, Tensor_, TensorId};
use feml::data_type::DataType;
use feml::shape::Shape;
use feml::types::FemlStatus;

#[test]
fn memory_from_pages() {
    assert_eq!(cpu_memory(10, 4096), Ok((40960, 40960)));
    assert_eq!(cpu_memory(0, 4096), Err(FemlStatus::Failed));
    assert_eq!(cpu_memory(10, -1), Err(FemlStatus::Failed));
}

#[test]
fn device_props() {
    let p = cpu_device_props("Some CPU", Ok((1, 2)));
    assert_eq!(p.name, "CPU");
    assert_eq!(p.description, "Device: CPU: Some CPU");
    assert_eq!((p.free, p.total), (1, 2));
    assert_eq!(p.backend_type, FemlBackendDeviceType::CPU);
    assert!(p.caps.is_host_buffer && !p.caps.is_async);
    let p = cpu_device_props("x", Err(FemlStatus::Failed));
    assert_eq!((p.free, p.total), (0, 0));
}

#[test]
fn registry_sets_threads() {
    let reg = BackendRegistry::new();
    let f = reg.get_function("ggml_backend_set_n_threads").unwrap();
    assert_eq!(f, BackendFunction::SetNThreads);
    assert!(reg.get_function("nope").is_none());
    let mut backend = feml_backend_cpu_init().unwrap();
    assert_eq!(backend.get_context().unwrap().n_threads, 4);
    f.call(&mut backend, 8);
    assert_eq!(backend.context, Some(FemlBackendCpuContext { n_threads: 8, work_size: 0 }));
    backend.set_context(FemlBackendCpuContext::new(2));
    assert_eq!(backend.get_context(), Some(&FemlBackendCpuContext { n_threads: 2, work_size: 0 }));
    assert_eq!(backend.guid, feml_backend_cpu_guid());
}

#[test]
fn guid_bytes() {
    assert_eq!(feml_backend_cpu_guid()[0], 0xaa);
    assert_eq!(feml_backend_cpu_guid()[15], 0x89);
}

#[test]
fn ids_count_up() {
    let mut next = 1;
    assert_eq!(GraphId::new(&mut next), GraphId(1));
    assert_eq!(TensorId::new(&mut next), TensorId(2));
    assert_eq!(next, 3);
    let mut ctx = Context_::new(&64).unwrap();
    let t = Tensor_::new("t".to_string(), DataType::F32, Shape([1, 1, 1, 1]), None, &mut ctx, 0);
    assert_eq!(t.id, TensorId(1));
    assert_eq!(ctx.next_id, 2);
    let b = ctx.memory_manager.allocate(8, 1).unwrap();
    assert_eq!(b.len, 64);
}

#[test]
fn buffer_base_is_aligned() {
    assert_eq!(feml_backend_cpu_buffer_get_base(64), 64);
    assert_eq!(feml_backend_cpu_buffer_get_base(65), 96);
    assert_eq!(feml_backend_cpu_buffer_get_base(1), 32);
    assert_eq!(feml_backend_cpu_buffer_get_base(0), 0);
}
