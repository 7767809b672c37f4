use crate::def::{FEML_DEFAULT_N_THREAD, FEML_TENSOR_ALIGNMENT};
use crate::pad::{feml_pad, round_up};
use crate::types::FemlStatus;
use vstd::prelude::*;
use vstd::string::StringExecFns;

verus! {

/// What a backend buffer holds.
#[derive(Debug, Clone, Copy, PartialEq, Eq, Structural)]
pub enum FemlBackendBufferUsage {
    Any,
    Weights,
    Compute,
}

/// The kind of a compute device.
#[derive(Debug, Clone, Copy, PartialEq, Eq, Structural)]
pub enum FemlBackendDeviceType {
    CPU,
    GPU,
    ACCEL,
}

/// What a device can do.
#[derive(Debug, Clone, Copy, PartialEq, Eq, Structural)]
pub struct FemlBackendDevCaps {
    pub is_async: bool,
    pub is_host_buffer: bool,
    pub is_buffer_from_host_ptr: bool,
    pub is_events: bool,
}

/// A device's name, description, memory in bytes, kind and capabilities.
#[derive(Debug, Clone)]
pub struct FemlBackendDeviceProps {
    pub name: String,
    pub description: String,
    pub free: u64,
    pub total: u64,
    pub backend_type: FemlBackendDeviceType,
    pub caps: FemlBackendDevCaps,
}

/// The state of the CPU backend: how many threads compute, and the size of their work
/// buffer.
#[derive(Debug, Clone, Copy, PartialEq, Eq, Structural)]
pub struct FemlBackendCpuContext {
    pub n_threads: i32,
    pub work_size: u32,
}

impl FemlBackendCpuContext {
    /// A context for `n_threads` threads, with no work buffer yet.
    pub fn new(n_threads: i32) -> (r: Self)
        ensures
            r.n_threads == n_threads,
            r.work_size == 0,
    {
        FemlBackendCpuContext { n_threads, work_size: 0 }
    }
}

/// A backend: its identifier and its state.
#[derive(Debug, Clone, Copy, PartialEq, Eq)]
pub struct FemlBackend {
    pub guid: [u8; 16],
    pub context: Option<FemlBackendCpuContext>,
}

impl FemlBackend {
    /// A backend with the given identifier and state.
    pub fn new(guid: [u8; 16], context: Option<FemlBackendCpuContext>) -> (r: Self)
        ensures
            r.guid == guid,
            r.context == context,
    {
        FemlBackend { guid, context }
    }

    /// Replaces the backend's state.
    pub fn set_context(&mut self, context: FemlBackendCpuContext)
        ensures
            final(self).guid == old(self).guid,
            final(self).context == Some(context),
    {
        self.context = Some(context);
    }

    /// The backend's state, if it has one.
    pub fn get_context(&self) -> (r: Option<&FemlBackendCpuContext>)
        ensures
            r matches Some(c) ==> self.context == Some(*c),
            r is None ==> self.context is None,
    {
        match &self.context {
            Some(c) => Some(c),
            None => None,
        }
    }
}

/// The bytes of the CPU backend's identifier.
pub open spec fn cpu_guid() -> Seq<u8> {
    seq![0xaau8, 0x67, 0xc7, 0x43, 0x96, 0xe6, 0xa3, 0x8a, 0xe3, 0xaf, 0xea, 0x92, 0x36, 0xbc, 0xfc, 0x89]
}

/// The identifier of the CPU backend.
pub fn feml_backend_cpu_guid() -> (r: [u8; 16])
    ensures
        r@ == cpu_guid(),
{
    let r: [u8; 16] = [
        0xaa, 0x67, 0xc7, 0x43, 0x96, 0xe6, 0xa3, 0x8a, 0xe3, 0xaf, 0xea, 0x92, 0x36, 0xbc, 0xfc, 0x89,
    ];
    assert(r@ =~= seq![
        0xaau8, 0x67, 0xc7, 0x43, 0x96, 0xe6, 0xa3, 0x8a, 0xe3, 0xaf, 0xea, 0x92, 0x36, 0xbc, 0xfc, 0x89,
    ]);
    r
}

/// Prepares the CPU backend for use; it needs nothing yet.
pub fn feml_cpu_init() {
}

/// The CPU backend, with a context for the default number of threads.
pub fn feml_backend_cpu_init() -> (r: Option<FemlBackend>)
    ensures
        r matches Some(b) && b.guid@ == cpu_guid() && b.context == Some(
            FemlBackendCpuContext { n_threads: FEML_DEFAULT_N_THREAD, work_size: 0 },
        ),
{
    feml_cpu_init();
    Some(FemlBackend::new(feml_backend_cpu_guid(), Some(FemlBackendCpuContext::new(FEML_DEFAULT_N_THREAD))))
}

/// Sets the number of threads of the CPU backend.
pub fn ggml_backend_cpu_set_n_threads(backend: &mut FemlBackend, n_threads: i32)
    requires
        old(backend).context is Some,
    ensures
        final(backend).guid == old(backend).guid,
        final(backend).context == Some(
            FemlBackendCpuContext { n_threads, work_size: old(backend).context->Some_0.work_size },
        ),
{
    let mut ctx = backend.context.unwrap();
    ctx.n_threads = n_threads;
    backend.context = Some(ctx);
}

/// A function that a backend offers by name.
#[derive(Debug, Clone, Copy, PartialEq, Eq, Structural)]
pub enum BackendFunction {
    /// Sets the number of threads: see [`ggml_backend_cpu_set_n_threads`].
    SetNThreads,
}

impl BackendFunction {
    /// Calls the function on the CPU backend.
    pub fn call(self, backend: &mut FemlBackend, arg: i32)
        requires
            old(backend).context is Some,
        ensures
            self == BackendFunction::SetNThreads ==> final(backend).guid == old(backend).guid
                && final(backend).context == Some(
                FemlBackendCpuContext { n_threads: arg, work_size: old(backend).context->Some_0.work_size },
            ),
    {
        match self {
            BackendFunction::SetNThreads => ggml_backend_cpu_set_n_threads(backend, arg),
        }
    }
}

/// The functions of a backend, by name.
pub struct BackendRegistry {
    functions: Vec<(String, BackendFunction)>,
}

impl BackendRegistry {
    /// The names and functions that the registry holds, in order.
    pub closed spec fn entries(&self) -> Seq<(Seq<char>, BackendFunction)> {
        self.functions@.map_values(|e: (String, BackendFunction)| (e.0@, e.1))
    }

    /// The CPU backend's registry: `ggml_backend_set_n_threads` sets the number of
    /// threads.
    pub fn new() -> (r: Self)
        ensures
            r.entries() == seq![("ggml_backend_set_n_threads"@, BackendFunction::SetNThreads)],
    {
        let mut functions: Vec<(String, BackendFunction)> = Vec::new();
        functions.push((String::from_str("ggml_backend_set_n_threads"), BackendFunction::SetNThreads));
        let r = BackendRegistry { functions };
        assert(r.entries() =~= seq![("ggml_backend_set_n_threads"@, BackendFunction::SetNThreads)]);
        r
    }

    /// The function registered under `name`, if any.
    pub fn get_function(&self, name: &str) -> (r: Option<BackendFunction>)
        ensures
            r matches Some(f) ==> exists|i: int|
                0 <= i < self.entries().len() && self.entries()[i] == (name@, f),
            r is None ==> forall|i: int|
                0 <= i < self.entries().len() ==> (#[trigger] self.entries()[i]).0 != name@,
    {
        let key = String::from_str(name);
        let mut i: usize = 0;
        while i < self.functions.len()
            invariant
                i <= self.functions@.len(),
                key@ == name@,
                forall|k: int| 0 <= k < i ==> (#[trigger] self.entries()[k]).0 != name@,
            decreases self.functions@.len() - i,
        {
            if self.functions[i].0 == key {
                assert(self.entries()[i as int] == (name@, self.functions@[i as int].1));
                return Some(self.functions[i].1);
            }
            i = i + 1;
        }
        None
    }
}

/// The name of the CPU device and of its buffer type.
pub fn feml_backend_cpu_buffer_type_get_name() -> (r: &'static str)
    ensures
        r@ == "CPU"@,
{
    "CPU"
}

/// The alignment of tensor data in a CPU buffer.
pub fn feml_backend_cpu_buffer_type_get_alignment() -> (r: usize)
    ensures
        r == FEML_TENSOR_ALIGNMENT,
{
    FEML_TENSOR_ALIGNMENT
}

/// The base of a CPU buffer whose bytes start at address `addr`: the first address at or
/// after it that is aligned for tensor data.
pub fn feml_backend_cpu_buffer_get_base(addr: usize) -> (r: usize)
    requires
        addr + FEML_TENSOR_ALIGNMENT <= usize::MAX + 1,
    ensures
        r == round_up(addr as int, FEML_TENSOR_ALIGNMENT as int),
        r % FEML_TENSOR_ALIGNMENT == 0,
{
    let mut ctx_align = addr;
    if ctx_align % FEML_TENSOR_ALIGNMENT != 0 {
        proof { reveal_with_fuel(vstd::arithmetic::power2::is_pow2, 6); }
        ctx_align = feml_pad(ctx_align, FEML_TENSOR_ALIGNMENT);
    } else {
        assert(round_up(addr as int, 32) == addr) by (nonlinear_arith)
            requires addr % 32 == 0;
    }
    ctx_align
}

/// A CPU buffer lies in host memory.
pub fn feml_backend_cpu_buffer_type_is_host() -> (r: bool)
    ensures
        r,
{
    true
}

/// The CPU's free and total memory in bytes, from the number of physical pages and the
/// page size that the system reports. All of it counts as free. A count that is not
/// positive is a failure.
pub fn cpu_memory(pages: i64, page_size: i64) -> (r: Result<(u64, u64), FemlStatus>)
    requires
        pages > 0 && page_size > 0 ==> pages * page_size <= i64::MAX,
    ensures
        pages <= 0 || page_size <= 0 ==> r == Err::<(u64, u64), FemlStatus>(FemlStatus::Failed),
        pages > 0 && page_size > 0 ==> r == Ok::<(u64, u64), FemlStatus>(
            ((pages * page_size) as u64, (pages * page_size) as u64),
        ),
{
    if pages <= 0 || page_size <= 0 {
        return Err(FemlStatus::Failed);
    }
    let total = pages * page_size;
    let free = total;
    Ok((free as u64, total as u64))
}

/// The CPU device's properties: its name, its description after `Device: CPU: `, its
/// memory (none when it could not be read), and what it can do.
pub fn cpu_device_props(cpu_description: &str, memory: Result<(u64, u64), FemlStatus>) -> (r:
    FemlBackendDeviceProps)
    ensures
        r.name@ == "CPU"@,
        r.description@ == "Device: CPU: "@ + cpu_description@,
        r.backend_type == FemlBackendDeviceType::CPU,
        memory matches Ok((free, total)) ==> r.free == free && r.total == total,
        memory is Err ==> r.free == 0 && r.total == 0,
        r.caps == (FemlBackendDevCaps {
            is_async: false,
            is_host_buffer: true,
            is_buffer_from_host_ptr: true,
            is_events: true,
        }),
{
    let mut description = String::from_str("Device: CPU: ");
    description.append(cpu_description);
    let (free, total) = match memory {
        Ok((free, total)) => (free, total),
        Err(_) => (0, 0),
    };
    FemlBackendDeviceProps {
        name: String::from_str(feml_backend_cpu_buffer_type_get_name()),
        description,
        free,
        total,
        backend_type: FemlBackendDeviceType::CPU,
        caps: FemlBackendDevCaps {
            is_async: false,
            is_host_buffer: true,
            is_buffer_from_host_ptr: true,
            is_events: true,
        },
    }
}

} // verus!
