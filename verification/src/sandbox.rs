//! The wasm engine as the host uses it: the types of `wasmi` that pass
//! through the host, and one function for each call into `wasmi`. None of
//! these is verified; each says what it takes from `wasmi` on trust.

use vstd::prelude::*;
use crate::vm::{host_get_storage, host_print, host_set_storage, Ext, VmState, MEMORY_LIMIT};

verus! {

/// `wasmi::Engine`: the engine that validates and runs modules.
#[verifier::external_type_specification]
#[verifier::external_body]
pub struct ExEngine(wasmi::Engine);

/// `wasmi::Module`: a validated module.
#[verifier::external_type_specification]
#[verifier::external_body]
pub struct ExModule(wasmi::Module);

/// `wasmi::Memory`: the handle of a linear memory in a store.
#[verifier::external_type_specification]
#[verifier::external_body]
pub struct ExMemory(wasmi::Memory);

/// `wasmi::Instance`: the handle of an instantiated module in a store.
#[verifier::external_type_specification]
#[verifier::external_body]
pub struct ExInstance(wasmi::Instance);

/// `wasmi::Error`: the error with which a call into the engine or a host call fails.
#[verifier::external_type_specification]
#[verifier::external_body]
pub struct ExWasmiError(wasmi::Error);

/// `wasmi::Store`: what one run owns, the host's state among it.
#[verifier::external_type_specification]
#[verifier::external_body]
#[verifier::reject_recursive_types(T)]
pub struct ExStore<T>(wasmi::Store<T>);

/// `wasmi::Linker`: the definitions that a module's imports are resolved with.
#[verifier::external_type_specification]
#[verifier::external_body]
#[verifier::reject_recursive_types(T)]
pub struct ExLinker<T>(wasmi::Linker<T>);

/// `wasmi::Caller`: the store as a host function sees it during a call.
#[verifier::external_type_specification]
#[verifier::external_body]
#[verifier::reject_recursive_types(T)]
pub struct ExCaller<'a, T>(wasmi::Caller<'a, T>);

/// `wasmi::TypedFunc`: a function of an instance with its type known.
#[verifier::external_type_specification]
#[verifier::external_body]
#[verifier::reject_recursive_types(Params)]
#[verifier::reject_recursive_types(Results)]
pub struct ExTypedFunc<Params, Results>(wasmi::TypedFunc<Params, Results>);

/// Makes a `wasmi::Engine` from a `wasmi::Config` on which
/// `consume_fuel` was called: with `metered` every run ends, when its fuel
/// is used up at the latest.
#[verifier::external_body]
pub(crate) fn engine_new(metered: bool) -> wasmi::Engine {
    let mut config = wasmi::Config::default();
    config.consume_fuel(metered);
    wasmi::Engine::new(&config)
}

/// Calls `wasmi::Module::new`: the module, or `None` where the bytes are
/// not a valid module.
#[verifier::external_body]
pub(crate) fn module_new(engine: &wasmi::Engine, wasm: &[u8]) -> Option<wasmi::Module> {
    wasmi::Module::new(engine, wasm).ok()
}

/// Calls `wasmi::Store::new`.
#[verifier::external_body]
pub(crate) fn store_new<E: Ext>(engine: &wasmi::Engine, state: VmState<E>) -> wasmi::Store<VmState<E>> {
    wasmi::Store::new(engine, state)
}

/// Calls `wasmi::Store::set_fuel`, which fails on an engine without fuel metering.
#[verifier::external_body]
pub(crate) fn store_set_fuel<E: Ext>(store: &mut wasmi::Store<VmState<E>>, fuel: u64) -> bool {
    store.set_fuel(fuel).is_ok()
}

/// Calls `wasmi::Store::data_mut`.
#[verifier::external_body]
pub(crate) fn store_state_mut<E: Ext>(store: &mut wasmi::Store<VmState<E>>) -> &mut VmState<E> {
    store.data_mut()
}

/// Calls `wasmi::Store::into_data`.
#[verifier::external_body]
pub(crate) fn store_into_state<E: Ext>(store: wasmi::Store<VmState<E>>) -> VmState<E> {
    store.into_data()
}

/// Calls `wasmi::Memory::new` with a `wasmi::MemoryType` of the given
/// pages. `MemoryType::new` panics where the minimum exceeds the maximum or
/// the maximum exceeds the 65536 pages of a 32-bit memory.
#[verifier::external_body]
pub(crate) fn memory_new<E: Ext>(store: &mut wasmi::Store<VmState<E>>, minimum: u32, maximum: u32) -> Option<
    wasmi::Memory,
>
    requires
        minimum <= maximum <= 65536,
{
    wasmi::Memory::new(store, wasmi::MemoryType::new(minimum, Some(maximum))).ok()
}

/// Calls `wasmi::Memory::write`: whether the bytes were written, which they
/// are not where they would reach beyond the memory. The memory must have
/// been made in this store.
#[verifier::external_body]
pub(crate) fn memory_write<E: Ext>(
    memory: &wasmi::Memory,
    store: &mut wasmi::Store<VmState<E>>,
    offset: usize,
    bytes: &[u8],
) -> bool {
    memory.write(store, offset, bytes).is_ok()
}

/// Calls `wasmi::Caller::data`.
#[verifier::external_body]
pub(crate) fn caller_state<'a, 'b, E: Ext>(caller: &'a wasmi::Caller<'b, VmState<E>>) -> &'a VmState<E> {
    caller.data()
}

/// Calls `wasmi::Caller::data_mut`.
#[verifier::external_body]
pub(crate) fn caller_state_mut<'a, 'b, E: Ext>(caller: &'a mut wasmi::Caller<'b, VmState<E>>) -> &'a mut VmState<E> {
    caller.data_mut()
}

/// Calls `wasmi::Memory::data_size`: the size of the memory in bytes. The
/// memory must have been made in the caller's store.
#[verifier::external_body]
pub(crate) fn caller_memory_size<'b, E: Ext>(caller: &wasmi::Caller<'b, VmState<E>>, memory: &wasmi::Memory) -> usize {
    memory.data_size(caller)
}

/// Calls `wasmi::Memory::read` on a buffer of `len` bytes: the bytes, or
/// `None` where they would reach beyond the memory. The memory must have
/// been made in the caller's store. The length is bounded by the greatest
/// size of a memory, so that the buffer can be had.
#[verifier::external_body]
pub(crate) fn caller_read<'b, E: Ext>(
    caller: &wasmi::Caller<'b, VmState<E>>,
    memory: &wasmi::Memory,
    offset: usize,
    len: usize,
) -> (r: Option<Vec<u8>>)
    requires
        len <= MEMORY_LIMIT,
    ensures
        r matches Some(bytes) ==> bytes@.len() == len,
{
    let mut buffer = vec![0u8; len];
    memory.read(caller, offset, &mut buffer).ok().map(|_| buffer)
}

/// Calls `wasmi::Memory::write` from inside a host call: whether the bytes
/// were written. The memory must have been made in the caller's store.
#[verifier::external_body]
pub(crate) fn caller_write<'b, E: Ext>(
    caller: &mut wasmi::Caller<'b, VmState<E>>,
    memory: &wasmi::Memory,
    offset: usize,
    bytes: &[u8],
) -> bool {
    memory.write(caller, offset, bytes).is_ok()
}

/// Calls `wasmi::Error::new`: the error with which a host call fails.
#[verifier::external_body]
pub(crate) fn host_error(message: &str) -> wasmi::Error {
    wasmi::Error::new(message)
}

/// Calls `wasmi::Linker::new`.
#[verifier::external_body]
pub(crate) fn linker_new<E: Ext>(engine: &wasmi::Engine) -> wasmi::Linker<VmState<E>> {
    wasmi::Linker::new(engine)
}

/// Calls `wasmi::Linker::define` for a memory: whether the name was free.
#[verifier::external_body]
pub(crate) fn linker_define_memory<E: Ext>(
    linker: &mut wasmi::Linker<VmState<E>>,
    module: &str,
    name: &str,
    memory: wasmi::Memory,
) -> bool {
    linker.define(module, name, memory).is_ok()
}

/// Calls `wasmi::Linker::func_wrap` with a closure that calls
/// `host_get_storage`: whether the name was free.
#[verifier::external_body]
pub(crate) fn linker_define_get_storage<E: Ext + 'static>(
    linker: &mut wasmi::Linker<VmState<E>>,
    module: &str,
    name: &str,
) -> bool {
    linker.func_wrap(
        module,
        name,
        |mut caller: wasmi::Caller<'_, VmState<E>>, key_ptr: u32, out_ptr: u32| host_get_storage(&mut caller, key_ptr, out_ptr),
    ).is_ok()
}

/// Calls `wasmi::Linker::func_wrap` with a closure that calls
/// `host_set_storage`: whether the name was free.
#[verifier::external_body]
pub(crate) fn linker_define_set_storage<E: Ext + 'static>(
    linker: &mut wasmi::Linker<VmState<E>>,
    module: &str,
    name: &str,
) -> bool {
    linker.func_wrap(
        module,
        name,
        |mut caller: wasmi::Caller<'_, VmState<E>>, key_ptr: u32, value_ptr: u32| host_set_storage(&mut caller, key_ptr, value_ptr),
    ).is_ok()
}

/// Calls `wasmi::Linker::func_wrap` with a closure that calls `host_print`:
/// whether the name was free.
#[verifier::external_body]
pub(crate) fn linker_define_print<E: Ext + 'static>(
    linker: &mut wasmi::Linker<VmState<E>>,
    module: &str,
    name: &str,
) -> bool {
    linker.func_wrap(
        module,
        name,
        |mut caller: wasmi::Caller<'_, VmState<E>>, ptr: u32, len: u32| host_print(&mut caller, ptr, len),
    ).is_ok()
}

/// Calls `wasmi::Linker::instantiate_and_start`: the instance, or `None`
/// where an import is missing or of another type, or the start function
/// fails. The linker and the store must be of one engine: else it panics.
#[verifier::external_body]
pub(crate) fn instantiate<E: Ext>(
    linker: &wasmi::Linker<VmState<E>>,
    store: &mut wasmi::Store<VmState<E>>,
    module: &wasmi::Module,
) -> Option<wasmi::Instance> {
    linker.instantiate_and_start(store, module).ok()
}

/// Calls `wasmi::Instance::get_typed_func` for a function without
/// parameters and results: the function, or `None` where the instance
/// exports none of that name and type. The instance must have been made in
/// this store.
#[verifier::external_body]
pub(crate) fn exported_func<E: Ext>(
    instance: &wasmi::Instance,
    store: &wasmi::Store<VmState<E>>,
    name: &str,
) -> Option<wasmi::TypedFunc<(), ()>> {
    instance.get_typed_func::<(), ()>(store, name).ok()
}

/// Calls `wasmi::TypedFunc::call`: whether the function ran to its end.
/// With fuel metering it returns on every input. The function must have
/// been made in this store.
#[verifier::external_body]
pub(crate) fn call_func<E: Ext>(func: &wasmi::TypedFunc<(), ()>, store: &mut wasmi::Store<VmState<E>>) -> bool {
    func.call(store, ()).is_ok()
}

} // verus!
