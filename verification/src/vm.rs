//! The wasm host: it runs a contract's code in a sandbox with one linear
//! memory, hands it its calldata, and serves its calls for storage and
//! printing.

use vstd::prelude::*;
use crate::hash::Bytes32;
use crate::sandbox::{
    call_func, caller_memory_size, caller_read, caller_state, caller_state_mut, caller_write, engine_new,
    exported_func, host_error, instantiate, linker_define_get_storage, linker_define_memory,
    linker_define_print, linker_define_set_storage, linker_new, memory_new, memory_write, module_new,
    store_into_state, store_new, store_set_fuel, store_state_mut,
};

verus! {

/// The pages of 64 KiB that a contract's memory starts with.
pub const INITIAL_PAGES: u32 = 16;

/// The pages of 64 KiB that a contract's memory can grow to.
pub const MAXIMUM_PAGES: u32 = 32;

/// Where in the contract's memory the length of the calldata is written.
pub const LENGTH_OFFSET: usize = 4;

/// Where in the contract's memory the calldata is written.
pub const CALLDATA_OFFSET: usize = 36;

/// The greatest length of calldata, in bytes: 1 MiB.
pub const MAX_CALLDATA: usize = 1048576;

/// The greatest size of a contract's memory, in bytes: `MAXIMUM_PAGES` pages.
pub const MEMORY_LIMIT: usize = 2097152;

/// The fuel that one run of a contract may use before it is stopped.
pub const STEP_LIMIT: u64 = 50000000;

/// The storage behind a contract could not serve a call.
#[derive(Clone, Copy, Debug, PartialEq, Eq, Structural)]
pub struct Fault;

/// Why a contract did not run to its end.
#[derive(Clone, Copy, Debug, PartialEq, Eq, Structural)]
pub enum VmError {
    /// The calldata is longer than `MAX_CALLDATA`.
    CalldataTooLarge,
    /// The code is not a valid wasm module.
    InvalidModule,
    /// The sandbox could not be set up: its fuel, its memory, or the
    /// binding of the host functions.
    Sandbox,
    /// The calldata does not fit into the memory behind `LENGTH_OFFSET`.
    Memory,
    /// The module asks for imports that the host does not offer, or its
    /// start function failed.
    Instantiate,
    /// The module exports no function `entrypoint` without parameters and results.
    MissingEntrypoint,
    /// The contract trapped, ran out of fuel, or made a host call that failed.
    Trap,
    /// The storage behind the contract failed during a host call.
    Storage,
}

/// The storage that a contract reads and writes through the host.
pub trait Ext: Sized {
    /// What the storage has for `key`: the thirty-two bytes that `get`
    /// returns, or nothing where the storage fails.
    spec fn stored(&self, key: Seq<u8>) -> Option<Seq<u8>>;

    /// Whether `set` of `key` to `value` takes this storage to `after`, and
    /// succeeds exactly if `done`.
    spec fn leaves(&self, key: Seq<u8>, value: Seq<u8>, after: Self, done: bool) -> bool;

    /// The value stored under `key`; thirty-two zero bytes where there is none.
    fn get(&self, key: &Bytes32) -> (r: Result<Bytes32, Fault>)
        ensures
            match self.stored(key@) {
                Some(value) => r matches Ok(found) && found@ == value,
                None => r is Err,
            },
    ;

    /// Stores `value` under `key`.
    fn set(&mut self, key: &Bytes32, value: &Bytes32) -> (r: Result<(), Fault>)
        ensures
            old(self).leaves(key@, value@, *final(self), r is Ok),
    ;
}

/// What the host keeps for one run of a contract: the storage, the memory
/// once it is made, what the contract printed, and whether the storage failed.
pub struct VmState<E> {
    pub(crate) ext: E,
    pub(crate) memory: Option<wasmi::Memory>,
    pub(crate) printed: Vec<Vec<u8>>,
    pub(crate) fault: bool,
}

/// What a run of a contract leaves: the storage as the contract left it,
/// what it printed, line by line, and how the run ended.
pub struct Run<E> {
    pub ext: E,
    pub printed: Vec<Vec<u8>>,
    pub result: Result<(), VmError>,
}

/// The little-endian bytes of `value`, `width` bytes wide.
pub open spec fn le_bytes(value: nat, width: nat) -> Seq<u8>
    decreases width,
{
    if width == 0 {
        Seq::empty()
    } else {
        seq![(value % 256) as u8] + le_bytes(value / 256, (width - 1) as nat)
    }
}

/// What the host writes into the contract's memory from `LENGTH_OFFSET` on:
/// the length of the calldata in thirty-two bytes, little-endian, and then
/// the calldata, which so begins at `CALLDATA_OFFSET`.
pub open spec fn calldata_image(calldata: Seq<u8>) -> Seq<u8> {
    le_bytes(calldata.len(), 32) + calldata
}

/// The thirty-two bytes that hold `len`, little-endian.
pub fn length_header(len: usize) -> (header: Bytes32)
    ensures
        header@ == le_bytes(len as nat, 32),
{
    let mut header = [0u8; 32];
    let mut rest: usize = len;
    let mut i: usize = 0;
    while i < 32
        invariant
            i <= 32,
            header@.subrange(0, i as int) + le_bytes(rest as nat, (32 - i) as nat) == le_bytes(len as nat, 32),
        decreases 32 - i,
    {
        let ghost before = header@;
        header[i] = (rest % 256) as u8;
        proof {
            assert(header@.subrange(0, i + 1) =~= before.subrange(0, i as int).push((rest % 256) as u8));
            assert(header@.subrange(0, i + 1) + le_bytes((rest / 256) as nat, (32 - i - 1) as nat)
                =~= before.subrange(0, i as int) + le_bytes(rest as nat, (32 - i) as nat));
        }
        rest = rest / 256;
        i += 1;
    }
    assert(header@ =~= header@.subrange(0, 32) + le_bytes(rest as nat, 0));
    header
}

/// The bytes to write at `LENGTH_OFFSET` for `calldata`, or `None` where the
/// calldata is longer than `MAX_CALLDATA`.
pub fn place_calldata(calldata: &[u8]) -> (image: Option<Vec<u8>>)
    ensures
        calldata@.len() <= MAX_CALLDATA ==> image.is_some() && image.unwrap()@ == calldata_image(calldata@),
        calldata@.len() > MAX_CALLDATA ==> image.is_none(),
{
    if calldata.len() > MAX_CALLDATA {
        return None;
    }
    let header = length_header(calldata.len());
    let mut image: Vec<u8> = Vec::new();
    crate::bytes::append_bytes(&mut image, header.as_slice());
    crate::bytes::append_bytes(&mut image, calldata);
    Some(image)
}

/// How a run ended: a failure of the storage comes before whatever the
/// engine reported.
pub fn settle(ran: Result<(), VmError>, fault: bool) -> (r: Result<(), VmError>)
    ensures
        r == (if fault {
            Err(VmError::Storage)
        } else {
            ran
        }),
{
    if fault {
        Err(VmError::Storage)
    } else {
        ran
    }
}

impl<E> VmState<E> {
    /// The state at the start of a run: no memory yet, nothing printed.
    fn new(ext: E) -> (state: Self)
        ensures
            state.ext == ext,
            state.memory.is_none(),
            state.printed@.len() == 0,
            !state.fault,
    {
        VmState { ext, memory: None, printed: Vec::new(), fault: false }
    }

    /// Records the memory, which can be made only once the store holds the state.
    fn deferred_set_memory(&mut self, memory: wasmi::Memory)
        ensures
            final(self).memory == Some(memory),
            final(self).ext == old(self).ext,
            final(self).printed == old(self).printed,
            final(self).fault == old(self).fault,
    {
        self.memory = Some(memory);
    }
}

/// The thirty-two bytes of a vector of that length.
pub fn bytes32_of(bytes: &Vec<u8>) -> (out: Bytes32)
    requires
        bytes@.len() == 32,
    ensures
        out@ == bytes@,
{
    let mut out = [0u8; 32];
    let mut i: usize = 0;
    while i < 32
        invariant
            i <= 32,
            bytes@.len() == 32,
            forall|j: int| 0 <= j < i ==> out@[j] == bytes@[j],
        decreases 32 - i,
    {
        out[i] = bytes[i];
        i += 1;
    }
    assert(out@ =~= bytes@);
    out
}

/// What `get_storage` answers for a key that was read from the contract's
/// memory: the value that the storage has for it. Where the storage fails,
/// there is no answer and the failure is recorded. Nothing else of the
/// host's state changes.
pub(crate) fn serve_get_storage<E: Ext>(state: &mut VmState<E>, key: &Bytes32) -> (r: Option<Bytes32>)
    ensures
        match old(state).ext.stored(key@) {
            Some(value) => r matches Some(found) && found@ == value && final(state).fault == old(state).fault,
            None => r is None && final(state).fault,
        },
        final(state).ext == old(state).ext,
        final(state).memory == old(state).memory,
        final(state).printed == old(state).printed,
{
    match state.ext.get(key) {
        Ok(value) => Some(value),
        Err(_) => {
            state.fault = true;
            None
        },
    }
}

/// What `set_storage` does with a key and a value that were read from the
/// contract's memory: the storage sets the key to the value. Where the
/// storage fails, the failure is recorded. Nothing else of the host's state
/// changes.
pub(crate) fn serve_set_storage<E: Ext>(state: &mut VmState<E>, key: &Bytes32, value: &Bytes32) -> (done: bool)
    ensures
        old(state).ext.leaves(key@, value@, final(state).ext, done),
        final(state).fault == (old(state).fault || !done),
        final(state).memory == old(state).memory,
        final(state).printed == old(state).printed,
{
    match state.ext.set(key, value) {
        Ok(()) => true,
        Err(_) => {
            state.fault = true;
            false
        },
    }
}

/// What `print` does with the bytes that were read from the contract's
/// memory: they become the last printed line. Nothing else of the host's
/// state changes.
pub(crate) fn serve_print<E: Ext>(state: &mut VmState<E>, bytes: Vec<u8>)
    ensures
        final(state).printed@ == old(state).printed@.push(bytes),
        final(state).ext == old(state).ext,
        final(state).memory == old(state).memory,
        final(state).fault == old(state).fault,
{
    state.printed.push(bytes);
}

/// Whether `len` bytes at `ptr` lie within a memory of `size` bytes that
/// is no larger than `MEMORY_LIMIT`.
pub open spec fn within(ptr: nat, len: nat, size: nat) -> bool {
    ptr + len <= size && len <= MEMORY_LIMIT
}

/// Whether the text that a contract asks to print lies within its memory.
pub fn text_in_bounds(ptr: u32, len: u32, size: usize) -> (r: bool)
    ensures
        r == within(ptr as nat, len as nat, size as nat),
{
    !(ptr as usize > size || len as usize > size - ptr as usize || len as usize > MEMORY_LIMIT)
}

/// Reads thirty-two bytes of the contract's memory at `offset`.
fn read_bytes32<'b, E: Ext>(caller: &wasmi::Caller<'b, VmState<E>>, memory: &wasmi::Memory, offset: u32) -> (r:
    Option<Bytes32>)
{
    match caller_read(caller, memory, offset as usize, 32) {
        Some(bytes) => Some(bytes32_of(&bytes)),
        None => None,
    }
}

/// The host function `get_storage`: reads the key at `key_ptr`, and writes
/// the value that the storage has for it at `out_ptr`.
pub(crate) fn host_get_storage<'b, E: Ext>(caller: &mut wasmi::Caller<'b, VmState<E>>, key_ptr: u32, out_ptr: u32) -> Result<
    (),
    wasmi::Error,
> {
    let memory = match caller_state(caller).memory {
        Some(memory) => memory,
        None => {
            return Err(host_error("memory is not initialized"));
        },
    };
    let key = match read_bytes32(caller, &memory, key_ptr) {
        Some(key) => key,
        None => {
            return Err(host_error("key out of bounds"));
        },
    };
    let answer = serve_get_storage(caller_state_mut(caller), &key);
    match answer {
        Some(value) => {
            if caller_write(caller, &memory, out_ptr as usize, value.as_slice()) {
                Ok(())
            } else {
                Err(host_error("value out of bounds"))
            }
        },
        None => Err(host_error("storage failed")),
    }
}

/// The host function `set_storage`: reads the key at `key_ptr` and the
/// value at `value_ptr`, and stores the value under the key.
pub(crate) fn host_set_storage<'b, E: Ext>(caller: &mut wasmi::Caller<'b, VmState<E>>, key_ptr: u32, value_ptr: u32) -> Result<
    (),
    wasmi::Error,
> {
    let memory = match caller_state(caller).memory {
        Some(memory) => memory,
        None => {
            return Err(host_error("memory is not initialized"));
        },
    };
    let key = match read_bytes32(caller, &memory, key_ptr) {
        Some(key) => key,
        None => {
            return Err(host_error("key out of bounds"));
        },
    };
    let value = match read_bytes32(caller, &memory, value_ptr) {
        Some(value) => value,
        None => {
            return Err(host_error("value out of bounds"));
        },
    };
    if serve_set_storage(caller_state_mut(caller), &key, &value) {
        Ok(())
    } else {
        Err(host_error("storage failed"))
    }
}

/// The host function `print`: reads `len` bytes at `ptr` and keeps them as
/// one printed line.
pub(crate) fn host_print<'b, E: Ext>(caller: &mut wasmi::Caller<'b, VmState<E>>, ptr: u32, len: u32) -> Result<
    (),
    wasmi::Error,
> {
    let memory = match caller_state(caller).memory {
        Some(memory) => memory,
        None => {
            return Err(host_error("memory is not initialized"));
        },
    };
    let size = caller_memory_size(caller, &memory);
    if !text_in_bounds(ptr, len, size) {
        return Err(host_error("text out of bounds"));
    }
    match caller_read(caller, &memory, ptr as usize, len as usize) {
        Some(bytes) => {
            serve_print(caller_state_mut(caller), bytes);
            Ok(())
        },
        None => Err(host_error("text out of bounds")),
    }
}

/// The linker that binds the host's side of the contract interface under
/// the module name `env`: the memory and the three host functions.
fn populate_linker<E: Ext + 'static>(engine: &wasmi::Engine, memory: wasmi::Memory) -> Option<
    wasmi::Linker<VmState<E>>,
> {
    let mut linker = linker_new::<E>(engine);
    if !linker_define_memory(&mut linker, "env", "memory", memory) {
        return None;
    }
    if !linker_define_get_storage(&mut linker, "env", "get_storage") {
        return None;
    }
    if !linker_define_set_storage(&mut linker, "env", "set_storage") {
        return None;
    }
    if !linker_define_print(&mut linker, "env", "print") {
        return None;
    }
    Some(linker)
}

/// Sets the sandbox up in `store` and runs the contract in it.
fn run<E: Ext + 'static>(
    engine: &wasmi::Engine,
    store: &mut wasmi::Store<VmState<E>>,
    wasm: &[u8],
    image: &[u8],
) -> (r: Result<(), VmError>)
    ensures
        r matches Err(e) ==> e != VmError::CalldataTooLarge && e != VmError::Storage,
{
    let module = match module_new(engine, wasm) {
        Some(module) => module,
        None => {
            return Err(VmError::InvalidModule);
        },
    };
    if !store_set_fuel(store, STEP_LIMIT) {
        return Err(VmError::Sandbox);
    }
    let memory = match memory_new(store, INITIAL_PAGES, MAXIMUM_PAGES) {
        Some(memory) => memory,
        None => {
            return Err(VmError::Sandbox);
        },
    };
    let state = store_state_mut(store);
    state.deferred_set_memory(memory);
    if !memory_write(&memory, store, LENGTH_OFFSET, image) {
        return Err(VmError::Memory);
    }
    let linker = match populate_linker::<E>(engine, memory) {
        Some(linker) => linker,
        None => {
            return Err(VmError::Sandbox);
        },
    };
    let instance = match instantiate(&linker, store, &module) {
        Some(instance) => instance,
        None => {
            return Err(VmError::Instantiate);
        },
    };
    let main = match exported_func(&instance, store, "entrypoint") {
        Some(main) => main,
        None => {
            return Err(VmError::MissingEntrypoint);
        },
    };
    if call_func(&main, store) {
        Ok(())
    } else {
        Err(VmError::Trap)
    }
}

/// Runs the contract `wasm` on `calldata` over the storage `ext`. The
/// calldata is placed in the contract's memory as `calldata_image` says, and
/// the export `entrypoint` is called. Calldata longer than `MAX_CALLDATA` is
/// refused before anything is run.
pub fn execute<E: Ext + 'static>(ext: E, wasm: &[u8], calldata: Vec<u8>) -> (r: Run<E>)
    ensures
        calldata@.len() > MAX_CALLDATA ==> r.result == Err::<(), VmError>(VmError::CalldataTooLarge) && r.ext
            == ext && r.printed@.len() == 0,
        calldata@.len() <= MAX_CALLDATA ==> r.result != Err::<(), VmError>(VmError::CalldataTooLarge),
{
    let image = match place_calldata(calldata.as_slice()) {
        Some(image) => image,
        None => {
            return Run { ext, printed: Vec::new(), result: Err(VmError::CalldataTooLarge) };
        },
    };
    let engine = engine_new(true);
    let mut store = store_new(&engine, VmState::new(ext));
    let ran = run(&engine, &mut store, wasm, image.as_slice());
    let state = store_into_state(store);
    Run { ext: state.ext, printed: state.printed, result: settle(ran, state.fault) }
}

/// A storage slot: a key and the value stored under it.
#[derive(Clone, Copy, Debug)]
pub struct Slot {
    pub key: Bytes32,
    pub value: Bytes32,
}

/// The map that a list of slots stands for, a later slot taking the place
/// of an earlier one with the same key.
pub open spec fn slots_map(s: Seq<Slot>) -> Map<Seq<u8>, Seq<u8>>
    decreases s.len(),
{
    if s.len() == 0 {
        Map::empty()
    } else {
        slots_map(s.drop_last()).insert(s.last().key@, s.last().value@)
    }
}

/// The last slot with a key is the one that the map gives; a key that no
/// slot has is not in the map.
pub proof fn lemma_slots_map_last(s: Seq<Slot>, k: Seq<u8>, from: int)
    requires
        0 <= from <= s.len(),
        forall|j: int| from <= j < s.len() ==> s[j].key@ != k,
    ensures
        from > 0 && s[from - 1].key@ == k ==> slots_map(s).contains_key(k) && slots_map(s)[k] == s[from
            - 1].value@,
        from == 0 ==> !slots_map(s).contains_key(k),
    decreases s.len(),
{
    if s.len() > 0 && from < s.len() {
        assert forall|j: int| from <= j < s.drop_last().len() implies s.drop_last()[j].key@ != k by {
            assert(s.drop_last()[j] == s[j]);
        }
        lemma_slots_map_last(s.drop_last(), k, from);
        if from > 0 {
            assert(s.drop_last()[from - 1] == s[from - 1]);
        }
    }
}

/// Whether two blocks of thirty-two bytes are the same.
pub fn same_bytes32(a: &Bytes32, b: &Bytes32) -> (r: bool)
    ensures
        r == (a@ == b@),
{
    let mut i: usize = 0;
    while i < 32
        invariant
            i <= 32,
            forall|j: int| 0 <= j < i ==> a@[j] == b@[j],
        decreases 32 - i,
    {
        if a[i] != b[i] {
            return false;
        }
        i += 1;
    }
    assert(a@ =~= b@);
    true
}

/// A storage that is a plain map in memory, for trying contracts out.
#[derive(Clone, Debug)]
pub struct TestExt {
    storage: Vec<Slot>,
}

impl View for TestExt {
    type V = Map<Seq<u8>, Seq<u8>>;

    closed spec fn view(&self) -> Map<Seq<u8>, Seq<u8>> {
        slots_map(self.storage@)
    }
}

impl TestExt {
    /// The storage that holds nothing.
    pub fn new() -> (ext: TestExt)
        ensures
            ext@ == Map::<Seq<u8>, Seq<u8>>::empty(),
    {
        TestExt { storage: Vec::new() }
    }
}

impl Ext for TestExt {
    open spec fn stored(&self, key: Seq<u8>) -> Option<Seq<u8>> {
        Some(
            if self@.contains_key(key) {
                self@[key]
            } else {
                Seq::new(32, |i: int| 0u8)
            },
        )
    }

    open spec fn leaves(&self, key: Seq<u8>, value: Seq<u8>, after: Self, done: bool) -> bool {
        done && after@ == self@.insert(key, value)
    }

    /// The value stored under `key`, or thirty-two zero bytes.
    fn get(&self, key: &Bytes32) -> (r: Result<Bytes32, Fault>)
        ensures
            r matches Ok(value) && value@ == (if self@.contains_key(key@) {
                self@[key@]
            } else {
                Seq::new(32, |i: int| 0u8)
            }),
    {
        let mut i: usize = self.storage.len();
        while i > 0
            invariant
                i <= self.storage@.len(),
                forall|j: int| i <= j < self.storage@.len() ==> self.storage@[j].key@ != key@,
            decreases i,
        {
            if same_bytes32(&self.storage[i - 1].key, key) {
                proof {
                    lemma_slots_map_last(self.storage@, key@, i as int);
                }
                return Ok(self.storage[i - 1].value);
            }
            i -= 1;
        }
        proof {
            lemma_slots_map_last(self.storage@, key@, 0);
        }
        let zeros = [0u8; 32];
        assert(zeros@ =~= Seq::new(32, |i: int| 0u8));
        Ok(zeros)
    }

    /// Stores `value` under `key`.
    fn set(&mut self, key: &Bytes32, value: &Bytes32) -> (r: Result<(), Fault>)
        ensures
            r is Ok,
            final(self)@ == old(self)@.insert(key@, value@),
    {
        let ghost before = self.storage@;
        self.storage.push(Slot { key: *key, value: *value });
        assert(self.storage@.drop_last() =~= before);
        Ok(())
    }
}

} // verus!
