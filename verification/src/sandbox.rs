//! The WebAssembly interpreter, as far as a plugin call needs it.
//!
//! Every function here is one call into `wasmi`. Stores, instances, memories
//! and functions are opaque; what the rest of the crate knows of them are the
//! names declared here. A name that ends in `_may` or `_may_run` is a relation:
//! it holds of every outcome that the call can have, and does not claim that
//! one call has only one outcome (a guest may loop, grow its memory, or compute
//! with floating point).
use vstd::prelude::*;

verus! {

// ---------------------------------------------------------------------------
// Opaque types
// ---------------------------------------------------------------------------
/// `wasmi::Engine`, opaque.
#[verifier::external_type_specification]
#[verifier::external_body]
pub struct ExEngine(wasmi::Engine);

/// `wasmi::Module`, opaque.
#[verifier::external_type_specification]
#[verifier::external_body]
pub struct ExModule(wasmi::Module);

/// `wasmi::Store`, opaque.
#[verifier::external_type_specification]
#[verifier::external_body]
#[verifier::reject_recursive_types(T)]
pub struct ExStore<T>(wasmi::Store<T>);

/// `wasmi::Linker`, opaque.
#[verifier::external_type_specification]
#[verifier::external_body]
#[verifier::reject_recursive_types(T)]
pub struct ExLinker<T>(wasmi::Linker<T>);

/// `wasmi::InstancePre`, opaque.
#[verifier::external_type_specification]
#[verifier::external_body]
pub struct ExInstancePre(wasmi::InstancePre);

/// `wasmi::Instance`, opaque.
#[verifier::external_type_specification]
#[verifier::external_body]
pub struct ExInstance(wasmi::Instance);

/// `wasmi::Memory`, opaque.
#[verifier::external_type_specification]
#[verifier::external_body]
pub struct ExMemory(wasmi::Memory);

/// `wasmi::TypedFunc`, opaque.
#[verifier::external_type_specification]
#[verifier::external_body]
#[verifier::reject_recursive_types(Params)]
#[verifier::reject_recursive_types(Results)]
pub struct ExTypedFunc<Params, Results>(wasmi::TypedFunc<Params, Results>);

/// `wasmi::Error`, opaque.
#[verifier::external_type_specification]
#[verifier::external_body]
pub struct ExError(wasmi::Error);

/// `wasmi::core::Trap`, opaque.
#[verifier::external_type_specification]
#[verifier::external_body]
pub struct ExTrap(wasmi::core::Trap);

/// `wasmi::errors::MemoryError`, opaque.
#[verifier::external_type_specification]
#[verifier::external_body]
pub struct ExMemoryError(wasmi::errors::MemoryError);

// ---------------------------------------------------------------------------
// Identity: which engine made a value, which store owns a handle
// ---------------------------------------------------------------------------
/// The identity of an engine, as `wasmi::Engine::same` compares it.
pub uninterp spec fn engine_id(engine: wasmi::Engine) -> int;

/// Whether an engine has the default configuration.
pub uninterp spec fn is_default_engine(engine: wasmi::Engine) -> bool;

/// The identity of the engine that a module was compiled by.
pub uninterp spec fn module_engine(module: wasmi::Module) -> int;

/// The bytes that a module was compiled from.
pub uninterp spec fn module_code(module: wasmi::Module) -> Seq<u8>;

/// The identity of the engine that a store belongs to.
pub uninterp spec fn store_engine(store: wasmi::Store<()>) -> int;

/// The index by which a store tells its own handles from foreign ones.
pub uninterp spec fn store_id(store: wasmi::Store<()>) -> int;

/// Whether a store holds nothing yet.
pub uninterp spec fn is_empty_store(store: wasmi::Store<()>) -> bool;

/// The identity of the engine that a linker belongs to.
pub uninterp spec fn linker_engine(linker: wasmi::Linker<()>) -> int;

/// Whether a linker defines no import.
pub uninterp spec fn is_empty_linker(linker: wasmi::Linker<()>) -> bool;

/// The store that owns an instance whose start function has not run.
pub uninterp spec fn pre_owner(pre: wasmi::InstancePre) -> int;

/// The store that owns an instance.
pub uninterp spec fn instance_owner(instance: wasmi::Instance) -> int;

/// The store that owns a memory.
pub uninterp spec fn memory_owner(memory: wasmi::Memory) -> int;

/// The store that owns an allocation function.
pub uninterp spec fn alloc_owner(alloc: wasmi::TypedFunc<i32, i32>) -> int;

/// The store that owns a hook.
pub uninterp spec fn hook_owner(hook: wasmi::TypedFunc<(i32, i32), i64>) -> int;

/// The store that owns a path filter.
pub uninterp spec fn filter_owner(filter: wasmi::TypedFunc<(i32, i32), i32>) -> int;

// ---------------------------------------------------------------------------
// Results
// ---------------------------------------------------------------------------
/// Whether the default engine accepts these bytes as a WebAssembly module.
pub uninterp spec fn is_wasm_module(code: Seq<u8>) -> bool;

/// The binary module that a module in text form stands for, if it stands for one.
pub uninterp spec fn text_module(text: Seq<u8>) -> Option<Seq<u8>>;

/// What `wasmi::Linker::instantiate` can do with a module that was compiled from
/// these bytes: take the store from `before` to `after` and return `result` (`None`
/// for an error).
pub uninterp spec fn instantiate_may(
    linker: wasmi::Linker<()>,
    code: Seq<u8>,
    before: wasmi::Store<()>,
    after: wasmi::Store<()>,
    result: Option<wasmi::InstancePre>,
) -> bool;

/// What `wasmi::InstancePre::start` can do.
pub uninterp spec fn start_may(
    pre: wasmi::InstancePre,
    before: wasmi::Store<()>,
    after: wasmi::Store<()>,
    result: Option<wasmi::Instance>,
) -> bool;

/// The memory that an instance exports under a name.
pub uninterp spec fn exported_memory(
    store: wasmi::Store<()>,
    instance: wasmi::Instance,
    name: Seq<char>,
) -> Option<wasmi::Memory>;

/// The function `(i32) -> i32` that an instance exports under a name.
pub uninterp spec fn exported_alloc(
    store: wasmi::Store<()>,
    instance: wasmi::Instance,
    name: Seq<char>,
) -> Option<wasmi::TypedFunc<i32, i32>>;

/// The function `(i32, i32) -> i64` that an instance exports under a name.
pub uninterp spec fn exported_hook(
    store: wasmi::Store<()>,
    instance: wasmi::Instance,
    name: Seq<char>,
) -> Option<wasmi::TypedFunc<(i32, i32), i64>>;

/// The function `(i32, i32) -> i32` that an instance exports under a name.
pub uninterp spec fn exported_filter(
    store: wasmi::Store<()>,
    instance: wasmi::Instance,
    name: Seq<char>,
) -> Option<wasmi::TypedFunc<(i32, i32), i32>>;

/// What calling an allocation function can do.
pub uninterp spec fn alloc_may_run(
    alloc: wasmi::TypedFunc<i32, i32>,
    len: i32,
    before: wasmi::Store<()>,
    after: wasmi::Store<()>,
    result: Option<i32>,
) -> bool;

/// What calling a hook can do.
pub uninterp spec fn hook_may_run(
    hook: wasmi::TypedFunc<(i32, i32), i64>,
    ptr: i32,
    len: i32,
    before: wasmi::Store<()>,
    after: wasmi::Store<()>,
    result: Option<i64>,
) -> bool;

/// What calling a path filter can do.
pub uninterp spec fn filter_may_run(
    filter: wasmi::TypedFunc<(i32, i32), i32>,
    ptr: i32,
    len: i32,
    before: wasmi::Store<()>,
    after: wasmi::Store<()>,
    result: Option<i32>,
) -> bool;

/// The bytes that a linear memory holds.
pub uninterp spec fn memory_bytes(store: wasmi::Store<()>, memory: wasmi::Memory) -> Seq<u8>;

// ---------------------------------------------------------------------------
// Calls
// ---------------------------------------------------------------------------
/// `wasmi::Engine::default`: an engine with the default configuration.
#[verifier::external_body]
pub(crate) fn default_engine() -> (engine: wasmi::Engine)
    ensures
        is_default_engine(engine),
{
    wasmi::Engine::default()
}

/// `wasmi::Module::new`: parses, validates and compiles a module. Whether
/// it succeeds depends on the bytes and on the engine's configuration.
#[verifier::external_body]
pub(crate) fn compile(engine: &wasmi::Engine, code: &[u8]) -> (r: Result<
    wasmi::Module,
    wasmi::Error,
>)
    requires
        is_default_engine(*engine),
    ensures
        r is Ok <==> is_wasm_module(code@),
        r matches Ok(module) ==> module_code(module) == code@ && module_engine(module) == engine_id(
            *engine,
        ),
{
    wasmi::Module::new(engine, code)
}

/// How long a module in text form may be: the converter keeps positions in 32 bits.
pub const MAX_TEXT_LEN: usize = 0x7FFF_FFFF;

/// The bytes of a result.
pub open spec fn bytes_in(r: Option<Vec<u8>>) -> Option<Seq<u8>> {
    match r {
        Some(bytes) => Some(bytes@),
        None => None,
    }
}

/// `wat::parse_bytes`: the binary form of a module in text form; `None` where the
/// bytes are no module in text form. The result depends on the bytes alone.
#[verifier::external_body]
pub(crate) fn assemble(text: &[u8]) -> (r: Option<Vec<u8>>)
    requires
        text@.len() <= MAX_TEXT_LEN,
    ensures
        bytes_in(r) == text_module(text@),
{
    wat::parse_bytes(text).ok().map(|binary| binary.into_owned())
}

/// `wasmi::Store::new`: an empty store of the given engine.
#[verifier::external_body]
pub(crate) fn new_store(engine: &wasmi::Engine) -> (store: wasmi::Store<()>)
    ensures
        is_empty_store(store),
        store_engine(store) == engine_id(*engine),
{
    wasmi::Store::new(engine, ())
}

/// `wasmi::Linker::new`: a linker of the given engine that defines nothing.
#[verifier::external_body]
pub(crate) fn new_linker(engine: &wasmi::Engine) -> (linker: wasmi::Linker<()>)
    ensures
        is_empty_linker(linker),
        linker_engine(linker) == engine_id(*engine),
{
    wasmi::Linker::new(engine)
}

/// `wasmi::Linker::instantiate`: resolves a module's imports and places it in
/// the store. It panics when linker and store belong to different engines.
#[verifier::external_body]
pub(crate) fn instantiate(
    linker: &wasmi::Linker<()>,
    store: &mut wasmi::Store<()>,
    module: &wasmi::Module,
) -> (r: Result<wasmi::InstancePre, wasmi::Error>)
    requires
        linker_engine(*linker) == store_engine(*old(store)),
        module_engine(*module) == store_engine(*old(store)),
    ensures
        instantiate_may(*linker, module_code(*module), *old(store), *final(store), r.ok()),
        store_id(*final(store)) == store_id(*old(store)),
        r matches Ok(pre) ==> pre_owner(pre) == store_id(*final(store)),
{
    linker.instantiate(store, module)
}

/// `wasmi::InstancePre::start`: runs the start function, if the module has
/// one. It does not return while the guest runs on.
#[verifier::external_body]
pub(crate) fn start(pre: wasmi::InstancePre, store: &mut wasmi::Store<()>) -> (r: Result<
    wasmi::Instance,
    wasmi::Error,
>)
    requires
        pre_owner(pre) == store_id(*old(store)),
    ensures
        start_may(pre, *old(store), *final(store), r.ok()),
        store_id(*final(store)) == store_id(*old(store)),
        r matches Ok(instance) ==> instance_owner(instance) == store_id(*final(store)),
{
    pre.start(store)
}

/// `wasmi::Instance::get_export`, for a memory: `None` when nothing or
/// something else is exported under the name.
#[verifier::external_body]
pub(crate) fn find_memory(
    instance: &wasmi::Instance,
    store: &wasmi::Store<()>,
    name: &str,
) -> (r: Option<wasmi::Memory>)
    requires
        instance_owner(*instance) == store_id(*store),
    ensures
        r == exported_memory(*store, *instance, name@),
        r matches Some(memory) ==> memory_owner(memory) == store_id(*store),
{
    match instance.get_export(store, name) {
        Some(wasmi::Extern::Memory(memory)) => Some(memory),
        _ => None,
    }
}

/// `wasmi::Instance::get_typed_func` for `(i32) -> i32`: `None` when no
/// function of that type is exported under the name.
#[verifier::external_body]
pub(crate) fn find_alloc(
    instance: &wasmi::Instance,
    store: &wasmi::Store<()>,
    name: &str,
) -> (r: Option<wasmi::TypedFunc<i32, i32>>)
    requires
        instance_owner(*instance) == store_id(*store),
    ensures
        r == exported_alloc(*store, *instance, name@),
        r matches Some(alloc) ==> alloc_owner(alloc) == store_id(*store),
{
    instance.get_typed_func::<i32, i32>(store, name).ok()
}

/// `wasmi::Instance::get_typed_func` for `(i32, i32) -> i64`: `None` when no
/// function of that type is exported under the name.
#[verifier::external_body]
pub(crate) fn find_hook(
    instance: &wasmi::Instance,
    store: &wasmi::Store<()>,
    name: &str,
) -> (r: Option<wasmi::TypedFunc<(i32, i32), i64>>)
    requires
        instance_owner(*instance) == store_id(*store),
    ensures
        r == exported_hook(*store, *instance, name@),
        r matches Some(hook) ==> hook_owner(hook) == store_id(*store),
{
    instance.get_typed_func::<(i32, i32), i64>(store, name).ok()
}

/// `wasmi::Instance::get_typed_func` for `(i32, i32) -> i32`: `None` when no
/// function of that type is exported under the name.
#[verifier::external_body]
pub(crate) fn find_filter(
    instance: &wasmi::Instance,
    store: &wasmi::Store<()>,
    name: &str,
) -> (r: Option<wasmi::TypedFunc<(i32, i32), i32>>)
    requires
        instance_owner(*instance) == store_id(*store),
    ensures
        r == exported_filter(*store, *instance, name@),
        r matches Some(filter) ==> filter_owner(filter) == store_id(*store),
{
    instance.get_typed_func::<(i32, i32), i32>(store, name).ok()
}

/// `wasmi::TypedFunc::call` on an allocation function. It does not return
/// while the guest runs on.
#[verifier::external_body]
pub(crate) fn call_alloc(
    alloc: &wasmi::TypedFunc<i32, i32>,
    store: &mut wasmi::Store<()>,
    len: i32,
) -> (r: Result<i32, wasmi::core::Trap>)
    requires
        alloc_owner(*alloc) == store_id(*old(store)),
    ensures
        alloc_may_run(*alloc, len, *old(store), *final(store), r.ok()),
        store_id(*final(store)) == store_id(*old(store)),
{
    alloc.call(store, len)
}

/// `wasmi::TypedFunc::call` on a hook. It does not return while the guest
/// runs on.
#[verifier::external_body]
pub(crate) fn call_hook(
    hook: &wasmi::TypedFunc<(i32, i32), i64>,
    store: &mut wasmi::Store<()>,
    ptr: i32,
    len: i32,
) -> (r: Result<i64, wasmi::core::Trap>)
    requires
        hook_owner(*hook) == store_id(*old(store)),
    ensures
        hook_may_run(*hook, ptr, len, *old(store), *final(store), r.ok()),
        store_id(*final(store)) == store_id(*old(store)),
{
    hook.call(store, (ptr, len))
}

/// `wasmi::TypedFunc::call` on a path filter. It does not return while the
/// guest runs on.
#[verifier::external_body]
pub(crate) fn call_filter(
    filter: &wasmi::TypedFunc<(i32, i32), i32>,
    store: &mut wasmi::Store<()>,
    ptr: i32,
    len: i32,
) -> (r: Result<i32, wasmi::core::Trap>)
    requires
        filter_owner(*filter) == store_id(*old(store)),
    ensures
        filter_may_run(*filter, ptr, len, *old(store), *final(store), r.ok()),
        store_id(*final(store)) == store_id(*old(store)),
{
    filter.call(store, (ptr, len))
}

/// `wasmi::Memory::write`: copies the bytes to `offset`, or reports an error
/// and changes nothing when they do not fit. The end of the range must be a
/// `usize`.
#[verifier::external_body]
pub(crate) fn memory_write(
    memory: &wasmi::Memory,
    store: &mut wasmi::Store<()>,
    offset: usize,
    bytes: &[u8],
) -> (r: Result<(), wasmi::errors::MemoryError>)
    requires
        memory_owner(*memory) == store_id(*old(store)),
        offset + bytes@.len() <= usize::MAX,
    ensures
        store_id(*final(store)) == store_id(*old(store)),
        r is Ok <==> offset + bytes@.len() <= memory_bytes(*old(store), *memory).len(),
        r is Err ==> *final(store) == *old(store),
        r is Ok ==> memory_bytes(*final(store), *memory) == memory_bytes(
            *old(store),
            *memory,
        ).subrange(0, offset as int) + bytes@ + memory_bytes(*old(store), *memory).subrange(
            offset + bytes@.len(),
            memory_bytes(*old(store), *memory).len() as int,
        ),
{
    memory.write(store, offset, bytes)
}

/// `wasmi::Memory::read`: fills the buffer from `offset`, or reports an error
/// and leaves the buffer alone when the range is out of bounds. The end of the
/// range must be a `usize`.
#[verifier::external_body]
pub(crate) fn memory_read(
    memory: &wasmi::Memory,
    store: &wasmi::Store<()>,
    offset: usize,
    buffer: &mut Vec<u8>,
) -> (r: Result<(), wasmi::errors::MemoryError>)
    requires
        memory_owner(*memory) == store_id(*store),
        offset + old(buffer)@.len() <= usize::MAX,
    ensures
        r is Ok <==> offset + old(buffer)@.len() <= memory_bytes(*store, *memory).len(),
        r is Err ==> final(buffer)@ == old(buffer)@,
        r is Ok ==> final(buffer)@ == memory_bytes(*store, *memory).subrange(
            offset as int,
            offset + old(buffer)@.len(),
        ),
{
    memory.read(store, offset, buffer)
}

} // verus!
