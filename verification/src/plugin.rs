//! Loading and running plugins.
//!
//! A plugin is a WebAssembly module, in binary form or, in a `.wat` file, in text
//! form. It exports its linear memory as `memory` and a function `alloc(len: i32) ->
//! i32`, which sets `len` bytes aside. It has one or both of two hooks,
//! `filter_request` and `filter_response`, each `(ptr: i32, len: i32) -> i64`.
//! A hook reads JSON at `ptr` and returns the place of a decision, also JSON,
//! packed as `(ptr << 32) | len`:
//!
//! ```text
//! {"action":"continue","add_headers":{...}}
//! {"action":"block","status":403,"body":"..."}
//! ```
//!
//! An older interface has one function `filter_request(ptr: i32, len: i32) ->
//! i32` on the bare path.
use vstd::prelude::*;
use vstd::utf8::*;

use crate::guest::{packed_len, packed_ptr, unpack};
use crate::json::{json_object, json_string, push_bytes, push_object, string_to_json};
use crate::sandbox::{
    alloc_may_run,
    alloc_owner,
    assemble,
    bytes_in,
    call_alloc,
    call_filter,
    compile,
    default_engine,
    engine_id,
    exported_alloc,
    exported_filter,
    exported_hook,
    exported_memory,
    filter_may_run,
    find_alloc,
    find_filter,
    find_hook,
    find_memory,
    hook_may_run,
    instance_owner,
    instantiate,
    instantiate_may,
    is_empty_linker,
    is_empty_store,
    is_wasm_module,
    linker_engine,
    memory_bytes,
    memory_owner,
    memory_read,
    memory_write,
    module_code,
    module_engine,
    new_linker,
    new_store,
    start,
    start_may,
    store_engine,
    store_id,
    text_module,
    MAX_TEXT_LEN,
};
use crate::string_map::{distinct_keys, StringMap};
use crate::text::{decimal, decimal_text, ends_with};

verus! {

/// What a plugin learns of a request.
pub struct PluginRequestContext<'a> {
    pub method: &'a str,
    pub path: &'a str,
    pub headers: StringMap,
}

/// What a plugin learns of a response. The body is not handed over.
pub struct PluginResponseContext {
    pub status: u16,
    pub headers: StringMap,
}

/// What a plugin decides, on a request or on a response.
pub enum PluginDecision {
    /// Go on, and add these headers to the response.
    Continue { add_headers: StringMap },
    /// Stop, and answer with this status and this body.
    Block { status: u16, body: String },
}

/// Why a plugin cannot be loaded or run.
#[derive(Clone, Copy, Debug, PartialEq, Eq, Structural)]
pub enum PluginError {
    /// The module could not be read.
    Unreadable,
    /// The bytes are not a WebAssembly module.
    InvalidModule,
    /// The module could not be instantiated.
    Instantiation,
    /// The start function trapped.
    Start,
    /// No memory is exported as `memory`.
    NoMemory,
    /// No function `alloc(i32) -> i32` is exported.
    NoAlloc,
    /// No function `filter_request(i32, i32) -> i32` is exported.
    NoFilter,
    /// The plugin trapped.
    Trapped,
    /// The input does not fit at the address that the plugin set aside.
    WriteOutOfBounds,
    /// The reply is empty or too long.
    SuspiciousLength(usize),
    /// The reply does not lie in the plugin's memory.
    ReadOutOfBounds,
}

/// How long a reply may be.
pub const MAX_REPLY_LEN: usize = 1_000_000;

/// What a plugin learns of a request, as JSON.
pub open spec fn request_json(
    method: Seq<char>,
    path: Seq<char>,
    headers: Seq<(Seq<char>, Seq<char>)>,
) -> Seq<u8> {
    encode_utf8("{\"method\":"@) + json_string(method) + encode_utf8(",\"path\":"@)
        + json_string(path) + encode_utf8(",\"headers\":"@) + json_object(headers)
        + encode_utf8("}"@)
}

/// What a plugin learns of a response, as JSON.
pub open spec fn response_json(status: u16, headers: Seq<(Seq<char>, Seq<char>)>) -> Seq<u8> {
    encode_utf8("{\"status\":"@) + encode_utf8(decimal(status as nat)) + encode_utf8(
        ",\"headers\":"@,
    ) + json_object(headers) + encode_utf8("}"@)
}

impl<'a> PluginRequestContext<'a> {
    /// The context as JSON.
    pub open spec fn json(self) -> Seq<u8> {
        request_json(self.method@, self.path@, self.headers.pairs())
    }

    /// The context as JSON. No header name occurs twice in it.
    pub fn to_json(&self) -> (r: Vec<u8>)
        ensures
            r@ == self.json(),
            distinct_keys(self.headers.pairs()),
    {
        let mut out: Vec<u8> = Vec::new();
        push_bytes(&mut out, "{\"method\":".as_bytes());
        let method = string_to_json(self.method);
        push_bytes(&mut out, method.as_slice());
        push_bytes(&mut out, ",\"path\":".as_bytes());
        let path = string_to_json(self.path);
        push_bytes(&mut out, path.as_slice());
        push_bytes(&mut out, ",\"headers\":".as_bytes());
        push_object(&mut out, &self.headers);
        push_bytes(&mut out, "}".as_bytes());
        assert(out@ =~= self.json());
        out
    }
}

impl PluginResponseContext {
    /// The context as JSON.
    pub open spec fn json(self) -> Seq<u8> {
        response_json(self.status, self.headers.pairs())
    }

    /// The context as JSON. No header name occurs twice in it.
    pub fn to_json(&self) -> (r: Vec<u8>)
        ensures
            r@ == self.json(),
            distinct_keys(self.headers.pairs()),
    {
        let mut out: Vec<u8> = Vec::new();
        push_bytes(&mut out, "{\"status\":".as_bytes());
        let digits = decimal_text(self.status as u64);
        push_bytes(&mut out, digits.as_str().as_bytes());
        push_bytes(&mut out, ",\"headers\":".as_bytes());
        push_object(&mut out, &self.headers);
        push_bytes(&mut out, "}".as_bytes());
        assert(out@ =~= self.json());
        out
    }
}

// ---------------------------------------------------------------------------
// What a call can do
// ---------------------------------------------------------------------------
/// Whether instantiating a module on its own can end in this store and this
/// result.
pub open spec fn may_begin(
    code: Seq<u8>,
    store: wasmi::Store<()>,
    result: Result<wasmi::Instance, PluginError>,
) -> bool {
    exists|
        linker: wasmi::Linker<()>,
        empty: wasmi::Store<()>,
        placed: wasmi::Store<()>,
        pre: Option<wasmi::InstancePre>,
    | #[trigger]
        begins(code, linker, empty, placed, pre, store, result)
}

/// The steps of instantiating a module on its own: a linker that defines
/// nothing places it in an empty store, then its start function runs.
pub open spec fn begins(
    code: Seq<u8>,
    linker: wasmi::Linker<()>,
    empty: wasmi::Store<()>,
    placed: wasmi::Store<()>,
    pre: Option<wasmi::InstancePre>,
    store: wasmi::Store<()>,
    result: Result<wasmi::Instance, PluginError>,
) -> bool {
    &&& is_empty_linker(linker)
    &&& is_empty_store(empty)
    &&& linker_engine(linker) == store_engine(empty)
    &&& instantiate_may(linker, code, empty, placed, pre)
    &&& match (pre, result) {
        (None, _) => result == Err::<wasmi::Instance, _>(PluginError::Instantiation),
        (Some(pre), Ok(instance)) => start_may(pre, placed, store, Some(instance)),
        (Some(pre), Err(e)) => e == PluginError::Start && start_may(pre, placed, store, None),
    }
}

/// The address that a plugin returned, as an offset into its memory.
pub open spec fn offset(ptr: i32) -> int {
    (ptr as usize) as int
}

/// Whether an input fits into a memory at an address.
pub open spec fn fits(memory: Seq<u8>, ptr: i32, input: Seq<u8>) -> bool {
    offset(ptr) + input.len() <= memory.len() && offset(ptr) + input.len() <= usize::MAX
}

/// A memory with an input written at an address.
pub open spec fn written_at(memory: Seq<u8>, ptr: i32, input: Seq<u8>) -> Seq<u8> {
    memory.subrange(0, offset(ptr)) + input + memory.subrange(
        offset(ptr) + input.len(),
        memory.len() as int,
    )
}

/// The length that a plugin is told: the length of the input in 32 bits.
pub open spec fn told_len(input: Seq<u8>) -> i32 {
    (input.len() as usize) as i32
}

/// The place of a reply, or why it is refused.
pub open spec fn reply_place(packed: i64) -> Result<(int, int), PluginError> {
    if packed_len(packed) == 0 || packed_len(packed) > MAX_REPLY_LEN {
        Err(PluginError::SuspiciousLength(packed_len(packed) as usize))
    } else {
        Ok((packed_ptr(packed) as int, packed_len(packed) as int))
    }
}

/// The reply that a packed place in a memory stands for.
pub open spec fn reply_at(memory: Seq<u8>, packed: i64) -> Result<Option<Seq<u8>>, PluginError> {
    match reply_place(packed) {
        Err(e) => Err(e),
        Ok((ptr, len)) => if ptr + len <= memory.len() && ptr + len <= usize::MAX {
            Ok(Some(memory.subrange(ptr, ptr + len)))
        } else {
            Err(PluginError::ReadOutOfBounds)
        },
    }
}

/// Whether an input can be handed to an instance: `alloc` is told its length
/// and the input is written where `alloc` says. `written` is the store after
/// that, `ptr` the address.
pub open spec fn may_hand_over(
    alloc: wasmi::TypedFunc<i32, i32>,
    memory: wasmi::Memory,
    started: wasmi::Store<()>,
    input: Seq<u8>,
    written: wasmi::Store<()>,
    result: Result<i32, PluginError>,
) -> bool {
    exists|allocated: wasmi::Store<()>, ptr: Option<i32>| #[trigger]
        hands_over(alloc, memory, started, input, allocated, ptr, written, result)
}

/// The steps of handing an input to an instance.
pub open spec fn hands_over(
    alloc: wasmi::TypedFunc<i32, i32>,
    memory: wasmi::Memory,
    started: wasmi::Store<()>,
    input: Seq<u8>,
    allocated: wasmi::Store<()>,
    ptr: Option<i32>,
    written: wasmi::Store<()>,
    result: Result<i32, PluginError>,
) -> bool {
    &&& alloc_may_run(alloc, told_len(input), started, allocated, ptr)
    &&& match ptr {
        None => result == Err::<i32, _>(PluginError::Trapped),
        Some(p) => if fits(memory_bytes(allocated, memory), p, input) {
            &&& result == Ok::<_, PluginError>(p)
            &&& memory_bytes(written, memory) == written_at(
                memory_bytes(allocated, memory),
                p,
                input,
            )
        } else {
            result == Err::<i32, _>(PluginError::WriteOutOfBounds)
        },
    }
}

/// Whether running a hook of a module on an input can end in this result. An
/// instance of its own runs the hook, with the input in its memory; a module
/// that lacks the hook gives `None`.
pub open spec fn hook_may_reply(
    code: Seq<u8>,
    hook_name: Seq<char>,
    input: Seq<u8>,
    result: Result<Option<Seq<u8>>, PluginError>,
) -> bool {
    exists|store: wasmi::Store<()>, begun: Result<wasmi::Instance, PluginError>|
        {
            &&& #[trigger] may_begin(code, store, begun)
            &&& match begun {
                Err(e) => result == Err::<Option<Seq<u8>>, _>(e),
                Ok(instance) => instance_may_reply(store, instance, hook_name, input, result),
            }
        }
}

/// Whether running a hook of an instance on an input can end in this result.
pub open spec fn instance_may_reply(
    store: wasmi::Store<()>,
    instance: wasmi::Instance,
    hook_name: Seq<char>,
    input: Seq<u8>,
    result: Result<Option<Seq<u8>>, PluginError>,
) -> bool {
    match (
        exported_hook(store, instance, hook_name),
        exported_memory(store, instance, "memory"@),
        exported_alloc(store, instance, "alloc"@),
    ) {
        (None, _, _) => result == Ok::<Option<Seq<u8>>, PluginError>(None),
        (Some(_), None, _) => result == Err::<Option<Seq<u8>>, _>(PluginError::NoMemory),
        (Some(_), Some(_), None) => result == Err::<Option<Seq<u8>>, _>(PluginError::NoAlloc),
        (Some(hook), Some(memory), Some(alloc)) => exists|
            written: wasmi::Store<()>,
            handed: Result<i32, PluginError>,
        |
            {
                &&& #[trigger] may_hand_over(alloc, memory, store, input, written, handed)
                &&& match handed {
                    Err(e) => result == Err::<Option<Seq<u8>>, _>(e),
                    Ok(ptr) => call_may_reply(hook, memory, written, ptr, input, result),
                }
            },
    }
}

/// Whether calling a hook on an input that lies in the memory can end in this
/// result.
pub open spec fn call_may_reply(
    hook: wasmi::TypedFunc<(i32, i32), i64>,
    memory: wasmi::Memory,
    written: wasmi::Store<()>,
    ptr: i32,
    input: Seq<u8>,
    result: Result<Option<Seq<u8>>, PluginError>,
) -> bool {
    exists|finished: wasmi::Store<()>, packed: Option<i64>|
        {
            &&& #[trigger] hook_may_run(hook, ptr, told_len(input), written, finished, packed)
            &&& match packed {
                None => result == Err::<Option<Seq<u8>>, _>(PluginError::Trapped),
                Some(v) => result == reply_at(memory_bytes(finished, memory), v),
            }
        }
}

/// Whether running the path filter of a module can end in this result.
pub open spec fn filter_may_answer(
    code: Seq<u8>,
    path: Seq<u8>,
    result: Result<bool, PluginError>,
) -> bool {
    exists|store: wasmi::Store<()>, begun: Result<wasmi::Instance, PluginError>|
        {
            &&& #[trigger] may_begin(code, store, begun)
            &&& match begun {
                Err(e) => result == Err::<bool, _>(e),
                Ok(instance) => instance_may_answer(store, instance, path, result),
            }
        }
}

/// Whether running the path filter of an instance can end in this result.
pub open spec fn instance_may_answer(
    store: wasmi::Store<()>,
    instance: wasmi::Instance,
    path: Seq<u8>,
    result: Result<bool, PluginError>,
) -> bool {
    match (
        exported_memory(store, instance, "memory"@),
        exported_alloc(store, instance, "alloc"@),
        exported_filter(store, instance, "filter_request"@),
    ) {
        (None, _, _) => result == Err::<bool, _>(PluginError::NoMemory),
        (Some(_), None, _) => result == Err::<bool, _>(PluginError::NoAlloc),
        (Some(_), Some(_), None) => result == Err::<bool, _>(PluginError::NoFilter),
        (Some(memory), Some(alloc), Some(filter)) => exists|
            written: wasmi::Store<()>,
            handed: Result<i32, PluginError>,
        |
            {
                &&& #[trigger] may_hand_over(alloc, memory, store, path, written, handed)
                &&& match handed {
                    Err(e) => result == Err::<bool, _>(e),
                    Ok(ptr) => call_may_answer(filter, written, ptr, path, result),
                }
            },
    }
}

/// Whether calling a path filter on a path that lies in the memory can end in
/// this result: any answer but zero refuses the path.
pub open spec fn call_may_answer(
    filter: wasmi::TypedFunc<(i32, i32), i32>,
    written: wasmi::Store<()>,
    ptr: i32,
    path: Seq<u8>,
    result: Result<bool, PluginError>,
) -> bool {
    exists|finished: wasmi::Store<()>, answer: Option<i32>|
        {
            &&& #[trigger] filter_may_run(filter, ptr, told_len(path), written, finished, answer)
            &&& match answer {
                None => result == Err::<bool, _>(PluginError::Trapped),
                Some(v) => result == Ok::<_, PluginError>(v != 0),
            }
        }
}

/// The bytes of a reply.
pub open spec fn reply_view(r: Result<Option<Vec<u8>>, PluginError>) -> Result<
    Option<Seq<u8>>,
    PluginError,
> {
    match r {
        Ok(Some(bytes)) => Ok(Some(bytes@)),
        Ok(None) => Ok(None),
        Err(e) => Err(e),
    }
}

// ---------------------------------------------------------------------------
// Calling
// ---------------------------------------------------------------------------
/// The place of a reply: its address and its length. A reply that is empty or
/// longer than a million bytes is refused.
pub fn locate_reply(packed: i64) -> (r: Result<(usize, usize), PluginError>)
    ensures
        match r {
            Ok((ptr, len)) => reply_place(packed) == Ok::<_, PluginError>(
                (ptr as int, len as int),
            ),
            Err(e) => reply_place(packed) == Err::<(int, int), _>(e),
        },
{
    let (ptr, len) = unpack(packed);
    if len == 0 || len as usize > MAX_REPLY_LEN {
        return Err(PluginError::SuspiciousLength(len as usize));
    }
    Ok((ptr as usize, len as usize))
}

/// Reads a reply out of a plugin's memory.
fn read_reply(store: &wasmi::Store<()>, memory: &wasmi::Memory, packed: i64) -> (r: Result<
    Option<Vec<u8>>,
    PluginError,
>)
    requires
        memory_owner(*memory) == store_id(*store),
    ensures
        reply_view(r) == reply_at(memory_bytes(*store, *memory), packed),
{
    let (ptr, len) = match locate_reply(packed) {
        Ok(place) => place,
        Err(e) => {
            return Err(e);
        },
    };
    if ptr > usize::MAX - len {
        return Err(PluginError::ReadOutOfBounds);
    }
    let mut buffer: Vec<u8> = vec![0u8; len];
    match memory_read(memory, store, ptr, &mut buffer) {
        Ok(_) => Ok(Some(buffer)),
        Err(_) => Err(PluginError::ReadOutOfBounds),
    }
}

/// Hands an input to an instance: has `alloc` set memory aside and writes the
/// input there. Returns the address.
fn hand_over(
    alloc: &wasmi::TypedFunc<i32, i32>,
    memory: &wasmi::Memory,
    store: &mut wasmi::Store<()>,
    input: &[u8],
) -> (r: Result<i32, PluginError>)
    requires
        alloc_owner(*alloc) == store_id(*old(store)),
        memory_owner(*memory) == store_id(*old(store)),
    ensures
        store_id(*final(store)) == store_id(*old(store)),
        may_hand_over(*alloc, *memory, *old(store), input@, *final(store), r),
{
    let ghost started = *store;
    let called = call_alloc(alloc, store, input.len() as i32);
    let ghost allocated = *store;
    let ghost answer = called.ok();
    let ptr: i32 = match called {
        Ok(ptr) => ptr,
        Err(_) => {
            assert(hands_over(
                *alloc,
                *memory,
                started,
                input@,
                allocated,
                answer,
                *store,
                Err(PluginError::Trapped),
            ));
            return Err(PluginError::Trapped);
        },
    };
    let at: usize = ptr as usize;
    if at > usize::MAX - input.len() {
        assert(hands_over(
            *alloc,
            *memory,
            started,
            input@,
            allocated,
            answer,
            *store,
            Err(PluginError::WriteOutOfBounds),
        ));
        return Err(PluginError::WriteOutOfBounds);
    }
    let r: Result<i32, PluginError> = match memory_write(memory, store, at, input) {
        Ok(_) => Ok(ptr),
        Err(_) => Err(PluginError::WriteOutOfBounds),
    };
    assert(hands_over(*alloc, *memory, started, input@, allocated, answer, *store, r));
    r
}

/// A plugin: a compiled module and the path that it came from.
pub struct Plugin {
    engine: wasmi::Engine,
    module: wasmi::Module,
    name: String,
}

/// Whether a path names a module in text form.
pub open spec fn names_text(path: Seq<char>) -> bool {
    ".wat"@.is_suffix_of(path)
}

/// Whether bytes begin as a binary module does.
pub open spec fn begins_as_binary(code: Seq<u8>) -> bool {
    seq![0u8, 97u8, 115u8, 109u8].is_prefix_of(code)
}

/// The binary module that a file holds: what stands in it, or what a text in a
/// `.wat` file stands for.
pub open spec fn binary_module(path: Seq<char>, code: Seq<u8>) -> Option<Seq<u8>> {
    if !names_text(path) || begins_as_binary(code) {
        Some(code)
    } else if code.len() <= MAX_TEXT_LEN {
        text_module(code)
    } else {
        None
    }
}

/// Why a file cannot be loaded as a plugin, if so. `None` stands for one that could
/// not be read.
pub open spec fn file_fault(path: Seq<char>, code: Option<Seq<u8>>) -> Option<PluginError> {
    match code {
        None => Some(PluginError::Unreadable),
        Some(code) => match binary_module(path, code) {
            Some(binary) => if is_wasm_module(binary) {
                None
            } else {
                Some(PluginError::InvalidModule)
            },
            None => Some(PluginError::InvalidModule),
        },
    }
}

/// A plugin module as it was read: its path and, unless that failed, its bytes.
pub struct PluginSource {
    pub path: String,
    pub code: Option<Vec<u8>>,
}

impl PluginSource {
    /// The binary module that was read, if there is one.
    pub open spec fn binary(self) -> Option<Seq<u8>> {
        match self.code {
            Some(code) => binary_module(self.path@, code@),
            None => None,
        }
    }

    /// Why the source cannot be loaded, if so.
    pub open spec fn fault(self) -> Option<PluginError> {
        file_fault(self.path@, bytes_in(self.code))
    }
}

/// Whether a file is a module in text form, to be assembled first.
fn is_text(path: &str, code: &[u8]) -> (r: bool)
    ensures
        r == (names_text(path@) && !begins_as_binary(code@)),
{
    if !ends_with(path, ".wat") {
        return false;
    }
    let ghost magic: Seq<u8> = seq![0u8, 97u8, 115u8, 109u8];
    if code.len() < 4 {
        return true;
    }
    let same = code[0] == 0 && code[1] == 97 && code[2] == 115 && code[3] == 109;
    proof {
        assert(code@.subrange(0, 4).len() == magic.len());
        if same {
            assert(code@.subrange(0, 4) =~= magic);
        } else {
            assert(magic[0] == 0 && magic[1] == 97 && magic[2] == 115 && magic[3] == 109);
            assert(code@.subrange(0, 4)[0] == code@[0] && code@.subrange(0, 4)[1] == code@[1]
                && code@.subrange(0, 4)[2] == code@[2] && code@.subrange(0, 4)[3] == code@[3]);
        }
    }
    !same
}

/// Whether sources are those of the named plugins, with what was read of each:
/// `None` where that failed or nothing was handed over.
pub open spec fn are_sources_of(
    sources: Seq<PluginSource>,
    paths: Seq<String>,
    contents: Seq<Option<Vec<u8>>>,
) -> bool {
    &&& sources.len() == paths.len()
    &&& forall|i: int|
        0 <= i < paths.len() ==> {
            &&& (#[trigger] sources[i]).path@ == paths[i]@
            &&& if i < contents.len() {
                match (sources[i].code, contents[i]) {
                    (Some(code), Some(content)) => code@ == content@,
                    (None, None) => true,
                    _ => false,
                }
            } else {
                sources[i].code is None
            }
        }
}

/// Pairs the paths of plugins with what was read of each, in order.
pub fn plugin_sources(paths: &Vec<String>, contents: &Vec<Option<Vec<u8>>>) -> (r: Vec<
    PluginSource,
>)
    ensures
        are_sources_of(r@, paths@, contents@),
{
    let mut sources: Vec<PluginSource> = Vec::new();
    let mut i: usize = 0;
    while i < paths.len()
        invariant
            i <= paths.len(),
            are_sources_of(sources@, paths@.subrange(0, i as int), contents@),
        decreases paths.len() - i,
    {
        let code: Option<Vec<u8>> = if i < contents.len() {
            match &contents[i] {
                Some(content) => Some(content.clone()),
                None => None,
            }
        } else {
            None
        };
        let ghost before = sources@;
        sources.push(PluginSource { path: paths[i].clone(), code });
        proof {
            let named = paths@.subrange(0, i + 1);
            assert forall|j: int| 0 <= j < named.len() implies {
                &&& (#[trigger] sources@[j]).path@ == named[j]@
                &&& if j < contents@.len() {
                    match (sources@[j].code, contents@[j]) {
                        (Some(code), Some(content)) => code@ == content@,
                        (None, None) => true,
                        _ => false,
                    }
                } else {
                    sources@[j].code is None
                }
            } by {
                if j < i {
                    assert(before[j] == sources@[j]);
                    assert(named[j] == paths@.subrange(0, i as int)[j]);
                }
            }
        }
        i += 1;
    }
    assert(paths@.subrange(0, i as int) =~= paths@);
    sources
}

/// A call of a plugin, and what came of it.
pub enum PluginCall {
    /// A hook was run on an input.
    Hook {
        plugin: Plugin,
        hook_name: Seq<char>,
        input: Seq<u8>,
        result: Result<Option<Seq<u8>>, PluginError>,
    },
    /// The path filter of the older interface was run on a path.
    Filter { plugin: Plugin, path: Seq<u8>, refused: Result<bool, PluginError> },
}

impl PluginCall {
    /// Whether the call can have come to its result.
    pub open spec fn possible(self) -> bool {
        match self {
            PluginCall::Hook { plugin, hook_name, input, result } => hook_may_reply(
                plugin.code(),
                hook_name,
                input,
                result,
            ),
            PluginCall::Filter { plugin, path, refused } => filter_may_answer(
                plugin.code(),
                path,
                refused,
            ),
        }
    }

    /// The same call of another plugin.
    pub open spec fn on(self, other: Plugin) -> PluginCall {
        match self {
            PluginCall::Hook { plugin, hook_name, input, result } => PluginCall::Hook {
                plugin: other,
                hook_name,
                input,
                result,
            },
            PluginCall::Filter { plugin, path, refused } => PluginCall::Filter {
                plugin: other,
                path,
                refused,
            },
        }
    }

    /// The plugin that was called.
    pub open spec fn plugin(self) -> Plugin {
        match self {
            PluginCall::Hook { plugin, .. } => plugin,
            PluginCall::Filter { plugin, .. } => plugin,
        }
    }
}

/// Calls do not influence each other: however many calls, of whichever plugins and
/// with whatever outcome, came before, what a call came to is what a first call of a
/// freshly loaded plugin can come to, and the other way round. Only the bytes of the
/// module, the hook and the input decide.
pub proof fn law_calls_are_isolated(
    calls: Seq<PluginCall>,
    i: int,
    fresh: Plugin,
    file: PluginSource,
)
    requires
        forall|k: int| 0 <= k < calls.len() ==> (#[trigger] calls[k]).possible(),
        0 <= i < calls.len(),
        calls[i].plugin().loaded_from(file),
        fresh.loaded_from(file),
    ensures
        calls[i].on(fresh).possible(),
        forall|first: PluginCall|
            first.plugin() == fresh && #[trigger] first.possible() ==> first.on(
                calls[i].plugin(),
            ).possible(),
{
    assert(calls[i].possible());
}

impl Plugin {
    #[verifier::type_invariant]
    spec fn module_is_of_engine(self) -> bool {
        module_engine(self.module) == engine_id(self.engine)
    }

    /// The binary module that the plugin was compiled from.
    pub closed spec fn code(self) -> Seq<u8> {
        module_code(self.module)
    }

    /// The path that the plugin was loaded from.
    pub closed spec fn path(self) -> Seq<char> {
        self.name@
    }

    /// Whether the plugin is what a source stands for.
    pub open spec fn loaded_from(self, source: PluginSource) -> bool {
        &&& self.path() == source.path@
        &&& source.binary() == Some(self.code())
    }

    /// Compiles a binary module.
    fn from_binary(path: &String, binary: &[u8]) -> (r: Result<Plugin, PluginError>)
        ensures
            match r {
                Ok(plugin) => {
                    &&& is_wasm_module(binary@)
                    &&& plugin.path() == path@
                    &&& plugin.code() == binary@
                },
                Err(e) => !is_wasm_module(binary@) && e == PluginError::InvalidModule,
            },
    {
        let engine = default_engine();
        match compile(&engine, binary) {
            Ok(module) => Ok(Plugin { engine, module, name: path.clone() }),
            Err(_) => Err(PluginError::InvalidModule),
        }
    }

    /// Compiles a plugin. A module in text form is assembled first.
    pub fn load(source: &PluginSource) -> (r: Result<Plugin, PluginError>)
        ensures
            match r {
                Ok(plugin) => source.fault() is None && plugin.loaded_from(*source),
                Err(e) => source.fault() == Some(e),
            },
    {
        let code: &Vec<u8> = match &source.code {
            Some(code) => code,
            None => {
                return Err(PluginError::Unreadable);
            },
        };
        if !is_text(source.path.as_str(), code.as_slice()) {
            return Plugin::from_binary(&source.path, code.as_slice());
        }
        if code.len() > MAX_TEXT_LEN {
            return Err(PluginError::InvalidModule);
        }
        match assemble(code.as_slice()) {
            Some(binary) => Plugin::from_binary(&source.path, binary.as_slice()),
            None => Err(PluginError::InvalidModule),
        }
    }

    /// The path that the plugin was loaded from.
    pub fn name(&self) -> (r: &str)
        ensures
            r@ == self.path(),
    {
        self.name.as_str()
    }

    /// A fresh instance in a store of its own.
    fn new_instance(&self) -> (r: Result<(wasmi::Store<()>, wasmi::Instance), PluginError>)
        ensures
            match r {
                Ok((store, instance)) => {
                    &&& instance_owner(instance) == store_id(store)
                    &&& may_begin(self.code(), store, Ok(instance))
                },
                Err(e) => exists|store: wasmi::Store<()>| #[trigger]
                    may_begin(self.code(), store, Err(e)),
            },
    {
        proof {
            use_type_invariant(self);
        }
        let mut store = new_store(&self.engine);
        let ghost empty = store;
        let linker = new_linker(&self.engine);
        let placing = instantiate(&linker, &mut store, &self.module);
        let ghost placed = store;
        let ghost before = placing.ok();
        let pre = match placing {
            Ok(pre) => pre,
            Err(_) => {
                assert(begins(
                    self.code(),
                    linker,
                    empty,
                    placed,
                    before,
                    store,
                    Err(PluginError::Instantiation),
                ));
                assert(may_begin(self.code(), store, Err(PluginError::Instantiation)));
                return Err(PluginError::Instantiation);
            },
        };
        match start(pre, &mut store) {
            Ok(instance) => {
                assert(begins(self.code(), linker, empty, placed, before, store, Ok(instance)));
                Ok((store, instance))
            },
            Err(_) => {
                assert(begins(
                    self.code(),
                    linker,
                    empty,
                    placed,
                    before,
                    store,
                    Err(PluginError::Start),
                ));
                assert(may_begin(self.code(), store, Err(PluginError::Start)));
                Err(PluginError::Start)
            },
        }
    }

    /// The older interface: whether the plugin refuses a path.
    pub fn filter_request_v1(&self, path: &str) -> (r: Result<bool, PluginError>)
        ensures
            filter_may_answer(self.code(), encode_utf8(path@), r),
    {
        let (mut store, instance) = match self.new_instance() {
            Ok(begun) => begun,
            Err(e) => {
                return Err(e);
            },
        };
        let ghost started = store;
        let memory = match find_memory(&instance, &store, "memory") {
            Some(memory) => memory,
            None => {
                assert(may_begin(self.code(), started, Ok(instance)));
                return Err(PluginError::NoMemory);
            },
        };
        let alloc = match find_alloc(&instance, &store, "alloc") {
            Some(alloc) => alloc,
            None => {
                assert(may_begin(self.code(), started, Ok(instance)));
                return Err(PluginError::NoAlloc);
            },
        };
        let filter = match find_filter(&instance, &store, "filter_request") {
            Some(filter) => filter,
            None => {
                assert(may_begin(self.code(), started, Ok(instance)));
                return Err(PluginError::NoFilter);
            },
        };
        let bytes: &[u8] = path.as_bytes();
        let ptr: i32 = match hand_over(&alloc, &memory, &mut store, bytes) {
            Ok(ptr) => ptr,
            Err(e) => {
                assert(instance_may_answer(started, instance, bytes@, Err(e)));
                return Err(e);
            },
        };
        let ghost written = store;
        let called = call_filter(&filter, &mut store, ptr, bytes.len() as i32);
        let ghost answer = called.ok();
        let r: Result<bool, PluginError> = match called {
            Ok(v) => Ok(v != 0),
            Err(_) => Err(PluginError::Trapped),
        };
        assert(filter_may_run(filter, ptr, told_len(bytes@), written, store, answer));
        assert(call_may_answer(filter, written, ptr, bytes@, r));
        assert(instance_may_answer(started, instance, bytes@, r));
        r
    }

    /// Runs a hook on an input, in an instance of its own. `None` when the
    /// plugin lacks the hook.
    pub fn call_hook(&self, hook_name: &str, input: &[u8]) -> (r: Result<
        Option<Vec<u8>>,
        PluginError,
    >)
        ensures
            hook_may_reply(self.code(), hook_name@, input@, reply_view(r)),
    {
        let (mut store, instance) = match self.new_instance() {
            Ok(begun) => begun,
            Err(e) => {
                return Err(e);
            },
        };
        let ghost started = store;
        assert(may_begin(self.code(), started, Ok(instance)));
        let hook = match find_hook(&instance, &store, hook_name) {
            Some(hook) => hook,
            None => {
                return Ok(None);
            },
        };
        let memory = match find_memory(&instance, &store, "memory") {
            Some(memory) => memory,
            None => {
                return Err(PluginError::NoMemory);
            },
        };
        let alloc = match find_alloc(&instance, &store, "alloc") {
            Some(alloc) => alloc,
            None => {
                return Err(PluginError::NoAlloc);
            },
        };
        let ptr: i32 = match hand_over(&alloc, &memory, &mut store, input) {
            Ok(ptr) => ptr,
            Err(e) => {
                assert(instance_may_reply(started, instance, hook_name@, input@, Err(e)));
                return Err(e);
            },
        };
        let ghost written = store;
        let called = crate::sandbox::call_hook(&hook, &mut store, ptr, input.len() as i32);
        let ghost answer = called.ok();
        assert(hook_may_run(hook, ptr, told_len(input@), written, store, answer));
        let r = match called {
            Ok(packed) => read_reply(&store, &memory, packed),
            Err(_) => Err(PluginError::Trapped),
        };
        assert(call_may_reply(hook, memory, written, ptr, input@, reply_view(r)));
        assert(instance_may_reply(started, instance, hook_name@, input@, reply_view(r)));
        r
    }

    /// The request hook. `None` when the plugin has none.
    pub fn filter_request(&self, ctx: &PluginRequestContext) -> (r: Result<
        Option<Vec<u8>>,
        PluginError,
    >)
        ensures
            hook_may_reply(self.code(), "filter_request"@, ctx.json(), reply_view(r)),
    {
        let input = ctx.to_json();
        self.call_hook("filter_request", input.as_slice())
    }

    /// The response hook. `None` when the plugin has none.
    pub fn filter_response(&self, ctx: &PluginResponseContext) -> (r: Result<
        Option<Vec<u8>>,
        PluginError,
    >)
        ensures
            hook_may_reply(self.code(), "filter_response"@, ctx.json(), reply_view(r)),
    {
        let input = ctx.to_json();
        self.call_hook("filter_response", input.as_slice())
    }
}

/// Loads plugins in order. One that cannot be loaded stops the whole: better
/// than to leave out a broken plugin in silence.
pub fn load_plugins(sources: &Vec<PluginSource>) -> (r: Result<Vec<Plugin>, PluginError>)
    ensures
        match r {
            Ok(plugins) => {
                &&& plugins@.len() == sources@.len()
                &&& forall|i: int|
                    0 <= i < sources@.len() ==> (#[trigger] sources@[i]).fault() is None
                        && plugins@[i].loaded_from(sources@[i])
            },
            Err(e) => exists|k: int|
                {
                    &&& 0 <= k < sources@.len()
                    &&& (#[trigger] sources@[k]).fault() == Some(e)
                    &&& forall|i: int| 0 <= i < k ==> (#[trigger] sources@[i]).fault() is None
                },
        },
{
    let mut plugins: Vec<Plugin> = Vec::new();
    let mut i: usize = 0;
    while i < sources.len()
        invariant
            i <= sources.len(),
            plugins@.len() == i,
            forall|j: int|
                0 <= j < i ==> (#[trigger] sources@[j]).fault() is None && plugins@[j].loaded_from(
                    sources@[j],
                ),
        decreases sources.len() - i,
    {
        match Plugin::load(&sources[i]) {
            Ok(plugin) => {
                plugins.push(plugin);
            },
            Err(e) => {
                assert(sources@[i as int].fault() == Some(e));
                return Err(e);
            },
        }
        i += 1;
    }
    Ok(plugins)
}

} // verus!
