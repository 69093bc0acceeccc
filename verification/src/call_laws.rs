//! What a call of a plugin is: an instance of its own, the whole input in its memory,
//! its answer as it stands there.
use vstd::prelude::*;

use crate::guest::{packed_len, packed_ptr};
use crate::plugin::{
    begins, call_may_answer, call_may_reply, filter_may_answer, fits, hands_over, hook_may_reply,
    instance_may_answer, instance_may_reply, may_begin, may_hand_over, offset, reply_at,
    reply_place, reply_view, told_len, written_at, PluginError,
};
use crate::sandbox::{
    alloc_may_run, exported_alloc, exported_filter, exported_hook, exported_memory,
    filter_may_run, hook_may_run, instantiate_may, is_empty_linker, is_empty_store, linker_engine,
    memory_bytes, start_may, store_engine,
};

verus! {

// ---------------------------------------------------------------------------
// Numbers that cross the boundary
// ---------------------------------------------------------------------------
/// A plugin is told the length of its whole input.
pub proof fn law_the_whole_length_is_told(input: Seq<u8>)
    requires
        input.len() <= 0x7FFF_FFFF,
    ensures
        told_len(input) as int == input.len(),
{
    let n = input.len() as usize;
    assert(n as i32 == n) by (bit_vector)
        requires
            n <= 0x7FFF_FFFF,
    ;
}

/// The length that a plugin is told of any input is that of the input, around the end
/// of 32 bits.
pub proof fn law_a_long_length_wraps_around(input: Seq<u8>)
    requires
        input.len() <= usize::MAX,
    ensures
        (told_len(input) - input.len()) % 0x1_0000_0000 == 0,
{
    let n = input.len() as usize;
    let word = n as u64;
    let low = word & 0xFFFF_FFFF;
    let high = word >> 32;
    assert(word == high * 0x1_0000_0000 + low && low <= 0xFFFF_FFFF && high <= 0xFFFF_FFFF)
        by (bit_vector)
        requires
            low == word & 0xFFFF_FFFF,
            high == word >> 32,
    ;
    assert(low <= 0x7FFF_FFFF ==> n as i32 == low) by (bit_vector)
        requires
            word == n as u64,
            low == word & 0xFFFF_FFFF,
    ;
    assert(low > 0x7FFF_FFFF ==> n as i32 == low - 0x1_0000_0000) by (bit_vector)
        requires
            word == n as u64,
            low == word & 0xFFFF_FFFF,
    ;
}

/// Where an address that a plugin returns lies for the host: at that address, or, for a
/// negative one, so far before the end of the host's addresses.
pub open spec fn host_address(ptr: i32) -> int {
    if ptr >= 0 {
        ptr as int
    } else {
        usize::MAX + 1 + ptr
    }
}

/// The address that a plugin returns is where the host writes.
pub proof fn law_an_address_is_itself(ptr: i32)
    ensures
        offset(ptr) == host_address(ptr),
{
    let top: usize = usize::MAX;
    let at = ptr as usize;
    assert(ptr >= 0 ==> at == ptr) by (bit_vector)
        requires
            at == ptr as usize,
    ;
    assert(ptr < 0 ==> !at == (-(ptr as i64)) - 1) by (bit_vector)
        requires
            at == ptr as usize,
    ;
    assert(at + !at == !0usize) by (bit_vector);
    assert(top <= !0usize) by (bit_vector);
}

/// A packed reply is its address, times two to the 32nd, and its length.
pub proof fn law_a_packed_reply_is_both_halves(packed: i64)
    ensures
        packed_ptr(packed) * 0x1_0000_0000 + packed_len(packed) == packed as u64,
        packed_ptr(packed) <= 0xFFFF_FFFF,
        packed_len(packed) <= 0xFFFF_FFFF,
        packed >= 0 ==> packed as u64 == packed,
        packed < 0 ==> packed as u64 == packed + 0x1_0000_0000_0000_0000,
{
    let word = packed as u64;
    assert((word >> 32) * 0x1_0000_0000 + (word & 0xFFFF_FFFF) == word && word >> 32 <= 0xFFFF_FFFF
        && word & 0xFFFF_FFFF <= 0xFFFF_FFFF) by (bit_vector);
    assert(packed >= 0 ==> packed as u64 == packed) by (bit_vector);
    assert(packed < 0 ==> packed as u64 == packed + 0x1_0000_0000_0000_0000) by (bit_vector);
}

/// Whether a memory is another with an input written at an address, whole, and nothing
/// else changed.
pub open spec fn is_written(before: Seq<u8>, ptr: int, input: Seq<u8>, after: Seq<u8>) -> bool {
    &&& 0 <= ptr
    &&& ptr + input.len() <= before.len()
    &&& after.len() == before.len()
    &&& forall|i: int| 0 <= i < input.len() ==> #[trigger] input[i] == after[ptr + i]
    &&& forall|i: int|
        0 <= i < before.len() && !(ptr <= i < ptr + input.len()) ==> #[trigger] after[i]
            == before[i]
}

/// An input is written where it fits, whole, and nothing else changes.
pub proof fn law_an_input_is_written_whole(memory: Seq<u8>, ptr: i32, input: Seq<u8>)
    requires
        fits(memory, ptr, input),
    ensures
        is_written(memory, offset(ptr), input, written_at(memory, ptr, input)),
{
    let after = written_at(memory, ptr, input);
    let at = offset(ptr);
    assert forall|i: int| 0 <= i < input.len() implies #[trigger] input[i] == after[at + i] by {}
}

/// Whether bytes are those of a memory at a place.
pub open spec fn is_read(memory: Seq<u8>, ptr: int, len: int, bytes: Seq<u8>) -> bool {
    &&& 0 <= ptr
    &&& ptr + len <= memory.len()
    &&& bytes.len() == len
    &&& forall|i: int| 0 <= i < len ==> #[trigger] bytes[i] == memory[ptr + i]
}

/// A reply is sought where its place was packed, unless it is empty or longer than a
/// million bytes.
pub proof fn law_a_reply_is_sought_where_it_was_packed(packed: i64)
    ensures
        ({
            let ptr = packed_ptr(packed) as int;
            let len = packed_len(packed) as int;
            match reply_place(packed) {
                Ok(place) => 0 < len <= 1_000_000 && place.0 == ptr && place.1 == len,
                Err(PluginError::SuspiciousLength(n)) => n == len && (len == 0 || len
                    > 1_000_000),
                Err(_) => false,
            }
        }),
{
    law_a_packed_reply_is_both_halves(packed);
}

/// The bytes of a result are those of its reply, and a failure is the same failure.
pub proof fn law_a_result_holds_its_reply(r: Result<Option<Vec<u8>>, PluginError>)
    ensures
        match (r, reply_view(r)) {
            (Ok(Some(bytes)), Ok(Some(reply))) => reply == bytes@,
            (Ok(None), Ok(None)) => true,
            (Err(a), Err(b)) => a == b,
            _ => false,
        },
{
}

/// A reply is what stands in the plugin's memory at the place that it packed. It is
/// refused exactly where it is empty, longer than a million bytes or out of the memory.
pub proof fn law_a_reply_is_read_as_it_stands(memory: Seq<u8>, packed: i64)
    requires
        memory.len() <= usize::MAX,
    ensures
        ({
            let ptr = packed_ptr(packed) as int;
            let len = packed_len(packed) as int;
            match reply_at(memory, packed) {
                Ok(Some(reply)) => 0 < len <= 1_000_000 && is_read(memory, ptr, len, reply),
                Ok(None) => false,
                Err(PluginError::SuspiciousLength(n)) => n == len && (len == 0 || len
                    > 1_000_000),
                Err(PluginError::ReadOutOfBounds) => 0 < len <= 1_000_000 && ptr + len
                    > memory.len(),
                Err(_) => false,
            }
        }),
{
    law_a_packed_reply_is_both_halves(packed);
}

// ---------------------------------------------------------------------------
// Calls
// ---------------------------------------------------------------------------
/// What happened in a call, as far as it came.
pub struct CallTrace {
    pub linker: wasmi::Linker<()>,
    pub empty: wasmi::Store<()>,
    pub placed: wasmi::Store<()>,
    pub pre: wasmi::InstancePre,
    pub started: wasmi::Store<()>,
    pub instance: wasmi::Instance,
    pub memory: wasmi::Memory,
    pub alloc: wasmi::TypedFunc<i32, i32>,
    pub len: i32,
    pub allocated: wasmi::Store<()>,
    pub ptr: i32,
    pub written: wasmi::Store<()>,
    pub finished: wasmi::Store<()>,
}

impl CallTrace {
    /// Whether the module was placed in an empty store, by a linker that defines nothing.
    pub open spec fn placed(self, code: Seq<u8>, pre: Option<wasmi::InstancePre>) -> bool {
        &&& is_empty_linker(self.linker)
        &&& is_empty_store(self.empty)
        &&& linker_engine(self.linker) == store_engine(self.empty)
        &&& instantiate_may(self.linker, code, self.empty, self.placed, pre)
    }

    /// Whether an instance of the module came to run.
    pub open spec fn began(self, code: Seq<u8>) -> bool {
        &&& self.placed(code, Some(self.pre))
        &&& start_may(self.pre, self.placed, self.started, Some(self.instance))
    }

    /// Whether `alloc` was called, with the length of the input, and came to a result.
    pub open spec fn asked(self, code: Seq<u8>, input: Seq<u8>, ptr: Option<i32>) -> bool {
        &&& self.began(code)
        &&& exported_memory(self.started, self.instance, "memory"@) == Some(self.memory)
        &&& exported_alloc(self.started, self.instance, "alloc"@) == Some(self.alloc)
        &&& (self.len - input.len()) % 0x1_0000_0000 == 0
        &&& input.len() <= 0x7FFF_FFFF ==> self.len as int == input.len()
        &&& alloc_may_run(self.alloc, self.len, self.started, self.allocated, ptr)
    }

    /// Whether the input was written where `alloc` said, whole.
    pub open spec fn handed(self, code: Seq<u8>, input: Seq<u8>) -> bool {
        &&& self.asked(code, input, Some(self.ptr))
        &&& is_written(
            memory_bytes(self.allocated, self.memory),
            host_address(self.ptr),
            input,
            memory_bytes(self.written, self.memory),
        )
    }

    /// Whether the input could not be written where `alloc` said.
    pub open spec fn misplaced(self, code: Seq<u8>, input: Seq<u8>) -> bool {
        let memory = memory_bytes(self.allocated, self.memory);
        &&& self.asked(code, input, Some(self.ptr))
        &&& memory.len() <= usize::MAX ==> host_address(self.ptr) + input.len() > memory.len()
    }

    /// Whether a hook of the instance was run on the input, where it was written, and
    /// came to a result.
    pub open spec fn ran_hook(
        self,
        code: Seq<u8>,
        name: Seq<char>,
        input: Seq<u8>,
        packed: Option<i64>,
    ) -> bool {
        &&& self.handed(code, input)
        &&& exported_hook(self.started, self.instance, name) matches Some(hook) && hook_may_run(
            hook,
            self.ptr,
            self.len,
            self.written,
            self.finished,
            packed,
        )
    }

    /// Whether the path filter of the instance was run on the path, where it was
    /// written, and came to a result.
    pub open spec fn ran_filter(self, code: Seq<u8>, path: Seq<u8>, answer: Option<i32>) -> bool {
        &&& self.handed(code, path)
        &&& exported_filter(self.started, self.instance, "filter_request"@) matches Some(filter)
            && filter_may_run(
            filter,
            self.ptr,
            self.len,
            self.written,
            self.finished,
            answer,
        )
    }

    /// Whether the call of a hook came to a result as the trace says.
    pub open spec fn explains_hook(
        self,
        code: Seq<u8>,
        name: Seq<char>,
        input: Seq<u8>,
        packed: i64,
        result: Result<Option<Seq<u8>>, PluginError>,
    ) -> bool {
        let hook = exported_hook(self.started, self.instance, name);
        let memory = exported_memory(self.started, self.instance, "memory"@);
        let bytes = memory_bytes(self.finished, self.memory);
        let ptr = packed_ptr(packed) as int;
        let len = packed_len(packed) as int;
        match result {
            Ok(Some(reply)) => {
                &&& self.ran_hook(code, name, input, Some(packed))
                &&& 0 < len <= 1_000_000
                &&& is_read(bytes, ptr, len, reply)
            },
            Ok(None) => self.began(code) && hook is None,
            Err(PluginError::Instantiation) => self.placed(code, None),
            Err(PluginError::Start) => {
                &&& self.placed(code, Some(self.pre))
                &&& start_may(self.pre, self.placed, self.started, None)
            },
            Err(PluginError::NoMemory) => self.began(code) && hook is Some && memory is None,
            Err(PluginError::NoAlloc) => {
                &&& self.began(code)
                &&& hook is Some
                &&& memory is Some
                &&& exported_alloc(self.started, self.instance, "alloc"@) is None
            },
            Err(PluginError::Trapped) => {
                &&& hook is Some
                &&& self.asked(code, input, None) || self.ran_hook(code, name, input, None)
            },
            Err(PluginError::WriteOutOfBounds) => hook is Some && self.misplaced(code, input),
            Err(PluginError::SuspiciousLength(n)) => {
                &&& self.ran_hook(code, name, input, Some(packed))
                &&& n == len
                &&& len == 0 || len > 1_000_000
            },
            Err(PluginError::ReadOutOfBounds) => {
                &&& self.ran_hook(code, name, input, Some(packed))
                &&& bytes.len() <= usize::MAX ==> ptr + len > bytes.len()
            },
            Err(_) => false,
        }
    }

    /// Whether the call of a path filter came to a result as the trace says.
    pub open spec fn explains_filter(
        self,
        code: Seq<u8>,
        path: Seq<u8>,
        answer: i32,
        result: Result<bool, PluginError>,
    ) -> bool {
        let memory = exported_memory(self.started, self.instance, "memory"@);
        let alloc = exported_alloc(self.started, self.instance, "alloc"@);
        match result {
            Ok(refused) => {
                &&& self.ran_filter(code, path, Some(answer))
                &&& refused == (answer != 0)
            },
            Err(PluginError::Instantiation) => self.placed(code, None),
            Err(PluginError::Start) => {
                &&& self.placed(code, Some(self.pre))
                &&& start_may(self.pre, self.placed, self.started, None)
            },
            Err(PluginError::NoMemory) => self.began(code) && memory is None,
            Err(PluginError::NoAlloc) => self.began(code) && memory is Some && alloc is None,
            Err(PluginError::NoFilter) => {
                &&& self.began(code)
                &&& memory is Some
                &&& alloc is Some
                &&& exported_filter(self.started, self.instance, "filter_request"@) is None
            },
            Err(PluginError::Trapped) => self.asked(code, path, None) || self.ran_filter(
                code,
                path,
                None,
            ),
            Err(PluginError::WriteOutOfBounds) => self.misplaced(code, path),
            Err(_) => false,
        }
    }
}

/// How an instance came to run, or did not.
proof fn lemma_beginning(
    code: Seq<u8>,
    store: wasmi::Store<()>,
    begun: Result<wasmi::Instance, PluginError>,
) -> (t: CallTrace)
    requires
        may_begin(code, store, begun),
    ensures
        match begun {
            Ok(instance) => t.began(code) && t.started == store && t.instance == instance,
            Err(PluginError::Instantiation) => t.placed(code, None),
            Err(PluginError::Start) => {
                &&& t.placed(code, Some(t.pre))
                &&& start_may(t.pre, t.placed, t.started, None)
            },
            Err(_) => false,
        },
{
    let (linker, empty, placed, pre) = choose|
        linker: wasmi::Linker<()>,
        empty: wasmi::Store<()>,
        placed: wasmi::Store<()>,
        pre: Option<wasmi::InstancePre>,
    | #[trigger]
        begins(code, linker, empty, placed, pre, store, begun);
    let blank: CallTrace = arbitrary();
    CallTrace {
        linker,
        empty,
        placed,
        pre: if pre is Some {
            pre->0
        } else {
            blank.pre
        },
        started: store,
        instance: if begun is Ok {
            begun->Ok_0
        } else {
            blank.instance
        },
        ..blank
    }
}

/// How an input was handed over, or was not.
proof fn lemma_handing_over(
    begun: CallTrace,
    code: Seq<u8>,
    alloc: wasmi::TypedFunc<i32, i32>,
    memory: wasmi::Memory,
    input: Seq<u8>,
    written: wasmi::Store<()>,
    handed: Result<i32, PluginError>,
) -> (t: CallTrace)
    requires
        begun.began(code),
        exported_memory(begun.started, begun.instance, "memory"@) == Some(memory),
        exported_alloc(begun.started, begun.instance, "alloc"@) == Some(alloc),
        input.len() <= usize::MAX,
        may_hand_over(alloc, memory, begun.started, input, written, handed),
    ensures
        t.started == begun.started,
        t.instance == begun.instance,
        t.memory == memory,
        t.len == told_len(input),
        match handed {
            Ok(ptr) => t.handed(code, input) && t.ptr == ptr && t.written == written,
            Err(PluginError::Trapped) => t.asked(code, input, None),
            Err(PluginError::WriteOutOfBounds) => t.misplaced(code, input),
            Err(_) => false,
        },
{
    let (allocated, ptr) = choose|allocated: wasmi::Store<()>, ptr: Option<i32>| #[trigger]
        hands_over(alloc, memory, begun.started, input, allocated, ptr, written, handed);
    law_a_long_length_wraps_around(input);
    if input.len() <= 0x7FFF_FFFF {
        law_the_whole_length_is_told(input);
    }
    let t = CallTrace {
        memory,
        alloc,
        len: told_len(input),
        allocated,
        ptr: if ptr is Some {
            ptr->0
        } else {
            begun.ptr
        },
        written,
        ..begun
    };
    assert(t.began(code));
    if let Some(p) = ptr {
        let before = memory_bytes(allocated, memory);
        law_an_address_is_itself(p);
        if fits(before, p, input) {
            law_an_input_is_written_whole(before, p, input);
        }
    }
    t
}

/// What the call of a hook comes to has happened: an instance of the module's bytes, in
/// an empty store, was told the length of the whole input and got the whole input where
/// it said; the hook of that name ran on it there; the reply is what then stands in
/// memory at the place that the hook packed. A module without the hook gives nothing,
/// and each failure is what its name says.
pub proof fn law_a_hook_call_is_what_happened(
    code: Seq<u8>,
    name: Seq<char>,
    input: Seq<u8>,
    result: Result<Option<Seq<u8>>, PluginError>,
)
    requires
        input.len() <= usize::MAX,
        hook_may_reply(code, name, input, result),
    ensures
        exists|t: CallTrace, packed: i64| #[trigger]
            t.explains_hook(code, name, input, packed, result),
{
    let (store, begun) = choose|
        store: wasmi::Store<()>,
        begun: Result<wasmi::Instance, PluginError>,
    |
        {
            &&& #[trigger] may_begin(code, store, begun)
            &&& match begun {
                Err(e) => result == Err::<Option<Seq<u8>>, _>(e),
                Ok(instance) => instance_may_reply(store, instance, name, input, result),
            }
        };
    let b = lemma_beginning(code, store, begun);
    if begun is Err {
        assert(b.explains_hook(code, name, input, 0, result));
    } else {
        let instance = begun->Ok_0;
        let hook = exported_hook(store, instance, name);
        let memory = exported_memory(store, instance, "memory"@);
        let alloc = exported_alloc(store, instance, "alloc"@);
        if hook is None || memory is None || alloc is None {
            assert(b.explains_hook(code, name, input, 0, result));
        } else {
            let (written, handed) = choose|
                written: wasmi::Store<()>,
                handed: Result<i32, PluginError>,
            |
                {
                    &&& #[trigger] may_hand_over(alloc->0, memory->0, store, input, written, handed)
                    &&& match handed {
                        Err(e) => result == Err::<Option<Seq<u8>>, _>(e),
                        Ok(ptr) => call_may_reply(hook->0, memory->0, written, ptr, input, result),
                    }
                };
            let h = lemma_handing_over(b, code, alloc->0, memory->0, input, written, handed);
            if handed is Err {
                assert(h.explains_hook(code, name, input, 0, result));
            } else {
                let ptr = handed->Ok_0;
                let (finished, packed) = choose|finished: wasmi::Store<()>, packed: Option<i64>|
                    {
                        &&& #[trigger] hook_may_run(
                            hook->0,
                            ptr,
                            told_len(input),
                            written,
                            finished,
                            packed,
                        )
                        &&& match packed {
                            None => result == Err::<Option<Seq<u8>>, _>(PluginError::Trapped),
                            Some(v) => result == reply_at(memory_bytes(finished, memory->0), v),
                        }
                    };
                let t = CallTrace { finished, ..h };
                assert(t.handed(code, input));
                assert(t.ran_hook(code, name, input, packed));
                if let Some(v) = packed {
                    law_a_packed_reply_is_both_halves(v);
                    let bytes = memory_bytes(finished, memory->0);
                    if bytes.len() <= usize::MAX {
                        law_a_reply_is_read_as_it_stands(bytes, v);
                    }
                    assert(t.explains_hook(code, name, input, v, result));
                } else {
                    assert(t.explains_hook(code, name, input, 0, result));
                }
            }
        }
    }
}

/// What the call of a path filter comes to has happened, as for a hook: the filter was
/// told the length of the whole path and got the whole path, and any answer but zero
/// refuses it.
pub proof fn law_a_filter_call_is_what_happened(
    code: Seq<u8>,
    path: Seq<u8>,
    result: Result<bool, PluginError>,
)
    requires
        path.len() <= usize::MAX,
        filter_may_answer(code, path, result),
    ensures
        exists|t: CallTrace, answer: i32| #[trigger] t.explains_filter(code, path, answer, result),
{
    let (store, begun) = choose|
        store: wasmi::Store<()>,
        begun: Result<wasmi::Instance, PluginError>,
    |
        {
            &&& #[trigger] may_begin(code, store, begun)
            &&& match begun {
                Err(e) => result == Err::<bool, _>(e),
                Ok(instance) => instance_may_answer(store, instance, path, result),
            }
        };
    let b = lemma_beginning(code, store, begun);
    if begun is Err {
        assert(b.explains_filter(code, path, 0, result));
    } else {
        let instance = begun->Ok_0;
        let memory = exported_memory(store, instance, "memory"@);
        let alloc = exported_alloc(store, instance, "alloc"@);
        let filter = exported_filter(store, instance, "filter_request"@);
        if memory is None || alloc is None || filter is None {
            assert(b.explains_filter(code, path, 0, result));
        } else {
            let (written, handed) = choose|
                written: wasmi::Store<()>,
                handed: Result<i32, PluginError>,
            |
                {
                    &&& #[trigger] may_hand_over(alloc->0, memory->0, store, path, written, handed)
                    &&& match handed {
                        Err(e) => result == Err::<bool, _>(e),
                        Ok(ptr) => call_may_answer(filter->0, written, ptr, path, result),
                    }
                };
            let h = lemma_handing_over(b, code, alloc->0, memory->0, path, written, handed);
            if handed is Err {
                assert(h.explains_filter(code, path, 0, result));
            } else {
                let ptr = handed->Ok_0;
                let (finished, answer) = choose|finished: wasmi::Store<()>, answer: Option<i32>|
                    {
                        &&& #[trigger] filter_may_run(
                            filter->0,
                            ptr,
                            told_len(path),
                            written,
                            finished,
                            answer,
                        )
                        &&& match answer {
                            None => result == Err::<bool, _>(PluginError::Trapped),
                            Some(v) => result == Ok::<_, PluginError>(v != 0),
                        }
                    };
                let t = CallTrace { finished, ..h };
                assert(t.handed(code, path));
                assert(t.ran_filter(code, path, answer));
                if let Some(v) = answer {
                    assert(t.explains_filter(code, path, v, result));
                } else {
                    assert(t.explains_filter(code, path, 0, result));
                }
            }
        }
    }
}

} // verus!
