//! The response hook of `error_masker`: hides what a failing backend says.
use vstd::prelude::*;
use vstd::utf8::*;

use crate::guest::{
    extract_json_int, int_after, law_reserved_bytes_are_free, packed_len, packed_ptr, reply,
    reserve, reserved, GuestBuffers,
};

verus! {

/// How large the input buffer is at first.
pub const IN_LEN: usize = 65536;

/// How large the output buffer is.
pub const OUT_LEN: usize = 256;

/// The status of a response, as JSON; zero where there is none.
pub open spec fn status_of(input: Seq<u8>) -> i32 {
    match int_after(input, encode_utf8("\"status\":"@)) {
        Some(status) => status,
        None => 0,
    }
}

/// The decision on a response, as JSON.
pub open spec fn decision(input: Seq<u8>) -> Seq<char> {
    if status_of(input) >= 500 {
        "{\"action\":\"block\",\"status\":502,\"body\":\"upstream error\"}"@
    } else {
        "{\"action\":\"continue\"}"@
    }
}

/// Sets `len` bytes aside, where the host writes the response. Refused where they do not
/// fit the input buffer.
pub fn allocate(buffers: &GuestBuffers, len: i32) -> (r: i32)
    ensures
        r == reserved(*buffers, len),
        buffers.sound() && r >= 0 ==> forall|address: int|
            r <= address < r + len ==> #[trigger] buffers.is_input(address)
                && !buffers.is_output(address),
{
    proof {
        if buffers.sound() {
            law_reserved_bytes_are_free(*buffers, len);
        }
    }
    reserve(buffers, len)
}

/// The decision on a response, as JSON.
pub fn decide(input: &[u8]) -> (r: &'static str)
    ensures
        r@ == decision(input@),
{
    let status: i32 = match extract_json_int(input, "\"status\":".as_bytes()) {
        Some(status) => status,
        None => 0,
    };
    if status >= 500 {
        "{\"action\":\"block\",\"status\":502,\"body\":\"upstream error\"}"
    } else {
        "{\"action\":\"continue\"}"
    }
}

/// A decision is ASCII and fits the output buffer.
proof fn lemma_decision_fits(input: Seq<u8>)
    ensures
        encode_utf8(decision(input)).len() <= OUT_LEN,
{
    reveal_strlit("{\"action\":\"block\",\"status\":502,\"body\":\"upstream error\"}");
    reveal_strlit("{\"action\":\"continue\"}");
    is_ascii_chars_encode_utf8(decision(input));
}

/// The response hook: reads a response, writes the decision into the output
/// buffer and returns its packed place.
pub fn filter_response(input: &[u8], buffers: &mut GuestBuffers) -> (r: i64)
    requires
        old(buffers).out@.len() == OUT_LEN,
    ensures
        packed_ptr(r) == old(buffers).out_ptr,
        packed_len(r) == encode_utf8(decision(input@)).len(),
        final(buffers).in_ptr == old(buffers).in_ptr,
        final(buffers).in_len == old(buffers).in_len,
        final(buffers).out_ptr == old(buffers).out_ptr,
        final(buffers).out@.len() == OUT_LEN,
        final(buffers).out@.subrange(0, packed_len(r) as int) == encode_utf8(decision(input@)),
{
    let text: &str = decide(input);
    proof {
        lemma_decision_fits(input@);
    }
    let r: i64 = reply(buffers, text.as_bytes());
    assert(buffers.out@.subrange(0, packed_len(r) as int) =~= encode_utf8(text@));
    r
}

} // verus!
