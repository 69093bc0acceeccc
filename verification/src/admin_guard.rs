//! The request hook of `admin_guard`: `/admin` takes the header
//! `x-api-key: secret123`.
use vstd::prelude::*;
use vstd::utf8::*;

use crate::guest::{
    extract_json_string, extract_member_string, law_reserved_bytes_are_free, member_text,
    packed_len, packed_ptr, reply, reserve, reserved, string_after, GuestBuffers,
};
use crate::text::same_bytes;

verus! {

/// How large the input buffer is at first.
pub const IN_LEN: usize = 65536;

/// How large the output buffer is.
pub const OUT_LEN: usize = 512;

/// Whether a request, as JSON, asks for `/admin`.
pub open spec fn asks_for_admin(input: Seq<u8>) -> bool {
    string_after(input, encode_utf8("\"path\":"@)) == Some(encode_utf8("/admin"@))
}

/// Whether a request, as JSON, carries the key: a header `x-api-key` that is
/// `secret123`.
pub open spec fn carries_key(input: Seq<u8>) -> bool {
    member_text(input, encode_utf8("\"x-api-key\":"@)) == Some(encode_utf8("secret123"@))
}

/// The decision on a request, as JSON.
pub open spec fn decision(input: Seq<u8>) -> Seq<char> {
    if !asks_for_admin(input) {
        "{\"action\":\"continue\"}"@
    } else if carries_key(input) {
        "{\"action\":\"continue\",\"add_headers\":{\"x-plugin-checked\":\"admin_guard\"}}"@
    } else {
        "{\"action\":\"block\",\"status\":403,\"body\":\"missing or invalid api key\"}"@
    }
}

/// Sets `len` bytes aside, where the host writes the request. Refused where they do not
/// fit the input buffer.
pub fn allocate(buffers: &GuestBuffers, len: i32) -> (r: i32)
    ensures
        r == reserved(*buffers, len),
        buffers.sound() && r >= 0 ==> forall|address: int|
            r <= address < r + len ==> #[trigger] buffers.is_input(address)
                && !buffers.is_output(address),
{
    proof {
        if buffers.sound() {
            law_reserved_bytes_are_free(*buffers, len);
        }
    }
    reserve(buffers, len)
}

/// Whether a value was found and is the expected one.
fn is_text(found: Option<&[u8]>, expected: &str) -> (r: bool)
    ensures
        r == (found matches Some(text) && text@ == encode_utf8(expected@)),
{
    match found {
        Some(text) => same_bytes(text, expected.as_bytes()),
        None => false,
    }
}

/// The decision on a request, as JSON.
pub fn decide(input: &[u8]) -> (r: &'static str)
    ensures
        r@ == decision(input@),
{
    if !is_text(extract_json_string(input, "\"path\":".as_bytes()), "/admin") {
        "{\"action\":\"continue\"}"
    } else if is_text(extract_member_string(input, "\"x-api-key\":".as_bytes()), "secret123") {
        "{\"action\":\"continue\",\"add_headers\":{\"x-plugin-checked\":\"admin_guard\"}}"
    } else {
        "{\"action\":\"block\",\"status\":403,\"body\":\"missing or invalid api key\"}"
    }
}

/// A decision is ASCII and fits the output buffer.
proof fn lemma_decision_fits(input: Seq<u8>)
    ensures
        encode_utf8(decision(input)).len() <= OUT_LEN,
{
    reveal_strlit("{\"action\":\"continue\"}");
    reveal_strlit("{\"action\":\"continue\",\"add_headers\":{\"x-plugin-checked\":\"admin_guard\"}}");
    reveal_strlit("{\"action\":\"block\",\"status\":403,\"body\":\"missing or invalid api key\"}");
    is_ascii_chars_encode_utf8(decision(input));
}

/// The request hook: reads a request, writes the decision into the output
/// buffer and returns its packed place.
pub fn filter_request(input: &[u8], buffers: &mut GuestBuffers) -> (r: i64)
    requires
        old(buffers).out@.len() == OUT_LEN,
    ensures
        packed_ptr(r) == old(buffers).out_ptr,
        packed_len(r) == encode_utf8(decision(input@)).len(),
        final(buffers).in_ptr == old(buffers).in_ptr,
        final(buffers).in_len == old(buffers).in_len,
        final(buffers).out_ptr == old(buffers).out_ptr,
        final(buffers).out@.len() == OUT_LEN,
        final(buffers).out@.subrange(0, packed_len(r) as int) == encode_utf8(decision(input@)),
{
    let text: &str = decide(input);
    proof {
        lemma_decision_fits(input@);
    }
    let r: i64 = reply(buffers, text.as_bytes());
    assert(buffers.out@.subrange(0, packed_len(r) as int) =~= encode_utf8(text@));
    r
}

} // verus!
