//! The JSON that the host hands to a plugin.
use vstd::prelude::*;
use vstd::utf8::*;

use crate::string_map::{distinct_keys, StringMap};

verus! {

/// A hexadecimal digit, in lower case.
pub open spec fn hex_digit(d: u32) -> u8 {
    if d < 10 {
        (48 + d) as u8
    } else {
        (87 + d) as u8
    }
}

/// A character inside a JSON text: quote, backslash and control characters are
/// escaped, any other is written as it is.
pub open spec fn json_char(c: char) -> Seq<u8> {
    if c == '"' {
        seq![92u8, 34u8]
    } else if c == '\\' {
        seq![92u8, 92u8]
    } else if c == '\u{8}' {
        seq![92u8, 98u8]
    } else if c == '\t' {
        seq![92u8, 116u8]
    } else if c == '\n' {
        seq![92u8, 110u8]
    } else if c == '\u{c}' {
        seq![92u8, 102u8]
    } else if c == '\r' {
        seq![92u8, 114u8]
    } else if c <= '\u{1f}' {
        seq![92u8, 117u8, 48u8, 48u8, hex_digit((c as u32) / 16), hex_digit((c as u32) % 16)]
    } else {
        encode_scalar(c as u32)
    }
}

/// What stands between the quotes of a JSON text.
pub open spec fn json_content(text: Seq<char>) -> Seq<u8>
    decreases text.len(),
{
    if text.len() == 0 {
        Seq::empty()
    } else {
        json_char(text[0]) + json_content(text.drop_first())
    }
}

/// A text as JSON.
pub open spec fn json_string(text: Seq<char>) -> Seq<u8> {
    seq![34u8] + json_content(text) + seq![34u8]
}

/// `serde_json::to_vec` on a text: the text between quotes, with escapes where
/// JSON asks for them.
#[verifier::external_body]
pub(crate) fn string_to_json(text: &str) -> (r: Vec<u8>)
    ensures
        r@ == json_string(text@),
{
    serde_json::to_vec(text).unwrap()
}

/// Appends bytes.
pub(crate) fn push_bytes(out: &mut Vec<u8>, bytes: &[u8])
    ensures
        final(out)@ == old(out)@ + bytes@,
{
    out.extend_from_slice(bytes);
    assert(out@ =~= old(out)@ + bytes@);
}

/// One member of a JSON object.
pub open spec fn json_member(key: Seq<char>, value: Seq<char>) -> Seq<u8> {
    json_string(key) + encode_utf8(":"@) + json_string(value)
}

/// The members of a JSON object, with commas between them.
pub open spec fn json_members(pairs: Seq<(Seq<char>, Seq<char>)>) -> Seq<u8>
    decreases pairs.len(),
{
    if pairs.len() == 0 {
        Seq::empty()
    } else if pairs.len() == 1 {
        json_member(pairs[0].0, pairs[0].1)
    } else {
        json_members(pairs.drop_last()) + encode_utf8(","@) + json_member(
            pairs.last().0,
            pairs.last().1,
        )
    }
}

/// A JSON object of texts.
pub open spec fn json_object(pairs: Seq<(Seq<char>, Seq<char>)>) -> Seq<u8> {
    encode_utf8("{"@) + json_members(pairs) + encode_utf8("}"@)
}

/// Appends a JSON object of texts. No key of it occurs twice.
pub(crate) fn push_object(out: &mut Vec<u8>, map: &StringMap)
    ensures
        final(out)@ == old(out)@ + json_object(map.pairs()),
        distinct_keys(map.pairs()),
{
    let ghost pairs = map.pairs();
    push_bytes(out, "{".as_bytes());
    let ghost start = out@;
    let n: usize = map.len();
    let mut i: usize = 0;
    assert(out@ =~= start + json_members(pairs.subrange(0, 0)));
    while i < n
        invariant
            i <= n,
            n == pairs.len(),
            pairs == map.pairs(),
            distinct_keys(pairs),
            out@ == start + json_members(pairs.subrange(0, i as int)),
        decreases n - i,
    {
        if i > 0 {
            push_bytes(out, ",".as_bytes());
        }
        let key = string_to_json(map.key(i));
        push_bytes(out, key.as_slice());
        push_bytes(out, ":".as_bytes());
        let value = string_to_json(map.value(i));
        push_bytes(out, value.as_slice());
        proof {
            let next = pairs.subrange(0, i + 1);
            assert(next.drop_last() =~= pairs.subrange(0, i as int));
            assert(next.last() == pairs[i as int]);
            assert(out@ =~= start + json_members(next));
        }
        i += 1;
    }
    assert(pairs.subrange(0, i as int) =~= pairs);
    push_bytes(out, "}".as_bytes());
    assert(out@ =~= old(out)@ + json_object(pairs));
}

} // verus!
