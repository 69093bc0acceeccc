//! What the example plugins make of the JSON that the host writes.
use vstd::prelude::*;
use vstd::utf8::*;

use crate::admin_guard;
use crate::admin_guard::{asks_for_admin, carries_key};
use crate::error_masker;
use crate::error_masker::status_of;
use crate::guest::{
    digit_run, first_byte, first_key_from, key_stands_at, lemma_first_from, lemma_first_from_is,
    lemma_first_key, member_text, occurs_at, quoted, wrapped_value, NO_MEMORY, QUOTE,
};
use crate::headers::{header_values, last_text, lookup, values_under};
use crate::json::{json_char, json_content, json_member, json_members, json_string};
use crate::plugin::{fits, request_json, response_json};
use crate::proxy::{describes, is_request_input, is_response_input};
use crate::string_map::{distinct_keys, lemma_pairs_map_keys, lemma_pairs_map_value, pairs_map};
use crate::text::{decimal, digit, is_digit};

verus! {

/// Whether a character needs no escape in JSON.
pub open spec fn is_plain_char(c: char) -> bool {
    c >= ' ' && c != '"' && c != '\\'
}

/// Whether a text needs no escape in JSON.
pub open spec fn is_plain(text: Seq<char>) -> bool {
    forall|i: int| 0 <= i < text.len() ==> is_plain_char(#[trigger] text[i])
}

/// Whether no byte is a quote or a backslash.
pub open spec fn is_clean(bytes: Seq<u8>) -> bool {
    forall|i: int| 0 <= i < bytes.len() ==> #[trigger] bytes[i] != 34 && bytes[i] != 92
}

/// The UTF-8 bytes of a plain character hold neither quote nor backslash.
proof fn lemma_scalar_clean(c: char)
    requires
        is_plain_char(c),
    ensures
        encode_scalar(c as u32).len() > 0,
        is_clean(encode_scalar(c as u32)),
{
    let v = c as u32;
    let bytes = encode_scalar(v);
    char_is_scalar(c);
    if has_width_1_encoding(v) {
        assert(leading_byte_width_1(v) == v) by (bit_vector)
            requires
                v <= 0x7f,
        ;
    } else if has_width_2_encoding(v) {
        assert(leading_byte_width_2(v) >= 0x80 && last_continuation_byte(v) >= 0x80) by (bit_vector);
    } else if has_width_3_encoding(v) {
        assert(leading_byte_width_3(v) >= 0x80 && second_last_continuation_byte(v) >= 0x80
            && last_continuation_byte(v) >= 0x80) by (bit_vector);
    } else {
        assert(leading_byte_width_4(v) >= 0x80 && third_last_continuation_byte(v) >= 0x80
            && second_last_continuation_byte(v) >= 0x80 && last_continuation_byte(v) >= 0x80)
            by (bit_vector);
    }
}

/// A quote inside a JSON text has a backslash before it; a plain character is
/// written as it is; any other begins with a backslash.
pub(crate) proof fn lemma_json_char(c: char)
    ensures
        json_char(c).len() > 0,
        forall|i: int|
            0 <= i < json_char(c).len() && #[trigger] json_char(c)[i] == 34 ==> i == 1
                && json_char(c)[0] == 92,
        is_plain_char(c) ==> json_char(c) == encode_scalar(c as u32) && is_clean(json_char(c)),
        !is_plain_char(c) ==> json_char(c)[0] == 92,
{
    if is_plain_char(c) {
        lemma_scalar_clean(c);
    } else if c != '"' && c != '\\' {
        let v = c as u32;
        assert(v <= 31);
        assert(v / 16 < 2);
        assert(v % 16 < 16);
    }
}

/// A quote inside a JSON text has a backslash before it. A text that needs no
/// escape is written as it is; one that needs an escape shows a backslash.
proof fn lemma_json_content(text: Seq<char>)
    ensures
        forall|i: int|
            0 <= i < json_content(text).len() && #[trigger] json_content(text)[i] == 34 ==> i > 0
                && json_content(text)[i - 1] == 92,
        is_plain(text) ==> json_content(text) == encode_utf8(text) && is_clean(json_content(text)),
        !is_plain(text) ==> exists|i: int|
            0 <= i < json_content(text).len() && #[trigger] json_content(text)[i] == 92,
    decreases text.len(),
{
    if text.len() > 0 {
        let c = text[0];
        let rest = text.drop_first();
        let head = json_char(c);
        let tail = json_content(rest);
        let whole = json_content(text);
        lemma_json_content(rest);
        lemma_json_char(c);
        if !is_plain_char(c) {
            assert(whole[0] == 92);
        }
        assert forall|i: int| 0 <= i < whole.len() && #[trigger] whole[i] == 34 implies i > 0
            && whole[i - 1] == 92 by {
            if i < head.len() {
                assert(whole[i] == head[i]);
                assert(whole[i - 1] == head[i - 1]);
            } else {
                assert(whole[i] == tail[i - head.len()]);
                assert(whole[i - 1] == tail[i - head.len() - 1]);
            }
        }
        if is_plain(text) {
            assert forall|i: int| 0 <= i < rest.len() implies is_plain_char(#[trigger] rest[i]) by {
                assert(rest[i] == text[i + 1]);
            }
            assert(is_plain_char(text[0]));
            assert forall|i: int| 0 <= i < whole.len() implies #[trigger] whole[i] != 34 && whole[i]
                != 92 by {
                if i < head.len() {
                    assert(whole[i] == head[i]);
                } else {
                    assert(whole[i] == tail[i - head.len()]);
                }
            }
        } else if is_plain_char(c) {
            if is_plain(rest) {
                assert forall|i: int| 0 <= i < text.len() implies is_plain_char(
                    #[trigger] text[i],
                ) by {
                    if i > 0 {
                        assert(text[i] == rest[i - 1]);
                    }
                }
            }
            let i = choose|i: int| 0 <= i < tail.len() && #[trigger] tail[i] == 92;
            assert(whole[i + head.len()] == 92);
        }
    }
}

// ---------------------------------------------------------------------------
// Where a key stands
// ---------------------------------------------------------------------------
/// A key as it stands in JSON: between quotes, with a colon behind.
pub open spec fn key_pattern(key: Seq<u8>) -> Seq<u8> {
    seq![34u8] + key + seq![34u8, 58u8]
}

/// What stands where a key stands.
proof fn lemma_hit(t: Seq<u8>, key: Seq<u8>, i: int)
    requires
        occurs_at(t, key_pattern(key), i),
    ensures
        i + key.len() + 3 <= t.len(),
        t[i] == 34,
        t.subrange(i + 1, i + 1 + key.len()) == key,
        t[i + 1 + key.len()] == 34,
        t[i + 2 + key.len()] == 58,
{
    let p = key_pattern(key);
    let w = t.subrange(i, i + p.len());
    assert(w[0] == p[0]);
    assert(w[(1 + key.len()) as int] == p[(1 + key.len()) as int]);
    assert(w[(2 + key.len()) as int] == p[(2 + key.len()) as int]);
    assert forall|j: int| 0 <= j < key.len() implies t.subrange(i + 1, i + 1 + key.len())[j]
        == key[j] by {
        assert(w[1 + j] == p[1 + j]);
    }
    assert(t.subrange(i + 1, i + 1 + key.len()) =~= key);
}

/// A key that ends within a JSON text ends with it, with a colon behind; unless it
/// stands behind a backslash, the text is the key.
proof fn lemma_hit_in_string(t: Seq<u8>, key: Seq<u8>, i: int, a: int, text: Seq<char>)
    requires
        key.len() > 0,
        is_clean(key),
        occurs_at(t, key_pattern(key), i),
        0 < a,
        a + json_string(text).len() < t.len(),
        t.subrange(a, a + json_string(text).len()) == json_string(text),
        t[a - 1] != key.last(),
        a <= i + 1 + key.len() < a + json_string(text).len(),
    ensures
        i + 2 + key.len() == a + json_string(text).len(),
        t[a + json_string(text).len()] == 58,
        !(i > 0 && t[i - 1] == 92) ==> i == a && encode_utf8(text) == key,
{
    let q = json_string(text);
    let content = json_content(text);
    let c = i + 1 + key.len();
    let b = a + q.len();
    lemma_hit(t, key, i);
    lemma_json_content(text);
    let inner = t.subrange(i + 1, i + 1 + key.len());
    assert(inner[key.len() - 1] == t[c - 1]);
    assert(t[c - 1] == key.last());
    assert(key[key.len() - 1] != 34 && key[key.len() - 1] != 92);
    if c > a && c < b - 1 {
        assert(t.subrange(a, b)[c - a] == q[c - a]);
        assert(q[c - a] == content[c - a - 1]);
        assert(content[c - a - 2] == 92);
        assert(t.subrange(a, b)[c - a - 1] == q[c - a - 1]);
        assert(q[c - a - 1] == content[c - a - 2]);
        assert(false);
    }
    assert(c == b - 1);
    if i < a {
        assert(t.subrange(a, b)[0] == q[0]);
        assert(inner[a - i - 1] == t[a]);
        assert(key[a - i - 1] != 34);
        assert(false);
    } else if i > a {
        assert(t.subrange(a, b)[i - a] == q[i - a]);
        assert(q[i - a] == content[i - a - 1]);
        assert(content[i - a - 2] == 92);
        assert(t.subrange(a, b)[i - a - 1] == q[i - a - 1]);
        assert(q[i - a - 1] == content[i - a - 2]);
    } else {
        assert forall|j: int| 0 <= j < content.len() implies content[j] == key[j] by {
            assert(t.subrange(a, b)[j + 1] == q[j + 1]);
            assert(inner[j] == t[i + 1 + j]);
        }
        assert(content =~= key);
        if !is_plain(text) {
            let x = choose|x: int| 0 <= x < content.len() && #[trigger] content[x] == 92;
            assert(key[x] == 92);
        }
    }
}

/// Where a member of a JSON object begins.
pub open spec fn member_start(pairs: Seq<(Seq<char>, Seq<char>)>, j: int) -> int {
    if j == 0 {
        0
    } else {
        json_members(pairs.subrange(0, j)).len() as int + 1
    }
}

/// The punctuation of JSON objects.
pub(crate) proof fn lemma_punctuation()
    ensures
        encode_utf8(","@) == seq![44u8],
        encode_utf8(":"@) == seq![58u8],
        encode_utf8("{"@) == seq![123u8],
        encode_utf8("}"@) == seq![125u8],
{
    reveal_strlit(",");
    reveal_strlit(":");
    reveal_strlit("{");
    reveal_strlit("}");
    is_ascii_chars_encode_utf8(","@);
    is_ascii_chars_encode_utf8(":"@);
    is_ascii_chars_encode_utf8("{"@);
    is_ascii_chars_encode_utf8("}"@);
    assert(encode_utf8(","@) =~= seq![44u8]);
    assert(encode_utf8(":"@) =~= seq![58u8]);
    assert(encode_utf8("{"@) =~= seq![123u8]);
    assert(encode_utf8("}"@) =~= seq![125u8]);
}

/// The members of an object of at least one pair end with the last of them.
proof fn lemma_last_member(pairs: Seq<(Seq<char>, Seq<char>)>)
    requires
        pairs.len() > 0,
    ensures
        ({
            let n = pairs.len() - 1;
            let start = member_start(pairs, n);
            let m = json_members(pairs);
            &&& m.len() == start + json_member(pairs[n].0, pairs[n].1).len()
            &&& m.subrange(start, m.len() as int) == json_member(pairs[n].0, pairs[n].1)
            &&& n > 0 ==> m[start - 1] == 44
            &&& n > 0 ==> m.subrange(0, start - 1) == json_members(pairs.drop_last())
        }),
{
    lemma_punctuation();
    let n = pairs.len() - 1;
    let m = json_members(pairs);
    assert(pairs.drop_last() =~= pairs.subrange(0, n));
    if n > 0 {
        let front = json_members(pairs.drop_last());
        assert(m == front + seq![44u8] + json_member(pairs[n].0, pairs[n].1));
        assert(m.subrange(0, front.len() as int) =~= front);
        assert(m.subrange(front.len() as int + 1, m.len() as int) =~= json_member(
            pairs[n].0,
            pairs[n].1,
        ));
    } else {
        assert(m.subrange(0, m.len() as int) =~= m);
    }
}

/// A key that ends within the members of an object is the key of one of them, unless
/// it stands behind a backslash.
proof fn lemma_hit_in_members(
    t: Seq<u8>,
    key: Seq<u8>,
    i: int,
    a: int,
    pairs: Seq<(Seq<char>, Seq<char>)>,
)
    requires
        key.len() > 0,
        is_clean(key),
        key.last() != 44,
        key.last() != 58,
        occurs_at(t, key_pattern(key), i),
        0 < a,
        a + json_members(pairs).len() < t.len(),
        t.subrange(a, a + json_members(pairs).len()) == json_members(pairs),
        t[a - 1] != key.last(),
        t[a + json_members(pairs).len()] != 58,
        a <= i + 1 + key.len() < a + json_members(pairs).len(),
        !(i > 0 && t[i - 1] == 92),
    ensures
        exists|j: int|
            0 <= j < pairs.len() && encode_utf8((#[trigger] pairs[j]).0) == key && i == a
                + member_start(pairs, j),
    decreases pairs.len(),
{
    lemma_punctuation();
    lemma_hit(t, key, i);
    let m = json_members(pairs);
    let b = a + m.len();
    let c = i + 1 + key.len();
    assert(pairs.len() > 0);
    lemma_last_member(pairs);
    let n = pairs.len() - 1;
    let front = pairs.drop_last();
    let start = member_start(pairs, n);
    let (name, value) = pairs[n];
    let w = t.subrange(a, b);
    if c < a + start - 1 {
        let fm = json_members(front);
        assert(t.subrange(a, a + fm.len()) =~= m.subrange(0, start - 1));
        assert(t[a + start - 1] == w[start - 1]);
        lemma_hit_in_members(t, key, i, a, front);
        let j = choose|j: int|
            0 <= j < front.len() && encode_utf8((#[trigger] front[j]).0) == key && i == a
                + member_start(front, j);
        assert(pairs[j] == front[j]);
        assert(front.subrange(0, j) =~= pairs.subrange(0, j));
    } else if n > 0 && c == a + start - 1 {
        assert(t[c] == w[start - 1]);
        assert(false);
    } else {
        let k = json_string(name);
        let v = json_string(value);
        let at = a + start;
        let member = json_member(name, value);
        assert(member == k + seq![58u8] + v);
        assert(t.subrange(at, b) =~= m.subrange(start, m.len() as int));
        assert(t.subrange(at, b) == member);
        assert(member.subrange(0, k.len() as int) =~= k);
        assert(member.subrange(k.len() as int + 1, member.len() as int) =~= v);
        assert(t.subrange(at, at + k.len()) =~= k) by {
            assert forall|x: int| 0 <= x < k.len() implies t.subrange(at, at + k.len())[x]
                == k[x] by {
                assert(t.subrange(at, b)[x] == member[x]);
            }
        }
        assert(t[at + k.len()] == 58) by {
            assert(t.subrange(at, b)[k.len() as int] == member[k.len() as int]);
        }
        if n > 0 {
            assert(t[at - 1] == w[start - 1]);
        }
        if c < at + k.len() {
            lemma_hit_in_string(t, key, i, at, name);
            assert(encode_utf8(pairs[n].0) == key && i == a + member_start(pairs, n));
        } else {
            let vat = at + k.len() + 1;
            assert(c != at + k.len());
            assert(t.subrange(vat, vat + v.len()) =~= v) by {
                assert forall|x: int| 0 <= x < v.len() implies t.subrange(vat, vat + v.len())[x]
                    == v[x] by {
                    assert(t.subrange(at, b)[k.len() + 1 + x] == member[k.len() + 1 + x]);
                }
            }
            assert(t[vat - 1] == 58);
            lemma_hit_in_string(t, key, i, vat, value);
            assert(false);
        }
    }
}

/// Where a member of a JSON object stands.
proof fn lemma_member_at(pairs: Seq<(Seq<char>, Seq<char>)>, j: int)
    requires
        0 <= j < pairs.len(),
    ensures
        ({
            let m = json_members(pairs);
            let member = json_member(pairs[j].0, pairs[j].1);
            let start = member_start(pairs, j);
            &&& 0 <= start
            &&& start + member.len() <= m.len()
            &&& m.subrange(start, start + member.len()) == member
            &&& j > 0 ==> start > 0 && m[start - 1] == 44
        }),
    decreases pairs.len(),
{
    lemma_last_member(pairs);
    if j < pairs.len() - 1 {
        let front = pairs.drop_last();
        lemma_member_at(front, j);
        assert(front[j] == pairs[j]);
        assert(front.subrange(0, j) =~= pairs.subrange(0, j));
        let m = json_members(pairs);
        let f = json_members(front);
        let start = member_start(pairs, j);
        let member = json_member(pairs[j].0, pairs[j].1);
        assert(m.subrange(0, f.len() as int) == f);
        assert forall|x: int| 0 <= x < member.len() implies m.subrange(
            start,
            start + member.len(),
        )[x] == member[x] by {
            assert(m.subrange(0, f.len() as int)[start + x] == f[start + x]);
            assert(f.subrange(start, start + member.len())[x] == member[x]);
        }
        assert(m.subrange(start, start + member.len()) =~= member);
        if j > 0 {
            assert(m.subrange(0, f.len() as int)[start - 1] == f[start - 1]);
        }
    }
}

/// The first byte of a kind stands where none stands before it.
proof fn lemma_first_byte_is(bytes: Seq<u8>, b: u8, k: int)
    requires
        0 <= k < bytes.len(),
        bytes[k] == b,
        forall|j: int| 0 <= j < k ==> bytes[j] != b,
    ensures
        first_byte(bytes, b) == Some(k),
{
    let needle = seq![b];
    assert(bytes.subrange(k, k + 1) =~= needle);
    assert forall|j: int| 0 <= j < k implies !occurs_at(bytes, needle, j) by {
        assert(bytes.subrange(j, j + 1)[0] == bytes[j]);
        assert(needle[0] == b);
    }
    lemma_first_from_is(bytes, needle, 0, k);
}

/// A search for a byte finds the byte, with none before it.
proof fn lemma_first_byte(bytes: Seq<u8>, b: u8, k: int)
    requires
        first_byte(bytes, b) == Some(k),
    ensures
        0 <= k < bytes.len(),
        bytes[k] == b,
        forall|j: int| 0 <= j < k ==> bytes[j] != b,
{
    let needle = seq![b];
    lemma_first_from(bytes, needle, 0);
    assert(bytes.subrange(k, k + 1)[0] == needle[0]);
    assert forall|j: int| 0 <= j < k implies bytes[j] != b by {
        if bytes[j] == b {
            assert(bytes.subrange(j, j + 1) =~= needle);
            assert(occurs_at(bytes, needle, j));
        }
    }
}

/// What a plugin reads of a JSON text: the text, if it needs no escape; else
/// something with a backslash or a quote in it.
proof fn lemma_quoted(text: Seq<char>, rest: Seq<u8>)
    ensures
        match quoted(json_string(text) + rest) {
            Some(found) => {
                &&& is_plain(text) ==> found == encode_utf8(text)
                &&& !is_plain(text) ==> !is_clean(found)
            },
            None => false,
        },
{
    let all = json_string(text) + rest;
    let content = json_content(text);
    lemma_json_content(text);
    lemma_first_byte_is(all, QUOTE, 0);
    let tail = all.subrange(1, all.len() as int);
    let n = content.len() as int;
    assert(tail[n] == 34);
    assert forall|j: int| 0 <= j < n implies tail[j] == content[j] by {
        assert(all[j + 1] == json_string(text)[j + 1]);
    }
    if is_plain(text) {
        assert forall|j: int| 0 <= j < n implies tail[j] != 34 by {
            assert(content[j] != 34);
        }
        lemma_first_byte_is(tail, QUOTE, n);
        assert(tail.subrange(0, n) =~= content);
    } else {
        lemma_first_from(tail, seq![QUOTE], 0);
        assert(seq![QUOTE] =~= tail.subrange(n, n + 1));
        assert(occurs_at(tail, seq![QUOTE], n));
        let k = first_byte(tail, QUOTE)->0;
        lemma_first_byte(tail, QUOTE, k);
        let found = tail.subrange(0, k);
        if k < n {
            assert(content[k] == 34);
            assert(found[k - 1] == 92);
        } else {
            let i = choose|i: int| 0 <= i < content.len() && #[trigger] content[i] == 92;
            assert(found[i] == 92);
        }
    }
}

/// A plugin reads a given text without escapes exactly where that text stands.
proof fn lemma_quoted_is(text: Seq<char>, rest: Seq<u8>, expected: Seq<char>)
    requires
        is_plain(expected),
    ensures
        (quoted(json_string(text) + rest) == Some(encode_utf8(expected))) == (text == expected),
{
    lemma_quoted(text, rest);
    lemma_json_content(expected);
    encode_utf8_decode_utf8(text);
    encode_utf8_decode_utf8(expected);
}

// ---------------------------------------------------------------------------
// The request as a plugin reads it
// ---------------------------------------------------------------------------
/// The fixed parts of a request as JSON.
pub(crate) proof fn lemma_request_frame()
    ensures
        encode_utf8("{\"method\":"@) == seq![
            123u8,
            34u8,
            109u8,
            101u8,
            116u8,
            104u8,
            111u8,
            100u8,
            34u8,
            58u8,
        ],
        encode_utf8(",\"path\":"@) == seq![44u8, 34u8, 112u8, 97u8, 116u8, 104u8, 34u8, 58u8],
        encode_utf8(",\"headers\":"@) == seq![
            44u8,
            34u8,
            104u8,
            101u8,
            97u8,
            100u8,
            101u8,
            114u8,
            115u8,
            34u8,
            58u8,
        ],
{
    reveal_strlit("{\"method\":");
    reveal_strlit(",\"path\":");
    reveal_strlit(",\"headers\":");
    is_ascii_chars_encode_utf8("{\"method\":"@);
    is_ascii_chars_encode_utf8(",\"path\":"@);
    is_ascii_chars_encode_utf8(",\"headers\":"@);
    assert(encode_utf8("{\"method\":"@) =~= seq![
        123u8,
        34u8,
        109u8,
        101u8,
        116u8,
        104u8,
        111u8,
        100u8,
        34u8,
        58u8,
    ]);
    assert(encode_utf8(",\"path\":"@) =~= seq![44u8, 34u8, 112u8, 97u8, 116u8, 104u8, 34u8, 58u8]);
    assert(encode_utf8(",\"headers\":"@) =~= seq![
        44u8,
        34u8,
        104u8,
        101u8,
        97u8,
        100u8,
        101u8,
        114u8,
        115u8,
        34u8,
        58u8,
    ]);
}

/// Where the path key stands in a request as JSON.
pub open spec fn path_key_at(method: Seq<char>) -> int {
    json_string(method).len() as int + 11
}

/// Where the first header stands in a request as JSON.
pub open spec fn headers_at(method: Seq<char>, path: Seq<char>) -> int {
    json_string(method).len() as int + json_string(path).len() + 30
}

/// Whether `t` is a request as JSON, part by part.
pub open spec fn request_parts(
    t: Seq<u8>,
    method: Seq<char>,
    path: Seq<char>,
    headers: Seq<(Seq<char>, Seq<char>)>,
) -> bool {
    let m = json_string(method).len() as int;
    let p = json_string(path).len() as int;
    let n = json_members(headers).len() as int;
    &&& t.len() == m + p + n + 32
    &&& t.subrange(0, 10) == encode_utf8("{\"method\":"@)
    &&& t.subrange(10, 10 + m) == json_string(method)
    &&& t.subrange(10 + m, 18 + m) == encode_utf8(",\"path\":"@)
    &&& t.subrange(18 + m, 18 + m + p) == json_string(path)
    &&& t.subrange(18 + m + p, 29 + m + p) == encode_utf8(",\"headers\":"@)
    &&& t[29 + m + p] == 123
    &&& t.subrange(30 + m + p, 30 + m + p + n) == json_members(headers)
    &&& t[30 + m + p + n] == 125
    &&& t[31 + m + p + n] == 125
}

/// Where the parts of a request as JSON stand.
proof fn lemma_request_parts(
    method: Seq<char>,
    path: Seq<char>,
    headers: Seq<(Seq<char>, Seq<char>)>,
)
    ensures
        request_parts(request_json(method, path, headers), method, path, headers),
{
    lemma_request_frame();
    lemma_punctuation();
    let t = request_json(method, path, headers);
    let m = json_string(method).len() as int;
    let p = json_string(path).len() as int;
    let n = json_members(headers).len() as int;
    assert(t.subrange(0, 10) =~= encode_utf8("{\"method\":"@));
    assert(t.subrange(10, 10 + m) =~= json_string(method));
    assert(t.subrange(10 + m, 18 + m) =~= encode_utf8(",\"path\":"@));
    assert(t.subrange(18 + m, 18 + m + p) =~= json_string(path));
    assert(t.subrange(18 + m + p, 29 + m + p) =~= encode_utf8(",\"headers\":"@));
    assert(t.subrange(30 + m + p, 30 + m + p + n) =~= json_members(headers));
}

/// What stands round the quotes in the fixed parts of a request as JSON.
proof fn lemma_frame_quotes(
    t: Seq<u8>,
    method: Seq<char>,
    path: Seq<char>,
    headers: Seq<(Seq<char>, Seq<char>)>,
    c: int,
)
    requires
        request_parts(t, method, path, headers),
        t[c] == 34,
    ensures
        ({
            let m = json_string(method).len() as int;
            let p = json_string(path).len() as int;
            &&& t[9] == 58
            &&& t[10 + m] == 44
            &&& t[17 + m] == 58
            &&& t[18 + m + p] == 44
            &&& 0 <= c < 10 ==> c == 1 || t[c - 1] == 100
            &&& 10 + m <= c < 18 + m ==> t[c - 1] == 44 || (c == 16 + m && t[c - 1] == 104)
            &&& 18 + m + p <= c < 29 + m + p ==> t[c - 1] == 44 || t[c - 1] == 115
        }),
{
    lemma_request_frame();
    let m = json_string(method).len() as int;
    let p = json_string(path).len() as int;
    let a = t.subrange(0, 10);
    let b = t.subrange(10 + m, 18 + m);
    let d = t.subrange(18 + m + p, 29 + m + p);
    assert(a[9] == t[9]);
    assert(b[0] == t[10 + m]);
    assert(b[7] == t[17 + m]);
    assert(d[0] == t[18 + m + p]);
    if 0 <= c < 10 {
        assert(a[c] == t[c]);
        assert(c == 1 || c == 8);
        assert(c == 8 ==> a[7] == t[7]);
    } else if 10 + m <= c < 18 + m {
        assert(b[c - 10 - m] == t[c]);
        assert(c == 11 + m || c == 16 + m);
        assert(c == 16 + m ==> b[5] == t[15 + m]);
    } else if 18 + m + p <= c < 29 + m + p {
        assert(d[c - 18 - m - p] == t[c]);
        assert(c == 19 + m + p || c == 27 + m + p);
        assert(c == 27 + m + p ==> d[8] == t[26 + m + p]);
    }
}

/// Where a key can stand in a request as JSON: as the path key, or as the name
/// of a header.
proof fn lemma_hit_in_request(
    t: Seq<u8>,
    method: Seq<char>,
    path: Seq<char>,
    headers: Seq<(Seq<char>, Seq<char>)>,
    key: Seq<u8>,
    i: int,
)
    requires
        request_parts(t, method, path, headers),
        key.len() > 0,
        is_clean(key),
        key.last() != 44,
        key.last() != 58,
        key.last() != 100,
        key.last() != 115,
        key.last() != 123,
        occurs_at(t, key_pattern(key), i),
        i + 1 + key.len() < headers_at(method, path) || !(i > 0 && t[i - 1] == 92),
    ensures
        (i + key.len() == path_key_at(method) + 4 && key.last() == 104) || (exists|j: int|
            0 <= j < headers.len() && encode_utf8((#[trigger] headers[j]).0) == key && i
                == headers_at(method, path) + member_start(headers, j)),
{
    let m = json_string(method).len() as int;
    let p = json_string(path).len() as int;
    let n = json_members(headers).len() as int;
    let c = i + 1 + key.len();
    lemma_hit(t, key, i);
    lemma_frame_quotes(t, method, path, headers, c);
    assert(t[c - 1] == key.last()) by {
        assert(t.subrange(i + 1, i + 1 + key.len())[key.len() - 1] == t[c - 1]);
    }
    if 10 <= c < 10 + m {
        lemma_hit_in_string(t, key, i, 10, method);
    } else if 18 + m <= c < 18 + m + p {
        lemma_hit_in_string(t, key, i, 18 + m, path);
    } else if 30 + m + p <= c < 30 + m + p + n {
        lemma_hit_in_members(t, key, i, 30 + m + p, headers);
    }
}

/// The texts that `admin_guard` looks for.
proof fn lemma_guard_texts()
    ensures
        encode_utf8("path"@) == seq![112u8, 97u8, 116u8, 104u8],
        encode_utf8("x-api-key"@) == seq![
            120u8,
            45u8,
            97u8,
            112u8,
            105u8,
            45u8,
            107u8,
            101u8,
            121u8,
        ],
        encode_utf8("\"path\":"@) == key_pattern(encode_utf8("path"@)),
        encode_utf8("\"x-api-key\":"@) == key_pattern(encode_utf8("x-api-key"@)),
        is_plain("/admin"@),
        is_plain("secret123"@),
        is_plain("x-api-key"@),
{
    reveal_strlit("path");
    reveal_strlit("x-api-key");
    reveal_strlit("\"path\":");
    reveal_strlit("\"x-api-key\":");
    reveal_strlit("/admin");
    reveal_strlit("secret123");
    is_ascii_chars_encode_utf8("path"@);
    is_ascii_chars_encode_utf8("x-api-key"@);
    is_ascii_chars_encode_utf8("\"path\":"@);
    is_ascii_chars_encode_utf8("\"x-api-key\":"@);
    assert(encode_utf8("path"@) =~= seq![112u8, 97u8, 116u8, 104u8]);
    assert(encode_utf8("x-api-key"@) =~= seq![
        120u8,
        45u8,
        97u8,
        112u8,
        105u8,
        45u8,
        107u8,
        101u8,
        121u8,
    ]);
    assert(encode_utf8("\"path\":"@) =~= key_pattern(encode_utf8("path"@)));
    assert(encode_utf8("\"x-api-key\":"@) =~= key_pattern(encode_utf8("x-api-key"@)));
}

/// `admin_guard` reads the path of every request right: it takes a request for
/// one to `/admin` exactly where the path is `/admin`, whatever the method and
/// the headers hold.
pub proof fn law_guard_reads_the_path(
    method: Seq<char>,
    path: Seq<char>,
    headers: Seq<(Seq<char>, Seq<char>)>,
)
    ensures
        asks_for_admin(request_json(method, path, headers)) == (path == "/admin"@),
{
    let t = request_json(method, path, headers);
    let key = encode_utf8("path"@);
    let pattern = encode_utf8("\"path\":"@);
    let at = path_key_at(method);
    let m = json_string(method).len() as int;
    let p = json_string(path).len() as int;
    lemma_guard_texts();
    lemma_request_frame();
    lemma_request_parts(method, path, headers);
    assert forall|x: int| 0 <= x < 7 implies t.subrange(at, at + 7)[x] == pattern[x] by {
        assert(t.subrange(10 + m, 18 + m)[x + 1] == encode_utf8(",\"path\":"@)[x + 1]);
    }
    assert(t.subrange(at, at + 7) =~= pattern);
    assert(occurs_at(t, pattern, at));
    assert forall|i: int| 0 <= i < at implies !occurs_at(t, pattern, i) by {
        if occurs_at(t, pattern, i) {
            lemma_hit_in_request(t, method, path, headers, key, i);
            let j = choose|j: int|
                0 <= j < headers.len() && encode_utf8((#[trigger] headers[j]).0) == key && i
                    == headers_at(method, path) + member_start(headers, j);
            lemma_member_at(headers, j);
        }
    }
    lemma_first_from_is(t, pattern, 0, at);
    let after = t.subrange(at + 7, t.len() as int);
    let rest = t.subrange(18 + m + p, t.len() as int);
    assert(after =~= t.subrange(18 + m, 18 + m + p) + rest);
    lemma_quoted_is(path, rest, "/admin"@);
}

/// Where the key can stand in a request as JSON: as the name of a header.
proof fn lemma_key_hit(
    t: Seq<u8>,
    method: Seq<char>,
    path: Seq<char>,
    headers: Seq<(Seq<char>, Seq<char>)>,
    i: int,
) -> (j: int)
    requires
        request_parts(t, method, path, headers),
        key_stands_at(t, encode_utf8("\"x-api-key\":"@), i),
    ensures
        0 <= j < headers.len(),
        headers[j].0 == "x-api-key"@,
        i == headers_at(method, path) + member_start(headers, j),
{
    let key = encode_utf8("x-api-key"@);
    lemma_guard_texts();
    lemma_hit_in_request(t, method, path, headers, key, i);
    let j = choose|j: int|
        0 <= j < headers.len() && encode_utf8((#[trigger] headers[j]).0) == key && i == headers_at(
            method,
            path,
        ) + member_start(headers, j);
    encode_utf8_decode_utf8(headers[j].0);
    encode_utf8_decode_utf8("x-api-key"@);
    j
}

/// A member of an object stands where its object stands.
proof fn lemma_member_in(
    t: Seq<u8>,
    start: int,
    headers: Seq<(Seq<char>, Seq<char>)>,
    j: int,
)
    requires
        0 <= start,
        start + json_members(headers).len() <= t.len(),
        t.subrange(start, start + json_members(headers).len()) == json_members(headers),
        0 <= j < headers.len(),
    ensures
        ({
            let member = json_member(headers[j].0, headers[j].1);
            let at = start + member_start(headers, j);
            &&& start <= at
            &&& at + member.len() <= t.len()
            &&& t.subrange(at, at + member.len()) == member
            &&& j > 0 ==> t[at - 1] == 44
            &&& j == 0 ==> at == start
        }),
{
    let inside = json_members(headers);
    let member = json_member(headers[j].0, headers[j].1);
    let s = member_start(headers, j);
    let at = start + s;
    lemma_member_at(headers, j);
    assert forall|x: int| 0 <= x < member.len() implies t.subrange(at, at + member.len())[x]
        == member[x] by {
        assert(inside.subrange(s, s + member.len())[x] == member[x]);
        assert(t.subrange(start, start + inside.len())[s + x] == inside[s + x]);
    }
    assert(t.subrange(at, at + member.len()) =~= member);
    if j > 0 {
        assert(t.subrange(start, start + inside.len())[s - 1] == inside[s - 1]);
    }
}

/// What a plugin reads behind a pattern that stands first where a text follows it.
proof fn lemma_text_behind(
    t: Seq<u8>,
    pattern: Seq<u8>,
    at: int,
    value: Seq<char>,
    expected: Seq<char>,
)
    requires
        0 <= at,
        pattern.len() > 0,
        at + pattern.len() + json_string(value).len() <= t.len(),
        t.subrange(at, at + pattern.len() + json_string(value).len()) == pattern + json_string(
            value,
        ),
        !(at > 0 && t[at - 1] == 92),
        forall|i: int| 0 <= i < at ==> !key_stands_at(t, pattern, i),
        is_plain(expected),
    ensures
        (member_text(t, pattern) == Some(encode_utf8(expected))) == (value == expected),
{
    let text = json_string(value);
    let all = pattern + text;
    let end = at + pattern.len() + text.len();
    assert forall|x: int| 0 <= x < all.len() implies t[at + x] == all[x] by {
        assert(t.subrange(at, end)[x] == all[x]);
    }
    assert(t.subrange(at, at + pattern.len()) =~= pattern);
    assert(key_stands_at(t, pattern, at));
    lemma_first_key(t, pattern, 0);
    let after = t.subrange(at + pattern.len(), t.len() as int);
    let rest = t.subrange(end, t.len() as int);
    assert forall|x: int| 0 <= x < after.len() implies after[x] == (text + rest)[x] by {
        if x < text.len() {
            assert(t[at + (pattern.len() + x)] == all[pattern.len() + x]);
        }
    }
    assert(after =~= text + rest);
    lemma_quoted_is(value, rest, expected);
}

/// A member of the key is the key's pattern and the value.
proof fn lemma_key_member(value: Seq<char>)
    ensures
        json_member("x-api-key"@, value) == encode_utf8("\"x-api-key\":"@) + json_string(value),
{
    lemma_guard_texts();
    lemma_punctuation();
    lemma_json_content("x-api-key"@);
    assert(json_member("x-api-key"@, value) =~= encode_utf8("\"x-api-key\":"@) + json_string(
        value,
    ));
}

/// `admin_guard` reads the key of every request right: it finds the key exactly
/// where the header `x-api-key` is `secret123`, whatever the method, the path
/// and the other headers hold.
pub proof fn law_guard_reads_the_key(
    method: Seq<char>,
    path: Seq<char>,
    headers: Seq<(Seq<char>, Seq<char>)>,
)
    requires
        distinct_keys(headers),
    ensures
        carries_key(request_json(method, path, headers)) == (pairs_map(headers).dom().contains(
            "x-api-key"@,
        ) && pairs_map(headers)["x-api-key"@] == "secret123"@),
{
    lemma_request_parts(method, path, headers);
    lemma_key_is_read(request_json(method, path, headers), method, path, headers);
}

/// What is read of the key in a request as JSON.
proof fn lemma_key_is_read(
    t: Seq<u8>,
    method: Seq<char>,
    path: Seq<char>,
    headers: Seq<(Seq<char>, Seq<char>)>,
)
    requires
        request_parts(t, method, path, headers),
        distinct_keys(headers),
    ensures
        carries_key(t) == (pairs_map(headers).dom().contains("x-api-key"@) && pairs_map(
            headers,
        )["x-api-key"@] == "secret123"@),
{
    let name = "x-api-key"@;
    let pattern = encode_utf8("\"x-api-key\":"@);
    let start = headers_at(method, path);
    lemma_pairs_map_keys(headers, name);
    assert(pattern.len() > 0 && is_plain("secret123"@)) by {
        lemma_guard_texts();
    }
    if exists|j: int| 0 <= j < headers.len() && (#[trigger] headers[j]).0 == name {
        let j = choose|j: int| 0 <= j < headers.len() && (#[trigger] headers[j]).0 == name;
        let value = headers[j].1;
        let at = start + member_start(headers, j);
        lemma_pairs_map_value(headers, j);
        lemma_member_in(t, start, headers, j);
        lemma_key_member(value);
        assert forall|i: int| 0 <= i < at implies !key_stands_at(t, pattern, i) by {
            if key_stands_at(t, pattern, i) {
                let k = lemma_key_hit(t, method, path, headers, i);
                assert(headers[k].0 == headers[j].0);
            }
        }
        lemma_text_behind(t, pattern, at, value, "secret123"@);
    } else {
        lemma_first_key(t, pattern, 0);
        if first_key_from(t, pattern, 0) is Some {
            let k = lemma_key_hit(t, method, path, headers, first_key_from(t, pattern, 0)->0);
            assert(headers[k].0 == name);
        }
    }
}

/// On every request that the proxy hands to the plugins, `admin_guard` blocks
/// exactly where the request asks for `/admin` without the right key; with the key
/// it marks the request; any other it lets through as it is. Of several keys the
/// last counts.
pub proof fn law_guard_decides(
    input: Seq<u8>,
    method: Seq<char>,
    path: Seq<char>,
    headers: hyper::HeaderMap,
)
    requires
        is_request_input(input, method, path, headers),
    ensures
        admin_guard::decision(input) == (if path != "/admin"@ {
            "{\"action\":\"continue\"}"@
        } else if last_text(values_under(header_values(headers), "x-api-key"@)) == Some(
            "secret123"@,
        ) {
            "{\"action\":\"continue\",\"add_headers\":{\"x-plugin-checked\":\"admin_guard\"}}"@
        } else {
            "{\"action\":\"block\",\"status\":403,\"body\":\"missing or invalid api key\"}"@
        }),
{
    let pairs = choose|pairs: Seq<(Seq<char>, Seq<char>)>|
        {
            &&& distinct_keys(pairs)
            &&& describes(pairs_map(pairs), header_values(headers))
            &&& input == #[trigger] request_json(method, path, pairs)
        };
    law_guard_reads_the_path(method, path, pairs);
    law_guard_reads_the_key(method, path, pairs);
    assert(lookup(pairs_map(pairs), "x-api-key"@) == last_text(
        values_under(header_values(headers), "x-api-key"@),
    ));
}

// ---------------------------------------------------------------------------
// The response as a plugin reads it
// ---------------------------------------------------------------------------
/// A number in decimal is made of digits.
proof fn lemma_decimal_ascii(n: nat)
    ensures
        decimal(n).len() > 0,
        is_ascii_chars(decimal(n)),
        forall|i: int| 0 <= i < decimal(n).len() ==> '0' <= #[trigger] decimal(n)[i] <= '9',
    decreases n,
{
    if n >= 10 {
        lemma_decimal_ascii(n / 10);
    }
}

/// What a plugin makes of a number in decimal: digits that stand for it.
pub(crate) proof fn lemma_decimal_bytes(n: nat)
    requires
        n <= 0xFFFF,
    ensures
        encode_utf8(decimal(n)).len() > 0,
        forall|i: int|
            0 <= i < encode_utf8(decimal(n)).len() ==> is_digit(
                #[trigger] encode_utf8(decimal(n))[i],
            ),
        wrapped_value(encode_utf8(decimal(n))) == n,
    decreases n,
{
    let text = decimal(n);
    let bytes = encode_utf8(text);
    lemma_decimal_ascii(n);
    is_ascii_chars_encode_utf8(text);
    assert forall|i: int| 0 <= i < bytes.len() implies is_digit(#[trigger] bytes[i]) by {
        assert('0' <= text[i] <= '9');
    }
    if n < 10 {
        assert(bytes.drop_last() =~= Seq::<u8>::empty());
        assert(text[0] == digit(n));
        assert(wrapped_value(bytes.drop_last()) == 0);
    } else {
        let front = decimal(n / 10);
        lemma_decimal_ascii(n / 10);
        is_ascii_chars_encode_utf8(front);
        lemma_decimal_bytes(n / 10);
        assert forall|i: int| 0 <= i < front.len() implies bytes.drop_last()[i] == encode_utf8(
            front,
        )[i] by {
            assert(text[i] == front[i]);
        }
        assert(bytes.drop_last() =~= encode_utf8(front));
        assert(text.last() == digit(n % 10));
        assert(bytes.last() == text.last() as u8);
    }
}

/// Where a run of digits ends.
proof fn lemma_digit_run(bytes: Seq<u8>, i: int, n: int)
    requires
        0 <= i <= n < bytes.len(),
        forall|j: int| i <= j < n ==> is_digit(#[trigger] bytes[j]),
        !is_digit(bytes[n]),
    ensures
        digit_run(bytes, i) == n,
    decreases n - i,
{
    if i < n {
        assert(is_digit(bytes[i]));
        lemma_digit_run(bytes, i + 1, n);
    }
}

/// `error_masker` reads the status of every response right, whatever the
/// headers hold.
pub proof fn law_masker_reads_the_status(status: u16, headers: Seq<(Seq<char>, Seq<char>)>)
    ensures
        status_of(response_json(status, headers)) == status,
{
    let t = response_json(status, headers);
    let pattern = encode_utf8("\"status\":"@);
    let digits = encode_utf8(decimal(status as nat));
    let n = digits.len() as int;
    reveal_strlit("\"status\":");
    reveal_strlit("{\"status\":");
    is_ascii_chars_encode_utf8("\"status\":"@);
    is_ascii_chars_encode_utf8("{\"status\":"@);
    lemma_request_frame();
    lemma_decimal_bytes(status as nat);
    let head = encode_utf8("{\"status\":"@);
    assert(head =~= seq![123u8] + pattern);
    assert(t.subrange(1, 10) =~= pattern);
    assert(t.subrange(0, 9)[0] == 123);
    assert(pattern[0] == 34);
    assert(!occurs_at(t, pattern, 0));
    lemma_first_from_is(t, pattern, 0, 1);
    let rest = t.subrange(10, t.len() as int);
    assert forall|j: int| 0 <= j < n implies rest[j] == digits[j] by {}
    assert(rest[n] == 44);
    lemma_digit_run(rest, 0, n);
    assert(rest.subrange(0, n) =~= digits);
}

/// On every response that the proxy hands to the plugins, `error_masker` blocks
/// exactly where the status is 500 or more; any other it lets through as it is.
pub proof fn law_masker_decides(input: Seq<u8>, status: u16, headers: hyper::HeaderMap)
    requires
        is_response_input(input, status, headers),
    ensures
        error_masker::decision(input) == (if status >= 500 {
            "{\"action\":\"block\",\"status\":502,\"body\":\"upstream error\"}"@
        } else {
            "{\"action\":\"continue\"}"@
        }),
{
    let pairs = choose|pairs: Seq<(Seq<char>, Seq<char>)>|
        {
            &&& distinct_keys(pairs)
            &&& describes(pairs_map(pairs), header_values(headers))
            &&& input == #[trigger] response_json(status, pairs)
        };
    law_masker_reads_the_status(status, pairs);
}

// ---------------------------------------------------------------------------
// Memory
// ---------------------------------------------------------------------------
/// A plugin that cannot set memory aside is not written to: what it returns is no
/// address at which an input fits.
pub proof fn law_refused_memory_is_not_written(memory: Seq<u8>, input: Seq<u8>)
    requires
        input.len() > 0,
    ensures
        !fits(memory, NO_MEMORY, input),
{
    let none: i32 = NO_MEMORY;
    let top: usize = usize::MAX;
    assert(top <= none as usize) by (bit_vector)
        requires
            none == -1,
    ;
}

} // verus!
