//! That the JSON handed to plugins tells every request and every response apart.
use vstd::prelude::*;
use vstd::utf8::*;

use crate::json::{
    hex_digit, json_char, json_content, json_member, json_members, json_object, json_string,
};
use crate::plugin::{request_json, response_json};
use crate::plugin_laws::{
    is_clean, is_plain_char, lemma_decimal_bytes, lemma_json_char, lemma_punctuation,
    lemma_request_frame,
};
use crate::text::{decimal, is_digit};

verus! {

/// What follows a common beginning is the same.
proof fn lemma_same_rest(head: Seq<u8>, x: Seq<u8>, y: Seq<u8>)
    requires
        head + x == head + y,
    ensures
        x == y,
{
    let all = head + x;
    assert(x =~= all.subrange(head.len() as int, all.len() as int));
    assert(y =~= all.subrange(head.len() as int, all.len() as int));
}

/// No UTF-8 character is the beginning of another.
proof fn lemma_scalar_prefix(a: char, b: char, x: Seq<u8>, y: Seq<u8>)
    requires
        encode_scalar(a as u32) + x == encode_scalar(b as u32) + y,
    ensures
        a == b,
{
    let ea = encode_scalar(a as u32);
    let eb = encode_scalar(b as u32);
    let all = ea + x;
    encode_utf8_first_scalar(seq![a]);
    encode_utf8_first_scalar(seq![b]);
    assert(seq![a].drop_first() =~= Seq::<char>::empty());
    assert(seq![b].drop_first() =~= Seq::<char>::empty());
    assert(encode_utf8(Seq::<char>::empty()) =~= Seq::<u8>::empty());
    assert(encode_utf8(seq![a]) =~= ea);
    assert(encode_utf8(seq![b]) =~= eb);
    char_is_scalar(a);
    char_is_scalar(b);
    assert(all[0] == ea[0]);
    assert(all[0] == eb[0]);
    assert(forall|i: int| 0 <= i < ea.len() ==> all[i] == #[trigger] ea[i]);
    assert(forall|i: int| 0 <= i < eb.len() ==> all[i] == #[trigger] eb[i]);
    assert(ea.len() == eb.len());
    assert(ea =~= eb);
    assert(a as u32 == b as u32);
    char_u32_cast(a, a as u32);
    char_u32_cast(b, b as u32);
}

/// Hexadecimal digits differ.
proof fn lemma_hex_digit(a: u32, b: u32)
    requires
        a < 16,
        b < 16,
        hex_digit(a) == hex_digit(b),
    ensures
        a == b,
{
}

/// No character in JSON is the beginning of another.
proof fn lemma_char_prefix(a: char, b: char, x: Seq<u8>, y: Seq<u8>)
    requires
        json_char(a) + x == json_char(b) + y,
    ensures
        a == b,
{
    let ja = json_char(a);
    let jb = json_char(b);
    let all = ja + x;
    lemma_json_char(a);
    lemma_json_char(b);
    assert(all[0] == ja[0]);
    assert(all[0] == jb[0]);
    if is_plain_char(a) && is_plain_char(b) {
        lemma_scalar_prefix(a, b, x, y);
    } else if is_plain_char(a) {
        assert(is_clean(ja));
        assert(ja[0] != 92);
        assert(false);
    } else if is_plain_char(b) {
        assert(is_clean(jb));
        assert(jb[0] != 92);
        assert(false);
    } else {
        assert(all[1] == ja[1]);
        assert(all[1] == jb[1]);
        if ja[1] == 117 {
            assert(all[4] == ja[4] && all[5] == ja[5]);
            assert(all[4] == jb[4] && all[5] == jb[5]);
            let va = a as u32;
            let vb = b as u32;
            assert(va <= 31 && vb <= 31);
            lemma_hex_digit(va / 16, vb / 16);
            lemma_hex_digit(va % 16, vb % 16);
            assert(va == vb);
        }
    }
}

/// No text in JSON is the beginning of another.
proof fn lemma_content_prefix(a: Seq<char>, b: Seq<char>, x: Seq<u8>, y: Seq<u8>)
    requires
        json_content(a) + (seq![34u8] + x) == json_content(b) + (seq![34u8] + y),
    ensures
        a == b,
        x == y,
    decreases a.len(),
{
    let left = json_content(a) + (seq![34u8] + x);
    let right = json_content(b) + (seq![34u8] + y);
    if a.len() == 0 || b.len() == 0 {
        if a.len() > 0 {
            lemma_json_char(a[0]);
            assert(left[0] == json_char(a[0])[0]);
            assert(right[0] == 34);
            assert(false);
        }
        if b.len() > 0 {
            lemma_json_char(b[0]);
            assert(right[0] == json_char(b[0])[0]);
            assert(left[0] == 34);
            assert(false);
        }
        assert(a =~= b);
        assert(left =~= seq![34u8] + x);
        assert(right =~= seq![34u8] + y);
        lemma_same_rest(seq![34u8], x, y);
    } else {
        let la = json_content(a.drop_first()) + (seq![34u8] + x);
        let lb = json_content(b.drop_first()) + (seq![34u8] + y);
        assert(left =~= json_char(a[0]) + la);
        assert(right =~= json_char(b[0]) + lb);
        lemma_char_prefix(a[0], b[0], la, lb);
        lemma_same_rest(json_char(a[0]), la, lb);
        lemma_content_prefix(a.drop_first(), b.drop_first(), x, y);
        assert(a =~= seq![a[0]] + a.drop_first());
        assert(b =~= seq![b[0]] + b.drop_first());
    }
}

/// A JSON text is not the beginning of another: two that begin alike are one, and
/// so is what follows.
pub proof fn law_json_texts_are_told_apart(
    a: Seq<char>,
    b: Seq<char>,
    x: Seq<u8>,
    y: Seq<u8>,
)
    requires
        json_string(a) + x == json_string(b) + y,
    ensures
        a == b,
        x == y,
{
    let la = json_content(a) + (seq![34u8] + x);
    let lb = json_content(b) + (seq![34u8] + y);
    assert(json_string(a) + x =~= seq![34u8] + la);
    assert(json_string(b) + y =~= seq![34u8] + lb);
    lemma_same_rest(seq![34u8], la, lb);
    lemma_content_prefix(a, b, x, y);
}

/// The members of an object of several pairs begin with the first of them.
proof fn lemma_first_member(pairs: Seq<(Seq<char>, Seq<char>)>)
    requires
        pairs.len() > 1,
    ensures
        json_members(pairs) == json_member(pairs[0].0, pairs[0].1) + (seq![44u8] + json_members(
            pairs.drop_first(),
        )),
    decreases pairs.len(),
{
    lemma_punctuation();
    let front = pairs.drop_last();
    let rest = pairs.drop_first();
    let first = json_member(pairs[0].0, pairs[0].1);
    let last = json_member(pairs.last().0, pairs.last().1);
    if pairs.len() == 2 {
        assert(json_members(front) == first);
        assert(json_members(rest) == last);
        assert(json_members(pairs) =~= first + (seq![44u8] + last));
    } else {
        lemma_first_member(front);
        assert(front.drop_first() =~= rest.drop_last());
        assert(rest.last() == pairs.last());
        let middle = json_members(rest.drop_last());
        assert(json_members(rest) == middle + seq![44u8] + last);
        assert(json_members(pairs) =~= first + (seq![44u8] + (middle + seq![44u8] + last)));
    }
}

/// How the members of an object that is not empty begin and go on.
proof fn lemma_members_begin(pairs: Seq<(Seq<char>, Seq<char>)>, x: Seq<u8>) -> (rest: Seq<u8>)
    requires
        pairs.len() > 0,
    ensures
        rest == (if pairs.len() == 1 {
            seq![125u8] + x
        } else {
            seq![44u8] + (json_members(pairs.drop_first()) + (seq![125u8] + x))
        }),
        json_members(pairs) + (seq![125u8] + x) == json_string(pairs[0].0) + (seq![58u8] + (
        json_string(pairs[0].1) + rest)),
{
    lemma_punctuation();
    let (key, value) = pairs[0];
    let after = json_members(pairs.drop_first());
    let rest = if pairs.len() == 1 {
        seq![125u8] + x
    } else {
        seq![44u8] + (after + (seq![125u8] + x))
    };
    assert(json_member(key, value) == json_string(key) + seq![58u8] + json_string(value));
    if pairs.len() > 1 {
        lemma_first_member(pairs);
    }
    assert(json_members(pairs) + (seq![125u8] + x) =~= json_string(key) + (seq![58u8] + (
    json_string(value) + rest)));
    rest
}

/// The members of an object, closed by a brace, are not the beginning of another's.
proof fn lemma_members_prefix(
    a: Seq<(Seq<char>, Seq<char>)>,
    b: Seq<(Seq<char>, Seq<char>)>,
    x: Seq<u8>,
    y: Seq<u8>,
)
    requires
        json_members(a) + (seq![125u8] + x) == json_members(b) + (seq![125u8] + y),
    ensures
        a == b,
        x == y,
    decreases a.len(),
{
    let left = json_members(a) + (seq![125u8] + x);
    let right = json_members(b) + (seq![125u8] + y);
    if a.len() == 0 || b.len() == 0 {
        if a.len() > 0 {
            let rest = lemma_members_begin(a, x);
            assert(left[0] == 34);
            assert(right[0] == 125);
            assert(false);
        }
        if b.len() > 0 {
            let rest = lemma_members_begin(b, y);
            assert(right[0] == 34);
            assert(left[0] == 125);
            assert(false);
        }
        assert(a =~= b);
        assert(left =~= seq![125u8] + x);
        assert(right =~= seq![125u8] + y);
        lemma_same_rest(seq![125u8], x, y);
    } else {
        let ra = lemma_members_begin(a, x);
        let rb = lemma_members_begin(b, y);
        let va = json_string(a[0].1) + ra;
        let vb = json_string(b[0].1) + rb;
        law_json_texts_are_told_apart(a[0].0, b[0].0, seq![58u8] + va, seq![58u8] + vb);
        lemma_same_rest(seq![58u8], va, vb);
        law_json_texts_are_told_apart(a[0].1, b[0].1, ra, rb);
        assert(ra[0] == rb[0]);
        if a.len() == 1 {
            assert(ra[0] == 125);
            assert(b.len() == 1);
            lemma_same_rest(seq![125u8], x, y);
            assert(a =~= b);
        } else {
            assert(ra[0] == 44);
            assert(b.len() > 1);
            let fa = a.drop_first();
            let fb = b.drop_first();
            lemma_same_rest(
                seq![44u8],
                json_members(fa) + (seq![125u8] + x),
                json_members(fb) + (seq![125u8] + y),
            );
            lemma_members_prefix(fa, fb, x, y);
            assert(a =~= seq![a[0]] + fa);
            assert(b =~= seq![b[0]] + fb);
        }
    }
}

/// Sequences are joined in any order.
proof fn lemma_join(a: Seq<u8>, b: Seq<u8>, c: Seq<u8>)
    ensures
        (a + b) + c == a + (b + c),
{
    assert((a + b) + c =~= a + (b + c));
}

/// What the headers of a request or a response look like, up to the end.
pub open spec fn headers_on(headers: Seq<(Seq<char>, Seq<char>)>) -> Seq<u8> {
    encode_utf8(",\"headers\":"@) + (seq![123u8] + (json_members(headers) + (seq![125u8]
        + seq![125u8])))
}

/// What a request looks like from its path on.
pub open spec fn path_on(path: Seq<char>, headers: Seq<(Seq<char>, Seq<char>)>) -> Seq<u8> {
    encode_utf8(",\"path\":"@) + (json_string(path) + headers_on(headers))
}

/// The headers are joined from their parts.
proof fn lemma_headers_on(start: Seq<u8>, headers: Seq<(Seq<char>, Seq<char>)>)
    ensures
        start + encode_utf8(",\"headers\":"@) + json_object(headers) + encode_utf8("}"@) == start
            + headers_on(headers),
{
    lemma_punctuation();
    let h = encode_utf8(",\"headers\":"@);
    let open = seq![123u8];
    let close = seq![125u8];
    let members = json_members(headers);
    lemma_join(open, members, close);
    lemma_join(start, h, json_object(headers));
    lemma_join(start, h + json_object(headers), close);
    lemma_join(h, json_object(headers), close);
    lemma_join(open, members + close, close);
    lemma_join(members, close, close);
}

/// A request is joined from its parts.
proof fn lemma_request_on(
    method: Seq<char>,
    path: Seq<char>,
    headers: Seq<(Seq<char>, Seq<char>)>,
)
    ensures
        request_json(method, path, headers) == encode_utf8("{\"method\":"@) + (json_string(method)
            + path_on(path, headers)),
{
    let m = encode_utf8("{\"method\":"@);
    let p = encode_utf8(",\"path\":"@);
    let jm = json_string(method);
    let jp = json_string(path);
    let on = headers_on(headers);
    lemma_headers_on(m + jm + p + jp, headers);
    lemma_join(m + jm + p, jp, on);
    lemma_join(m + jm, p, jp + on);
    lemma_join(m, jm, p + (jp + on));
}

/// The same headers up to the end are the same headers.
proof fn lemma_headers_told_apart(
    a: Seq<(Seq<char>, Seq<char>)>,
    b: Seq<(Seq<char>, Seq<char>)>,
)
    requires
        headers_on(a) == headers_on(b),
    ensures
        a == b,
{
    let close = seq![125u8];
    let tail_a = json_members(a) + (close + close);
    let tail_b = json_members(b) + (close + close);
    lemma_same_rest(encode_utf8(",\"headers\":"@), seq![123u8] + tail_a, seq![123u8] + tail_b);
    lemma_same_rest(seq![123u8], tail_a, tail_b);
    lemma_members_prefix(a, b, close, close);
}

/// Two requests that plugins are handed as the same JSON have the same method, the
/// same path and the same headers.
pub proof fn law_requests_are_told_apart(
    method_a: Seq<char>,
    path_a: Seq<char>,
    headers_a: Seq<(Seq<char>, Seq<char>)>,
    method_b: Seq<char>,
    path_b: Seq<char>,
    headers_b: Seq<(Seq<char>, Seq<char>)>,
)
    requires
        request_json(method_a, path_a, headers_a) == request_json(method_b, path_b, headers_b),
    ensures
        method_a == method_b,
        path_a == path_b,
        headers_a == headers_b,
{
    let m = encode_utf8("{\"method\":"@);
    let p = encode_utf8(",\"path\":"@);
    let on_a = headers_on(headers_a);
    let on_b = headers_on(headers_b);
    lemma_request_on(method_a, path_a, headers_a);
    lemma_request_on(method_b, path_b, headers_b);
    lemma_same_rest(
        m,
        json_string(method_a) + path_on(path_a, headers_a),
        json_string(method_b) + path_on(path_b, headers_b),
    );
    law_json_texts_are_told_apart(
        method_a,
        method_b,
        path_on(path_a, headers_a),
        path_on(path_b, headers_b),
    );
    lemma_same_rest(p, json_string(path_a) + on_a, json_string(path_b) + on_b);
    law_json_texts_are_told_apart(path_a, path_b, on_a, on_b);
    lemma_headers_told_apart(headers_a, headers_b);
}

/// Digits that end at the same sign are the same digits.
proof fn lemma_digits_prefix(a: Seq<u8>, b: Seq<u8>, x: Seq<u8>, y: Seq<u8>)
    requires
        forall|i: int| 0 <= i < a.len() ==> is_digit(#[trigger] a[i]),
        forall|i: int| 0 <= i < b.len() ==> is_digit(#[trigger] b[i]),
        x.len() > 0,
        y.len() > 0,
        !is_digit(x[0]),
        !is_digit(y[0]),
        a + x == b + y,
    ensures
        a == b,
        x == y,
{
    let all = a + x;
    assert(all[a.len() as int] == x[0]);
    assert((b + y)[b.len() as int] == y[0]);
    if a.len() < b.len() {
        assert(all[a.len() as int] == b[a.len() as int]);
        assert(is_digit(b[a.len() as int]));
    } else if b.len() < a.len() {
        assert(all[b.len() as int] == a[b.len() as int]);
        assert(is_digit(a[b.len() as int]));
    }
    assert(a =~= all.subrange(0, a.len() as int));
    assert(b =~= all.subrange(0, a.len() as int));
    lemma_same_rest(a, x, y);
}

/// Two responses that plugins are handed as the same JSON have the same status and
/// the same headers.
pub proof fn law_responses_are_told_apart(
    status_a: u16,
    headers_a: Seq<(Seq<char>, Seq<char>)>,
    status_b: u16,
    headers_b: Seq<(Seq<char>, Seq<char>)>,
)
    requires
        response_json(status_a, headers_a) == response_json(status_b, headers_b),
    ensures
        status_a == status_b,
        headers_a == headers_b,
{
    let s = encode_utf8("{\"status\":"@);
    let digits_a = encode_utf8(decimal(status_a as nat));
    let digits_b = encode_utf8(decimal(status_b as nat));
    let on_a = headers_on(headers_a);
    let on_b = headers_on(headers_b);
    lemma_decimal_bytes(status_a as nat);
    lemma_decimal_bytes(status_b as nat);
    lemma_headers_on(s + digits_a, headers_a);
    lemma_headers_on(s + digits_b, headers_b);
    lemma_join(s, digits_a, on_a);
    lemma_join(s, digits_b, on_b);
    lemma_same_rest(s, digits_a + on_a, digits_b + on_b);
    assert(on_a[0] == 44 && on_b[0] == 44) by {
        lemma_request_frame();
    }
    lemma_digits_prefix(digits_a, digits_b, on_a, on_b);
    lemma_headers_told_apart(headers_a, headers_b);
}

} // verus!
