//! HTTP headers: `hyper::HeaderMap` and what the proxy reads and writes there.
use vstd::prelude::*;
use vstd::utf8::*;

use crate::string_map::StringMap;
use crate::text::{parse_u64, parsed_u64};

verus! {

/// `hyper::HeaderMap`, opaque.
#[verifier::external_type_specification]
#[verifier::external_body]
#[verifier::reject_recursive_types(T)]
pub struct ExHeaderMap<T>(hyper::HeaderMap<T>);

/// `hyper::header::HeaderValue`, opaque.
#[verifier::external_type_specification]
#[verifier::external_body]
pub struct ExHeaderValue(hyper::header::HeaderValue);

/// What a header map holds: for each name, in lower case, its values in the
/// order in which they were added.
pub uninterp spec fn header_values(headers: hyper::HeaderMap) -> Map<Seq<char>, Seq<Seq<u8>>>;

/// How many names a header map holds.
pub uninterp spec fn header_count(headers: hyper::HeaderMap) -> nat;

/// What `hyper::HeaderMap::try_insert` can do with a name and a value: take the map
/// from `before` to `after`, done or refused.
pub uninterp spec fn insert_may(
    before: hyper::HeaderMap,
    name: Seq<char>,
    value: Seq<char>,
    after: hyper::HeaderMap,
    done: bool,
) -> bool;

/// How many names a header map can hold before an insertion may fail.
pub const SAFE_HEADER_COUNT: usize = 6554;

/// Whether a character may stand in a header name.
pub open spec fn is_token_char(c: char) -> bool {
    ||| 'a' <= c <= 'z'
    ||| 'A' <= c <= 'Z'
    ||| '0' <= c <= '9'
    ||| c == '!' || c == '#' || c == '$' || c == '%' || c == '&' || c == '\''
    ||| c == '*' || c == '+' || c == '-' || c == '.'
    ||| c == '^' || c == '_' || c == '`' || c == '|' || c == '~'
}

/// An ASCII letter in lower case, any other character as it is.
pub open spec fn lower(c: char) -> char {
    if 'A' <= c <= 'Z' {
        ((c as u32) + 32) as char
    } else {
        c
    }
}

/// The header name that a text stands for, in lower case.
pub open spec fn header_name(text: Seq<char>) -> Option<Seq<char>> {
    if 1 <= text.len() <= 65535 && (forall|i: int|
        0 <= i < text.len() ==> is_token_char(#[trigger] text[i])) {
        Some(text.map_values(|c: char| lower(c)))
    } else {
        None
    }
}

/// Whether a text may be a header value: no control character but the tab.
pub open spec fn is_header_value(text: Seq<char>) -> bool {
    forall|i: int|
        0 <= i < text.len() ==> #[trigger] text[i] == '\t' || (text[i] >= ' ' && text[i]
            != '\u{7f}')
}

/// The values that a list of headers holds under a name, in order.
pub open spec fn values_of(
    list: Seq<(Seq<char>, Seq<u8>)>,
    name: Seq<char>,
) -> Seq<Seq<u8>>
    decreases list.len(),
{
    if list.len() == 0 {
        Seq::empty()
    } else if list.last().0 == name {
        values_of(list.drop_last(), name).push(list.last().1)
    } else {
        values_of(list.drop_last(), name)
    }
}

/// The texts and bytes of a list of headers.
pub open spec fn header_texts(list: Seq<(String, Vec<u8>)>) -> Seq<(Seq<char>, Seq<u8>)> {
    list.map_values(|e: (String, Vec<u8>)| (e.0@, e.1@))
}

/// The values of a header map under a name, none where it lacks the name.
pub open spec fn values_under(
    values: Map<Seq<char>, Seq<Seq<u8>>>,
    name: Seq<char>,
) -> Seq<Seq<u8>> {
    if values.dom().contains(name) {
        values[name]
    } else {
        Seq::empty()
    }
}

/// The values of a header map that holds none.
pub open spec fn no_values() -> Map<Seq<char>, Seq<Seq<u8>>> {
    Map::empty()
}

/// `hyper::HeaderMap::new`: a map without headers.
#[verifier::external_body]
pub(crate) fn no_headers() -> (r: hyper::HeaderMap)
    ensures
        header_values(r) == no_values(),
        header_count(r) == 0,
{
    hyper::HeaderMap::new()
}

/// `hyper::HeaderMap::get`: the first value under a name.
#[verifier::external_body]
pub(crate) fn first_value(headers: &hyper::HeaderMap, name: &str) -> (r: Option<Vec<u8>>)
    requires
        header_name(name@) == Some(name@),
    ensures
        match r {
            Some(v) => header_values(*headers).dom().contains(name@) && v@ == header_values(
                *headers,
            )[name@][0],
            None => !header_values(*headers).dom().contains(name@),
        },
{
    headers.get(name).map(|v| v.as_bytes().to_vec())
}

/// `hyper::HeaderMap::iter`: all headers, the values of a name in the order in
/// which they were added. Nothing is claimed of the order of the names.
#[verifier::external_body]
pub(crate) fn header_list(headers: &hyper::HeaderMap) -> (r: Vec<(String, Vec<u8>)>)
    ensures
        forall|name: Seq<char>|
            #[trigger] values_of(header_texts(r@), name) == values_under(
                header_values(*headers),
                name,
            ),
{
    headers.iter().map(|(n, v)| (n.as_str().to_string(), v.as_bytes().to_vec())).collect()
}

/// `hyper::header::HeaderName::from_bytes`: checks a header name and puts it
/// in lower case.
#[verifier::external_body]
pub(crate) fn parse_header_name(text: &str) -> (r: Option<String>)
    ensures
        match r {
            Some(name) => header_name(text@) == Some(name@),
            None => header_name(text@) is None,
        },
{
    let name = hyper::header::HeaderName::from_bytes(text.as_bytes()).ok()?;
    Some(name.as_str().to_string())
}

/// `hyper::header::HeaderValue::from_str`: whether a text may be a header
/// value.
#[verifier::external_body]
pub(crate) fn accepts_header_value(text: &str) -> (r: bool)
    ensures
        r == is_header_value(text@),
{
    hyper::header::HeaderValue::from_str(text).is_ok()
}

/// `hyper::HeaderMap::try_insert`: sets a name to a single value, in place of
/// those it had. It fails, and changes nothing, when the map cannot grow; a map
/// of few names can.
#[verifier::external_body]
pub(crate) fn insert_header(headers: &mut hyper::HeaderMap, name: &str, value: &str) -> (r: bool)
    requires
        header_name(name@) is Some,
        is_header_value(value@),
    ensures
        insert_may(*old(headers), header_name(name@)->0, value@, *final(headers), r),
        r ==> header_values(*final(headers)) == header_values(*old(headers)).insert(
            header_name(name@)->0,
            seq![encode_utf8(value@)],
        ),
        !r ==> header_values(*final(headers)) == header_values(*old(headers)),
        header_count(*final(headers)) <= header_count(*old(headers)) + 1,
        header_count(*old(headers)) < SAFE_HEADER_COUNT ==> r,
{
    let name = hyper::header::HeaderName::from_bytes(name.as_bytes()).unwrap();
    let value = hyper::header::HeaderValue::from_str(value).unwrap();
    headers.try_insert(name, value).is_ok()
}

/// `hyper::StatusCode::from_u16`: a status code has three digits.
#[verifier::external_body]
pub(crate) fn parse_status(code: u16) -> (r: Option<u16>)
    ensures
        r == (if 100 <= code <= 999 {
            Some(code)
        } else {
            None
        }),
{
    hyper::StatusCode::from_u16(code).ok().map(|s| s.as_u16())
}

// ---------------------------------------------------------------------------
// Reading
// ---------------------------------------------------------------------------
/// The length that a header map declares: the first `content-length` value, if
/// it is a number.
pub open spec fn declared_length(values: Map<Seq<char>, Seq<Seq<u8>>>) -> Option<u64> {
    if values.dom().contains("content-length"@) {
        parsed_u64(values["content-length"@][0])
    } else {
        None
    }
}

/// The length that the headers declare.
pub fn content_length(headers: &hyper::HeaderMap) -> (r: Option<u64>)
    ensures
        r == declared_length(header_values(*headers)),
{
    proof {
        reveal_strlit("content-length");
        assert("content-length"@.map_values(|c: char| lower(c)) =~= "content-length"@);
    }
    match first_value(headers, "content-length") {
        Some(value) => parse_u64(value.as_slice()),
        None => None,
    }
}

/// Whether a byte is visible ASCII, a space or a tab.
pub open spec fn is_visible(b: u8) -> bool {
    b == 9 || 32 <= b < 127
}

/// The text of a header value: `None` where a byte is not visible ASCII, a
/// space or a tab.
pub open spec fn visible_text(value: Seq<u8>) -> Option<Seq<char>> {
    if forall|i: int| 0 <= i < value.len() ==> is_visible(#[trigger] value[i]) {
        Some(value.map_values(|b: u8| b as char))
    } else {
        None
    }
}

/// The text of a header value.
pub fn value_text(value: &[u8]) -> (r: Option<String>)
    ensures
        match r {
            Some(text) => visible_text(value@) == Some(text@),
            None => visible_text(value@) is None,
        },
{
    let mut text = String::new();
    let mut i: usize = 0;
    while i < value.len()
        invariant
            i <= value.len(),
            text@.len() == i,
            forall|j: int| 0 <= j < i ==> is_visible(#[trigger] value@[j]),
            forall|j: int| 0 <= j < i ==> #[trigger] text@[j] == value@[j] as char,
        decreases value.len() - i,
    {
        let b: u8 = value[i];
        if !(b == 9 || (32 <= b && b < 127)) {
            assert(!is_visible(value@[i as int]));
            return None;
        }
        text.push(b as char);
        i += 1;
    }
    assert(text@ =~= value@.map_values(|b: u8| b as char));
    Some(text)
}

/// The last of the values that is text.
pub open spec fn last_text(values: Seq<Seq<u8>>) -> Option<Seq<char>>
    decreases values.len(),
{
    if values.len() == 0 {
        None
    } else if visible_text(values.last()) is Some {
        visible_text(values.last())
    } else {
        last_text(values.drop_last())
    }
}

/// The value of a key, if the map has it.
pub open spec fn lookup(map: Map<Seq<char>, Seq<char>>, key: Seq<char>) -> Option<Seq<char>> {
    if map.dom().contains(key) {
        Some(map[key])
    } else {
        None
    }
}

/// The headers whose values are text; of a name with several such values, the
/// last.
pub fn headers_to_map(headers: &hyper::HeaderMap) -> (r: StringMap)
    ensures
        forall|name: Seq<char>| #[trigger]
            lookup(r@, name) == last_text(values_under(header_values(*headers), name)),
{
    let list = header_list(headers);
    let ghost texts = header_texts(list@);
    let mut map = StringMap::new();
    let mut i: usize = 0;
    assert(texts.subrange(0, 0) =~= Seq::<(Seq<char>, Seq<u8>)>::empty());
    while i < list.len()
        invariant
            i <= list.len(),
            texts == header_texts(list@),
            forall|name: Seq<char>| #[trigger]
                lookup(map@, name) == last_text(values_of(texts.subrange(0, i as int), name)),
        decreases list.len() - i,
    {
        let ghost before = map@;
        let ghost seen = texts.subrange(0, i as int);
        let ghost next = texts.subrange(0, i + 1);
        proof {
            assert(next.drop_last() =~= seen);
            assert(next.last() == (list@[i as int].0@, list@[i as int].1@));
        }
        match value_text(list[i].1.as_slice()) {
            Some(text) => {
                map.insert(list[i].0.clone(), text);
            },
            None => {},
        }
        assert forall|name: Seq<char>| #[trigger]
            lookup(map@, name) == last_text(values_of(next, name)) by {
            assert(lookup(before, name) == last_text(values_of(seen, name)));
            if next.last().0 == name {
                assert(values_of(next, name).drop_last() =~= values_of(seen, name));
            }
        }
        i += 1;
    }
    assert(texts.subrange(0, i as int) =~= texts);
    map
}

// ---------------------------------------------------------------------------
// Writing
// ---------------------------------------------------------------------------
/// The headers after those of a list have been set, one after the other. A pair
/// whose name or value is not valid is passed over.
pub open spec fn with_headers(
    values: Map<Seq<char>, Seq<Seq<u8>>>,
    pairs: Seq<(Seq<char>, Seq<char>)>,
) -> Map<Seq<char>, Seq<Seq<u8>>>
    decreases pairs.len(),
{
    if pairs.len() == 0 {
        values
    } else {
        let before = with_headers(values, pairs.drop_last());
        let (key, value) = pairs.last();
        if is_valid_pair((key, value)) {
            before.insert(header_name(key)->0, seq![encode_utf8(value)])
        } else {
            before
        }
    }
}

/// Whether a pair can be set: its name and its value are valid.
pub open spec fn is_valid_pair(pair: (Seq<char>, Seq<char>)) -> bool {
    header_name(pair.0) is Some && is_header_value(pair.1)
}

/// Whether setting one header can lead from one header map to another. A pair that is
/// not valid is passed over.
pub open spec fn may_set_one(
    before: hyper::HeaderMap,
    pair: (Seq<char>, Seq<char>),
    after: hyper::HeaderMap,
) -> bool {
    if is_valid_pair(pair) {
        insert_may(before, header_name(pair.0)->0, pair.1, after, true)
    } else {
        after == before
    }
}

/// Whether setting the headers of a list, one after the other, can lead through these
/// header maps.
pub open spec fn may_set_through(
    pairs: Seq<(Seq<char>, Seq<char>)>,
    maps: Seq<hyper::HeaderMap>,
) -> bool {
    &&& maps.len() == pairs.len() + 1
    &&& forall|i: int|
        0 <= i < pairs.len() ==> may_set_one(maps[i], #[trigger] pairs[i], maps[i + 1])
}

/// Whether the header map refuses the next header of a list, after those before it
/// have been set through these header maps.
pub open spec fn overflows_after(
    pairs: Seq<(Seq<char>, Seq<char>)>,
    maps: Seq<hyper::HeaderMap>,
    after: hyper::HeaderMap,
) -> bool {
    let k = maps.len() - 1;
    &&& 0 <= k < pairs.len()
    &&& may_set_through(pairs.subrange(0, k), maps)
    &&& is_valid_pair(pairs[k])
    &&& insert_may(maps.last(), header_name(pairs[k].0)->0, pairs[k].1, after, false)
}

/// Whether setting the headers of a list can come to an insertion that the header map
/// refuses.
pub open spec fn may_overflow(
    before: hyper::HeaderMap,
    pairs: Seq<(Seq<char>, Seq<char>)>,
) -> bool {
    exists|maps: Seq<hyper::HeaderMap>, after: hyper::HeaderMap|
        #[trigger] overflows_after(pairs, maps, after) && maps[0] == before
}

/// Sets headers, one after the other; a pair whose name or value is not valid
/// is passed over. `false` when the header map refused one of them, which takes
/// thousands of names.
pub fn set_headers(headers: &mut hyper::HeaderMap, added: &StringMap) -> (r: bool)
    ensures
        r ==> header_values(*final(headers)) == with_headers(
            header_values(*old(headers)),
            added.pairs(),
        ),
        !r ==> may_overflow(*old(headers), added.pairs()),
        header_count(*old(headers)) + added.pairs().len() <= SAFE_HEADER_COUNT ==> r,
{
    let n: usize = added.len();
    let ghost start = *headers;
    let ghost mut maps = seq![start];
    let ghost pairs = added.pairs();
    let mut i: usize = 0;
    assert(pairs.subrange(0, 0) =~= Seq::<(Seq<char>, Seq<char>)>::empty());
    while i < n
        invariant
            i <= n,
            n == pairs.len(),
            pairs == added.pairs(),
            start == *old(headers),
            may_set_through(pairs.subrange(0, i as int), maps),
            maps[0] == start,
            maps.last() == *headers,
            header_values(*headers) == with_headers(
                header_values(start),
                pairs.subrange(0, i as int),
            ),
            header_count(*headers) <= header_count(start) + i,
        decreases n - i,
    {
        let key: &str = added.key(i);
        let value: &str = added.value(i);
        let ghost next = pairs.subrange(0, i + 1);
        proof {
            assert(next.drop_last() =~= pairs.subrange(0, i as int));
            assert(next.last() == (key@, value@));
        }
        if parse_header_name(key).is_some() && accepts_header_value(value) {
            if !insert_header(headers, key, value) {
                assert(overflows_after(pairs, maps, *headers));
                return false;
            }
        }
        proof {
            let so_far = maps;
            maps = so_far.push(*headers);
            assert forall|j: int| 0 <= j < next.len() implies may_set_one(
                maps[j],
                #[trigger] next[j],
                maps[j + 1],
            ) by {
                if j < i {
                    assert(next[j] == pairs.subrange(0, i as int)[j]);
                    assert(may_set_one(so_far[j], pairs.subrange(0, i as int)[j], so_far[j + 1]));
                }
            }
        }
        i += 1;
    }
    assert(pairs.subrange(0, i as int) =~= pairs);
    true
}

} // verus!
