//! What header names and values are, and what is made of them.
use vstd::prelude::*;
use vstd::utf8::*;

use crate::headers::{
    declared_length, header_name, header_texts, is_header_value, is_valid_pair, is_visible,
    last_text, lookup, no_values, values_of, values_under, visible_text, with_headers,
};
use crate::proxy::describes;
use crate::text_laws::{law_numbers_are_read_right, spells};

verus! {

/// Whether every byte is visible ASCII, a space or a tab.
pub open spec fn all_visible(value: Seq<u8>) -> bool {
    forall|i: int| 0 <= i < value.len() ==> (#[trigger] value[i] == 9 || 32 <= value[i] <= 126)
}

/// The text of a header value is the very bytes of the value. A value has a text exactly
/// where every byte is visible ASCII, a space or a tab.
pub proof fn law_a_text_is_its_value(value: Seq<u8>)
    ensures
        visible_text(value) is Some <==> all_visible(value),
        visible_text(value) matches Some(text) ==> encode_utf8(text) == value && text.len()
            == value.len(),
{
    if all_visible(value) {
        assert forall|i: int| 0 <= i < value.len() implies is_visible(#[trigger] value[i]) by {}
    }
    if visible_text(value) is Some {
        let text = visible_text(value)->0;
        assert forall|i: int| 0 <= i < value.len() implies (#[trigger] value[i] == 9 || 32
            <= value[i] <= 126) by {
            assert(is_visible(value[i]));
        }
        assert forall|i: int| 0 <= i < text.len() implies 0 <= (#[trigger] text[i] as nat) < 128
            by {
            assert(value[i] == 9 || 32 <= value[i] <= 126);
        }
        is_ascii_chars_encode_utf8(text);
        assert forall|i: int| 0 <= i < value.len() implies encode_utf8(text)[i] == value[i] by {
            assert(text[i] == value[i] as char);
            assert(value[i] == 9 || 32 <= value[i] <= 126);
        }
        assert(encode_utf8(text) =~= value);
    }
}

/// Whether a text is the last of some values that is text.
pub open spec fn is_last_text(values: Seq<Seq<u8>>, i: int, text: Seq<char>) -> bool {
    &&& 0 <= i < values.len()
    &&& values[i] == encode_utf8(text)
    &&& all_visible(values[i])
    &&& forall|j: int| i < j < values.len() ==> !all_visible(#[trigger] values[j])
}

/// Of several values of a header the last that is text counts, byte for byte; where
/// none is text, none counts.
pub proof fn law_the_last_text_counts(values: Seq<Seq<u8>>)
    ensures
        match last_text(values) {
            Some(text) => exists|i: int| #[trigger] is_last_text(values, i, text),
            None => forall|j: int| 0 <= j < values.len() ==> !all_visible(#[trigger] values[j]),
        },
    decreases values.len(),
{
    if values.len() > 0 {
        let front = values.drop_last();
        law_a_text_is_its_value(values.last());
        if visible_text(values.last()) is Some {
            assert(is_last_text(values, values.len() - 1, last_text(values)->0));
        } else {
            law_the_last_text_counts(front);
            assert(!all_visible(values[values.len() - 1]));
            match last_text(values) {
                Some(text) => {
                    let i = choose|i: int| #[trigger] is_last_text(front, i, text);
                    assert forall|j: int| i < j < values.len() implies !all_visible(
                        #[trigger] values[j],
                    ) by {
                        if j < front.len() {
                            assert(front[j] == values[j]);
                        }
                    }
                    assert(front[i] == values[i]);
                    assert(is_last_text(values, i, text));
                },
                None => {
                    assert forall|j: int| 0 <= j < values.len() implies !all_visible(
                        #[trigger] values[j],
                    ) by {
                        if j < front.len() {
                            assert(front[j] == values[j]);
                        }
                    }
                },
            }
        }
    }
}

/// Whether a map shows what plugins are to see of headers: under each name the last
/// value that is text, byte for byte, and no name that has none.
pub open spec fn shows_last_texts(
    map: Map<Seq<char>, Seq<char>>,
    values: Map<Seq<char>, Seq<Seq<u8>>>,
) -> bool {
    forall|name: Seq<char>|
        #![trigger map.dom().contains(name)]
        if map.dom().contains(name) {
            values.dom().contains(name) && exists|i: int| #[trigger]
                is_last_text(values[name], i, map[name])
        } else {
            values.dom().contains(name) ==> forall|j: int|
                0 <= j < values[name].len() ==> !all_visible(#[trigger] values[name][j])
        }
}

/// A map that describes headers shows the last text of each name and nothing else.
pub proof fn law_headers_are_described_right(
    map: Map<Seq<char>, Seq<char>>,
    values: Map<Seq<char>, Seq<Seq<u8>>>,
)
    requires
        describes(map, values),
    ensures
        shows_last_texts(map, values),
{
    assert forall|name: Seq<char>|
        #![trigger map.dom().contains(name)]
        if map.dom().contains(name) {
            values.dom().contains(name) && exists|i: int| #[trigger]
                is_last_text(values[name], i, map[name])
        } else {
            values.dom().contains(name) ==> forall|j: int|
                0 <= j < values[name].len() ==> !all_visible(#[trigger] values[name][j])
        } by {
        assert(lookup(map, name) == last_text(values_under(values, name)));
        law_the_last_text_counts(values_under(values, name));
    }
}

/// The declared length is the number that the first `content-length` spells; there is
/// none where the header is missing or is no number.
pub proof fn law_the_declared_length_is_the_number(
    values: Map<Seq<char>, Seq<Seq<u8>>>,
    n: u64,
)
    ensures
        (declared_length(values) == Some(n)) == (values.dom().contains("content-length"@)
            && exists|plus: bool, k: nat| #[trigger]
            spells(values["content-length"@][0], plus, k, n as nat)),
{
    law_numbers_are_read_right(values["content-length"@][0], n);
}

/// A header name has visible ASCII characters only, but for delimiters, and at most
/// 65535 of them. It keeps them all, a capital letter as a small one.
pub proof fn law_header_names(text: Seq<char>)
    ensures
        header_name(text) is Some <==> {
            &&& 1 <= text.len() <= 65535
            &&& forall|i: int|
                0 <= i < text.len() ==> {
                    &&& '!' <= #[trigger] text[i] <= '~'
                    &&& text[i] != '"' && text[i] != '(' && text[i] != ')' && text[i] != ','
                    &&& text[i] != '/' && text[i] != ':' && text[i] != ';'
                    &&& text[i] != '<' && text[i] != '=' && text[i] != '>' && text[i] != '?'
                    &&& text[i] != '@' && text[i] != '[' && text[i] != '\\' && text[i] != ']'
                    &&& text[i] != '{' && text[i] != '}'
                }
        },
        header_name(text) matches Some(name) ==> {
            &&& name.len() == text.len()
            &&& forall|i: int|
                0 <= i < text.len() ==> (#[trigger] name[i]) as int == text[i] as int + if 'A'
                    <= text[i] <= 'Z' {
                    32int
                } else {
                    0int
                }
        },
{
}

/// A header value has no control character but the tab.
pub proof fn law_header_values(text: Seq<char>)
    ensures
        is_header_value(text) <==> forall|i: int|
            0 <= i < text.len() ==> {
                let c = (#[trigger] text[i]) as int;
                c == 9 || (c >= 32 && c != 127)
            },
{
}

/// A pair can be set exactly where its name is a header name and its value a header
/// value.
pub proof fn law_valid_pairs(pair: (Seq<char>, Seq<char>))
    ensures
        is_valid_pair(pair) == (header_name(pair.0) is Some && is_header_value(pair.1)),
{
}

/// Nothing is under any name where there are no values.
pub proof fn law_no_values(name: Seq<char>)
    ensures
        !no_values().dom().contains(name),
{
}

/// A list of headers holds under a name what was put there, in order: one more header
/// comes last under its own name and changes no other.
pub proof fn law_a_header_comes_last(
    list: Seq<(Seq<char>, Seq<u8>)>,
    header: (Seq<char>, Seq<u8>),
    name: Seq<char>,
)
    ensures
        values_of(Seq::empty(), name).len() == 0,
        values_of(list.push(header), name) == (if header.0 == name {
            values_of(list, name).push(header.1)
        } else {
            values_of(list, name)
        }),
{
    assert(list.push(header).drop_last() =~= list);
}

/// The texts and bytes of headers are their own, in order.
pub proof fn law_headers_keep_their_texts(list: Seq<(String, Vec<u8>)>, i: int)
    ensures
        header_texts(list).len() == list.len(),
        0 <= i < list.len() ==> header_texts(list)[i] == (list[i].0@, list[i].1@),
{
}

/// The values of a name are those that the header map has, and none where it lacks it.
pub proof fn law_values_under_a_name(
    values: Map<Seq<char>, Seq<Seq<u8>>>,
    name: Seq<char>,
)
    ensures
        values.dom().contains(name) ==> values_under(values, name) == values[name],
        !values.dom().contains(name) ==> values_under(values, name).len() == 0,
{
}

/// Setting no header changes nothing, and setting one more sets it to that value alone,
/// if it is valid.
pub proof fn law_headers_are_set_in_order(
    values: Map<Seq<char>, Seq<Seq<u8>>>,
    pairs: Seq<(Seq<char>, Seq<char>)>,
    pair: (Seq<char>, Seq<char>),
)
    ensures
        with_headers(values, Seq::empty()) == values,
        with_headers(values, pairs.push(pair)) == (if header_name(pair.0) is Some
            && is_header_value(pair.1) {
            with_headers(values, pairs).insert(
                header_name(pair.0)->0,
                seq![encode_utf8(pair.1)],
            )
        } else {
            with_headers(values, pairs)
        }),
{
    assert(pairs.push(pair).drop_last() =~= pairs);
}

} // verus!
