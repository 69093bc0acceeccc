//! What plugins find in the JSON that they are handed, byte by byte.
use vstd::prelude::*;
use vstd::utf8::*;

use crate::admin_guard;
use crate::error_masker;
use crate::guest::{
    after_key, digit_run, first_byte, first_in, first_key_from, int_after, key_stands_at,
    lemma_first_from, lemma_first_key, member_text, occurs_at, quoted, reserved, string_after,
    wrapped_value, GuestBuffers,
};
use crate::text::{digits_value, is_digit};
use crate::text_laws::{lemma_digits_spell, spells};

verus! {

// ---------------------------------------------------------------------------
// Searching
// ---------------------------------------------------------------------------
/// Whether bytes stand in others at a position.
pub open spec fn stands(hay: Seq<u8>, needle: Seq<u8>, i: int) -> bool {
    &&& 0 <= i
    &&& i + needle.len() <= hay.len()
    &&& forall|k: int| 0 <= k < needle.len() ==> hay[i + k] == #[trigger] needle[k]
}

/// Whether a position is the first at which bytes stand in others.
pub open spec fn stands_first(hay: Seq<u8>, needle: Seq<u8>, i: int) -> bool {
    &&& stands(hay, needle, i)
    &&& forall|j: int| 0 <= j < i ==> !(#[trigger] stands(hay, needle, j))
}

/// To occur is to stand, byte for byte.
proof fn lemma_occurs(hay: Seq<u8>, needle: Seq<u8>, i: int)
    ensures
        occurs_at(hay, needle, i) == stands(hay, needle, i),
{
    if 0 <= i && i + needle.len() <= hay.len() {
        let window = hay.subrange(i, i + needle.len());
        if stands(hay, needle, i) {
            assert forall|k: int| 0 <= k < window.len() implies window[k] == needle[k] by {
                assert(hay[i + k] == needle[k]);
            }
            assert(window =~= needle);
        }
        if window == needle {
            assert forall|k: int| 0 <= k < needle.len() implies hay[i + k] == #[trigger] needle[k]
                by {
                assert(window[k] == needle[k]);
            }
        }
    }
}

/// A search finds the first place where the bytes stand, and finds none exactly where
/// they stand nowhere or there are none.
pub proof fn law_a_search_finds_the_first_place(hay: Seq<u8>, needle: Seq<u8>)
    ensures
        match first_in(hay, needle) {
            Some(i) => needle.len() > 0 && stands_first(hay, needle, i),
            None => needle.len() == 0 || forall|i: int| !(#[trigger] stands(hay, needle, i)),
        },
{
    lemma_first_from(hay, needle, 0);
    assert forall|i: int| #[trigger] stands(hay, needle, i) == occurs_at(hay, needle, i) by {
        lemma_occurs(hay, needle, i);
    }
}

/// The first place of a byte.
proof fn lemma_first_byte(bytes: Seq<u8>, b: u8)
    ensures
        match first_byte(bytes, b) {
            Some(i) => {
                &&& 0 <= i < bytes.len()
                &&& bytes[i] == b
                &&& forall|j: int| 0 <= j < i ==> #[trigger] bytes[j] != b
            },
            None => forall|j: int| 0 <= j < bytes.len() ==> #[trigger] bytes[j] != b,
        },
{
    let needle = seq![b];
    lemma_first_from(bytes, needle, 0);
    assert forall|j: int| 0 <= j < bytes.len() implies (#[trigger] bytes[j] == b) == occurs_at(
        bytes,
        needle,
        j,
    ) by {
        let window = bytes.subrange(j, j + 1);
        assert(window[0] == bytes[j]);
        assert(needle[0] == b);
        if bytes[j] == b {
            assert(window =~= needle);
        }
    }
}

// ---------------------------------------------------------------------------
// Texts
// ---------------------------------------------------------------------------
/// Whether the first two quotes from a position on stand at these places.
pub open spec fn quotes_at(bytes: Seq<u8>, from: int, open: int, close: int) -> bool {
    &&& from <= open < close < bytes.len()
    &&& bytes[open] == 34
    &&& bytes[close] == 34
    &&& forall|k: int| from <= k < close && k != open ==> #[trigger] bytes[k] != 34
}

/// What stands between the first two quotes from a position on.
proof fn lemma_quoted(bytes: Seq<u8>, from: int)
    requires
        0 <= from <= bytes.len(),
    ensures
        match quoted(bytes.subrange(from, bytes.len() as int)) {
            Some(text) => exists|open: int, close: int|
                #[trigger] quotes_at(bytes, from, open, close) && text == bytes.subrange(
                    open + 1,
                    close,
                ),
            None => forall|open: int, close: int| !(#[trigger] quotes_at(bytes, from, open, close)),
        },
{
    let tail = bytes.subrange(from, bytes.len() as int);
    lemma_first_byte(tail, 34);
    match first_byte(tail, 34) {
        None => {
            assert forall|open: int, close: int| !(#[trigger] quotes_at(bytes, from, open, close))
                by {
                if quotes_at(bytes, from, open, close) {
                    assert(tail[open - from] == 34);
                }
            }
        },
        Some(a) => {
            let rest = tail.subrange(a + 1, tail.len() as int);
            lemma_first_byte(rest, 34);
            match first_byte(rest, 34) {
                Some(b) => {
                    let open = from + a;
                    let close = from + a + 1 + b;
                    assert(tail[a] == bytes[open]);
                    assert(rest[b] == bytes[close]);
                    assert forall|k: int| from <= k < close && k != open implies #[trigger] bytes[k]
                        != 34 by {
                        if k < open {
                            assert(tail[k - from] == bytes[k]);
                        } else {
                            assert(rest[k - open - 1] == bytes[k]);
                        }
                    }
                    assert(quotes_at(bytes, from, open, close));
                    assert(rest.subrange(0, b) =~= bytes.subrange(open + 1, close));
                },
                None => {
                    assert forall|open: int, close: int| !(#[trigger] quotes_at(
                        bytes,
                        from,
                        open,
                        close,
                    )) by {
                        if quotes_at(bytes, from, open, close) {
                            assert(tail[a] == bytes[from + a]);
                            assert(tail[open - from] == 34);
                            assert(open == from + a);
                            assert(rest[close - open - 1] == bytes[close]);
                        }
                    }
                },
            }
        },
    }
}

/// Whether the first two quotes behind the first place of a key stand at these places.
pub open spec fn value_at(buf: Seq<u8>, key: Seq<u8>, i: int, open: int, close: int) -> bool {
    &&& key.len() > 0
    &&& stands_first(buf, key, i)
    &&& quotes_at(buf, i + key.len(), open, close)
}

/// The text of a key is what stands between the first two quotes behind the first place
/// of the key, byte for byte; there is none exactly where the key or the quotes are
/// missing.
pub proof fn law_a_text_stands_behind_its_key(buf: Seq<u8>, key: Seq<u8>)
    ensures
        match string_after(buf, key) {
            Some(text) => exists|i: int, open: int, close: int|
                #[trigger] value_at(buf, key, i, open, close) && text == buf.subrange(
                    open + 1,
                    close,
                ),
            None => forall|i: int, open: int, close: int| !(#[trigger] value_at(
                buf,
                key,
                i,
                open,
                close,
            )),
        },
{
    law_a_search_finds_the_first_place(buf, key);
    match first_in(buf, key) {
        None => {
            assert forall|i: int, open: int, close: int| !(#[trigger] value_at(
                buf,
                key,
                i,
                open,
                close,
            )) by {
                if value_at(buf, key, i, open, close) {
                    assert(stands(buf, key, i));
                }
            }
        },
        Some(i) => {
            let from = i + key.len();
            lemma_quoted(buf, from);
            match string_after(buf, key) {
                Some(text) => {
                    let (open, close) = choose|open: int, close: int|
                        #[trigger] quotes_at(buf, from, open, close) && text == buf.subrange(
                            open + 1,
                            close,
                        );
                    assert(value_at(buf, key, i, open, close));
                },
                None => {
                    assert forall|j: int, open: int, close: int| !(#[trigger] value_at(
                        buf,
                        key,
                        j,
                        open,
                        close,
                    )) by {
                        if value_at(buf, key, j, open, close) {
                            if j < i {
                                assert(!stands(buf, key, j));
                            } else if i < j {
                                assert(!stands(buf, key, i));
                            }
                            assert(quotes_at(buf, from, open, close));
                        }
                    }
                },
            }
        },
    }
}

/// Whether a key stands at a position with no backslash before it.
pub open spec fn stands_free(buf: Seq<u8>, key: Seq<u8>, i: int) -> bool {
    stands(buf, key, i) && (i == 0 || buf[i - 1] != 92)
}

/// Whether the first two quotes behind the first free place of a key stand at these
/// places.
pub open spec fn member_at(buf: Seq<u8>, key: Seq<u8>, i: int, open: int, close: int) -> bool {
    &&& stands_free(buf, key, i)
    &&& forall|j: int| 0 <= j < i ==> !(#[trigger] stands_free(buf, key, j))
    &&& quotes_at(buf, i + key.len(), open, close)
}

/// The text of a member is what stands between the first two quotes behind the first
/// place of its key that has no backslash before it, byte for byte; there is none
/// exactly where such a place or the quotes are missing.
pub proof fn law_a_member_stands_behind_its_key(buf: Seq<u8>, key: Seq<u8>)
    ensures
        match member_text(buf, key) {
            Some(text) => exists|i: int, open: int, close: int|
                #[trigger] member_at(buf, key, i, open, close) && text == buf.subrange(
                    open + 1,
                    close,
                ),
            None => forall|i: int, open: int, close: int| !(#[trigger] member_at(
                buf,
                key,
                i,
                open,
                close,
            )),
        },
{
    lemma_first_key(buf, key, 0);
    assert forall|i: int| #[trigger] stands_free(buf, key, i) == key_stands_at(buf, key, i) by {
        lemma_occurs(buf, key, i);
    }
    match first_key_from(buf, key, 0) {
        None => {
            assert forall|i: int, open: int, close: int| !(#[trigger] member_at(
                buf,
                key,
                i,
                open,
                close,
            )) by {
                if member_at(buf, key, i, open, close) {
                    assert(stands_free(buf, key, i));
                }
            }
        },
        Some(i) => {
            let from = i + key.len();
            assert(stands_free(buf, key, i));
            lemma_quoted(buf, from);
            match member_text(buf, key) {
                Some(text) => {
                    let (open, close) = choose|open: int, close: int|
                        #[trigger] quotes_at(buf, from, open, close) && text == buf.subrange(
                            open + 1,
                            close,
                        );
                    assert(member_at(buf, key, i, open, close));
                },
                None => {
                    assert forall|j: int, open: int, close: int| !(#[trigger] member_at(
                        buf,
                        key,
                        j,
                        open,
                        close,
                    )) by {
                        if member_at(buf, key, j, open, close) {
                            if j < i {
                                assert(!stands_free(buf, key, j));
                            } else if i < j {
                                assert(!stands_free(buf, key, i));
                            }
                            assert(quotes_at(buf, from, open, close));
                        }
                    }
                },
            }
        },
    }
}

// ---------------------------------------------------------------------------
// Numbers
// ---------------------------------------------------------------------------
/// Whether a key stands first at a position, and right behind it so many digits and no
/// more.
pub open spec fn digits_at(buf: Seq<u8>, key: Seq<u8>, i: int, n: int) -> bool {
    let from = i + key.len();
    &&& key.len() > 0
    &&& stands_first(buf, key, i)
    &&& 0 < n <= buf.len() - from
    &&& forall|k: int| from <= k < from + n ==> 48 <= #[trigger] buf[k] <= 57
    &&& from + n < buf.len() ==> !(48 <= buf[from + n] <= 57)
}

/// Whether bytes from one position to another spell a number, after some zeros, and a
/// number of 32 bits is the same around the end of its range.
pub open spec fn is_spelled(
    buf: Seq<u8>,
    from: int,
    to: int,
    k: nat,
    n: nat,
    value: i32,
) -> bool {
    spells(buf.subrange(from, to), false, k, n) && (n - value) % 0x1_0000_0000 == 0
}

/// Whether the digits behind the first place of a key spell a number.
pub open spec fn number_at(
    buf: Seq<u8>,
    key: Seq<u8>,
    i: int,
    n: int,
    k: nat,
    m: nat,
    value: i32,
) -> bool {
    let from = i + key.len();
    digits_at(buf, key, i, n) && is_spelled(buf, from, from + n, k, m, value)
}

/// Where a run of digits ends.
proof fn lemma_digit_run(bytes: Seq<u8>, i: int)
    requires
        0 <= i <= bytes.len(),
    ensures
        i <= digit_run(bytes, i) <= bytes.len(),
        forall|k: int| i <= k < digit_run(bytes, i) ==> 48 <= #[trigger] bytes[k] <= 57,
        digit_run(bytes, i) < bytes.len() ==> !(48 <= bytes[digit_run(bytes, i)] <= 57),
    decreases bytes.len() - i,
{
    if i < bytes.len() && is_digit(bytes[i]) {
        lemma_digit_run(bytes, i + 1);
    }
}

/// A wrapped number differs from the number by whole ranges.
proof fn lemma_wrapped_value(digits: Seq<u8>) -> (q: int)
    requires
        forall|k: int| 0 <= k < digits.len() ==> 48 <= #[trigger] digits[k] <= 57,
    ensures
        digits_value(digits) == wrapped_value(digits) + q * 0x1_0000_0000,
    decreases digits.len(),
{
    if digits.len() == 0 {
        0
    } else {
        let front = digits.drop_last();
        assert forall|k: int| 0 <= k < front.len() implies 48 <= #[trigger] front[k] <= 57 by {
            assert(front[k] == digits[k]);
        }
        assert(48 <= digits[digits.len() - 1] <= 57);
        let q = lemma_wrapped_value(front);
        let w = wrapped_value(front);
        let d = (digits.last() - 48) as i32;
        let m = w.wrapping_mul(10);
        let product = w * 10;
        let a = product / 0x1_0000_0000;
        let m_up: int = if product % 0x1_0000_0000 > 0x7FFF_FFFF {
            1
        } else {
            0
        };
        assert(product == a * 0x1_0000_0000 + product % 0x1_0000_0000);
        assert(product == m + (a + m_up) * 0x1_0000_0000);
        let up: int = if m + d > 0x7FFF_FFFF {
            1
        } else {
            0
        };
        assert(wrapped_value(digits) == m + d - up * 0x1_0000_0000);
        assert(digits_value(digits) == digits_value(front) * 10 + d);
        q * 10 + a + m_up + up
    }
}

/// The number of a key is what the digits right behind the first place of the key
/// spell, around the end of 32 bits; there is none exactly where the key or the digits
/// are missing.
pub proof fn law_a_number_stands_behind_its_key(buf: Seq<u8>, key: Seq<u8>)
    ensures
        int_after(buf, key) is Some ==> exists|i: int, n: int, k: nat, m: nat| #[trigger]
            number_at(buf, key, i, n, k, m, int_after(buf, key)->0),
        int_after(buf, key) is None ==> forall|i: int, n: int| !(#[trigger] digits_at(
            buf,
            key,
            i,
            n,
        )),
{
    law_a_search_finds_the_first_place(buf, key);
    match first_in(buf, key) {
        None => {
            assert(int_after(buf, key) is None);
            assert forall|i: int, n: int| !(#[trigger] digits_at(buf, key, i, n)) by {
                if digits_at(buf, key, i, n) {
                    assert(stands(buf, key, i));
                }
            }
        },
        Some(i) => {
            let from = i + key.len();
            let rest = buf.subrange(from, buf.len() as int);
            assert(after_key(buf, key) == Some(rest));
            lemma_digit_run(rest, 0);
            let n = digit_run(rest, 0);
            if n > 0 {
                let digits = rest.subrange(0, n);
                assert(digits =~= buf.subrange(from, from + n));
                assert forall|k: int| from <= k < from + n implies 48 <= #[trigger] buf[k] <= 57
                    by {
                    assert(rest[k - from] == buf[k]);
                }
                if from + n < buf.len() {
                    assert(rest[n] == buf[from + n]);
                }
                assert(digits_at(buf, key, i, n));
                assert forall|k: int| 0 <= k < digits.len() implies 48 <= #[trigger] digits[k] <= 57
                    && is_digit(digits[k]) by {
                    assert(rest[k] == digits[k]);
                }
                let q = lemma_wrapped_value(digits);
                let k = lemma_digits_spell(digits);
                let m = digits_value(digits);
                assert(digits =~= Seq::<u8>::empty() + crate::text_laws::zeros(k) + encode_utf8(
                    crate::text::decimal(m),
                ));
                let value = wrapped_value(digits);
                assert((m - value) % 0x1_0000_0000 == 0) by (nonlinear_arith)
                    requires
                        m == value + q * 0x1_0000_0000,
                ;
                assert(int_after(buf, key) == Some(value));
                assert(is_spelled(buf, from, from + n, k, m, value));
                let found = int_after(buf, key)->0;
                assert(number_at(buf, key, i, n, k, m, found));
                assert(exists|i: int, n: int, k: nat, m: nat| #[trigger]
                    number_at(buf, key, i, n, k, m, found));
            } else {
                assert(int_after(buf, key) is None);
                assert forall|j: int, c: int| !(#[trigger] digits_at(buf, key, j, c)) by {
                    if digits_at(buf, key, j, c) {
                        if j < i {
                            assert(!stands(buf, key, j));
                        } else if i < j {
                            assert(!stands(buf, key, i));
                        }
                        assert(rest[0] == buf[from]);
                    }
                }
            }
        },
    }
}

// ---------------------------------------------------------------------------
// Decisions
// ---------------------------------------------------------------------------
/// On any input the guard lets every path but `/admin` through, and `/admin` with the
/// key, marked as checked; it blocks `/admin` without the key.
pub proof fn law_the_guard_wants_the_key(input: Seq<u8>)
    ensures
        ({
            let path = string_after(input, encode_utf8("\"path\":"@));
            let key = member_text(input, encode_utf8("\"x-api-key\":"@));
            let admin = path == Some(encode_utf8("/admin"@));
            let known = key == Some(encode_utf8("secret123"@));
            let said = admin_guard::decision(input);
            &&& !admin ==> said == "{\"action\":\"continue\"}"@
            &&& admin && known ==> said
                == "{\"action\":\"continue\",\"add_headers\":{\"x-plugin-checked\":\"admin_guard\"}}"@
            &&& admin && !known ==> said
                == "{\"action\":\"block\",\"status\":403,\"body\":\"missing or invalid api key\"}"@
        }),
{
}

/// On any input the masker blocks a response whose status is 500 or more, and lets any
/// other through, also one without a status.
pub proof fn law_the_masker_hides_failures(input: Seq<u8>)
    ensures
        ({
            let failed = int_after(input, encode_utf8("\"status\":"@)) matches Some(status)
                && status >= 500;
            let said = error_masker::decision(input);
            &&& failed ==> said
                == "{\"action\":\"block\",\"status\":502,\"body\":\"upstream error\"}"@
            &&& !failed ==> said == "{\"action\":\"continue\"}"@
        }),
{
}

/// Bytes are set aside at the start of the input buffer, or refused with an address
/// that no memory has.
pub proof fn law_bytes_are_set_aside_at_the_start(buffers: GuestBuffers, len: i32)
    requires
        buffers.sound(),
    ensures
        0 <= len <= buffers.in_len ==> reserved(buffers, len) == buffers.in_ptr,
        !(0 <= len <= buffers.in_len) ==> reserved(buffers, len) == -1,
{
    let p = buffers.in_ptr;
    assert(p <= 0x7FFF_FFFF ==> p as i32 == p) by (bit_vector);
}

} // verus!
