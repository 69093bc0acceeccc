//! What plugins are made of: packing a reply, searching the JSON that the
//! host hands over.
use vstd::prelude::*;

use crate::text::{is_digit, NINE, ZERO};

verus! {

/// The address half of a packed reply.
pub open spec fn packed_ptr(packed: i64) -> u64 {
    (packed as u64) >> 32
}

/// The length half of a packed reply.
pub open spec fn packed_len(packed: i64) -> u64 {
    (packed as u64) & 0xFFFF_FFFF
}

/// Packs the address and the length of a reply into one number: the address in
/// the upper half, the length in the lower.
pub fn pack(ptr: u32, len: u32) -> (r: i64)
    ensures
        packed_ptr(r) == ptr,
        packed_len(r) == len,
{
    let p: u64 = ptr as u64;
    let n: u64 = len as u64;
    let word: u64 = (p << 32) | n;
    let r: i64 = word as i64;
    assert((r as u64) >> 32 == p && (r as u64) & 0xFFFF_FFFF == n) by (bit_vector)
        requires
            word == (p << 32) | n,
            r == word as i64,
            p <= 0xFFFF_FFFF,
            n <= 0xFFFF_FFFF,
    ;
    r
}

/// The address and the length that a packed reply holds.
pub fn unpack(packed: i64) -> (r: (u32, u32))
    ensures
        r.0 == packed_ptr(packed),
        r.1 == packed_len(packed),
{
    let word: u64 = packed as u64;
    assert(word >> 32 <= 0xFFFF_FFFF && word & 0xFFFF_FFFF <= 0xFFFF_FFFF) by (bit_vector);
    ((word >> 32) as u32, (word & 0xFFFF_FFFF) as u32)
}

/// A packed reply is the only number that holds its address and its length.
pub proof fn law_packing_is_unambiguous(a: i64, b: i64)
    requires
        packed_ptr(a) == packed_ptr(b),
        packed_len(a) == packed_len(b),
    ensures
        a == b,
{
    assert(a == b) by (bit_vector)
        requires
            (a as u64) >> 32 == (b as u64) >> 32,
            (a as u64) & 0xFFFF_FFFF == (b as u64) & 0xFFFF_FFFF,
    ;
}

/// Whether `needle` stands in `hay` at a position.
pub open spec fn occurs_at(hay: Seq<u8>, needle: Seq<u8>, i: int) -> bool {
    0 <= i && i + needle.len() <= hay.len() && hay.subrange(i, i + needle.len()) == needle
}

/// The first position from `i` on at which `needle` stands in `hay`.
pub open spec fn first_from(hay: Seq<u8>, needle: Seq<u8>, i: int) -> Option<int>
    decreases hay.len() - i + 1,
{
    if i < 0 || i + needle.len() > hay.len() {
        None
    } else if occurs_at(hay, needle, i) {
        Some(i)
    } else {
        first_from(hay, needle, i + 1)
    }
}

/// The first position at which `needle` stands in `hay`. An empty needle is
/// found nowhere.
pub open spec fn first_in(hay: Seq<u8>, needle: Seq<u8>) -> Option<int> {
    if needle.len() == 0 {
        None
    } else {
        first_from(hay, needle, 0)
    }
}

/// A search finds a place where the needle stands, with none before it.
pub proof fn lemma_first_from(hay: Seq<u8>, needle: Seq<u8>, i: int)
    requires
        0 <= i,
    ensures
        match first_from(hay, needle, i) {
            Some(k) => i <= k && occurs_at(hay, needle, k) && forall|j: int|
                i <= j < k ==> !occurs_at(hay, needle, j),
            None => forall|j: int| i <= j ==> !occurs_at(hay, needle, j),
        },
    decreases hay.len() - i + 1,
{
    if i + needle.len() <= hay.len() && !occurs_at(hay, needle, i) {
        lemma_first_from(hay, needle, i + 1);
    }
}

/// A search finds the place where the needle stands with none before it.
pub proof fn lemma_first_from_is(hay: Seq<u8>, needle: Seq<u8>, i: int, k: int)
    requires
        0 <= i <= k,
        occurs_at(hay, needle, k),
        forall|j: int| i <= j < k ==> !occurs_at(hay, needle, j),
    ensures
        first_from(hay, needle, i) == Some(k),
{
    lemma_first_from(hay, needle, i);
}

/// Whether `needle` stands in `hay` at a position.
fn matches_at(hay: &[u8], needle: &[u8], at: usize) -> (r: bool)
    requires
        at + needle@.len() <= hay@.len(),
    ensures
        r == occurs_at(hay@, needle@, at as int),
{
    let ghost window = hay@.subrange(at as int, at + needle@.len());
    let end: usize = hay.len();
    let mut k: usize = 0;
    while k < needle.len()
        invariant
            k <= needle.len(),
            end == hay@.len(),
            at + needle@.len() <= end,
            window == hay@.subrange(at as int, at + needle@.len()),
            forall|j: int| 0 <= j < k ==> window[j] == needle@[j],
        decreases needle.len() - k,
    {
        if hay[at + k] != needle[k] {
            assert(window[k as int] != needle@[k as int]);
            return false;
        }
        k += 1;
    }
    assert(window =~= needle@);
    true
}

/// The first position at which `needle` stands in `hay`. An empty needle is
/// found nowhere.
pub fn find(hay: &[u8], needle: &[u8]) -> (r: Option<usize>)
    ensures
        match r {
            Some(i) => first_in(hay@, needle@) == Some(i as int) && i + needle@.len()
                <= hay@.len(),
            None => first_in(hay@, needle@) is None,
        },
{
    if needle.len() == 0 || needle.len() > hay.len() {
        return None;
    }
    let last: usize = hay.len() - needle.len();
    let mut i: usize = 0;
    loop
        invariant
            0 < needle@.len() <= hay@.len(),
            last == hay@.len() - needle@.len(),
            i <= last,
            first_in(hay@, needle@) == first_from(hay@, needle@, i as int),
        decreases last - i,
    {
        if matches_at(hay, needle, i) {
            return Some(i);
        }
        if i == last {
            assert(first_from(hay@, needle@, i + 1) is None);
            return None;
        }
        i += 1;
    }
}

/// The quote character.
pub const QUOTE: u8 = 34;

/// The first place of a byte.
pub open spec fn first_byte(bytes: Seq<u8>, b: u8) -> Option<int> {
    first_from(bytes, seq![b], 0)
}

/// The text between the first two quotes.
pub open spec fn quoted(bytes: Seq<u8>) -> Option<Seq<u8>> {
    match first_byte(bytes, QUOTE) {
        Some(open) => {
            let rest = bytes.subrange(open + 1, bytes.len() as int);
            match first_byte(rest, QUOTE) {
                Some(close) => Some(rest.subrange(0, close)),
                None => None,
            }
        },
        None => None,
    }
}

/// What follows the first occurrence of a key.
pub open spec fn after_key(buf: Seq<u8>, key: Seq<u8>) -> Option<Seq<u8>> {
    match first_in(buf, key) {
        Some(i) => Some(buf.subrange(i + key.len(), buf.len() as int)),
        None => None,
    }
}

/// The text between the first two quotes after the first occurrence of a key.
pub open spec fn string_after(buf: Seq<u8>, key: Seq<u8>) -> Option<Seq<u8>> {
    match after_key(buf, key) {
        Some(rest) => quoted(rest),
        None => None,
    }
}

/// The first place of a byte.
fn position(bytes: &[u8], b: u8) -> (r: Option<usize>)
    ensures
        match r {
            Some(i) => first_byte(bytes@, b) == Some(i as int) && i < bytes@.len(),
            None => first_byte(bytes@, b) is None,
        },
{
    let ghost needle: Seq<u8> = seq![b];
    let mut i: usize = 0;
    while i < bytes.len()
        invariant
            i <= bytes.len(),
            needle == seq![b],
            first_byte(bytes@, b) == first_from(bytes@, needle, i as int),
        decreases bytes.len() - i,
    {
        assert(bytes@.subrange(i as int, i + 1) =~= seq![bytes@[i as int]]);
        if bytes[i] == b {
            return Some(i);
        }
        assert(needle[0] == b);
        assert(bytes@.subrange(i as int, i + 1)[0] != b);
        i += 1;
    }
    None
}

/// The text between the first two quotes.
fn quoted_text(bytes: &[u8]) -> (r: Option<&[u8]>)
    ensures
        match r {
            Some(text) => quoted(bytes@) == Some(text@),
            None => quoted(bytes@) is None,
        },
{
    let open: usize = match position(bytes, QUOTE) {
        Some(i) => i,
        None => {
            return None;
        },
    };
    let end: usize = bytes.len();
    let rest: &[u8] = vstd::slice::slice_subrange(bytes, open + 1, end);
    match position(rest, QUOTE) {
        Some(close) => Some(vstd::slice::slice_subrange(rest, 0, close)),
        None => None,
    }
}

/// The text between the first two quotes after the first occurrence of a key:
/// the value of a simple `"key":"value"`. Escapes are not undone.
pub fn extract_json_string<'a>(buf: &'a [u8], key: &[u8]) -> (r: Option<&'a [u8]>)
    ensures
        match r {
            Some(text) => string_after(buf@, key@) == Some(text@),
            None => string_after(buf@, key@) is None,
        },
{
    match find(buf, key) {
        Some(i) => {
            let end: usize = buf.len();
            quoted_text(vstd::slice::slice_subrange(buf, i + key.len(), end))
        },
        None => None,
    }
}

/// The backslash character.
pub const BACKSLASH: u8 = 92;

/// Whether a key stands at a position, outside of any text: inside a JSON text every
/// quote stands behind a backslash.
pub open spec fn key_stands_at(buf: Seq<u8>, key: Seq<u8>, i: int) -> bool {
    occurs_at(buf, key, i) && !(i > 0 && buf[i - 1] == BACKSLASH)
}

/// The first position from `i` on at which a key stands outside of any text.
pub open spec fn first_key_from(buf: Seq<u8>, key: Seq<u8>, i: int) -> Option<int>
    decreases buf.len() - i + 1,
{
    if i < 0 || i + key.len() > buf.len() {
        None
    } else if key_stands_at(buf, key, i) {
        Some(i)
    } else {
        first_key_from(buf, key, i + 1)
    }
}

/// The text between the first two quotes after the first place at which a key stands
/// outside of any text.
pub open spec fn member_text(buf: Seq<u8>, key: Seq<u8>) -> Option<Seq<u8>> {
    match first_key_from(buf, key, 0) {
        Some(i) => quoted(buf.subrange(i + key.len(), buf.len() as int)),
        None => None,
    }
}

/// A search finds a place where the key stands, with none before it.
pub proof fn lemma_first_key(buf: Seq<u8>, key: Seq<u8>, i: int)
    requires
        0 <= i,
    ensures
        match first_key_from(buf, key, i) {
            Some(k) => i <= k && key_stands_at(buf, key, k) && forall|j: int|
                i <= j < k ==> !key_stands_at(buf, key, j),
            None => forall|j: int| i <= j ==> !key_stands_at(buf, key, j),
        },
    decreases buf.len() - i + 1,
{
    if i + key.len() <= buf.len() && !key_stands_at(buf, key, i) {
        lemma_first_key(buf, key, i + 1);
    }
}

/// The value of a simple `"key":"value"` whose key stands outside of any text: the
/// text between the first two quotes behind it. Escapes are not undone.
pub fn extract_member_string<'a>(buf: &'a [u8], key: &[u8]) -> (r: Option<&'a [u8]>)
    ensures
        match r {
            Some(text) => member_text(buf@, key@) == Some(text@),
            None => member_text(buf@, key@) is None,
        },
{
    let end: usize = buf.len();
    if key.len() > end {
        return None;
    }
    let last: usize = end - key.len();
    let mut i: usize = 0;
    loop
        invariant
            end == buf@.len(),
            key@.len() <= end,
            last == end - key@.len(),
            i <= last,
            first_key_from(buf@, key@, 0) == first_key_from(buf@, key@, i as int),
        decreases last - i,
    {
        if matches_at(buf, key, i) && !(i > 0 && buf[i - 1] == BACKSLASH) {
            return quoted_text(vstd::slice::slice_subrange(buf, i + key.len(), end));
        }
        if i == last {
            assert(first_key_from(buf@, key@, i + 1) is None);
            return None;
        }
        i += 1;
    }
}

/// How many digits a byte string begins with.
pub open spec fn digit_run(bytes: Seq<u8>, i: int) -> int
    decreases bytes.len() - i,
{
    if 0 <= i < bytes.len() && is_digit(bytes[i]) {
        digit_run(bytes, i + 1)
    } else {
        i
    }
}

/// The number that a string of digits stands for, in 32 bits that wrap around.
pub open spec fn wrapped_value(digits: Seq<u8>) -> i32
    decreases digits.len(),
{
    if digits.len() == 0 {
        0
    } else {
        wrapped_value(digits.drop_last()).wrapping_mul(10).wrapping_add(
            (digits.last() - ZERO) as i32,
        )
    }
}

/// The digits that stand right behind the first occurrence of a key, as a
/// number.
pub open spec fn int_after(buf: Seq<u8>, key: Seq<u8>) -> Option<i32> {
    match after_key(buf, key) {
        Some(rest) => {
            let n = digit_run(rest, 0);
            if n > 0 {
                Some(wrapped_value(rest.subrange(0, n)))
            } else {
                None
            }
        },
        None => None,
    }
}

/// The number that stands right behind the first occurrence of a key, as in
/// `"status":503`. It wraps around at 32 bits.
pub fn extract_json_int(buf: &[u8], key: &[u8]) -> (r: Option<i32>)
    ensures
        r == int_after(buf@, key@),
{
    let key_pos: usize = match find(buf, key) {
        Some(i) => i,
        None => {
            return None;
        },
    };
    let end: usize = buf.len();
    let rest: &[u8] = vstd::slice::slice_subrange(buf, key_pos + key.len(), end);
    let mut value: i32 = 0;
    let mut i: usize = 0;
    assert(rest@.subrange(0, 0) =~= Seq::<u8>::empty());
    while i < rest.len() && ZERO <= rest[i] && rest[i] <= NINE
        invariant
            i <= rest.len(),
            digit_run(rest@, 0) == digit_run(rest@, i as int),
            value == wrapped_value(rest@.subrange(0, i as int)),
        decreases rest.len() - i,
    {
        assert(rest@.subrange(0, i + 1).drop_last() =~= rest@.subrange(0, i as int));
        value = value.wrapping_mul(10).wrapping_add((rest[i] - ZERO) as i32);
        i += 1;
    }
    if i > 0 {
        Some(value)
    } else {
        None
    }
}

/// The memory that a plugin sets aside: where and how far the host may write the
/// request, where the plugin writes its reply.
pub struct GuestBuffers {
    pub in_ptr: u32,
    pub in_len: u32,
    pub out_ptr: u32,
    pub out: Vec<u8>,
}

impl GuestBuffers {
    /// Whether the buffers lie apart, within 32 bits of addresses, with the input
    /// where an `i32` can tell.
    pub open spec fn sound(self) -> bool {
        &&& self.in_ptr + self.in_len <= 0x7FFF_FFFF
        &&& self.out_ptr + self.out@.len() <= 0x1_0000_0000
        &&& self.in_ptr + self.in_len <= self.out_ptr || self.out_ptr + self.out@.len()
            <= self.in_ptr
    }

    /// Whether an address is one of the input buffer.
    pub open spec fn is_input(self, address: int) -> bool {
        self.in_ptr <= address < self.in_ptr + self.in_len
    }

    /// Whether an address is one of the output buffer.
    pub open spec fn is_output(self, address: int) -> bool {
        self.out_ptr <= address < self.out_ptr + self.out@.len()
    }
}

/// What a plugin returns where it cannot set memory aside: an address that no memory
/// has.
pub const NO_MEMORY: i32 = -1;

/// The address of `len` bytes that are set aside for the host.
pub open spec fn reserved(buffers: GuestBuffers, len: i32) -> i32 {
    if 0 <= len <= buffers.in_len {
        buffers.in_ptr as i32
    } else {
        NO_MEMORY
    }
}

/// Sets bytes aside for the host, in the input buffer. Refused where they do not fit.
pub(crate) fn reserve(buffers: &GuestBuffers, len: i32) -> (r: i32)
    ensures
        r == reserved(*buffers, len),
{
    if len >= 0 && len as u32 <= buffers.in_len {
        buffers.in_ptr as i32
    } else {
        NO_MEMORY
    }
}

/// Bytes that are set aside are the host's alone: each lies in the input buffer and
/// none in the output buffer. They are refused only where they do not fit.
pub proof fn law_reserved_bytes_are_free(buffers: GuestBuffers, len: i32)
    requires
        buffers.sound(),
    ensures
        reserved(buffers, len) >= 0 <==> 0 <= len <= buffers.in_len,
        reserved(buffers, len) >= 0 ==> forall|address: int|
            reserved(buffers, len) <= address < reserved(buffers, len) + len
                ==> #[trigger] buffers.is_input(address) && !buffers.is_output(address),
{
    let p = buffers.in_ptr;
    assert(p <= 0x7FFF_FFFF ==> p as i32 == p) by (bit_vector);
}

/// Writes a reply at the start of the output buffer and packs its place.
pub(crate) fn reply(buffers: &mut GuestBuffers, text: &[u8]) -> (r: i64)
    requires
        text@.len() <= old(buffers).out@.len(),
        text@.len() <= u32::MAX,
    ensures
        packed_ptr(r) == old(buffers).out_ptr,
        packed_len(r) == text@.len(),
        final(buffers).in_ptr == old(buffers).in_ptr,
        final(buffers).in_len == old(buffers).in_len,
        final(buffers).out_ptr == old(buffers).out_ptr,
        final(buffers).out@ == text@ + old(buffers).out@.subrange(
            text@.len() as int,
            old(buffers).out@.len() as int,
        ),
{
    let ghost before = buffers.out@;
    let mut i: usize = 0;
    while i < text.len()
        invariant
            i <= text.len(),
            text@.len() <= before.len(),
            buffers.in_ptr == old(buffers).in_ptr,
            buffers.in_len == old(buffers).in_len,
            buffers.out_ptr == old(buffers).out_ptr,
            buffers.out@.len() == before.len(),
            forall|j: int| 0 <= j < i ==> buffers.out@[j] == text@[j],
            forall|j: int| i <= j < before.len() ==> buffers.out@[j] == before[j],
        decreases text.len() - i,
    {
        buffers.out.set(i, text[i]);
        i += 1;
    }
    assert(buffers.out@ =~= text@ + before.subrange(text@.len() as int, before.len() as int));
    pack(buffers.out_ptr, text.len() as u32)
}

} // verus!
