//! Text: comparing, trimming, numbers in decimal.
use vstd::prelude::*;
use vstd::string::*;
use vstd::utf8::*;

verus! {

/// The ASCII digit zero.
pub const ZERO: u8 = 48;

/// The ASCII digit nine.
pub const NINE: u8 = 57;

/// The ASCII plus sign.
pub const PLUS: u8 = 43;

/// `String::push`: appends one character.
pub assume_specification[ String::push ](s: &mut String, c: char)
    ensures
        final(s)@ == old(s)@.push(c),
;

/// Whether two texts are the same.
pub fn same_text(a: &str, b: &str) -> (r: bool)
    ensures
        r == (a@ == b@),
{
    proof {
        encode_utf8_decode_utf8(a@);
        encode_utf8_decode_utf8(b@);
    }
    same_bytes(a.as_bytes(), b.as_bytes())
}

/// Whether two byte strings are the same.
pub fn same_bytes(a: &[u8], b: &[u8]) -> (r: bool)
    ensures
        r == (a@ == b@),
{
    if a.len() != b.len() {
        return false;
    }
    let mut i: usize = 0;
    while i < a.len()
        invariant
            i <= a.len(),
            a.len() == b.len(),
            forall|j: int| 0 <= j < i ==> a@[j] == b@[j],
        decreases a.len() - i,
    {
        if a[i] != b[i] {
            return false;
        }
        i += 1;
    }
    assert(a@ =~= b@);
    true
}

/// Whether `text` begins with `prefix`.
pub fn starts_with(text: &str, prefix: &str) -> (r: bool)
    ensures
        r == prefix@.is_prefix_of(text@),
{
    let n: usize = prefix.unicode_len();
    if text.unicode_len() < n {
        return false;
    }
    same_text(text.substring_char(0, n), prefix)
}

/// Whether `text` ends in `suffix`.
pub fn ends_with(text: &str, suffix: &str) -> (r: bool)
    ensures
        r == suffix@.is_suffix_of(text@),
{
    let n: usize = text.unicode_len();
    let k: usize = suffix.unicode_len();
    if n < k {
        return false;
    }
    same_text(text.substring_char(n - k, n), suffix)
}

/// The text without the slashes at its end.
pub open spec fn without_trailing_slashes(text: Seq<char>) -> Seq<char>
    decreases text.len(),
{
    if text.len() > 0 && text.last() == '/' {
        without_trailing_slashes(text.drop_last())
    } else {
        text
    }
}

/// The text without the slashes at its end.
pub fn trim_slashes(text: &str) -> (r: &str)
    ensures
        r@ == without_trailing_slashes(text@),
{
    let n: usize = text.unicode_len();
    let mut end: usize = n;
    assert(text@.subrange(0, n as int) =~= text@);
    while end > 0 && text.get_char(end - 1) == '/'
        invariant
            end <= n,
            n == text@.len(),
            without_trailing_slashes(text@) == without_trailing_slashes(
                text@.subrange(0, end as int),
            ),
        decreases end,
    {
        assert(text@.subrange(0, end as int).drop_last() =~= text@.subrange(0, end - 1));
        end = end - 1;
    }
    text.substring_char(0, end)
}

/// The character of a decimal digit.
pub open spec fn digit(d: nat) -> char
    recommends
        d < 10,
{
    (('0' as nat) + d) as char
}

/// A number in decimal, without leading zeros.
pub open spec fn decimal(n: nat) -> Seq<char>
    decreases n,
{
    if n < 10 {
        seq![digit(n)]
    } else {
        decimal(n / 10).push(digit(n % 10))
    }
}

/// A number in decimal, without leading zeros.
pub fn decimal_text(n: u64) -> (r: String)
    ensures
        r@ == decimal(n as nat),
    decreases n,
{
    let mut r = if n < 10 {
        String::new()
    } else {
        decimal_text(n / 10)
    };
    let d: u8 = (n % 10) as u8;
    r.push((ZERO + d) as char);
    assert(r@ =~= decimal(n as nat));
    r
}

/// Whether a byte is an ASCII digit.
pub open spec fn is_digit(b: u8) -> bool {
    ZERO <= b <= NINE
}

/// The number that a string of digits stands for.
pub open spec fn digits_value(digits: Seq<u8>) -> nat
    decreases digits.len(),
{
    if digits.len() == 0 {
        0
    } else {
        digits_value(digits.drop_last()) * 10 + (digits.last() - ZERO) as nat
    }
}

/// A string of digits with an optional plus sign before it, without the sign.
pub open spec fn without_plus(bytes: Seq<u8>) -> Seq<u8> {
    if bytes.len() > 0 && bytes[0] == PLUS {
        bytes.subrange(1, bytes.len() as int)
    } else {
        bytes
    }
}

/// The number that a byte string stands for: an optional plus sign, then at
/// least one digit and nothing else, of a value that a `u64` can hold.
pub open spec fn parsed_u64(bytes: Seq<u8>) -> Option<u64> {
    let digits = without_plus(bytes);
    if digits.len() > 0 && (forall|i: int| 0 <= i < digits.len() ==> is_digit(#[trigger] digits[i]))
        && digits_value(digits) <= u64::MAX {
        Some(digits_value(digits) as u64)
    } else {
        None
    }
}

/// A longer string of digits stands for no smaller a number.
proof fn lemma_digits_value_grows(digits: Seq<u8>, k: int)
    requires
        0 <= k <= digits.len(),
        forall|i: int| 0 <= i < digits.len() ==> is_digit(#[trigger] digits[i]),
    ensures
        digits_value(digits.subrange(0, k)) <= digits_value(digits),
    decreases digits.len() - k,
{
    if k < digits.len() {
        lemma_digits_value_grows(digits, k + 1);
        assert(digits.subrange(0, k + 1).drop_last() =~= digits.subrange(0, k));
        assert(is_digit(digits[k]));
    } else {
        assert(digits.subrange(0, k) =~= digits);
    }
}

/// Reads a byte string as a `u64`.
pub fn parse_u64(bytes: &[u8]) -> (r: Option<u64>)
    ensures
        r == parsed_u64(bytes@),
{
    let start: usize = if bytes.len() > 0 && bytes[0] == PLUS {
        1
    } else {
        0
    };
    let ghost digits = without_plus(bytes@);
    assert(digits =~= bytes@.subrange(start as int, bytes@.len() as int));
    if start == bytes.len() {
        return None;
    }
    let mut value: u64 = 0;
    let mut i: usize = start;
    assert(digits.subrange(0, 0).len() == 0);
    while i < bytes.len()
        invariant
            start <= i <= bytes.len(),
            start < bytes.len(),
            digits == without_plus(bytes@),
            digits == bytes@.subrange(start as int, bytes@.len() as int),
            forall|j: int| 0 <= j < i - start ==> is_digit(#[trigger] digits[j]),
            value == digits_value(digits.subrange(0, i - start)),
        decreases bytes.len() - i,
    {
        let b: u8 = bytes[i];
        assert(digits[i - start] == b);
        if b < ZERO || b > NINE {
            return None;
        }
        let ghost next = digits.subrange(0, i - start + 1);
        assert(next.drop_last() =~= digits.subrange(0, i - start));
        assert(digits_value(next) == value * 10 + (b - ZERO));
        let d: u64 = (b - ZERO) as u64;
        if value > (u64::MAX - d) / 10 {
            proof {
                assert(digits_value(next) > u64::MAX);
                if forall|j: int| 0 <= j < digits.len() ==> is_digit(#[trigger] digits[j]) {
                    lemma_digits_value_grows(digits, i - start + 1);
                }
            }
            return None;
        }
        value = value * 10 + d;
        i += 1;
    }
    assert(digits.subrange(0, i - start) =~= digits);
    Some(value)
}

} // verus!
