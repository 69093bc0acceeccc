//! What texts and numbers in decimal are.
use vstd::arithmetic::div_mod::lemma_div_denominator;
use vstd::arithmetic::power::*;
use vstd::prelude::*;
use vstd::utf8::*;

use crate::text::{
    decimal, digits_value, is_digit, parsed_u64, without_plus, without_trailing_slashes,
};

verus! {

/// Trimming takes slashes off the end, all of them and nothing else.
pub proof fn law_only_slashes_are_trimmed(text: Seq<char>)
    ensures
        without_trailing_slashes(text).is_prefix_of(text),
        without_trailing_slashes(text).len() > 0 ==> without_trailing_slashes(text).last() != '/',
        forall|i: int|
            without_trailing_slashes(text).len() <= i < text.len() ==> #[trigger] text[i] == '/',
    decreases text.len(),
{
    if text.len() > 0 && text.last() == '/' {
        let front = text.drop_last();
        law_only_slashes_are_trimmed(front);
        let kept = without_trailing_slashes(text);
        assert(text.subrange(0, kept.len() as int) =~= front.subrange(0, kept.len() as int));
        assert forall|i: int| kept.len() <= i < text.len() implies #[trigger] text[i] == '/' by {
            if i < front.len() {
                assert(front[i] == text[i]);
            }
        }
    } else {
        assert(text.subrange(0, text.len() as int) =~= text);
    }
}

// ---------------------------------------------------------------------------
// Numbers in decimal
// ---------------------------------------------------------------------------
/// The digits of a number in decimal are its digits by place value, and there is none
/// too many.
pub proof fn law_decimal_digits(n: nat)
    ensures
        decimal(n).len() > 0,
        n < pow(10, decimal(n).len()),
        n > 0 ==> pow(10, (decimal(n).len() - 1) as nat) <= n,
        n == 0 ==> decimal(n).len() == 1,
        forall|i: int|
            0 <= i < decimal(n).len() ==> (#[trigger] decimal(n)[i]) as int == 48 + ((n as int)
                / pow(10, (decimal(n).len() - 1 - i) as nat)) % 10,
    decreases n,
{
    let text = decimal(n);
    lemma_pow0(10);
    lemma_pow1(10);
    if n >= 10 {
        let front = decimal(n / 10);
        let k = front.len();
        law_decimal_digits(n / 10);
        lemma_pow_adds(10, k, 1);
        lemma_pow_adds(10, (k - 1) as nat, 1);
        assert forall|i: int| 0 <= i < text.len() implies (#[trigger] text[i]) as int == 48 + ((
        n as int) / pow(10, (text.len() - 1 - i) as nat)) % 10 by {
            if i < k {
                let e = (k - 1 - i) as nat;
                assert(text[i] == front[i]);
                lemma_pow_positive(10, e);
                lemma_div_denominator(n as int, 10, pow(10, e));
                lemma_pow_adds(10, 1, e);
                assert((text.len() - 1 - i) as nat == 1 + e);
            } else {
                assert(text[i] as int == 48 + (n % 10));
            }
        }
    }
}

/// A byte string of zeros.
pub open spec fn zeros(k: nat) -> Seq<u8> {
    Seq::new(k, |i: int| 48u8)
}

/// Whether bytes are a number in decimal, with or without a plus sign and zeros before
/// it.
pub open spec fn spells(bytes: Seq<u8>, plus: bool, k: nat, n: nat) -> bool {
    bytes == (if plus {
        seq![43u8]
    } else {
        Seq::empty()
    }) + zeros(k) + encode_utf8(decimal(n))
}

/// The bytes of a number in decimal grow as the number does.
proof fn lemma_decimal_bytes_grow(n: nat)
    ensures
        encode_utf8(decimal(n)).len() > 0,
        n < 10 ==> encode_utf8(decimal(n)) == seq![(48 + n) as u8],
        n >= 10 ==> encode_utf8(decimal(n)) == encode_utf8(decimal(n / 10)).push(
            (48 + n % 10) as u8,
        ),
        forall|i: int|
            0 <= i < encode_utf8(decimal(n)).len() ==> is_digit(
                #[trigger] encode_utf8(decimal(n))[i],
            ),
    decreases n,
{
    let text = decimal(n);
    lemma_decimal_is_ascii(n);
    is_ascii_chars_encode_utf8(text);
    assert forall|i: int| 0 <= i < encode_utf8(text).len() implies is_digit(
        #[trigger] encode_utf8(text)[i],
    ) by {
        assert('0' <= text[i] <= '9');
    }
    if n < 10 {
        assert(text[0] as int == 48 + n);
        assert(encode_utf8(text) =~= seq![(48 + n) as u8]);
    } else {
        let front = decimal(n / 10);
        lemma_decimal_is_ascii(n / 10);
        is_ascii_chars_encode_utf8(front);
        let grown = encode_utf8(front).push((48 + n % 10) as u8);
        assert forall|i: int| 0 <= i < grown.len() implies encode_utf8(text)[i] == grown[i] by {
            if i < front.len() {
                assert(text[i] == front[i]);
            } else {
                assert(text[i] as int == 48 + n % 10);
            }
        }
        assert(encode_utf8(text) =~= grown);
    }
}

/// A number in decimal is made of digits.
proof fn lemma_decimal_is_ascii(n: nat)
    ensures
        decimal(n).len() > 0,
        is_ascii_chars(decimal(n)),
        forall|i: int| 0 <= i < decimal(n).len() ==> '0' <= #[trigger] decimal(n)[i] <= '9',
    decreases n,
{
    if n >= 10 {
        lemma_decimal_is_ascii(n / 10);
    }
}

/// A number in decimal, with zeros before it, stands for the number.
proof fn lemma_spelled_value(k: nat, n: nat)
    ensures
        digits_value(zeros(k) + encode_utf8(decimal(n))) == n,
    decreases n,
{
    let bytes = encode_utf8(decimal(n));
    let all = zeros(k) + bytes;
    lemma_decimal_bytes_grow(n);
    if n < 10 {
        assert(all.drop_last() =~= zeros(k));
        lemma_zeros_value(k);
    } else {
        let front = encode_utf8(decimal(n / 10));
        assert(all.drop_last() =~= zeros(k) + front);
        lemma_spelled_value(k, n / 10);
    }
}

/// Zeros stand for zero.
proof fn lemma_zeros_value(k: nat)
    ensures
        digits_value(zeros(k)) == 0,
    decreases k,
{
    if k > 0 {
        assert(zeros(k).drop_last() =~= zeros((k - 1) as nat));
        lemma_zeros_value((k - 1) as nat);
    }
}

/// Digits are their value in decimal, with zeros before it.
pub(crate) proof fn lemma_digits_spell(digits: Seq<u8>) -> (k: nat)
    requires
        digits.len() > 0,
        forall|i: int| 0 <= i < digits.len() ==> is_digit(#[trigger] digits[i]),
    ensures
        digits == zeros(k) + encode_utf8(decimal(digits_value(digits))),
    decreases digits.len(),
{
    let front = digits.drop_last();
    let last = digits.last();
    let n = digits_value(digits);
    assert(is_digit(digits[digits.len() - 1]));
    lemma_decimal_bytes_grow(n);
    if front.len() == 0 {
        assert(digits_value(front) == 0);
        assert(digits =~= zeros(0) + encode_utf8(decimal(n)));
        0
    } else {
        assert forall|i: int| 0 <= i < front.len() implies is_digit(#[trigger] front[i]) by {
            assert(front[i] == digits[i]);
        }
        let k = lemma_digits_spell(front);
        let w = digits_value(front);
        if w > 0 {
            assert(n / 10 == w && n % 10 == last - 48);
            assert(digits =~= front.push(last));
            assert(digits =~= zeros(k) + encode_utf8(decimal(n)));
            k
        } else {
            lemma_decimal_bytes_grow(0);
            assert(front =~= zeros(k + 1));
            assert(digits =~= front.push(last));
            assert(digits =~= zeros(k + 1) + encode_utf8(decimal(n)));
            k + 1
        }
    }
}

/// A byte string is read as a number exactly where it is that number in decimal, with
/// or without a plus sign and zeros before it.
pub proof fn law_numbers_are_read_right(bytes: Seq<u8>, n: u64)
    ensures
        (parsed_u64(bytes) == Some(n)) == (exists|plus: bool, k: nat| #[trigger]
            spells(bytes, plus, k, n as nat)),
{
    let digits = without_plus(bytes);
    if parsed_u64(bytes) == Some(n) {
        let k = lemma_digits_spell(digits);
        let plus = bytes[0] == 43;
        if plus {
            assert(bytes =~= seq![43u8] + digits);
            assert(bytes =~= seq![43u8] + zeros(k) + encode_utf8(decimal(n as nat)));
        } else {
            assert(bytes =~= Seq::<u8>::empty() + zeros(k) + encode_utf8(decimal(n as nat)));
        }
        assert(spells(bytes, plus, k, n as nat));
    }
    if exists|plus: bool, k: nat| #[trigger] spells(bytes, plus, k, n as nat) {
        let (plus, k) = choose|plus: bool, k: nat| #[trigger] spells(bytes, plus, k, n as nat);
        let number = zeros(k) + encode_utf8(decimal(n as nat));
        lemma_decimal_bytes_grow(n as nat);
        lemma_spelled_value(k, n as nat);
        assert forall|i: int| 0 <= i < number.len() implies is_digit(#[trigger] number[i]) by {
            if i >= k {
                assert(is_digit(encode_utf8(decimal(n as nat))[i - k]));
            }
        }
        if plus {
            assert(bytes[0] == 43);
            assert(bytes.subrange(1, bytes.len() as int) =~= number);
        } else {
            assert(is_digit(number[0]));
            assert(bytes =~= number);
        }
        assert(digits == number);
    }
}

} // verus!
