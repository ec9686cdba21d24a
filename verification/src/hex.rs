//! Fixed-width hexadecimal numbers.
//!
//! An address is written as exactly 16 hexadecimal digits, in either case,
//! which is the width of a `u64`: every such field has a value and none
//! overflows.

use vstd::prelude::*;
use crate::error::ParseError;
use crate::text::split_first;

verus! {

/// The number of digits in an address field.
pub const ADDRESS_WIDTH: usize = 16;

/// Whether `c` is one of `0-9`, `a-f`, `A-F`.
pub open spec fn is_hex_digit(c: char) -> bool {
    ('0' <= c && c <= '9') || ('a' <= c && c <= 'f') || ('A' <= c && c <= 'F')
}

/// The value of a hexadecimal digit, from 0 to 15.
pub open spec fn hex_digit_value(c: char) -> nat
    recommends
        is_hex_digit(c),
{
    if '0' <= c && c <= '9' {
        (c as u32 - '0' as u32) as nat
    } else if 'a' <= c && c <= 'f' {
        (c as u32 - 'a' as u32 + 10) as nat
    } else {
        (c as u32 - 'A' as u32 + 10) as nat
    }
}

/// Whether every character of `s` is a hexadecimal digit.
pub open spec fn all_hex(s: Seq<char>) -> bool {
    forall|i: int| 0 <= i < s.len() ==> is_hex_digit(#[trigger] s[i])
}

/// The number that the digits of `s` denote in base 16, most significant
/// digit first.
pub open spec fn hex_value(s: Seq<char>) -> nat
    decreases s.len(),
{
    if s.len() == 0 {
        0
    } else {
        16 * hex_value(s.drop_last()) + hex_digit_value(s.last())
    }
}

/// Whether `s` is an address field: exactly 16 hexadecimal digits.
pub open spec fn is_address_field(s: Seq<char>) -> bool {
    s.len() == ADDRESS_WIDTH && all_hex(s)
}

/// 16 to the power `n`.
pub open spec fn pow16(n: nat) -> nat
    decreases n,
{
    if n == 0 {
        1
    } else {
        16 * pow16((n - 1) as nat)
    }
}

/// A number of `n` hexadecimal digits lies below 16 to the power `n`.
pub proof fn lemma_hex_value_bound(s: Seq<char>)
    requires
        all_hex(s),
    ensures
        hex_value(s) < pow16(s.len()),
    decreases s.len(),
{
    if s.len() > 0 {
        let front = s.drop_last();
        assert forall|i: int| 0 <= i < front.len() implies is_hex_digit(#[trigger] front[i]) by {
            assert(front[i] == s[i]);
        }
        lemma_hex_value_bound(front);
        assert(is_hex_digit(s.last()));
        assert(hex_digit_value(s.last()) < 16);
    }
}

/// Powers of 16 grow with the exponent.
pub proof fn lemma_pow16_monotone(a: nat, b: nat)
    requires
        a <= b,
    ensures
        pow16(a) <= pow16(b),
        pow16(a) > 0,
    decreases b,
{
    if a < b {
        lemma_pow16_monotone(a, (b - 1) as nat);
    } else if a > 0 {
        lemma_pow16_monotone((a - 1) as nat, (a - 1) as nat);
    }
}

/// Sixteen hexadecimal digits span exactly the range of a `u64`.
pub proof fn lemma_pow16_width()
    ensures
        pow16(15) == 0x1000_0000_0000_0000,
        pow16(16) == 0x1_0000_0000_0000_0000,
{
    reveal_with_fuel(pow16, 17);
}

/// Every address field denotes a `u64`.
pub proof fn lemma_address_fits(s: Seq<char>)
    requires
        is_address_field(s),
    ensures
        hex_value(s) <= u64::MAX,
{
    lemma_hex_value_bound(s);
    lemma_pow16_width();
}

/// The lower-case hexadecimal digit of value `d`.
pub open spec fn digit_char(d: nat) -> char
    recommends
        d < 16,
{
    if d < 10 {
        (('0' as u8 + d) as u8) as char
    } else {
        (('a' as u8 + d - 10) as u8) as char
    }
}

/// `value` written with `width` lower-case hexadecimal digits, padded with
/// zeros on the left.
pub open spec fn hex_digits(value: nat, width: nat) -> Seq<char>
    decreases width,
{
    if width == 0 {
        Seq::empty()
    } else {
        hex_digits(value / 16, (width - 1) as nat).push(digit_char(value % 16))
    }
}

/// The address field that denotes `address`, with lower-case digits.
pub open spec fn hex_field(address: u64) -> Seq<char> {
    hex_digits(address as nat, ADDRESS_WIDTH as nat)
}

/// Writing a number that fits in `width` digits, and reading the digits
/// again, gives the number.
pub proof fn lemma_hex_digits(value: nat, width: nat)
    requires
        value < pow16(width),
    ensures
        hex_digits(value, width).len() == width,
        all_hex(hex_digits(value, width)),
        hex_value(hex_digits(value, width)) == value,
    decreases width,
{
    if width > 0 {
        let front = hex_digits(value / 16, (width - 1) as nat);
        let last = digit_char(value % 16);
        let digits = front.push(last);
        lemma_hex_digits(value / 16, (width - 1) as nat);
        assert(is_hex_digit(last) && hex_digit_value(last) == value % 16);
        assert(digits.drop_last() == front);
        assert(digits.last() == last);
        assert forall|i: int| 0 <= i < digits.len() implies is_hex_digit(#[trigger] digits[i]) by {
            if i < front.len() {
                assert(digits[i] == front[i]);
            }
        }
    }
}

/// The field written for an address is an address field, and denotes that
/// address.
pub proof fn lemma_hex_field(address: u64)
    ensures
        is_address_field(hex_field(address)),
        hex_value(hex_field(address)) == address,
{
    lemma_pow16_width();
    lemma_hex_digits(address as nat, ADDRESS_WIDTH as nat);
}

/// The value of `c` as a hexadecimal digit, or `None` where it is none.
pub fn hex_digit(c: char) -> (d: Option<u8>)
    ensures
        match d {
            Some(v) => is_hex_digit(c) && v == hex_digit_value(c),
            None => !is_hex_digit(c),
        },
{
    if '0' <= c && c <= '9' {
        Some((c as u32 - '0' as u32) as u8)
    } else if 'a' <= c && c <= 'f' {
        Some((c as u32 - 'a' as u32 + 10) as u8)
    } else if 'A' <= c && c <= 'F' {
        Some((c as u32 - 'A' as u32 + 10) as u8)
    } else {
        None
    }
}

/// Decodes an address field. The field must be exactly 16 hexadecimal
/// digits; a sign, a blank, or any other character in it is refused, and so
/// is a field of another length.
pub fn address_from_hex(input: &str) -> (r: Result<u64, ParseError>)
    ensures
        is_address_field(input@) ==> r == Ok::<u64, ParseError>(hex_value(input@) as u64),
        !is_address_field(input@) ==> r == Err::<u64, ParseError>(ParseError::MalformedAddress),
{
    let mut rest = input;
    let mut value: u64 = 0;
    let mut count: usize = 0;
    loop
        invariant
            count <= ADDRESS_WIDTH,
            count <= input@.len(),
            rest@ == input@.skip(count as int),
            all_hex(input@.take(count as int)),
            value == hex_value(input@.take(count as int)),
        decreases rest@.len(),
    {
        match split_first(rest) {
            None => {
                proof {
                    assert(input@.take(count as int) == input@);
                }
                if count == ADDRESS_WIDTH {
                    return Ok(value);
                } else {
                    return Err(ParseError::MalformedAddress);
                }
            },
            Some((c, tail)) => {
                assert(c == input@[count as int]);
                if count == ADDRESS_WIDTH {
                    return Err(ParseError::MalformedAddress);
                }
                match hex_digit(c) {
                    None => {
                        return Err(ParseError::MalformedAddress);
                    },
                    Some(d) => {
                        proof {
                            let before = input@.take(count as int);
                            let after = input@.take(count + 1);
                            assert(after.drop_last() == before);
                            assert(after.last() == c);
                            assert forall|i: int| 0 <= i < after.len() implies is_hex_digit(
                                #[trigger] after[i],
                            ) by {
                                if i < count {
                                    assert(after[i] == before[i]);
                                }
                            }
                            lemma_hex_value_bound(before);
                            lemma_pow16_monotone(count as nat, 15);
                            lemma_pow16_width();
                            assert(tail@ == input@.skip(count + 1));
                        }
                        value = value * 16 + d as u64;
                        count = count + 1;
                        rest = tail;
                    },
                }
            },
        }
    }
}

} // verus!
