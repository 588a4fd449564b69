//! Numbers in decimal text, as requests and arguments carry them. Text is taken as bytes.

use vstd::prelude::*;
use vstd::string::{is_ascii, is_ascii_spec_bytes, StrSliceExecFns};

verus! {

/// The bytes of a text of ASCII characters: one byte for each character.
pub open spec fn ascii(text: Seq<char>) -> Seq<u8> {
    Seq::new(text.len(), |i: int| text[i] as u8)
}

/// The bytes of a text of ASCII characters.
pub fn ascii_bytes(text: &str) -> (bytes: Vec<u8>)
    requires
        is_ascii(text),
    ensures
        bytes@ == ascii(text@),
{
    proof {
        is_ascii_spec_bytes(text);
    }
    text.as_bytes_vec()
}

/// Whether a byte is a decimal digit.
pub open spec fn is_digit(byte: u8) -> bool {
    0x30 <= byte <= 0x39
}

/// Whether every byte is a decimal digit.
pub open spec fn all_digits(text: Seq<u8>) -> bool {
    forall|i: int| 0 <= i < text.len() ==> is_digit(#[trigger] text[i])
}

/// The number that decimal digits stand for.
pub open spec fn decimal_value(digits: Seq<u8>) -> nat
    decreases digits.len(),
{
    if digits.len() == 0 {
        0
    } else {
        decimal_value(digits.drop_last()) * 10 + (digits.last() - 0x30) as nat
    }
}

/// The digits of an unsigned number: the text without a leading `+`.
pub open spec fn unsigned_digits(text: Seq<u8>) -> Seq<u8> {
    if text.len() > 0 && text[0] == 0x2b {
        text.skip(1)
    } else {
        text
    }
}

/// The unsigned number of 64 bits that a text stands for: digits, at least one, after an
/// optional `+`, whose value fits.
pub open spec fn unsigned_number(text: Seq<u8>) -> Option<u64> {
    let digits = unsigned_digits(text);
    if digits.len() > 0 && all_digits(digits) && decimal_value(digits) <= u64::MAX {
        Some(decimal_value(digits) as u64)
    } else {
        None
    }
}

/// The digits of a signed number: the text without a leading `+` or `-`.
pub open spec fn signed_digits(text: Seq<u8>) -> Seq<u8> {
    if text.len() > 0 && (text[0] == 0x2b || text[0] == 0x2d) {
        text.skip(1)
    } else {
        text
    }
}

/// Whether a text starts with `-`.
pub open spec fn is_negative(text: Seq<u8>) -> bool {
    text.len() > 0 && text[0] == 0x2d
}

/// The signed number of 64 bits that a text stands for: digits, at least one, after an
/// optional `+` or `-`, whose value fits.
pub open spec fn signed_number(text: Seq<u8>) -> Option<i64> {
    let digits = signed_digits(text);
    if digits.len() > 0 && all_digits(digits) {
        if is_negative(text) {
            if decimal_value(digits) <= 0x8000_0000_0000_0000 {
                Some((-(decimal_value(digits) as int)) as i64)
            } else {
                None
            }
        } else if decimal_value(digits) <= i64::MAX {
            Some(decimal_value(digits) as i64)
        } else {
            None
        }
    } else {
        None
    }
}

/// The value of more digits is not smaller.
pub proof fn lemma_decimal_value_grows(digits: Seq<u8>, len: int)
    requires
        0 <= len <= digits.len(),
        all_digits(digits),
    ensures
        decimal_value(digits.take(len)) <= decimal_value(digits),
    decreases digits.len(),
{
    if len == digits.len() {
        assert(digits.take(len) =~= digits);
    } else {
        assert(digits.drop_last().take(len) =~= digits.take(len));
        assert(all_digits(digits.drop_last())) by {
            assert forall|i: int| 0 <= i < digits.drop_last().len() implies is_digit(
                #[trigger] digits.drop_last()[i],
            ) by {
                assert(is_digit(digits[i]));
            }
        }
        lemma_decimal_value_grows(digits.drop_last(), len);
        assert(is_digit(digits[digits.len() - 1]));
    }
}

/// The value of the digits of `text` from `from` on, if they are digits, at least one, and
/// the value is at most `limit`.
fn parse_digits(text: &[u8], from: usize, limit: u64) -> (value: Option<u64>)
    requires
        from <= text@.len(),
    ensures
        value.is_some() == (text@.skip(from as int).len() > 0 && all_digits(
            text@.skip(from as int),
        ) && decimal_value(text@.skip(from as int)) <= limit),
        value matches Some(v) ==> v == decimal_value(text@.skip(from as int)),
{
    let ghost digits = text@.skip(from as int);
    if from == text.len() {
        return None;
    }
    let mut value: u64 = 0;
    let mut i: usize = from;
    assert(digits.take(0) =~= Seq::<u8>::empty());
    while i < text.len()
        invariant
            from <= i <= text@.len(),
            digits == text@.skip(from as int),
            all_digits(digits.take(i - from)),
            value == decimal_value(digits.take(i - from)),
            value <= limit,
        decreases text@.len() - i,
    {
        let byte = text[i];
        assert(digits[i - from] == byte);
        if byte < 0x30 || byte > 0x39 {
            assert(!is_digit(digits[i - from]));
            return None;
        }
        let digit = (byte - 0x30) as u64;
        proof {
            assert(digits.take(i - from + 1).drop_last() =~= digits.take(i - from));
            assert(digits.take(i - from + 1).last() == byte);
            assert(all_digits(digits.take(i - from + 1))) by {
                assert forall|k: int| 0 <= k < i - from + 1 implies is_digit(
                    #[trigger] digits.take(i - from + 1)[k],
                ) by {
                    if k < i - from {
                        assert(is_digit(digits.take(i - from)[k]));
                    }
                }
            }
        }
        if limit < digit || value > (limit - digit) / 10 {
            proof {
                assert(decimal_value(digits.take(i - from + 1)) > limit) by (nonlinear_arith)
                    requires
                        decimal_value(digits.take(i - from + 1)) == value * 10 + digit,
                        limit < digit || value > (limit - digit) / 10,
                        digit <= 9,
                ;
                if all_digits(digits) {
                    lemma_decimal_value_grows(digits, i - from + 1);
                }
            }
            return None;
        }
        assert(value * 10 + digit <= limit) by (nonlinear_arith)
            requires
                value <= (limit - digit) / 10,
                digit <= limit,
        ;
        value = value * 10 + digit;
        i = i + 1;
    }
    assert(digits.take(digits.len() as int) =~= digits);
    Some(value)
}

/// The unsigned number of 64 bits that a text stands for.
pub fn parse_unsigned(text: &[u8]) -> (number: Option<u64>)
    ensures
        number == unsigned_number(text@),
{
    let from: usize = if text.len() > 0 && text[0] == 0x2b {
        1
    } else {
        0
    };
    assert(unsigned_digits(text@) =~= text@.skip(from as int));
    parse_digits(text, from, u64::MAX)
}

/// The signed number of 64 bits that a text stands for.
pub fn parse_signed(text: &[u8]) -> (number: Option<i64>)
    ensures
        number == signed_number(text@),
{
    let negative = text.len() > 0 && text[0] == 0x2d;
    let from: usize = if text.len() > 0 && (text[0] == 0x2b || text[0] == 0x2d) {
        1
    } else {
        0
    };
    assert(signed_digits(text@) =~= text@.skip(from as int));
    if negative {
        match parse_digits(text, from, 0x8000_0000_0000_0000) {
            Some(value) => {
                if value == 0x8000_0000_0000_0000 {
                    Some(i64::MIN)
                } else {
                    Some(-(value as i64))
                }
            },
            None => None,
        }
    } else {
        match parse_digits(text, from, 0x7fff_ffff_ffff_ffff) {
            Some(value) => Some(value as i64),
            None => None,
        }
    }
}

/// The position of the first byte `wanted` at or after `from`.
pub fn find_byte(text: &[u8], from: usize, wanted: u8) -> (found: Option<usize>)
    requires
        from <= text@.len(),
    ensures
        found matches Some(at) ==> from <= at < text@.len() && text@[at as int] == wanted
            && forall|i: int| from <= i < at ==> text@[i] != wanted,
        found is None ==> forall|i: int| from <= i < text@.len() ==> text@[i] != wanted,
{
    let mut i: usize = from;
    while i < text.len()
        invariant
            from <= i <= text@.len(),
            forall|k: int| from <= k < i ==> text@[k] != wanted,
        decreases text@.len() - i,
    {
        if text[i] == wanted {
            return Some(i);
        }
        i = i + 1;
    }
    None
}

/// The bytes of `text` from `from` up to `to`.
pub fn copy_range(text: &[u8], from: usize, to: usize) -> (part: Vec<u8>)
    requires
        from <= to <= text@.len(),
    ensures
        part@ == text@.subrange(from as int, to as int),
{
    let mut part: Vec<u8> = Vec::new();
    let mut i: usize = from;
    while i < to
        invariant
            from <= i <= to,
            to <= text@.len(),
            part@ == text@.subrange(from as int, i as int),
        decreases to - i,
    {
        part.push(text[i]);
        assert(text@.subrange(from as int, i as int + 1) =~= text@.subrange(
            from as int,
            i as int,
        ).push(text@[i as int]));
        i = i + 1;
    }
    part
}

} // verus!
