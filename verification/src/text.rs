//! Building the text that stands for numbers and raw bytes.

use crate::bytes::{le_u16_at, read_u16};
use vstd::prelude::*;
use vstd::slice::slice_to_vec;
use vstd::utf8::{decode_utf8, valid_utf8};

verus! {

/// The lower-case hexadecimal digit that stands for `d`.
pub open spec fn lower_digit(d: int) -> char {
    if d < 10 {
        ((0x30 + d) as u8) as char
    } else {
        ((0x57 + d) as u8) as char
    }
}

/// The upper-case hexadecimal digit that stands for `d`.
pub open spec fn upper_digit(d: int) -> char {
    if d < 10 {
        ((0x30 + d) as u8) as char
    } else {
        ((0x37 + d) as u8) as char
    }
}

/// `n` in lower-case hexadecimal, without leading zeros.
pub open spec fn lower_hex(n: nat) -> Seq<char>
    decreases n,
{
    if n < 16 {
        seq![lower_digit(n as int)]
    } else {
        lower_hex(n / 16).push(lower_digit((n % 16) as int))
    }
}

/// `n` in decimal, without leading zeros.
pub open spec fn decimal(n: nat) -> Seq<char>
    decreases n,
{
    if n < 10 {
        seq![lower_digit(n as int)]
    } else {
        decimal(n / 10).push(lower_digit((n % 10) as int))
    }
}

/// `n` in upper-case hexadecimal, as exactly eight digits.
pub open spec fn upper_hex8(n: u32) -> Seq<char> {
    seq![
        upper_digit(n as int / 0x1000_0000 % 16),
        upper_digit(n as int / 0x100_0000 % 16),
        upper_digit(n as int / 0x10_0000 % 16),
        upper_digit(n as int / 0x1_0000 % 16),
        upper_digit(n as int / 0x1000 % 16),
        upper_digit(n as int / 0x100 % 16),
        upper_digit(n as int / 0x10 % 16),
        upper_digit(n as int % 16),
    ]
}

/// `s` without the characters equal to `c`.
pub open spec fn without(s: Seq<char>, c: char) -> Seq<char>
    decreases s.len(),
{
    if s.len() == 0 {
        Seq::empty()
    } else if s.last() == c {
        without(s.drop_last(), c)
    } else {
        without(s.drop_last(), c).push(s.last())
    }
}

/// The character of one UTF-16 code unit taken by itself: the unit's own
/// value, or the zero character where the unit is half of a surrogate pair.
pub open spec fn unit_char(unit: u16) -> char {
    if 0xD800 <= unit <= 0xDFFF {
        0u8 as char
    } else {
        unit as char
    }
}

/// The text of little-endian UTF-16 code units, each taken by itself.
pub open spec fn units_text(raw: Seq<u8>) -> Seq<char> {
    Seq::new(raw.len() / 2, |i: int| unit_char(le_u16_at(raw, 2 * i)))
}

/// The bytes of `data` in lower-case hexadecimal, two digits for each byte.
pub open spec fn hex_text(data: Seq<u8>) -> Seq<char> {
    Seq::new(
        2 * data.len(),
        |i: int|
            if i % 2 == 0 {
                lower_digit(data[i / 2] as int / 16)
            } else {
                lower_digit(data[i / 2] as int % 16)
            },
    )
}

/// The text that `data` shows as: what it decodes to where it is valid
/// UTF-8, and its hexadecimal form where it is not.
pub open spec fn display_text(data: Seq<u8>) -> Seq<char> {
    if valid_utf8(data) {
        decode_utf8(data)
    } else {
        hex_text(data)
    }
}

/// `String::push`.
///
/// Trusted: the call appends the one character to the string.
#[verifier::external_body]
pub(crate) fn push_char(s: &mut String, c: char)
    ensures
        final(s)@ == old(s)@.push(c),
{
    s.push(c)
}

/// `hex::encode` on a byte slice.
///
/// Trusted: the call gives two lower-case hexadecimal digits for each byte,
/// the high half first, in the order of the bytes.
#[verifier::external_body]
pub(crate) fn hex_encode(data: &[u8]) -> (r: String)
    ensures
        r@ == hex_text(data@),
{
    hex::encode(data)
}

/// `String::from_utf8`.
///
/// Trusted: the call succeeds exactly on valid UTF-8, and the string then
/// holds the characters that the bytes encode.
#[verifier::external_body]
pub(crate) fn string_from_utf8(bytes: Vec<u8>) -> (r: Option<String>)
    ensures
        r is Some <==> valid_utf8(bytes@),
        r matches Some(s) ==> s@ == decode_utf8(bytes@),
{
    String::from_utf8(bytes).ok()
}

/// `char::from_u32`.
///
/// Trusted: the call gives the character with the value `v` where `v` is a
/// Unicode scalar value, and nothing where it is not.
#[verifier::external_body]
fn char_from_u32(v: u32) -> (r: Option<char>)
    ensures
        r == (if v <= 0xD7FF || 0xE000 <= v <= 0x10_FFFF {
            Some(v as char)
        } else {
            None
        }),
{
    char::from_u32(v)
}

/// `==` on `str`.
///
/// Trusted: two strings are equal exactly where they hold the same
/// characters.
#[verifier::external_body]
pub(crate) fn same_text(a: &str, b: &str) -> (r: bool)
    ensures
        r == (a@ == b@),
{
    a == b
}

/// The digit for a value below sixteen, in lower case.
fn lower_digit_char(d: u8) -> (c: char)
    requires
        d < 16,
    ensures
        c == lower_digit(d as int),
{
    if d < 10 {
        (0x30 + d) as char
    } else {
        (0x57 + d) as char
    }
}

/// The digit for a value below sixteen, in upper case.
fn upper_digit_char(d: u8) -> (c: char)
    requires
        d < 16,
    ensures
        c == upper_digit(d as int),
{
    if d < 10 {
        (0x30 + d) as char
    } else {
        (0x37 + d) as char
    }
}

/// Appends `n` in lower-case hexadecimal, without leading zeros.
pub fn push_lower_hex(s: &mut String, n: u32)
    ensures
        final(s)@ == old(s)@ + lower_hex(n as nat),
    decreases n,
{
    if n >= 16 {
        push_lower_hex(s, n / 16);
    }
    push_char(s, lower_digit_char((n % 16) as u8));
}

/// Appends `n` in decimal, without leading zeros.
pub fn push_decimal(s: &mut String, n: u32)
    ensures
        final(s)@ == old(s)@ + decimal(n as nat),
    decreases n,
{
    if n >= 10 {
        push_decimal(s, n / 10);
    }
    push_char(s, lower_digit_char((n % 10) as u8));
}

/// The text that `data` shows as: its characters where it is valid UTF-8,
/// its hexadecimal form where it is not.
pub fn to_display_text(data: &[u8]) -> (r: String)
    ensures
        r@ == display_text(data@),
{
    match string_from_utf8(slice_to_vec(data)) {
        Some(s) => s,
        None => hex_encode(data),
    }
}

/// Appends `n` in upper-case hexadecimal, as exactly eight digits.
pub fn push_upper_hex8(s: &mut String, n: u32)
    ensures
        final(s)@ == old(s)@ + upper_hex8(n),
{
    push_char(s, upper_digit_char((n / 0x1000_0000 % 16) as u8));
    push_char(s, upper_digit_char((n / 0x100_0000 % 16) as u8));
    push_char(s, upper_digit_char((n / 0x10_0000 % 16) as u8));
    push_char(s, upper_digit_char((n / 0x1_0000 % 16) as u8));
    push_char(s, upper_digit_char((n / 0x1000 % 16) as u8));
    push_char(s, upper_digit_char((n / 0x100 % 16) as u8));
    push_char(s, upper_digit_char((n / 0x10 % 16) as u8));
    push_char(s, upper_digit_char((n % 16) as u8));
    assert(s@ =~= old(s)@ + upper_hex8(n));
}

/// `s` without the characters equal to `c`.
pub fn without_char(s: &str, c: char) -> (r: String)
    ensures
        r@ == without(s@, c),
{
    let mut r = String::new();
    for x in it: s.chars()
        invariant
            it.seq() == s@,
            r@ == without(s@.take(it.index() as int), c),
    {
        proof {
            assert(s@.take(it.index() + 1).drop_last() =~= s@.take(it.index() as int));
        }
        if x != c {
            push_char(&mut r, x);
        }
    }
    proof {
        assert(s@.take(s@.len() as int) =~= s@);
    }
    r
}

/// The text of the little-endian UTF-16 code units of `vendor_data_raw`,
/// each unit taken by itself.
pub fn recover_string(vendor_data_raw: &[u8]) -> (r: String)
    requires
        vendor_data_raw@.len() % 2 == 0,
    ensures
        r@ == units_text(vendor_data_raw@),
{
    let mut r = String::new();
    let mut i: usize = 0;
    while i < vendor_data_raw.len()
        invariant
            vendor_data_raw@.len() % 2 == 0,
            i % 2 == 0,
            i <= vendor_data_raw.len(),
            r@ == units_text(vendor_data_raw@).take(i as int / 2),
        decreases vendor_data_raw.len() - i,
    {
        let unit: u16 = match read_u16(vendor_data_raw, i) {
            Some(unit) => unit,
            None => 0,
        };
        let c = match char_from_u32(unit as u32) {
            Some(c) => c,
            None => 0u8 as char,
        };
        push_char(&mut r, c);
        proof {
            let all = units_text(vendor_data_raw@);
            assert(all.take((i + 2) as int / 2) =~= all.take(i as int / 2).push(c));
        }
        i = i + 2;
    }
    proof {
        let all = units_text(vendor_data_raw@);
        assert(all.take(i as int / 2) =~= all);
    }
    r
}

} // verus!
