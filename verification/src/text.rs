//! Decimal renderings of numbers, as sequences of characters.

use vstd::prelude::*;

verus! {

/// The character of the decimal digit `d` (for `d < 10`).
pub open spec fn digit(d: nat) -> char {
    (48 + d) as char
}

/// The decimal digits of `n`, most significant first, with no leading zero.
pub open spec fn decimal(n: nat) -> Seq<char>
    decreases n,
{
    if n < 10 {
        seq![digit(n)]
    } else {
        decimal(n / 10).push(digit(n % 10))
    }
}

/// The decimal digits of `n`, padded with a leading `0` to at least two.
pub open spec fn pad2(n: nat) -> Seq<char> {
    if n < 10 {
        seq!['0', digit(n)]
    } else {
        decimal(n)
    }
}

/// Appends one character to a string (`String::push`).
#[verifier::external_body]
pub fn push_char(s: &mut String, c: char)
    ensures
        final(s)@ == old(s)@.push(c),
{
    s.push(c);
}

fn digit_char(d: u64) -> (c: char)
    requires
        d < 10,
    ensures
        c == digit(d as nat),
{
    let b: u8 = (48 + d) as u8;
    b as char
}

/// Appends the decimal digits of `n`.
pub fn push_decimal(s: &mut String, n: u64)
    ensures
        final(s)@ == old(s)@ + decimal(n as nat),
    decreases n,
{
    if n >= 10 {
        push_decimal(s, n / 10);
    }
    push_char(s, digit_char(n % 10));
}

/// Appends the decimal digits of `n`, padded to at least two.
pub fn push_pad2(s: &mut String, n: u64)
    ensures
        final(s)@ == old(s)@ + pad2(n as nat),
{
    if n < 10 {
        push_char(s, '0');
        push_char(s, digit_char(n));
    } else {
        push_decimal(s, n);
    }
}

/// The load-average rendering with two decimals of a value held in
/// hundredths: `c / 100`, a point, and `c % 100` on two digits.
pub open spec fn centi_text(c: nat) -> Seq<char> {
    decimal(c / 100).push('.') + pad2(c % 100)
}

/// The shortest decimal rendering of a value held in hundredths: no point for
/// a whole number, one decimal when the hundredths digit is 0, else two.
pub open spec fn centi_short_text(c: nat) -> Seq<char> {
    if c % 100 == 0 {
        decimal(c / 100)
    } else if c % 10 == 0 {
        decimal(c / 100).push('.').push(digit((c % 100) / 10))
    } else {
        decimal(c / 100).push('.') + pad2(c % 100)
    }
}

/// Appends a value held in hundredths with two decimals.
pub fn push_centi(s: &mut String, c: u16)
    ensures
        final(s)@ == old(s)@ + centi_text(c as nat),
{
    let ghost start = s@;
    push_decimal(s, (c / 100) as u64);
    push_char(s, '.');
    push_pad2(s, (c % 100) as u64);
    assert(s@ =~= start + centi_text(c as nat));
}

/// Appends a value held in hundredths in its shortest decimal form.
pub fn push_centi_short(s: &mut String, c: u16)
    ensures
        final(s)@ == old(s)@ + centi_short_text(c as nat),
{
    let ghost start = s@;
    push_decimal(s, (c / 100) as u64);
    if c % 100 == 0 {
    } else if c % 10 == 0 {
        push_char(s, '.');
        push_char(s, digit_char(((c % 100) / 10) as u64));
    } else {
        push_char(s, '.');
        push_pad2(s, (c % 100) as u64);
    }
    assert(s@ =~= start + centi_short_text(c as nat));
}

/// The lowercase hexadecimal digit of `d` (for `d < 16`).
pub open spec fn hex_digit(d: nat) -> char {
    if d < 10 {
        (48 + d) as char
    } else {
        (87 + d) as char
    }
}

/// Two lowercase hexadecimal digits per byte.
pub open spec fn hex(bytes: Seq<u8>) -> Seq<char>
    decreases bytes.len(),
{
    if bytes.len() == 0 {
        seq![]
    } else {
        hex(bytes.drop_last()).push(hex_digit(bytes.last() as nat / 16)).push(
            hex_digit(bytes.last() as nat % 16),
        )
    }
}

/// The hyphenated lowercase rendering of a 16-byte id: 8-4-4-4-12 hex digits.
pub open spec fn hyphenated(id: Seq<u8>) -> Seq<char> {
    hex(id.subrange(0, 4)).push('-') + hex(id.subrange(4, 6)).push('-') + hex(id.subrange(6, 8)).push(
        '-',
    ) + hex(id.subrange(8, 10)).push('-') + hex(id.subrange(10, 16))
}

/// The text of a UUID by `uuid::Uuid`'s `Display`: hyphenated lowercase hex.
#[verifier::external_body]
pub fn uuid_text(id: [u8; 16]) -> (s: String)
    ensures
        s@ == hyphenated(id@),
{
    uuid::Uuid::from_bytes(id).to_string()
}

} // verus!
