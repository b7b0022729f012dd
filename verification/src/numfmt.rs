//! Decimal and hexadecimal digit strings, as `{}`, `{:X}` and `{:02x}` print them.
use vstd::prelude::*;

verus! {

/// The character of digit `d` (`0`-`9`, then `A`-`F`).
pub open spec fn upper_digit(d: nat) -> char {
    if d < 10 {
        (48 + d) as char
    } else {
        (55 + d) as char
    }
}

/// The character of digit `d` (`0`-`9`, then `a`-`f`).
pub open spec fn lower_digit(d: nat) -> char {
    if d < 10 {
        (48 + d) as char
    } else {
        (87 + d) as char
    }
}

/// `n` written in base 10 without leading zeros (`0` for zero).
pub open spec fn dec_text(n: nat) -> Seq<char>
    decreases n,
{
    if n < 10 {
        seq![upper_digit(n)]
    } else {
        dec_text(n / 10).push(upper_digit(n % 10))
    }
}

/// `n` written in base 16 with upper-case digits, without leading zeros.
pub open spec fn hex_text(n: nat) -> Seq<char>
    decreases n,
{
    if n < 16 {
        seq![upper_digit(n)]
    } else {
        hex_text(n / 16).push(upper_digit(n % 16))
    }
}

/// `n` in upper-case hex, zero-padded to at least two digits (`{:02X}`).
pub open spec fn hex2_text(n: nat) -> Seq<char> {
    if n < 16 {
        seq!['0', upper_digit(n)]
    } else {
        hex_text(n)
    }
}

/// A byte as exactly two lower-case hex digits (`{:02x}`).
pub open spec fn byte_hex_text(b: u8) -> Seq<char> {
    seq![lower_digit((b / 16) as nat), lower_digit((b % 16) as nat)]
}

/// A signed integer in base 10, with a leading `-` when negative.
pub open spec fn signed_text(n: int) -> Seq<char> {
    if n < 0 {
        seq!['-'] + dec_text((-n) as nat)
    } else {
        dec_text(n as nat)
    }
}

/// `c` is one of `0`-`9` or `A`-`F`.
pub open spec fn is_digit_char(c: char) -> bool {
    (48 <= c as u32 && c as u32 <= 57) || (65 <= c as u32 && c as u32 <= 70)
}

/// Every character of a digit string is a digit, and there is at least one.
pub proof fn lemma_dec_text_digits(n: nat)
    ensures
        forall|i: int| 0 <= i < dec_text(n).len() ==> is_digit_char(#[trigger] dec_text(n)[i]),
        dec_text(n).len() >= 1,
    decreases n,
{
    if n >= 10 {
        lemma_dec_text_digits(n / 10);
    }
}

/// Every character of a hex digit string is a digit, and there is at least one.
pub proof fn lemma_hex_text_digits(n: nat)
    ensures
        forall|i: int| 0 <= i < hex_text(n).len() ==> is_digit_char(#[trigger] hex_text(n)[i]),
        forall|i: int| 0 <= i < hex2_text(n).len() ==> is_digit_char(#[trigger] hex2_text(n)[i]),
        hex_text(n).len() >= 1,
    decreases n,
{
    if n >= 16 {
        lemma_hex_text_digits(n / 16);
    }
}

/// A one-character string holding the given upper-case digit.
fn upper_digit_str(d: u64) -> (s: &'static str)
    requires
        d < 16,
    ensures
        s@ == seq![upper_digit(d as nat)],
{
    proof {
        reveal_strlit("0");
        reveal_strlit("1");
        reveal_strlit("2");
        reveal_strlit("3");
        reveal_strlit("4");
        reveal_strlit("5");
        reveal_strlit("6");
        reveal_strlit("7");
        reveal_strlit("8");
        reveal_strlit("9");
        reveal_strlit("A");
        reveal_strlit("B");
        reveal_strlit("C");
        reveal_strlit("D");
        reveal_strlit("E");
        reveal_strlit("F");
    }
    match d {
        0 => "0",
        1 => "1",
        2 => "2",
        3 => "3",
        4 => "4",
        5 => "5",
        6 => "6",
        7 => "7",
        8 => "8",
        9 => "9",
        10 => "A",
        11 => "B",
        12 => "C",
        13 => "D",
        14 => "E",
        _ => "F",
    }
}

/// A one-character string holding the given lower-case digit.
fn lower_digit_str(d: u8) -> (s: &'static str)
    requires
        d < 16,
    ensures
        s@ == seq![lower_digit(d as nat)],
{
    proof {
        reveal_strlit("0");
        reveal_strlit("1");
        reveal_strlit("2");
        reveal_strlit("3");
        reveal_strlit("4");
        reveal_strlit("5");
        reveal_strlit("6");
        reveal_strlit("7");
        reveal_strlit("8");
        reveal_strlit("9");
        reveal_strlit("a");
        reveal_strlit("b");
        reveal_strlit("c");
        reveal_strlit("d");
        reveal_strlit("e");
        reveal_strlit("f");
    }
    match d {
        0 => "0",
        1 => "1",
        2 => "2",
        3 => "3",
        4 => "4",
        5 => "5",
        6 => "6",
        7 => "7",
        8 => "8",
        9 => "9",
        10 => "a",
        11 => "b",
        12 => "c",
        13 => "d",
        14 => "e",
        _ => "f",
    }
}

/// Appends `n` in base 10.
pub fn push_decimal(s: &mut String, n: u64)
    ensures
        final(s)@ == old(s)@ + dec_text(n as nat),
    decreases n,
{
    if n >= 10 {
        push_decimal(s, n / 10);
    }
    s.append(upper_digit_str(n % 10));
}

/// Appends `n` in base 16 with upper-case digits.
pub fn push_hex(s: &mut String, n: u64)
    ensures
        final(s)@ == old(s)@ + hex_text(n as nat),
    decreases n,
{
    if n >= 16 {
        push_hex(s, n / 16);
    }
    s.append(upper_digit_str(n % 16));
}

/// Appends `n` in upper-case hex, zero-padded to two digits.
pub fn push_hex2(s: &mut String, n: u64)
    ensures
        final(s)@ == old(s)@ + hex2_text(n as nat),
{
    if n < 16 {
        s.append(upper_digit_str(0));
        s.append(upper_digit_str(n));
        assert(upper_digit(0) == '0');
    } else {
        push_hex(s, n);
    }
}

/// Appends a signed integer in base 10.
pub fn push_signed(s: &mut String, n: i64)
    ensures
        final(s)@ == old(s)@ + signed_text(n as int),
{
    if n < 0 {
        proof {
            reveal_strlit("-");
        }
        s.append("-");
        let magnitude: u64 = (0i128 - (n as i128)) as u64;
        push_decimal(s, magnitude);
    } else {
        push_decimal(s, n as u64);
    }
}

/// Appends a byte as two lower-case hex digits.
pub fn push_byte_hex(s: &mut String, b: u8)
    ensures
        final(s)@ == old(s)@ + byte_hex_text(b),
{
    s.append(lower_digit_str(b / 16));
    s.append(lower_digit_str(b % 16));
}

} // verus!
