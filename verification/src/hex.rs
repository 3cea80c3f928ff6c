//! Rendering numbers as text for error messages: decimal, and hexadecimal
//! in the `{:#x}` and `{:#010X}` forms.

use vstd::prelude::*;
use vstd::string::*;

verus! {

/// The upper-case hexadecimal digit of a value below 16.
pub open spec fn hex_digit(d: u32) -> Seq<char> {
    if d == 0 { "0"@ } else if d == 1 { "1"@ } else if d == 2 { "2"@ } else if d == 3 { "3"@ }
    else if d == 4 { "4"@ } else if d == 5 { "5"@ } else if d == 6 { "6"@ } else if d == 7 { "7"@ }
    else if d == 8 { "8"@ } else if d == 9 { "9"@ } else if d == 10 { "A"@ } else if d == 11 { "B"@ }
    else if d == 12 { "C"@ } else if d == 13 { "D"@ } else if d == 14 { "E"@ } else { "F"@ }
}

/// The first `k` of the eight hexadecimal digits of `x`, most significant first.
pub open spec fn hex_digits(x: u32, k: int) -> Seq<char>
    decreases k,
{
    if k <= 0 {
        Seq::empty()
    } else {
        hex_digits(x, k - 1) + hex_digit((x >> ((28 - 4 * (k - 1)) as u32)) & 0xfu32)
    }
}

/// `0x` followed by the eight upper-case hexadecimal digits of `x` (the `{:#010X}` format).
pub open spec fn hex_u32(x: u32) -> Seq<char> {
    "0x"@ + hex_digits(x, 8)
}

fn digit_str(d: u32) -> (s: &'static str)
    requires
        d < 16,
    ensures
        s@ == hex_digit(d),
{
    if d == 0 { "0" } else if d == 1 { "1" } else if d == 2 { "2" } else if d == 3 { "3" }
    else if d == 4 { "4" } else if d == 5 { "5" } else if d == 6 { "6" } else if d == 7 { "7" }
    else if d == 8 { "8" } else if d == 9 { "9" } else if d == 10 { "A" } else if d == 11 { "B" }
    else if d == 12 { "C" } else if d == 13 { "D" } else if d == 14 { "E" } else { "F" }
}

/// Appends `0x` and the eight upper-case hexadecimal digits of `x`.
pub fn push_hex_u32(s: &mut String, x: u32)
    ensures
        final(s)@ == old(s)@ + hex_u32(x),
{
    s.append("0x");
    let ghost base = s@;
    let mut k: u32 = 0;
    while k < 8
        invariant
            k <= 8,
            s@ == base + hex_digits(x, k as int),
        decreases 8 - k,
    {
        let shift: u32 = 28 - 4 * k;
        let d = (x >> shift) & 0xfu32;
        assert(((x >> shift) & 0xfu32) < 16u32) by (bit_vector);
        s.append(digit_str(d));
        k = k + 1;
        proof {
            assert(s@ =~= base + hex_digits(x, k as int));
        }
    }
    proof {
        assert(s@ =~= old(s)@ + hex_u32(x));
    }
}

/// The decimal digit of a value below 10.
pub open spec fn dec_digit(d: nat) -> Seq<char> {
    hex_digit(d as u32)
}

/// The decimal representation of `n` (the `{}` format of an unsigned integer).
pub open spec fn decimal(n: nat) -> Seq<char>
    decreases n,
{
    if n < 10 {
        dec_digit(n)
    } else {
        decimal(n / 10) + dec_digit(n % 10)
    }
}

/// The lower-case hexadecimal digit of a value below 16.
pub open spec fn lower_hex_digit(d: nat) -> Seq<char> {
    if d == 10 { "a"@ } else if d == 11 { "b"@ } else if d == 12 { "c"@ } else if d == 13 { "d"@ }
    else if d == 14 { "e"@ } else if d == 15 { "f"@ } else { hex_digit(d as u32) }
}

/// The lower-case hexadecimal digits of `n`, without leading zeros.
pub open spec fn lower_hex(n: nat) -> Seq<char>
    decreases n,
{
    if n < 16 {
        lower_hex_digit(n)
    } else {
        lower_hex(n / 16) + lower_hex_digit(n % 16)
    }
}

/// `0x` followed by the lower-case hexadecimal digits of `n` (the `{:#x}` format).
pub open spec fn alt_lower_hex(n: nat) -> Seq<char> {
    "0x"@ + lower_hex(n)
}

fn lower_digit_str(d: u64) -> (s: &'static str)
    requires
        d < 16,
    ensures
        s@ == lower_hex_digit(d as nat),
{
    if d == 10 { "a" } else if d == 11 { "b" } else if d == 12 { "c" } else if d == 13 { "d" }
    else if d == 14 { "e" } else if d == 15 { "f" } else { digit_str(d as u32) }
}

/// Appends the decimal representation of `n`.
pub fn push_decimal(s: &mut String, n: u64)
    ensures
        final(s)@ == old(s)@ + decimal(n as nat),
    decreases n,
{
    if n >= 10 {
        push_decimal(s, n / 10);
    }
    s.append(digit_str((n % 10) as u32));
    proof {
        if n >= 10 {
            assert(decimal(n as nat) == decimal((n / 10) as nat) + dec_digit((n % 10) as nat));
        }
        assert(s@ =~= old(s)@ + decimal(n as nat));
    }
}

/// Appends the decimal representation of a 128-bit `n`.
pub fn push_decimal_wide(s: &mut String, n: u128)
    ensures
        final(s)@ == old(s)@ + decimal(n as nat),
    decreases n,
{
    if n >= 10 {
        push_decimal_wide(s, n / 10);
    }
    s.append(digit_str((n % 10) as u32));
    proof {
        if n >= 10 {
            assert(decimal(n as nat) == decimal((n / 10) as nat) + dec_digit((n % 10) as nat));
        }
        assert(s@ =~= old(s)@ + decimal(n as nat));
    }
}

/// Appends the lower-case hexadecimal digits of `n`.
pub fn push_lower_hex(s: &mut String, n: u64)
    ensures
        final(s)@ == old(s)@ + lower_hex(n as nat),
    decreases n,
{
    if n >= 16 {
        push_lower_hex(s, n / 16);
    }
    s.append(lower_digit_str(n % 16));
    proof {
        assert(s@ =~= old(s)@ + lower_hex(n as nat));
    }
}

/// Appends `0x` and the lower-case hexadecimal digits of `n`.
pub fn push_alt_lower_hex(s: &mut String, n: u64)
    ensures
        final(s)@ == old(s)@ + alt_lower_hex(n as nat),
{
    s.append("0x");
    push_lower_hex(s, n);
    proof {
        assert(s@ =~= old(s)@ + alt_lower_hex(n as nat));
    }
}

} // verus!
