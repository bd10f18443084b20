//! Verified text rendering: decimal and fixed-width hexadecimal numerals.
//!
//! Every diagnostic string of the crate is assembled from string literals
//! and the numerals defined here, so each message has an exact contract.

use vstd::prelude::*;
use vstd::string::StringExecFns;

verus! {

/// Digit `d` in lower-case hexadecimal (decimal digits for `d < 10`).
pub open spec fn digit_char(d: int) -> char {
    if d < 10 {
        (d + 48) as char
    } else {
        (d + 87) as char
    }
}

/// Digit `d` in upper-case hexadecimal.
pub open spec fn digit_char_upper(d: int) -> char {
    if d < 10 {
        (d + 48) as char
    } else {
        (d + 55) as char
    }
}

/// Decimal numeral of `n`, most significant digit first, `0` for zero.
pub open spec fn dec(n: nat) -> Seq<char>
    decreases n,
{
    if n < 10 {
        seq![digit_char(n as int)]
    } else {
        dec(n / 10).push(digit_char((n % 10) as int))
    }
}

/// Decimal numeral of a signed integer.
pub open spec fn dec_int(i: int) -> Seq<char> {
    if i < 0 {
        seq!['-'] + dec((-i) as nat)
    } else {
        dec(i as nat)
    }
}

/// The `width` low hexadecimal digits of `n`, lower case, zero padded.
pub open spec fn hex(n: nat, width: nat) -> Seq<char>
    decreases width,
{
    if width == 0 {
        Seq::empty()
    } else {
        hex(n / 16, (width - 1) as nat).push(digit_char((n % 16) as int))
    }
}

/// The `width` low hexadecimal digits of `n`, upper case, zero padded.
pub open spec fn hex_upper(n: nat, width: nat) -> Seq<char>
    decreases width,
{
    if width == 0 {
        Seq::empty()
    } else {
        hex_upper(n / 16, (width - 1) as nat).push(digit_char_upper((n % 16) as int))
    }
}

/// One digit below sixteen as a one-character string.
fn digit_str(d: u8) -> (r: &'static str)
    requires
        d < 16,
    ensures
        r@ == seq![digit_char(d as int)],
{
    proof {
        reveal_strlit("0");
        reveal_strlit("1");
        reveal_strlit("2");
        reveal_strlit("3");
        reveal_strlit("4");
        reveal_strlit("5");
        reveal_strlit("6");
        reveal_strlit("7");
        reveal_strlit("8");
        reveal_strlit("9");
        reveal_strlit("a");
        reveal_strlit("b");
        reveal_strlit("c");
        reveal_strlit("d");
        reveal_strlit("e");
        reveal_strlit("f");
    }
    let r = match d {
        0 => "0",
        1 => "1",
        2 => "2",
        3 => "3",
        4 => "4",
        5 => "5",
        6 => "6",
        7 => "7",
        8 => "8",
        9 => "9",
        10 => "a",
        11 => "b",
        12 => "c",
        13 => "d",
        14 => "e",
        _ => "f",
    };
    assert(r@ =~= seq![digit_char(d as int)]);
    r
}

/// One digit below sixteen as a one-character upper-case string.
fn digit_str_upper(d: u8) -> (r: &'static str)
    requires
        d < 16,
    ensures
        r@ == seq![digit_char_upper(d as int)],
{
    if d < 10 {
        return digit_str(d);
    }
    proof {
        reveal_strlit("A");
        reveal_strlit("B");
        reveal_strlit("C");
        reveal_strlit("D");
        reveal_strlit("E");
        reveal_strlit("F");
    }
    let r = match d {
        10 => "A",
        11 => "B",
        12 => "C",
        13 => "D",
        14 => "E",
        _ => "F",
    };
    assert(r@ =~= seq![digit_char_upper(d as int)]);
    r
}

/// A string that owns the characters of `s`.
pub fn owned(s: &str) -> (r: String)
    ensures
        r@ == s@,
{
    String::from_str(s)
}

/// Append `s` to `out`.
pub fn push_str(out: &mut String, s: &str)
    ensures
        final(out)@ == old(out)@ + s@,
{
    out.append(s);
}

/// Append the decimal numeral of `n`.
pub fn push_u64(out: &mut String, n: u64)
    ensures
        final(out)@ == old(out)@ + dec(n as nat),
    decreases n,
{
    if n >= 10 {
        push_u64(out, n / 10);
    }
    let d: u8 = (n % 10) as u8;
    out.append(digit_str(d));
    assert(out@ =~= old(out)@ + dec(n as nat));
}

/// Append the decimal numeral of `n`.
pub fn push_usize(out: &mut String, n: usize)
    ensures
        final(out)@ == old(out)@ + dec(n as nat),
{
    push_u64(out, n as u64);
}

/// Append the decimal numeral of `n`, with a leading minus when negative.
pub fn push_i64(out: &mut String, n: i64)
    ensures
        final(out)@ == old(out)@ + dec_int(n as int),
{
    if n < 0 {
        proof {
            reveal_strlit("-");
        }
        out.append("-");
        let m: u64 = (-(n + 1)) as u64 + 1;
        assert(m as int == -(n as int));
        push_u64(out, m);
        assert("-"@ =~= seq!['-']);
        assert(out@ =~= old(out)@ + dec_int(n as int));
    } else {
        push_u64(out, n as u64);
    }
}

/// Append the `width` low hexadecimal digits of `n` in lower case.
pub fn push_hex(out: &mut String, n: u128, width: u32)
    ensures
        final(out)@ == old(out)@ + hex(n as nat, width as nat),
    decreases width,
{
    if width > 0 {
        push_hex(out, n / 16, width - 1);
        let d: u8 = (n % 16) as u8;
        out.append(digit_str(d));
    }
    assert(out@ =~= old(out)@ + hex(n as nat, width as nat));
}

/// Append the `width` low hexadecimal digits of `n` in upper case.
pub fn push_hex_upper(out: &mut String, n: u128, width: u32)
    ensures
        final(out)@ == old(out)@ + hex_upper(n as nat, width as nat),
    decreases width,
{
    if width > 0 {
        push_hex_upper(out, n / 16, width - 1);
        let d: u8 = (n % 16) as u8;
        out.append(digit_str_upper(d));
    }
    assert(out@ =~= old(out)@ + hex_upper(n as nat, width as nat));
}

/// Hexadecimal numeral of `n` in lower case without leading zeros.
pub open spec fn hex_min(n: nat) -> Seq<char>
    decreases n,
{
    if n < 16 {
        seq![digit_char(n as int)]
    } else {
        hex_min(n / 16).push(digit_char((n % 16) as int))
    }
}

/// Decimal numeral with an explicit sign, `+` for zero and above.
pub open spec fn dec_signed(i: int) -> Seq<char> {
    if i < 0 {
        dec_int(i)
    } else {
        seq!['+'] + dec(i as nat)
    }
}

/// Decimal numeral padded with zeros to at least four characters.
pub open spec fn dec4(n: nat) -> Seq<char> {
    if n < 10 {
        "000"@ + dec(n)
    } else if n < 100 {
        "00"@ + dec(n)
    } else if n < 1000 {
        "0"@ + dec(n)
    } else {
        dec(n)
    }
}

/// Append the hexadecimal numeral of `n` without leading zeros.
pub fn push_hex_min(out: &mut String, n: u32)
    ensures
        final(out)@ == old(out)@ + hex_min(n as nat),
    decreases n,
{
    if n >= 16 {
        push_hex_min(out, n / 16);
    }
    let d: u8 = (n % 16) as u8;
    out.append(digit_str(d));
    assert(out@ =~= old(out)@ + hex_min(n as nat));
}

/// Append the decimal numeral of `n` with an explicit sign.
pub fn push_signed(out: &mut String, n: i64)
    ensures
        final(out)@ == old(out)@ + dec_signed(n as int),
{
    if n < 0 {
        push_i64(out, n);
    } else {
        proof {
            reveal_strlit("+");
        }
        out.append("+");
        push_u64(out, n as u64);
        assert("+"@ =~= seq!['+']);
        assert(out@ =~= old(out)@ + dec_signed(n as int));
    }
}

/// Append the decimal numeral of `n`, padded to at least four characters.
pub fn push_dec4(out: &mut String, n: usize)
    ensures
        final(out)@ == old(out)@ + dec4(n as nat),
{
    if n < 10 {
        out.append("000");
    } else if n < 100 {
        out.append("00");
    } else if n < 1000 {
        out.append("0");
    }
    push_usize(out, n);
    assert(out@ =~= old(out)@ + dec4(n as nat));
}

/// `"true"` or `"false"`.
pub open spec fn bool_text(b: bool) -> Seq<char> {
    if b {
        "true"@
    } else {
        "false"@
    }
}

/// Append `true` or `false`.
pub fn push_bool(out: &mut String, b: bool)
    ensures
        final(out)@ == old(out)@ + bool_text(b),
{
    if b {
        out.append("true");
    } else {
        out.append("false");
    }
}

/// The quoted form of a string with the characters `s`, as the debug
/// formatter of the standard library renders it.
pub uninterp spec fn quoted(s: Seq<char>) -> Seq<char>;

/// `format!("{s:?}")`: the debug rendering of a string slice. The escaping
/// rules are not restated; the result is named by the characters of `s`.
#[verifier::external_body]
fn quote(s: &str) -> (r: String)
    ensures
        r@ == quoted(s@),
{
    format!("{s:?}")
}

/// Append the quoted form of `s`.
pub fn push_quoted(out: &mut String, s: &str)
    ensures
        final(out)@ == old(out)@ + quoted(s@),
{
    let q = quote(s);
    out.append(q.as_str());
}

/// Whether two strings hold the same characters.
pub fn same_text(a: &str, b: &str) -> (r: bool)
    ensures
        r == (a@ == b@),
{
    let x = owned(a);
    let y = owned(b);
    x == y
}

} // verus!
