//! Text: numbers in decimal and hexadecimal, and text from bytes.
use vstd::prelude::*;
use vstd::string::*;
use vstd::utf8::{encode_utf8, valid_utf8};

verus! {

/// The character of a hexadecimal digit, in lower case.
pub open spec fn digit_char(d: nat) -> char {
    if d < 10 {
        ('0' as u8 + d) as u8 as char
    } else {
        ('a' as u8 + (d - 10)) as u8 as char
    }
}

/// `n` written in decimal.
pub open spec fn dec(n: nat) -> Seq<char>
    decreases n,
{
    if n < 10 {
        seq![digit_char(n)]
    } else {
        dec(n / 10).push(digit_char(n % 10))
    }
}

/// `n` written in hexadecimal, in lower case.
pub open spec fn hex(n: nat) -> Seq<char>
    decreases n,
{
    if n < 16 {
        seq![digit_char(n)]
    } else {
        hex(n / 16).push(digit_char(n % 16))
    }
}

/// Two hexadecimal digits for each byte.
pub open spec fn hex_bytes(s: Seq<u8>) -> Seq<char>
    decreases s.len(),
{
    if s.len() == 0 {
        Seq::empty()
    } else {
        hex_bytes(s.drop_last()).push(digit_char(s.last() as nat / 16)).push(digit_char(s.last() as nat % 16))
    }
}

/// Appends one hexadecimal digit.
fn push_digit(out: &mut String, d: u8)
    requires
        d < 16,
    ensures
        final(out)@ == old(out)@.push(digit_char(d as nat)),
{
    proof {
        reveal_strlit("0");
        reveal_strlit("1");
        reveal_strlit("2");
        reveal_strlit("3");
        reveal_strlit("4");
        reveal_strlit("5");
        reveal_strlit("6");
        reveal_strlit("7");
        reveal_strlit("8");
        reveal_strlit("9");
        reveal_strlit("a");
        reveal_strlit("b");
        reveal_strlit("c");
        reveal_strlit("d");
        reveal_strlit("e");
        reveal_strlit("f");
    }
    let text: &str = match d {
        0 => "0",
        1 => "1",
        2 => "2",
        3 => "3",
        4 => "4",
        5 => "5",
        6 => "6",
        7 => "7",
        8 => "8",
        9 => "9",
        10 => "a",
        11 => "b",
        12 => "c",
        13 => "d",
        14 => "e",
        _ => "f",
    };
    out.append(text);
    assert(text@ =~= seq![digit_char(d as nat)]);
    assert(out@ =~= old(out)@.push(digit_char(d as nat)));
}

/// Appends `n` in decimal.
pub fn push_dec(out: &mut String, n: u128)
    ensures
        final(out)@ == old(out)@ + dec(n as nat),
    decreases n,
{
    if n >= 10 {
        push_dec(out, n / 10);
    }
    push_digit(out, (n % 10) as u8);
    assert(out@ =~= old(out)@ + dec(n as nat));
}

/// Appends `n` in hexadecimal.
pub fn push_hex(out: &mut String, n: u128)
    ensures
        final(out)@ == old(out)@ + hex(n as nat),
    decreases n,
{
    if n >= 16 {
        push_hex(out, n / 16);
    }
    push_digit(out, (n % 16) as u8);
    assert(out@ =~= old(out)@ + hex(n as nat));
}

/// Appends two hexadecimal digits for each byte.
pub fn push_hex_bytes(out: &mut String, s: &[u8])
    ensures
        final(out)@ == old(out)@ + hex_bytes(s@),
{
    let mut i: usize = 0;
    assert(s@.subrange(0, 0) =~= Seq::empty());
    assert(out@ =~= old(out)@ + hex_bytes(s@.subrange(0, 0)));
    while i < s.len()
        invariant
            i <= s@.len(),
            out@ == old(out)@ + hex_bytes(s@.subrange(0, i as int)),
        decreases s@.len() - i,
    {
        let b: u8 = s[i];
        push_digit(out, b / 16);
        push_digit(out, b % 16);
        i += 1;
        let ghost t = s@.subrange(0, i as int);
        assert(t.drop_last() =~= s@.subrange(0, i - 1));
        assert(out@ =~= old(out)@ + hex_bytes(t));
    }
    assert(s@.subrange(0, i as int) =~= s@);
}

/// A prefix followed by a decimal number.
pub fn text_dec(prefix: &str, n: u128) -> (r: String)
    ensures
        r@ == prefix@ + dec(n as nat),
{
    let mut out: String = String::new();
    out.append(prefix);
    push_dec(&mut out, n);
    assert(out@ =~= prefix@ + dec(n as nat));
    out
}

/// `String::from_utf8`: text from bytes that are well-formed UTF-8, and nothing from
/// bytes that are not. The text's own UTF-8 form is the bytes again.
#[verifier::external_body]
pub(crate) fn string_from_utf8(bytes: Vec<u8>) -> (r: Option<String>)
    ensures
        r is Some <==> valid_utf8(bytes@),
        r matches Some(s) ==> encode_utf8(s@) == bytes@,
{
    String::from_utf8(bytes).ok()
}

/// The number that decimal digits denote.
pub open spec fn dec_value(s: Seq<char>) -> int
    decreases s.len(),
{
    if s.len() == 0 {
        0
    } else {
        10 * dec_value(s.drop_last()) + (s.last() as int - 48)
    }
}

/// A number written in decimal reads as that number, in figures alone, and begins with a zero only if
/// it is zero.
pub proof fn law_decimal_reads_back(n: nat, i: int)
    ensures
        dec_value(dec(n)) == n,
        dec(n).len() > 0,
        0 <= i < dec(n).len() ==> '0' <= dec(n)[i] <= '9',
        dec(n)[0] == '0' ==> n == 0,
    decreases n,
{
    let s = dec(n);
    if n < 10 {
        assert(s.drop_last() =~= Seq::empty());
        reveal_with_fuel(dec_value, 2);
    } else {
        law_decimal_reads_back(n / 10, i);
        law_decimal_reads_back(n / 10, 0);
        assert(s.drop_last() =~= dec(n / 10));
    }
}

/// A number written in hexadecimal ends with the digit of its last four bits, before which the others
/// stand.
pub proof fn law_hexadecimal_digits(n: nat, d: nat)
    requires
        d < 16,
    ensures
        hex(d) == seq![digit_char(d)],
        n > 0 ==> hex(16 * n + d) == hex(n).push(digit_char(d)),
        d < 10 ==> digit_char(d) as int == 48 + d,
        d >= 10 ==> digit_char(d) as int == 87 + d,
{
}

/// Bytes written in hexadecimal take two digits each, the higher half first.
pub proof fn law_bytes_in_hexadecimal(s: Seq<u8>, i: int)
    ensures
        hex_bytes(s).len() == 2 * s.len(),
        0 <= i < s.len() ==> hex_bytes(s)[2 * i] == digit_char(s[i] as nat / 16) && hex_bytes(s)[2 * i + 1] == digit_char(
            s[i] as nat % 16,
        ),
    decreases s.len(),
{
    if s.len() > 0 {
        law_bytes_in_hexadecimal(s.drop_last(), i);
    }
}

} // verus!
