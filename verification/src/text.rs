//! Text rendering: decimal and hexadecimal numbers appended to a [`String`].

use vstd::prelude::*;
#[allow(unused_imports)]
use vstd::string::*;

verus! {

/// `String::push` appends exactly one character at the end of the string.
pub assume_specification[ String::push ](s: &mut String, c: char)
    ensures
        final(s)@ == old(s)@.push(c),
;

/// The character of one hexadecimal digit, lower case; `d` is below sixteen.
pub open spec fn digit(d: int) -> char {
    if d < 10 {
        ('0' as int + d) as char
    } else {
        ('a' as int + (d - 10)) as char
    }
}

/// The decimal representation of a natural number, without leading zeros.
pub open spec fn decimal(n: nat) -> Seq<char>
    decreases n,
{
    if n < 10 {
        seq![digit(n as int)]
    } else {
        decimal(n / 10).push(digit((n % 10) as int))
    }
}

/// The decimal representation of an integer: a minus sign ahead of the
/// magnitude of a negative number.
pub open spec fn signed_decimal(n: int) -> Seq<char> {
    if n < 0 {
        seq!['-'] + decimal((-n) as nat)
    } else {
        decimal(n as nat)
    }
}

/// Two hexadecimal digits for one byte, high digit first.
pub open spec fn hex_byte(b: u8) -> Seq<char> {
    seq![digit(b as int / 16), digit(b as int % 16)]
}

/// The bytes of `bytes` in hexadecimal, separated by single spaces.
pub open spec fn hex_list(bytes: Seq<u8>) -> Seq<char>
    decreases bytes.len(),
{
    if bytes.len() == 0 {
        seq![]
    } else if bytes.len() == 1 {
        hex_byte(bytes[0])
    } else {
        hex_list(bytes.drop_last()).push(' ') + hex_byte(bytes.last())
    }
}

/// The character of the hexadecimal digit `d`.
fn digit_char(d: u8) -> (c: char)
    requires
        d < 16,
    ensures
        c == digit(d as int),
{
    if d < 10 {
        ('0' as u8 + d) as char
    } else {
        ('a' as u8 + (d - 10)) as char
    }
}

/// Append the decimal representation of `n`.
pub fn push_decimal(s: &mut String, n: u64)
    ensures
        final(s)@ == old(s)@ + decimal(n as nat),
    decreases n,
{
    if n >= 10 {
        push_decimal(s, n / 10);
    }
    s.push(digit_char((n % 10) as u8));
}

/// Append the decimal representation of `n`, with a minus sign if negative.
pub fn push_signed_decimal(s: &mut String, n: i32)
    ensures
        final(s)@ == old(s)@ + signed_decimal(n as int),
{
    if n < 0 {
        s.push('-');
        push_decimal(s, (-(n as i64)) as u64);
    } else {
        push_decimal(s, n as u64);
    }
}

/// Append two hexadecimal digits for `b`.
pub fn push_hex_byte(s: &mut String, b: u8)
    ensures
        final(s)@ == old(s)@ + hex_byte(b),
{
    s.push(digit_char(b / 16));
    s.push(digit_char(b % 16));
}

/// Append `bytes` in hexadecimal, separated by single spaces.
pub fn push_hex_list(s: &mut String, bytes: &[u8])
    ensures
        final(s)@ == old(s)@ + hex_list(bytes@),
{
    let mut i: usize = 0;
    while i < bytes.len()
        invariant
            i <= bytes.len(),
            s@ == old(s)@ + hex_list(bytes@.take(i as int)),
        decreases bytes.len() - i,
    {
        if i > 0 {
            s.push(' ');
        }
        push_hex_byte(s, bytes[i]);
        assert(bytes@.take(i + 1).drop_last() == bytes@.take(i as int));
        i += 1;
    }
    assert(bytes@.take(i as int) == bytes@);
}

/// Decimal representations consist of digits.
pub proof fn lemma_decimal_digits(n: nat)
    ensures
        decimal(n).len() > 0,
        forall|i: int| 0 <= i < decimal(n).len() ==> '0' <= #[trigger] decimal(n)[i] <= '9',
    decreases n,
{
    if n >= 10 {
        lemma_decimal_digits(n / 10);
    }
}

/// Two numbers with the same decimal representation are equal.
pub proof fn law_decimal_is_unambiguous(n: nat, m: nat)
    requires
        decimal(n) == decimal(m),
    ensures
        n == m,
    decreases n,
{
    lemma_decimal_digits(n / 10);
    lemma_decimal_digits(m / 10);
    assert(decimal(n).last() == digit((n % 10) as int));
    assert(decimal(m).last() == digit((m % 10) as int));
    assert(n % 10 == m % 10);
    assert(n < 10 <==> decimal(n).len() == 1);
    assert(m < 10 <==> decimal(m).len() == 1);
    if n >= 10 && m >= 10 {
        assert(decimal(n).drop_last() == decimal(n / 10));
        assert(decimal(m).drop_last() == decimal(m / 10));
        law_decimal_is_unambiguous(n / 10, m / 10);
    }
}

/// Two integers with the same decimal representation are equal.
pub proof fn law_signed_decimal_is_unambiguous(n: int, m: int)
    requires
        signed_decimal(n) == signed_decimal(m),
    ensures
        n == m,
{
    let (a, b) = (signed_decimal(n), signed_decimal(m));
    assert(a[0] == b[0]);
    lemma_decimal_digits(if n < 0 { (-n) as nat } else { n as nat });
    lemma_decimal_digits(if m < 0 { (-m) as nat } else { m as nat });
    if n < 0 && m < 0 {
        assert(a.drop_first() == decimal((-n) as nat));
        assert(b.drop_first() == decimal((-m) as nat));
        law_decimal_is_unambiguous((-n) as nat, (-m) as nat);
    } else if n >= 0 && m >= 0 {
        law_decimal_is_unambiguous(n as nat, m as nat);
    }
}

/// The sixteen digits are those everybody writes.
pub proof fn law_digits_are_the_usual_ones(d: int)
    requires
        0 <= d < 16,
    ensures
        digit(d) == "0123456789abcdef"@[d],
{
    reveal_strlit("0123456789abcdef");
}

/// A decimal digit more stands at the end, and a number below ten is its digit.
pub proof fn law_decimal_places(n: nat, d: nat)
    requires
        d < 10,
    ensures
        decimal(d) == seq!["0123456789abcdef"@[d as int]],
        n > 0 ==> decimal(10 * n + d) == decimal(n).push("0123456789abcdef"@[d as int]),
{
    law_digits_are_the_usual_ones(d as int);
    assert((10 * n + d) / 10 == n && (10 * n + d) % 10 == d);
}

/// A negative number is written as a minus sign and its magnitude, any other
/// as it is.
pub proof fn law_only_negative_numbers_have_a_sign(n: nat)
    ensures
        signed_decimal(n as int) == decimal(n),
        n > 0 ==> signed_decimal(-n) == seq!['-'] + decimal(n),
{
}

/// A byte is written as its two digits of base sixteen.
pub proof fn law_hex_places(high: u8, low: u8)
    requires
        high < 16,
        low < 16,
    ensures
        hex_byte((16 * high + low) as u8) == seq![
            "0123456789abcdef"@[high as int],
            "0123456789abcdef"@[low as int],
        ],
{
    law_digits_are_the_usual_ones(high as int);
    law_digits_are_the_usual_ones(low as int);
}

/// Every byte of a list takes two characters, with one space ahead of all but
/// the first.
pub proof fn law_hex_list_places(bytes: Seq<u8>, i: int)
    requires
        0 <= i < bytes.len(),
    ensures
        hex_list(Seq::empty()).len() == 0,
        hex_list(bytes).len() == 3 * bytes.len() - 1,
        hex_list(bytes).subrange(3 * i, 3 * i + 2) == hex_byte(bytes[i]),
        i > 0 ==> hex_list(bytes)[3 * i - 1] == ' ',
    decreases bytes.len(),
{
    if bytes.len() > 1 {
        let shorter = bytes.drop_last();
        let last = bytes.len() - 1;
        law_hex_list_places(shorter, if i < last { i } else { 0 });
        assert(hex_list(bytes) == hex_list(shorter).push(' ') + hex_byte(bytes.last()));
        if i < last {
            assert(hex_list(bytes).subrange(3 * i, 3 * i + 2) =~= hex_list(shorter).subrange(
                3 * i,
                3 * i + 2,
            ));
        } else {
            assert(hex_list(bytes).subrange(3 * i, 3 * i + 2) =~= hex_byte(bytes[i]));
        }
    } else {
        assert(hex_list(bytes).subrange(0, 2) =~= hex_byte(bytes[0]));
    }
}

} // verus!
