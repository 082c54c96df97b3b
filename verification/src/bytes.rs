//! Fixed-width integers on the wire, and views of byte buffers.

use vstd::prelude::*;

verus! {

/// The contents of a list of byte buffers.
pub open spec fn contents(buffers: Seq<Vec<u8>>) -> Seq<Seq<u8>> {
    buffers.map_values(|buffer: Vec<u8>| buffer@)
}

/// Appending a buffer appends its contents.
pub proof fn lemma_contents_push(buffers: Seq<Vec<u8>>, buffer: Vec<u8>)
    ensures
        contents(buffers.push(buffer)) == contents(buffers).push(buffer@),
{
    assert(contents(buffers.push(buffer)) =~= contents(buffers).push(buffer@));
}

/// The number whose base-256 digits are `digits`, least significant first.
pub open spec fn little_endian(digits: Seq<u8>) -> nat
    decreases digits.len(),
{
    if digits.len() == 0 {
        0
    } else {
        digits[0] as nat + 256 * little_endian(digits.drop_first())
    }
}

/// The number whose base-256 digits are `digits`, most significant first.
pub open spec fn big_endian(digits: Seq<u8>) -> nat
    decreases digits.len(),
{
    if digits.len() == 0 {
        0
    } else {
        256 * big_endian(digits.drop_last()) + digits.last() as nat
    }
}

/// The `width` base-256 digits of `n`, least significant first.
pub open spec fn little_endian_digits(n: nat, width: nat) -> Seq<u8>
    decreases width,
{
    if width == 0 {
        seq![]
    } else {
        seq![(n % 256) as u8] + little_endian_digits(n / 256, (width - 1) as nat)
    }
}

/// The `width` base-256 digits of `n`, most significant first.
pub open spec fn big_endian_digits(n: nat, width: nat) -> Seq<u8>
    decreases width,
{
    if width == 0 {
        seq![]
    } else {
        big_endian_digits(n / 256, (width - 1) as nat).push((n % 256) as u8)
    }
}

/// Read the two bytes at `at` as a little-endian number.
pub fn read_u16_le(bytes: &[u8], at: usize) -> (n: u16)
    requires
        at + 2 <= bytes.len(),
    ensures
        n == little_endian(bytes@.subrange(at as int, at + 2)),
{
    proof {
        reveal_with_fuel(little_endian, 3);
    }
    bytes[at] as u16 + 256 * (bytes[at + 1] as u16)
}

/// Read the four bytes at `at` as a little-endian number.
pub fn read_u32_le(bytes: &[u8], at: usize) -> (n: u32)
    requires
        at + 4 <= bytes.len(),
    ensures
        n == little_endian(bytes@.subrange(at as int, at + 4)),
{
    proof {
        reveal_with_fuel(little_endian, 5);
        let digits = bytes@.subrange(at as int, at + 4);
        assert(digits.drop_first()[0] == bytes@[at + 1]);
        assert(digits.drop_first().drop_first()[0] == bytes@[at + 2]);
        assert(digits.drop_first().drop_first().drop_first()[0] == bytes@[at + 3]);
    }
    bytes[at] as u32 + 256 * (bytes[at + 1] as u32 + 256 * (bytes[at + 2] as u32 + 256 * (bytes[at
        + 3] as u32)))
}

/// Read the two bytes at `at` as a big-endian number.
pub fn read_u16_be(bytes: &[u8], at: usize) -> (n: u16)
    requires
        at + 2 <= bytes.len(),
    ensures
        n == big_endian(bytes@.subrange(at as int, at + 2)),
{
    proof {
        reveal_with_fuel(big_endian, 3);
    }
    256 * (bytes[at] as u16) + bytes[at + 1] as u16
}

/// Read the four bytes at `at` as a big-endian number.
pub fn read_u32_be(bytes: &[u8], at: usize) -> (n: u32)
    requires
        at + 4 <= bytes.len(),
    ensures
        n == big_endian(bytes@.subrange(at as int, at + 4)),
{
    proof {
        reveal_with_fuel(big_endian, 5);
        let digits = bytes@.subrange(at as int, at + 4);
        assert(digits.drop_last().last() == bytes@[at + 2]);
        assert(digits.drop_last().drop_last().last() == bytes@[at + 1]);
        assert(digits.drop_last().drop_last().drop_last().last() == bytes@[at as int]);
    }
    256 * (256 * (256 * (bytes[at] as u32) + bytes[at + 1] as u32) + bytes[at + 2] as u32)
        + bytes[at + 3] as u32
}

/// Append `n` as two bytes, least significant first.
pub fn push_u16_le(out: &mut Vec<u8>, n: u16)
    ensures
        final(out)@ == old(out)@ + little_endian_digits(n as nat, 2),
{
    proof {
        reveal_with_fuel(little_endian_digits, 3);
    }
    out.push((n % 256) as u8);
    out.push((n / 256) as u8);
}

/// Append `n` as four bytes, least significant first.
pub fn push_u32_le(out: &mut Vec<u8>, n: u32)
    ensures
        final(out)@ == old(out)@ + little_endian_digits(n as nat, 4),
{
    proof {
        reveal_with_fuel(little_endian_digits, 5);
    }
    out.push((n % 256) as u8);
    out.push((n / 256 % 256) as u8);
    out.push((n / 256 / 256 % 256) as u8);
    out.push((n / 256 / 256 / 256) as u8);
}

/// Append `n` as four bytes, most significant first.
pub fn push_u32_be(out: &mut Vec<u8>, n: u32)
    ensures
        final(out)@ == old(out)@ + big_endian_digits(n as nat, 4),
{
    proof {
        reveal_with_fuel(big_endian_digits, 5);
    }
    out.push((n / 256 / 256 / 256) as u8);
    out.push((n / 256 / 256 % 256) as u8);
    out.push((n / 256 % 256) as u8);
    out.push((n % 256) as u8);
}

/// Reading back the little-endian digits of a number gives the number, as far
/// as the digits reach.
pub proof fn law_little_endian_round_trip(n: nat, width: nat)
    requires
        n < vstd::arithmetic::power::pow(256, width),
    ensures
        little_endian_digits(n, width).len() == width,
        little_endian(little_endian_digits(n, width)) == n,
    decreases width,
{
    reveal(vstd::arithmetic::power::pow);
    if width > 0 {
        let rest = (width - 1) as nat;
        assert(n / 256 < vstd::arithmetic::power::pow(256, rest)) by (nonlinear_arith)
            requires
                n < 256 * vstd::arithmetic::power::pow(256, rest),
        ;
        law_little_endian_round_trip(n / 256, rest);
        let digits = little_endian_digits(n, width);
        assert(digits.drop_first() == little_endian_digits(n / 256, rest));
    }
}

/// Reading back the big-endian digits of a number gives the number, as far as
/// the digits reach.
pub proof fn law_big_endian_round_trip(n: nat, width: nat)
    requires
        n < vstd::arithmetic::power::pow(256, width),
    ensures
        big_endian_digits(n, width).len() == width,
        big_endian(big_endian_digits(n, width)) == n,
    decreases width,
{
    reveal(vstd::arithmetic::power::pow);
    if width > 0 {
        let rest = (width - 1) as nat;
        assert(n / 256 < vstd::arithmetic::power::pow(256, rest)) by (nonlinear_arith)
            requires
                n < 256 * vstd::arithmetic::power::pow(256, rest),
        ;
        law_big_endian_round_trip(n / 256, rest);
        let digits = big_endian_digits(n, width);
        assert(digits.drop_last() == big_endian_digits(n / 256, rest));
    }
}

/// What the bytes of a number weigh, least significant first.
pub proof fn law_little_endian_weights(bytes: Seq<u8>, at: int)
    requires
        0 <= at,
    ensures
        at + 2 <= bytes.len() ==> little_endian(bytes.subrange(at, at + 2)) == bytes[at] + 256
            * bytes[at + 1],
        at + 4 <= bytes.len() ==> little_endian(bytes.subrange(at, at + 4)) == bytes[at] + 256
            * bytes[at + 1] + 65536 * bytes[at + 2] + 16777216 * bytes[at + 3],
{
    reveal_with_fuel(little_endian, 5);
    if at + 4 <= bytes.len() {
        let digits = bytes.subrange(at, at + 4);
        assert(digits.drop_first()[0] == bytes[at + 1]);
        assert(digits.drop_first().drop_first()[0] == bytes[at + 2]);
        assert(digits.drop_first().drop_first().drop_first()[0] == bytes[at + 3]);
    }
}

/// What the bytes of a number weigh, most significant first.
pub proof fn law_big_endian_weights(bytes: Seq<u8>, at: int)
    requires
        0 <= at,
    ensures
        at + 2 <= bytes.len() ==> big_endian(bytes.subrange(at, at + 2)) == 256 * bytes[at]
            + bytes[at + 1],
        at + 4 <= bytes.len() ==> big_endian(bytes.subrange(at, at + 4)) == 16777216 * bytes[at]
            + 65536 * bytes[at + 1] + 256 * bytes[at + 2] + bytes[at + 3],
{
    reveal_with_fuel(big_endian, 5);
    if at + 4 <= bytes.len() {
        let digits = bytes.subrange(at, at + 4);
        assert(digits.drop_last().last() == bytes[at + 2]);
        assert(digits.drop_last().drop_last().last() == bytes[at + 1]);
        assert(digits.drop_last().drop_last().drop_last().last() == bytes[at]);
    }
}

/// The bytes of a number add up to it, each weighed by its place.
pub proof fn law_digits_add_up(short: u16, long: u32)
    ensures
        ({
            let d = little_endian_digits(short as nat, 2);
            d.len() == 2 && d[0] + 256 * d[1] == short
        }),
        ({
            let d = little_endian_digits(long as nat, 4);
            d.len() == 4 && d[0] + 256 * d[1] + 65536 * d[2] + 16777216 * d[3] == long
        }),
        ({
            let d = big_endian_digits(long as nat, 4);
            d.len() == 4 && 16777216 * d[0] + 65536 * d[1] + 256 * d[2] + d[3] == long
        }),
{
    reveal_with_fuel(little_endian_digits, 5);
    reveal_with_fuel(big_endian_digits, 5);
}

/// The list of contents is as long as that of the buffers, and each entry is
/// what its buffer holds.
pub proof fn law_contents_are_what_buffers_hold(buffers: Seq<Vec<u8>>, i: int)
    requires
        0 <= i < buffers.len(),
    ensures
        contents(buffers).len() == buffers.len(),
        contents(buffers)[i] == buffers[i]@,
{
}

} // verus!
