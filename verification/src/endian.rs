//! Big-endian integers, as the image format and the machine's memory
//! instructions lay them out.
//!
//! The spec functions say what the bytes mean. The executable functions call
//! `byteorder`; each one's contract restates what that crate documents, and is
//! believed rather than proved.

use byteorder::{BigEndian, ByteOrder};
use vstd::prelude::*;

verus! {

/// The number spelled by the first two bytes, high byte first.
pub open spec fn be16(bytes: Seq<u8>) -> int {
    bytes[0] as int * 0x100 + bytes[1] as int
}

/// The number spelled by the first four bytes, high byte first.
pub open spec fn be32(bytes: Seq<u8>) -> int {
    bytes[0] as int * 0x100_0000 + bytes[1] as int * 0x1_0000 + bytes[2] as int * 0x100
        + bytes[3] as int
}

/// The two bytes of `n`, high byte first. `n` is taken modulo 2^16.
pub open spec fn be16_bytes(n: int) -> Seq<u8> {
    seq![((n / 0x100) % 0x100) as u8, (n % 0x100) as u8]
}

/// The four bytes of `n`, high byte first. `n` is taken modulo 2^32.
pub open spec fn be32_bytes(n: int) -> Seq<u8> {
    seq![
        ((n / 0x100_0000) % 0x100) as u8,
        ((n / 0x1_0000) % 0x100) as u8,
        ((n / 0x100) % 0x100) as u8,
        (n % 0x100) as u8,
    ]
}

/// A 16-bit pattern read as a two's-complement number.
pub open spec fn signed16(u: int) -> int {
    if u % 0x1_0000 >= 0x8000 {
        u % 0x1_0000 - 0x1_0000
    } else {
        u % 0x1_0000
    }
}

/// The number of sixteen bits that stands for `x`: `x` modulo 2^16, as a
/// signed number.
pub open spec fn wrap16(x: int) -> i16 {
    signed16(x) as i16
}

/// A 32-bit pattern read as a two's-complement number.
pub open spec fn signed32(u: int) -> int {
    if u % 0x1_0000_0000 >= 0x8000_0000 {
        u % 0x1_0000_0000 - 0x1_0000_0000
    } else {
        u % 0x1_0000_0000
    }
}

/// Reading back what was written gives the number again.
pub proof fn lemma_be16_round_trip(n: int)
    requires
        0 <= n < 0x1_0000,
    ensures
        be16(be16_bytes(n)) == n,
{
}

/// Reading back what was written gives the number again.
pub proof fn lemma_be32_round_trip(n: int)
    requires
        0 <= n < 0x1_0000_0000,
    ensures
        be32(be32_bytes(n)) == n,
{
}

/// The two bytes of a number depend only on its low sixteen bits, and spell
/// those.
pub proof fn lemma_be16_low(x: int)
    ensures
        be16_bytes(x) == be16_bytes(x % 0x1_0000),
        be16(be16_bytes(x)) == x % 0x1_0000,
{
    let r = x % 0x1_0000;
    let q = x / 0x1_0000;
    assert(x == 0x1_0000 * q + r);
    assert(x / 0x100 == 0x100 * q + r / 0x100);
    assert((x / 0x100) % 0x100 == r / 0x100);
    assert(x % 0x100 == r % 0x100);
    assert((r / 0x100) % 0x100 == r / 0x100);
    assert(be16_bytes(x) =~= be16_bytes(r));
}

/// Byte `k` of a number, counted from the least significant, depends only
/// on the number's low thirty-two bits, for `k` below four.
proof fn lemma_byte_low(x: int, c: int)
    requires
        c == 1 || c == 0x100 || c == 0x1_0000 || c == 0x100_0000,
    ensures
        (x / c) % 0x100 == ((x % 0x1_0000_0000) / c) % 0x100,
{
    let r = x % 0x1_0000_0000;
    let q = x / 0x1_0000_0000;
    let k: int = 0x1_0000_0000int / c;
    assert(k * c == 0x1_0000_0000);
    let hi = k * q + r / c;
    assert(x == hi * c + r % c) by {
        assert(x == 0x1_0000_0000 * q + r);
        assert(r == c * (r / c) + r % c);
        assert(hi * c == k * q * c + (r / c) * c) by (nonlinear_arith)
            requires
                hi == k * q + r / c,
        ;
        assert(k * q * c == 0x1_0000_0000 * q) by (nonlinear_arith)
            requires
                k * c == 0x1_0000_0000,
        ;
    }
    vstd::arithmetic::div_mod::lemma_fundamental_div_mod_converse(x, c, hi, r % c);
    assert(k % 0x100 == 0);
    let j = k / 0x100;
    assert(k == j * 0x100);
    assert(hi == (j * q) * 0x100 + r / c) by (nonlinear_arith)
        requires
            hi == k * q + r / c,
            k == j * 0x100,
    ;
    let d = r / c;
    vstd::arithmetic::div_mod::lemma_fundamental_div_mod_converse(
        hi,
        0x100,
        j * q + d / 0x100,
        d % 0x100,
    );
}

/// The four bytes of a number depend only on its low thirty-two bits, and
/// spell those.
pub proof fn lemma_be32_low(x: int)
    ensures
        be32_bytes(x) == be32_bytes(x % 0x1_0000_0000),
        be32(be32_bytes(x)) == x % 0x1_0000_0000,
{
    let r = x % 0x1_0000_0000;
    lemma_byte_low(x, 0x100_0000);
    lemma_byte_low(x, 0x1_0000);
    lemma_byte_low(x, 0x100);
    lemma_byte_low(x, 1);
    assert(be32_bytes(x) =~= be32_bytes(r));
    lemma_be32_round_trip(r);
}

/// Calls `byteorder::BigEndian::read_u16`. Believed: it returns the number
/// whose high byte is `buf[0]` and whose low byte is `buf[1]`; it panics on a
/// buffer shorter than two bytes, which `requires` rules out.
#[verifier::external_body]
pub(crate) fn read_u16(buf: &[u8]) -> (n: u16)
    requires
        buf@.len() >= 2,
    ensures
        n == be16(buf@),
{
    BigEndian::read_u16(buf)
}

/// Calls `byteorder::BigEndian::read_i16`. Believed: it returns the first two
/// bytes, high byte first, read as a two's-complement number; it panics on a
/// buffer shorter than two bytes, which `requires` rules out.
#[verifier::external_body]
pub(crate) fn read_i16(buf: &[u8]) -> (n: i16)
    requires
        buf@.len() >= 2,
    ensures
        n == signed16(be16(buf@)),
{
    BigEndian::read_i16(buf)
}

/// Calls `byteorder::BigEndian::read_u32`. Believed: it returns the number
/// spelled by the first four bytes, high byte first; it panics on a buffer
/// shorter than four bytes, which `requires` rules out.
#[verifier::external_body]
pub(crate) fn read_u32(buf: &[u8]) -> (n: u32)
    requires
        buf@.len() >= 4,
    ensures
        n == be32(buf@),
{
    BigEndian::read_u32(buf)
}

/// Calls `byteorder::BigEndian::read_i32`. Believed: it returns the first
/// four bytes, high byte first, read as a two's-complement number; it panics
/// on a buffer shorter than four bytes, which `requires` rules out.
#[verifier::external_body]
pub(crate) fn read_i32(buf: &[u8]) -> (n: i32)
    requires
        buf@.len() >= 4,
    ensures
        n == signed32(be32(buf@)),
{
    BigEndian::read_i32(buf)
}

/// Calls `byteorder::BigEndian::write_u16`. Believed: it overwrites the first
/// two bytes with `n`, high byte first, and leaves the rest alone; it panics
/// on a buffer shorter than two bytes, which `requires` rules out.
#[verifier::external_body]
pub(crate) fn write_u16(buf: &mut [u8], n: u16)
    requires
        old(buf)@.len() >= 2,
    ensures
        final(buf)@ == be16_bytes(n as int) + old(buf)@.subrange(2, old(buf)@.len() as int),
{
    BigEndian::write_u16(buf, n)
}

/// Calls `byteorder::BigEndian::write_i16`. Believed: it overwrites the first
/// two bytes with the two's-complement pattern of `n`, high byte first, and
/// leaves the rest alone; it panics on a buffer shorter than two bytes, which
/// `requires` rules out.
#[verifier::external_body]
pub(crate) fn write_i16(buf: &mut [u8], n: i16)
    requires
        old(buf)@.len() >= 2,
    ensures
        final(buf)@ == be16_bytes(n as int) + old(buf)@.subrange(2, old(buf)@.len() as int),
{
    BigEndian::write_i16(buf, n)
}

/// Calls `byteorder::BigEndian::write_u32`. Believed: it overwrites the first
/// four bytes with `n`, high byte first, and leaves the rest alone; it panics
/// on a buffer shorter than four bytes, which `requires` rules out.
#[verifier::external_body]
pub(crate) fn write_u32(buf: &mut [u8], n: u32)
    requires
        old(buf)@.len() >= 4,
    ensures
        final(buf)@ == be32_bytes(n as int) + old(buf)@.subrange(4, old(buf)@.len() as int),
{
    BigEndian::write_u32(buf, n)
}

/// Calls `byteorder::BigEndian::write_i32`. Believed: it overwrites the first
/// four bytes with the two's-complement pattern of `n`, high byte first, and
/// leaves the rest alone; it panics on a buffer shorter than four bytes,
/// which `requires` rules out.
#[verifier::external_body]
pub(crate) fn write_i32(buf: &mut [u8], n: i32)
    requires
        old(buf)@.len() >= 4,
    ensures
        final(buf)@ == be32_bytes(n as int) + old(buf)@.subrange(4, old(buf)@.len() as int),
{
    BigEndian::write_i32(buf, n)
}

} // verus!
