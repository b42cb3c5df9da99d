//! Little-endian integers: what the bytes of a buffer mean as a number, and
//! the calls into `byteorder` that compute it.

use byteorder::{ByteOrder, LittleEndian};
use vstd::prelude::*;

verus! {

/// The unsigned 16-bit number whose little-endian bytes start at `at`.
pub open spec fn u16_at(s: Seq<u8>, at: int) -> u16
    recommends
        0 <= at,
        at + 2 <= s.len(),
{
    (s[at] as int + 0x100 * (s[at + 1] as int)) as u16
}

/// The unsigned 32-bit number whose little-endian bytes start at `at`.
pub open spec fn u32_at(s: Seq<u8>, at: int) -> u32
    recommends
        0 <= at,
        at + 4 <= s.len(),
{
    (s[at] as int + 0x100 * (s[at + 1] as int) + 0x1_0000 * (s[at + 2] as int) + 0x100_0000 * (s[at
        + 3] as int)) as u32
}

/// The unsigned 64-bit number whose little-endian bytes start at `at`.
pub open spec fn u64_at(s: Seq<u8>, at: int) -> u64
    recommends
        0 <= at,
        at + 8 <= s.len(),
{
    (u32_at(s, at) as int + 0x1_0000_0000 * (u32_at(s, at + 4) as int)) as u64
}

/// The two bytes of `n`, least significant first.
#[verifier::opaque]
pub open spec fn u16_bytes(n: u16) -> Seq<u8> {
    seq![(n % 0x100) as u8, (n / 0x100) as u8]
}

/// The four bytes of `n`, least significant first.
#[verifier::opaque]
pub open spec fn u32_bytes(n: u32) -> Seq<u8> {
    seq![
        (n % 0x100) as u8,
        (n / 0x100 % 0x100) as u8,
        (n / 0x1_0000 % 0x100) as u8,
        (n / 0x100_0000) as u8,
    ]
}

/// The eight bytes of `n`, least significant first.
#[verifier::opaque]
pub open spec fn u64_bytes(n: u64) -> Seq<u8> {
    u32_bytes((n % 0x1_0000_0000) as u32) + u32_bytes((n / 0x1_0000_0000) as u32)
}

/// A 16-bit number has two bytes.
pub proof fn lemma_u16_len(n: u16)
    ensures
        u16_bytes(n).len() == 2,
{
    reveal(u16_bytes);
}

/// A 32-bit number has four bytes.
pub proof fn lemma_u32_len(n: u32)
    ensures
        u32_bytes(n).len() == 4,
{
    reveal(u32_bytes);
}

/// A 64-bit number has eight bytes.
pub proof fn lemma_u64_len(n: u64)
    ensures
        u64_bytes(n).len() == 8,
{
    reveal(u64_bytes);
    lemma_u32_len((n % 0x1_0000_0000) as u32);
    lemma_u32_len((n / 0x1_0000_0000) as u32);
}

/// Reading back the bytes of a 16-bit number gives the number, wherever in a
/// buffer they stand.
pub proof fn lemma_u16_read_back(s: Seq<u8>, at: int, n: u16)
    requires
        0 <= at,
        at + 2 <= s.len(),
        s.subrange(at, at + 2) == u16_bytes(n),
    ensures
        u16_at(s, at) == n,
{
    reveal(u16_bytes);
    let b = s.subrange(at, at + 2);
    assert(b[0] == s[at] && b[1] == s[at + 1]);
}

/// Reading back the bytes of a 32-bit number gives the number.
pub proof fn lemma_u32_read_back(s: Seq<u8>, at: int, n: u32)
    requires
        0 <= at,
        at + 4 <= s.len(),
        s.subrange(at, at + 4) == u32_bytes(n),
    ensures
        u32_at(s, at) == n,
{
    reveal(u32_bytes);
    let b = s.subrange(at, at + 4);
    assert(b[0] == s[at] && b[1] == s[at + 1] && b[2] == s[at + 2] && b[3] == s[at + 3]);
}

/// Reading back the bytes of a 64-bit number gives the number.
pub proof fn lemma_u64_read_back(s: Seq<u8>, at: int, n: u64)
    requires
        0 <= at,
        at + 8 <= s.len(),
        s.subrange(at, at + 8) == u64_bytes(n),
    ensures
        u64_at(s, at) == n,
{
    reveal(u64_bytes);
    let b = s.subrange(at, at + 8);
    let lo = (n % 0x1_0000_0000) as u32;
    let hi = (n / 0x1_0000_0000) as u32;
    lemma_u32_len(lo);
    lemma_u32_len(hi);
    assert(s.subrange(at, at + 4) =~= b.subrange(0, 4));
    assert(s.subrange(at + 4, at + 8) =~= b.subrange(4, 8));
    assert(b.subrange(0, 4) =~= u32_bytes(lo));
    assert(b.subrange(4, 8) =~= u32_bytes(hi));
    lemma_u32_read_back(s, at, lo);
    lemma_u32_read_back(s, at + 4, hi);
}

/// `byteorder::LittleEndian::read_u16`: the number held in the first two
/// bytes of `buf`, least significant byte first. The outside function panics
/// on a shorter buffer, which the precondition leaves out.
#[verifier::external_body]
pub(crate) fn read_u16_le(buf: &[u8]) -> (n: u16)
    requires
        buf@.len() >= 2,
    ensures
        n == u16_at(buf@, 0),
{
    LittleEndian::read_u16(buf)
}

/// `byteorder::LittleEndian::read_u32`: the number held in the first four
/// bytes of `buf`, least significant byte first. The outside function panics
/// on a shorter buffer, which the precondition leaves out.
#[verifier::external_body]
pub(crate) fn read_u32_le(buf: &[u8]) -> (n: u32)
    requires
        buf@.len() >= 4,
    ensures
        n == u32_at(buf@, 0),
{
    LittleEndian::read_u32(buf)
}

/// `byteorder::LittleEndian::read_u64`: the number held in the first eight
/// bytes of `buf`, least significant byte first. The outside function panics
/// on a shorter buffer, which the precondition leaves out.
#[verifier::external_body]
pub(crate) fn read_u64_le(buf: &[u8]) -> (n: u64)
    requires
        buf@.len() >= 8,
    ensures
        n == u64_at(buf@, 0),
{
    LittleEndian::read_u64(buf)
}

/// `byteorder::LittleEndian::write_u16`, on a fresh buffer of two bytes: the
/// bytes of `n`, least significant first.
#[verifier::external_body]
pub(crate) fn u16_to_le(n: u16) -> (out: [u8; 2])
    ensures
        out@ == u16_bytes(n),
{
    let mut out = [0u8; 2];
    LittleEndian::write_u16(&mut out, n);
    out
}

/// `byteorder::LittleEndian::write_u32`, on a fresh buffer of four bytes: the
/// bytes of `n`, least significant first.
#[verifier::external_body]
pub(crate) fn u32_to_le(n: u32) -> (out: [u8; 4])
    ensures
        out@ == u32_bytes(n),
{
    let mut out = [0u8; 4];
    LittleEndian::write_u32(&mut out, n);
    out
}

/// `byteorder::LittleEndian::write_u64`, on a fresh buffer of eight bytes: the
/// bytes of `n`, least significant first.
#[verifier::external_body]
pub(crate) fn u64_to_le(n: u64) -> (out: [u8; 8])
    ensures
        out@ == u64_bytes(n),
{
    let mut out = [0u8; 8];
    LittleEndian::write_u64(&mut out, n);
    out
}

} // verus!
