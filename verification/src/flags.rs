//! The flag word: one bit per optional field, and where in the header each
//! present field stands.

use vstd::prelude::*;

verus! {

/// The data link type field is present.
pub const DLT: u16 = 0x0001;

/// The frequency field is present.
pub const FREQ: u16 = 0x0002;

/// The nominal frequency field is present.
pub const NOMFREQ: u16 = 0x0004;

/// The frequency offset field is present.
pub const FREQOFS: u16 = 0x0008;

/// The power units are dBm. Carries no bytes.
pub const ISDBM: u16 = 0x0010;

/// The signal power field is present.
pub const POWER: u16 = 0x0020;

/// The noise power field is present.
pub const NOISE: u16 = 0x0040;

/// The signal-to-noise ratio field is present.
pub const SNR: u16 = 0x0080;

/// The signal quality field is present.
pub const QUAL: u16 = 0x0100;

/// The time standard is UNIX time. Carries no bytes.
pub const ISUNIXTIME: u16 = 0x0200;

/// The time field is present.
pub const TIME: u16 = 0x0400;

/// The duration field is present.
pub const DURATION: u16 = 0x0800;

/// The location field is present.
pub const LOCATION: u16 = 0x1000;

/// Every assigned bit; the three bits above are reserved.
pub const ASSIGNED: u16 = 0x1fff;

/// The first reserved bit: above every field, so the offset "of" it is where
/// the fields end.
pub const RESERVED: u16 = 0x2000;

/// Bytes of the fixed prefix: magic, header length, flag word.
pub const PREFIX_LEN: usize = 8;

/// Whether `flags` has the bit of `mask`.
#[verifier::opaque]
pub open spec fn has_bit(flags: u16, mask: u16) -> bool {
    flags & mask != 0
}

/// `width` if the field of `mask` is present, else nothing.
#[verifier::opaque]
pub open spec fn width_in(flags: u16, mask: u16, width: int) -> int {
    if has_bit(flags, mask) {
        width
    } else {
        0
    }
}

/// What the field of `mask` takes of the bytes before the field of `before`:
/// its width if it is present and comes first in canonical order, else
/// nothing.
pub open spec fn taken(flags: u16, mask: u16, width: int, before: u16) -> int {
    if mask < before {
        width_in(flags, mask, width)
    } else {
        0
    }
}

/// The offset of the field of `mask` in a header with this flag word: the
/// fixed prefix, then every present field of a lower bit, each at its width.
#[verifier::opaque]
pub open spec fn offset_of(flags: u16, mask: u16) -> int {
    8 + taken(flags, DLT, 4, mask) + taken(flags, FREQ, 8, mask) + taken(flags, NOMFREQ, 8, mask)
        + taken(flags, FREQOFS, 8, mask) + taken(flags, POWER, 4, mask) + taken(
        flags,
        NOISE,
        4,
        mask,
    ) + taken(flags, SNR, 4, mask) + taken(flags, QUAL, 4, mask) + taken(flags, TIME, 16, mask)
        + taken(flags, DURATION, 8, mask) + taken(flags, LOCATION, 24, mask)
}

/// Where the fields of a header with this flag word end.
pub open spec fn fields_end(flags: u16) -> int {
    offset_of(flags, RESERVED)
}

/// A field takes its width where it is present, and nothing where it is
/// absent.
pub proof fn lemma_width_in(flags: u16, mask: u16, width: int)
    ensures
        has_bit(flags, mask) ==> width_in(flags, mask, width) == width,
        !has_bit(flags, mask) ==> width_in(flags, mask, width) == 0,
        width >= 0 ==> 0 <= width_in(flags, mask, width) <= width,
{
    reveal(width_in);
}

/// The fields stand one behind the other in canonical order, each present
/// one at its width, from the end of the fixed prefix.
pub proof fn lemma_offsets(flags: u16)
    ensures
        offset_of(flags, DLT) == 8,
        offset_of(flags, FREQ) == offset_of(flags, DLT) + width_in(flags, DLT, 4),
        offset_of(flags, NOMFREQ) == offset_of(flags, FREQ) + width_in(flags, FREQ, 8),
        offset_of(flags, FREQOFS) == offset_of(flags, NOMFREQ) + width_in(flags, NOMFREQ, 8),
        offset_of(flags, POWER) == offset_of(flags, FREQOFS) + width_in(flags, FREQOFS, 8),
        offset_of(flags, NOISE) == offset_of(flags, POWER) + width_in(flags, POWER, 4),
        offset_of(flags, SNR) == offset_of(flags, NOISE) + width_in(flags, NOISE, 4),
        offset_of(flags, QUAL) == offset_of(flags, SNR) + width_in(flags, SNR, 4),
        offset_of(flags, TIME) == offset_of(flags, QUAL) + width_in(flags, QUAL, 4),
        offset_of(flags, DURATION) == offset_of(flags, TIME) + width_in(flags, TIME, 16),
        offset_of(flags, LOCATION) == offset_of(flags, DURATION) + width_in(flags, DURATION, 8),
        fields_end(flags) == offset_of(flags, LOCATION) + width_in(flags, LOCATION, 24),
        offset_of(flags, DLT) <= offset_of(flags, FREQ) <= offset_of(flags, NOMFREQ)
            <= offset_of(flags, FREQOFS)
            <= offset_of(flags, POWER) <= offset_of(flags, NOISE) <= offset_of(flags, SNR)
            <= offset_of(flags, QUAL) <= offset_of(flags, TIME) <= offset_of(flags, DURATION)
            <= offset_of(flags, LOCATION) <= fields_end(flags) <= 100,
{
    reveal(offset_of);
    lemma_width_in(flags, DLT, 4);
    lemma_width_in(flags, FREQ, 8);
    lemma_width_in(flags, NOMFREQ, 8);
    lemma_width_in(flags, FREQOFS, 8);
    lemma_width_in(flags, POWER, 4);
    lemma_width_in(flags, NOISE, 4);
    lemma_width_in(flags, SNR, 4);
    lemma_width_in(flags, QUAL, 4);
    lemma_width_in(flags, TIME, 16);
    lemma_width_in(flags, DURATION, 8);
    lemma_width_in(flags, LOCATION, 24);
}

/// `flags` with the bit of `mask` set if `present`.
pub open spec fn with_bit(flags: u16, present: bool, mask: u16) -> u16 {
    flags | if present {
        mask
    } else {
        0
    }
}

/// A flag word built bit by bit has exactly the bits that were set, and no
/// reserved one.
pub(crate) proof fn lemma_built_bits(
    b0: bool,
    b1: bool,
    b2: bool,
    b3: bool,
    b4: bool,
    b5: bool,
    b6: bool,
    b7: bool,
    b8: bool,
    b9: bool,
    b10: bool,
    b11: bool,
    b12: bool,
)
    by (bit_vector)
    ensures
        ({
            let f = with_bit(0, b0, DLT);
            let f = with_bit(f, b1, FREQ);
            let f = with_bit(f, b2, NOMFREQ);
            let f = with_bit(f, b3, FREQOFS);
            let f = with_bit(f, b4, ISDBM);
            let f = with_bit(f, b5, POWER);
            let f = with_bit(f, b6, NOISE);
            let f = with_bit(f, b7, SNR);
            let f = with_bit(f, b8, QUAL);
            let f = with_bit(f, b9, ISUNIXTIME);
            let f = with_bit(f, b10, TIME);
            let f = with_bit(f, b11, DURATION);
            let f = with_bit(f, b12, LOCATION);
            &&& (f & DLT != 0) == b0
            &&& (f & FREQ != 0) == b1
            &&& (f & NOMFREQ != 0) == b2
            &&& (f & FREQOFS != 0) == b3
            &&& (f & ISDBM != 0) == b4
            &&& (f & POWER != 0) == b5
            &&& (f & NOISE != 0) == b6
            &&& (f & SNR != 0) == b7
            &&& (f & QUAL != 0) == b8
            &&& (f & ISUNIXTIME != 0) == b9
            &&& (f & TIME != 0) == b10
            &&& (f & DURATION != 0) == b11
            &&& (f & LOCATION != 0) == b12
            &&& f & ASSIGNED == f
        }),
{
}

/// Building a flag word from the bits of another gives that word without
/// its reserved bits.
pub(crate) proof fn lemma_rebuilt_bits(w: u16)
    by (bit_vector)
    ensures
        ({
            let f = with_bit(0, (w & DLT != 0), DLT);
            let f = with_bit(f, (w & FREQ != 0), FREQ);
            let f = with_bit(f, (w & NOMFREQ != 0), NOMFREQ);
            let f = with_bit(f, (w & FREQOFS != 0), FREQOFS);
            let f = with_bit(f, (w & ISDBM != 0), ISDBM);
            let f = with_bit(f, (w & POWER != 0), POWER);
            let f = with_bit(f, (w & NOISE != 0), NOISE);
            let f = with_bit(f, (w & SNR != 0), SNR);
            let f = with_bit(f, (w & QUAL != 0), QUAL);
            let f = with_bit(f, (w & ISUNIXTIME != 0), ISUNIXTIME);
            let f = with_bit(f, (w & TIME != 0), TIME);
            let f = with_bit(f, (w & DURATION != 0), DURATION);
            let f = with_bit(f, (w & LOCATION != 0), LOCATION);
            f == w & ASSIGNED
        }),
{
}

/// Tests one bit of the flag word.
pub fn is_set(flags: u16, mask: u16) -> (b: bool)
    ensures
        b == has_bit(flags, mask),
{
    reveal(has_bit);
    flags & mask != 0
}

/// The bytes that the field of `mask` takes in a header with this flag
/// word: its width if it is present, else nothing.
pub fn width_of(flags: u16, mask: u16, width: usize) -> (taken: usize)
    ensures
        taken == width_in(flags, mask, width as int),
{
    proof {
        lemma_width_in(flags, mask, width as int);
    }
    if is_set(flags, mask) {
        width
    } else {
        0
    }
}

/// Computes where the fields of a header with this flag word end.
pub fn end_of_fields(flags: u16) -> (end: usize)
    ensures
        end == fields_end(flags),
        8 <= end <= 100,
{
    proof {
        lemma_offsets(flags);
    }
    let end: usize = PREFIX_LEN + width_of(flags, DLT, 4);
    let end: usize = end + width_of(flags, FREQ, 8);
    let end: usize = end + width_of(flags, NOMFREQ, 8);
    let end: usize = end + width_of(flags, FREQOFS, 8);
    let end: usize = end + width_of(flags, POWER, 4);
    let end: usize = end + width_of(flags, NOISE, 4);
    let end: usize = end + width_of(flags, SNR, 4);
    let end: usize = end + width_of(flags, QUAL, 4);
    let end: usize = end + width_of(flags, TIME, 16);
    let end: usize = end + width_of(flags, DURATION, 8);
    end + width_of(flags, LOCATION, 24)
}

} // verus!
