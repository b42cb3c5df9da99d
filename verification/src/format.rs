//! The wire format, stated over byte sequences: which packet a buffer holds,
//! and which bytes a packet is written as.

use crate::flags::{
    fields_end, has_bit, lemma_built_bits, offset_of, with_bit, ASSIGNED, DLT, DURATION, FREQ,
    FREQOFS, ISDBM, ISUNIXTIME, LOCATION, NOISE, NOMFREQ, POWER, QUAL, SNR, TIME,
};
use crate::le::{
    lemma_u16_len, lemma_u32_len, lemma_u64_len, u16_at, u16_bytes, u32_at, u32_bytes, u64_at,
    u64_bytes,
};
use crate::packet::{DecodeError, EncodeError, PacketView, TagView};
use vstd::prelude::*;

verus! {

/// The magic word, "RFta".
pub open spec fn magic() -> Seq<u8> {
    seq![0x52u8, 0x46u8, 0x74u8, 0x61u8]
}

/// The header length that a buffer declares, in bytes. On the wire it is
/// counted in units of four bytes.
pub open spec fn declared_len(b: Seq<u8>) -> int {
    4 * (u16_at(b, 4) as int)
}

/// The flag word of a buffer.
pub open spec fn declared_flags(b: Seq<u8>) -> u16 {
    u16_at(b, 6)
}

/// The 32-bit field of `mask`, if the flag word announces it.
pub open spec fn field_u32(b: Seq<u8>, flags: u16, mask: u16) -> Option<u32> {
    if has_bit(flags, mask) {
        Some(u32_at(b, offset_of(flags, mask)))
    } else {
        None
    }
}

/// The 64-bit field of `mask`, if the flag word announces it.
pub open spec fn field_u64(b: Seq<u8>, flags: u16, mask: u16) -> Option<u64> {
    if has_bit(flags, mask) {
        Some(u64_at(b, offset_of(flags, mask)))
    } else {
        None
    }
}

/// The time field, whole seconds and then the fraction, if announced.
pub open spec fn field_time(b: Seq<u8>, flags: u16) -> Option<(u64, u64)> {
    if has_bit(flags, TIME) {
        let at = offset_of(flags, TIME);
        Some((u64_at(b, at), u64_at(b, at + 8)))
    } else {
        None
    }
}

/// The location field, latitude, longitude and altitude, if announced.
pub open spec fn field_location(b: Seq<u8>, flags: u16) -> Option<(u64, u64, u64)> {
    if has_bit(flags, LOCATION) {
        let at = offset_of(flags, LOCATION);
        Some((u64_at(b, at), u64_at(b, at + 8), u64_at(b, at + 16)))
    } else {
        None
    }
}

/// The tag that starts at `at`.
pub open spec fn tag_at(b: Seq<u8>, at: int) -> TagView {
    TagView {
        id: u16_at(b, at),
        flags: b[at + 3],
        value: b.subrange(at + 4, at + 4 + (b[at + 2] as int)),
    }
}

/// The tags that stand between `from` and the header boundary `to`: one after
/// the other while four bytes or more are left. Fewer are padding. `None` if
/// a tag's value would cross the boundary.
pub open spec fn tags_in(b: Seq<u8>, from: int, to: int) -> Option<Seq<TagView>>
    decreases to - from,
{
    if to - from < 4 {
        Some(Seq::empty())
    } else {
        let next = from + 4 + (b[from + 2] as int);
        if next > to {
            None
        } else {
            match tags_in(b, next, to) {
                Some(rest) => Some(seq![tag_at(b, from)] + rest),
                None => None,
            }
        }
    }
}

/// The packet that a buffer holds, or why it holds none.
pub open spec fn decoding(b: Seq<u8>) -> Result<PacketView, DecodeError> {
    let flags = declared_flags(b);
    let boundary = declared_len(b);
    if b.len() < 8 {
        Err(DecodeError::FramingError)
    } else if b.subrange(0, 4) != magic() {
        Err(DecodeError::MagicMismatch)
    } else if b.len() < boundary || boundary < fields_end(flags) {
        Err(DecodeError::FramingError)
    } else {
        match tags_in(b, fields_end(flags), boundary) {
            None => Err(DecodeError::TagOverrun),
            Some(tags) => Ok(
                PacketView {
                    dlt: field_u32(b, flags, DLT),
                    freq: field_u64(b, flags, FREQ),
                    nomfreq: field_u64(b, flags, NOMFREQ),
                    freqofs: field_u64(b, flags, FREQOFS),
                    isdbm: has_bit(flags, ISDBM),
                    power: field_u32(b, flags, POWER),
                    noise: field_u32(b, flags, NOISE),
                    snr: field_u32(b, flags, SNR),
                    isunixtime: has_bit(flags, ISUNIXTIME),
                    qual: field_u32(b, flags, QUAL),
                    time: field_time(b, flags),
                    duration: field_u64(b, flags, DURATION),
                    location: field_location(b, flags),
                    tags,
                    payload: b.subrange(boundary, b.len() as int),
                },
            ),
        }
    }
}

/// The flag word of a packet: the bit of each field that is present, and of
/// each mode that is on. The reserved bits stay clear.
pub open spec fn flag_word(p: PacketView) -> u16 {
    let f = with_bit(0, p.dlt is Some, DLT);
    let f = with_bit(f, p.freq is Some, FREQ);
    let f = with_bit(f, p.nomfreq is Some, NOMFREQ);
    let f = with_bit(f, p.freqofs is Some, FREQOFS);
    let f = with_bit(f, p.isdbm, ISDBM);
    let f = with_bit(f, p.power is Some, POWER);
    let f = with_bit(f, p.noise is Some, NOISE);
    let f = with_bit(f, p.snr is Some, SNR);
    let f = with_bit(f, p.qual is Some, QUAL);
    let f = with_bit(f, p.isunixtime, ISUNIXTIME);
    let f = with_bit(f, p.time is Some, TIME);
    let f = with_bit(f, p.duration is Some, DURATION);
    with_bit(f, p.location is Some, LOCATION)
}

/// Whether the flag word `f` has the bit of each field exactly where the
/// packet has the field, the bit of each mode exactly where it is on, and no
/// reserved bit.
pub open spec fn flags_match_fields(f: u16, p: PacketView) -> bool {
    &&& has_bit(f, DLT) <==> p.dlt is Some
    &&& has_bit(f, FREQ) <==> p.freq is Some
    &&& has_bit(f, NOMFREQ) <==> p.nomfreq is Some
    &&& has_bit(f, FREQOFS) <==> p.freqofs is Some
    &&& has_bit(f, ISDBM) <==> p.isdbm
    &&& has_bit(f, POWER) <==> p.power is Some
    &&& has_bit(f, NOISE) <==> p.noise is Some
    &&& has_bit(f, SNR) <==> p.snr is Some
    &&& has_bit(f, QUAL) <==> p.qual is Some
    &&& has_bit(f, ISUNIXTIME) <==> p.isunixtime
    &&& has_bit(f, TIME) <==> p.time is Some
    &&& has_bit(f, DURATION) <==> p.duration is Some
    &&& has_bit(f, LOCATION) <==> p.location is Some
    &&& f & ASSIGNED == f
}

/// The flag word of a packet says which of its fields are present.
pub proof fn lemma_flag_word(p: PacketView)
    ensures
        flags_match_fields(flag_word(p), p),
{
    lemma_built_bits(
        p.dlt is Some,
        p.freq is Some,
        p.nomfreq is Some,
        p.freqofs is Some,
        p.isdbm,
        p.power is Some,
        p.noise is Some,
        p.snr is Some,
        p.qual is Some,
        p.isunixtime,
        p.time is Some,
        p.duration is Some,
        p.location is Some,
    );
    reveal(has_bit);
}

/// The bytes of a 32-bit field: none if it is absent.
pub open spec fn bytes_u32(f: Option<u32>) -> Seq<u8> {
    match f {
        Some(n) => u32_bytes(n),
        None => Seq::empty(),
    }
}

/// The bytes of a 64-bit field: none if it is absent.
pub open spec fn bytes_u64(f: Option<u64>) -> Seq<u8> {
    match f {
        Some(n) => u64_bytes(n),
        None => Seq::empty(),
    }
}

/// The bytes of the time field: whole seconds, then the fraction.
pub open spec fn bytes_time(f: Option<(u64, u64)>) -> Seq<u8> {
    match f {
        Some((whole, fraction)) => u64_bytes(whole) + u64_bytes(fraction),
        None => Seq::empty(),
    }
}

/// The bytes of the location field: latitude, longitude, altitude.
pub open spec fn bytes_location(f: Option<(u64, u64, u64)>) -> Seq<u8> {
    match f {
        Some((lat, lon, alt)) => u64_bytes(lat) + u64_bytes(lon) + u64_bytes(alt),
        None => Seq::empty(),
    }
}

/// The bytes of the present fields, in canonical order.
pub open spec fn field_bytes(p: PacketView) -> Seq<u8> {
    bytes_u32(p.dlt) + bytes_u64(p.freq) + bytes_u64(p.nomfreq) + bytes_u64(p.freqofs) + bytes_u32(
        p.power,
    ) + bytes_u32(p.noise) + bytes_u32(p.snr) + bytes_u32(p.qual) + bytes_time(p.time) + bytes_u64(
        p.duration,
    ) + bytes_location(p.location)
}

/// The bytes of one tag: identifier, length of the value, flag byte, value.
pub open spec fn tag_bytes(t: TagView) -> Seq<u8> {
    u16_bytes(t.id) + seq![t.value.len() as u8, t.flags] + t.value
}

/// The bytes of a sequence of tags, one after the other.
pub open spec fn tags_bytes(tags: Seq<TagView>) -> Seq<u8>
    decreases tags.len(),
{
    if tags.len() == 0 {
        Seq::empty()
    } else {
        tags_bytes(tags.drop_last()) + tag_bytes(tags.last())
    }
}

/// The bytes of tags grow with each tag that is added behind.
pub proof fn lemma_tags_bytes_push(tags: Seq<TagView>, tag: TagView)
    ensures
        tags_bytes(tags.push(tag)) == tags_bytes(tags) + tag_bytes(tag),
        tags_bytes(tags.push(tag)).len() == tags_bytes(tags).len() + 4 + tag.value.len(),
{
    assert(tags.push(tag).drop_last() =~= tags);
    lemma_u16_len(tag.id);
}

/// The first tags of a sequence take no more bytes than all of them.
pub proof fn lemma_tags_bytes_prefix(tags: Seq<TagView>, n: int)
    requires
        0 <= n <= tags.len(),
    ensures
        tags_bytes(tags.take(n)).len() <= tags_bytes(tags).len(),
    decreases tags.len(),
{
    if n < tags.len() {
        lemma_tags_bytes_prefix(tags.drop_last(), n);
        assert(tags.drop_last().take(n) =~= tags.take(n));
    } else {
        assert(tags.take(n) =~= tags);
    }
}

/// How many zero bytes fill `len` bytes of tags up to a multiple of four.
pub open spec fn padding_len(len: int) -> int {
    (4 - len % 4) % 4
}

/// `units` if a field is present, else nothing.
#[verifier::opaque]
pub open spec fn units_if(present: bool, units: int) -> int {
    if present {
        units
    } else {
        0
    }
}

/// The length of the fixed prefix and the present fields, in units of four
/// bytes: two for the prefix, and for each field its width.
pub open spec fn field_units(p: PacketView) -> int {
    2 + units_if(p.dlt is Some, 1) + units_if(p.freq is Some, 2) + units_if(p.nomfreq is Some, 2)
        + units_if(p.freqofs is Some, 2) + units_if(p.power is Some, 1) + units_if(
        p.noise is Some,
        1,
    ) + units_if(p.snr is Some, 1) + units_if(p.qual is Some, 1) + units_if(p.time is Some, 4)
        + units_if(p.duration is Some, 2) + units_if(p.location is Some, 6)
}

/// The length of a packet's header in bytes: prefix, fields, tags, padding.
pub open spec fn header_len(p: PacketView) -> int {
    let tags = tags_bytes(p.tags).len() as int;
    4 * field_units(p) + tags + padding_len(tags)
}

/// A 32-bit field takes one unit if it is present, none if it is absent.
pub proof fn lemma_len_u32(f: Option<u32>)
    ensures
        bytes_u32(f).len() == 4 * units_if(f is Some, 1),
        0 <= units_if(f is Some, 1) <= 1,
{
    reveal(units_if);
    if let Some(n) = f {
        lemma_u32_len(n);
    }
}

/// A 64-bit field takes two units if it is present, none if it is absent.
pub proof fn lemma_len_u64(f: Option<u64>)
    ensures
        bytes_u64(f).len() == 4 * units_if(f is Some, 2),
        0 <= units_if(f is Some, 2) <= 2,
{
    reveal(units_if);
    if let Some(n) = f {
        lemma_u64_len(n);
    }
}

/// The time field takes four units if it is present, none if it is absent.
pub proof fn lemma_len_time(f: Option<(u64, u64)>)
    ensures
        bytes_time(f).len() == 4 * units_if(f is Some, 4),
        0 <= units_if(f is Some, 4) <= 4,
{
    reveal(units_if);
    if let Some((whole, fraction)) = f {
        lemma_u64_len(whole);
        lemma_u64_len(fraction);
    }
}

/// The location field takes six units if it is present, none if it is
/// absent.
pub proof fn lemma_len_location(f: Option<(u64, u64, u64)>)
    ensures
        bytes_location(f).len() == 4 * units_if(f is Some, 6),
        0 <= units_if(f is Some, 6) <= 6,
{
    reveal(units_if);
    if let Some((lat, lon, alt)) = f {
        lemma_u64_len(lat);
        lemma_u64_len(lon);
        lemma_u64_len(alt);
    }
}

/// The fixed prefix and the fields take between two and twenty-five units.
pub proof fn lemma_units_bounds(p: PacketView)
    ensures
        2 <= field_units(p) <= 25,
{
    lemma_len_u32(p.dlt);
    lemma_len_u64(p.freq);
    lemma_len_u64(p.nomfreq);
    lemma_len_u64(p.freqofs);
    lemma_len_u32(p.power);
    lemma_len_u32(p.noise);
    lemma_len_u32(p.snr);
    lemma_len_u32(p.qual);
    lemma_len_time(p.time);
    lemma_len_u64(p.duration);
    lemma_len_location(p.location);
}

/// Each field of a packet takes the bytes of its units.
pub proof fn lemma_field_lens(p: PacketView)
    ensures
        bytes_u32(p.dlt).len() == 4 * units_if(p.dlt is Some, 1),
        bytes_u64(p.freq).len() == 4 * units_if(p.freq is Some, 2),
        bytes_u64(p.nomfreq).len() == 4 * units_if(p.nomfreq is Some, 2),
        bytes_u64(p.freqofs).len() == 4 * units_if(p.freqofs is Some, 2),
        bytes_u32(p.power).len() == 4 * units_if(p.power is Some, 1),
        bytes_u32(p.noise).len() == 4 * units_if(p.noise is Some, 1),
        bytes_u32(p.snr).len() == 4 * units_if(p.snr is Some, 1),
        bytes_u32(p.qual).len() == 4 * units_if(p.qual is Some, 1),
        bytes_time(p.time).len() == 4 * units_if(p.time is Some, 4),
        bytes_u64(p.duration).len() == 4 * units_if(p.duration is Some, 2),
        bytes_location(p.location).len() == 4 * units_if(p.location is Some, 6),
{
    lemma_len_u32(p.dlt);
    lemma_len_u64(p.freq);
    lemma_len_u64(p.nomfreq);
    lemma_len_u64(p.freqofs);
    lemma_len_u32(p.power);
    lemma_len_u32(p.noise);
    lemma_len_u32(p.snr);
    lemma_len_u32(p.qual);
    lemma_len_time(p.time);
    lemma_len_u64(p.duration);
    lemma_len_location(p.location);
}

/// The bytes of the fields are as many as their units say.
pub proof fn lemma_field_bytes_len(p: PacketView)
    ensures
        8 + field_bytes(p).len() == 4 * field_units(p),
{
    lemma_field_lens(p);
}

/// Whether the value of each tag fits the one byte that says its length.
pub open spec fn tags_fit(tags: Seq<TagView>) -> bool {
    forall|i: int| 0 <= i < tags.len() ==> (#[trigger] tags[i]).value.len() <= 255
}

/// The longest header that the 16-bit length can declare, in bytes.
pub const MAX_HEADER_LEN: usize = 0x3fffc;

/// Whether a packet can be written: each tag's value fits its one-byte
/// length, and the header fits its 16-bit length in units of four bytes.
pub open spec fn encodable(p: PacketView) -> bool {
    &&& tags_fit(p.tags)
    &&& header_len(p) <= MAX_HEADER_LEN
}

/// The bytes that a packet is written as: the magic word, the header length
/// in units of four bytes, the flag word, the present fields, the tags,
/// padding with zeros up to a whole unit, and the payload.
pub open spec fn encoding(p: PacketView) -> Seq<u8> {
    let tags = tags_bytes(p.tags);
    magic() + u16_bytes((header_len(p) / 4) as u16) + u16_bytes(flag_word(p)) + field_bytes(p)
        + tags + Seq::new(padding_len(tags.len() as int) as nat, |i: int| 0u8) + p.payload
}

/// What writing a packet gives: its bytes, or why it has none. A tag too
/// long is reported before a header too long.
pub open spec fn encoded(p: PacketView) -> Result<Seq<u8>, EncodeError> {
    if !tags_fit(p.tags) {
        Err(EncodeError::TagTooLong)
    } else if header_len(p) > MAX_HEADER_LEN {
        Err(EncodeError::HeaderTooLong)
    } else {
        Ok(encoding(p))
    }
}

} // verus!
