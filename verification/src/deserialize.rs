//! Reading a packet from a buffer.

use crate::flags::{
    end_of_fields, is_set, lemma_offsets, lemma_width_in, offset_of, width_in, DLT, DURATION, FREQ,
    FREQOFS, ISDBM, ISUNIXTIME, LOCATION, NOISE, NOMFREQ, POWER, QUAL, SNR, TIME,
};
use crate::format::{decoding, field_location, field_time, field_u32, field_u64, tag_at, tags_in};
use crate::le::{read_u16_le, read_u32_le, read_u64_le, u16_at, u32_at, u64_at};
use crate::packet::{tag_views, DecodeError, PacketView, RFTapPacket, Tag, TagView};
use vstd::prelude::*;
use vstd::slice::slice_subrange;

verus! {

/// What the tags from the start of the tag area are, given those read so far
/// and what the rest of the area holds.
pub open spec fn tags_so_far(read: Seq<TagView>, rest: Option<Seq<TagView>>) -> Option<
    Seq<TagView>,
> {
    match rest {
        Some(more) => Some(read + more),
        None => None,
    }
}

/// Reads the 16-bit number at `at`.
fn u16_from(input: &[u8], at: usize) -> (n: u16)
    requires
        at + 2 <= input@.len(),
        at + 2 <= usize::MAX,
    ensures
        n == u16_at(input@, at as int),
{
    read_u16_le(slice_subrange(input, at, at + 2))
}

/// Reads the 32-bit number at `at`.
fn u32_from(input: &[u8], at: usize) -> (n: u32)
    requires
        at + 4 <= input@.len(),
        at + 4 <= usize::MAX,
    ensures
        n == u32_at(input@, at as int),
{
    read_u32_le(slice_subrange(input, at, at + 4))
}

/// Reads the 64-bit number at `at`.
fn u64_from(input: &[u8], at: usize) -> (n: u64)
    requires
        at + 8 <= input@.len(),
        at + 8 <= usize::MAX,
    ensures
        n == u64_at(input@, at as int),
{
    read_u64_le(slice_subrange(input, at, at + 8))
}

/// The 32-bit field of `mask` if the flag word announces it, read at the
/// cursor `at`, and the cursor behind it.
fn take_u32(input: &[u8], flags: u16, mask: u16, at: usize) -> (r: (Option<u32>, usize))
    requires
        at == offset_of(flags, mask),
        at + width_in(flags, mask, 4) <= input@.len(),
        at + 4 <= usize::MAX,
    ensures
        r.0 == field_u32(input@, flags, mask),
        r.1 == at + width_in(flags, mask, 4),
{
    proof {
        lemma_width_in(flags, mask, 4);
    }
    if is_set(flags, mask) {
        (Some(u32_from(input, at)), at + 4)
    } else {
        (None, at)
    }
}

/// The 64-bit field of `mask` if the flag word announces it, read at the
/// cursor `at`, and the cursor behind it.
fn take_u64(input: &[u8], flags: u16, mask: u16, at: usize) -> (r: (Option<u64>, usize))
    requires
        at == offset_of(flags, mask),
        at + width_in(flags, mask, 8) <= input@.len(),
        at + 8 <= usize::MAX,
    ensures
        r.0 == field_u64(input@, flags, mask),
        r.1 == at + width_in(flags, mask, 8),
{
    proof {
        lemma_width_in(flags, mask, 8);
    }
    if is_set(flags, mask) {
        (Some(u64_from(input, at)), at + 8)
    } else {
        (None, at)
    }
}

/// The time field if the flag word announces it: two doubles, whole seconds
/// and the fraction of a second.
fn take_time(input: &[u8], flags: u16, at: usize) -> (r: (Option<(u64, u64)>, usize))
    requires
        at == offset_of(flags, TIME),
        at + width_in(flags, TIME, 16) <= input@.len(),
        at + 16 <= usize::MAX,
    ensures
        r.0 == field_time(input@, flags),
        r.1 == at + width_in(flags, TIME, 16),
{
    proof {
        lemma_width_in(flags, TIME, 16);
    }
    if is_set(flags, TIME) {
        let int_part: u64 = u64_from(input, at);
        let frac_part: u64 = u64_from(input, at + 8);
        (Some((int_part, frac_part)), at + 16)
    } else {
        (None, at)
    }
}

/// The location field if the flag word announces it: three doubles, latitude,
/// longitude and altitude.
fn take_location(input: &[u8], flags: u16, at: usize) -> (r: (Option<(u64, u64, u64)>, usize))
    requires
        at == offset_of(flags, LOCATION),
        at + width_in(flags, LOCATION, 24) <= input@.len(),
        at + 24 <= usize::MAX,
    ensures
        r.0 == field_location(input@, flags),
        r.1 == at + width_in(flags, LOCATION, 24),
{
    proof {
        lemma_width_in(flags, LOCATION, 24);
    }
    if is_set(flags, LOCATION) {
        let lat: u64 = u64_from(input, at);
        let lon: u64 = u64_from(input, at + 8);
        let alt: u64 = u64_from(input, at + 16);
        (Some((lat, lon, alt)), at + 24)
    } else {
        (None, at)
    }
}

/// Reads the tags that stand in `input` between `from` and the header
/// boundary `to`, or nothing if one of them crosses the boundary. Fewer than
/// four bytes before the boundary are passed over.
fn read_tags<'a>(input: &'a [u8], from: usize, to: usize) -> (r: Option<Vec<Tag<'a>>>)
    requires
        from <= to <= input@.len(),
    ensures
        match r {
            Some(tags) => tags_in(input@, from as int, to as int) == Some(tag_views(tags@)),
            None => tags_in(input@, from as int, to as int) is None,
        },
{
    let mut tags: Vec<Tag<'a>> = Vec::new();
    let mut current_position: usize = from;
    proof {
        match tags_in(input@, from as int, to as int) {
            Some(all) => {
                assert(tag_views(tags@) + all =~= all);
            },
            None => {},
        }
    }
    while to - current_position >= 4
        invariant
            from <= current_position <= to <= input@.len(),
            tags_in(input@, from as int, to as int) == tags_so_far(
                tag_views(tags@),
                tags_in(input@, current_position as int, to as int),
            ),
        decreases to - current_position,
    {
        let id: u16 = u16_from(input, current_position);
        let length: usize = input[current_position + 2] as usize;
        let tag_flags: u8 = input[current_position + 3];
        if length > to - current_position - 4 {
            return None;
        }
        let value: &'a [u8] = slice_subrange(
            input,
            current_position + 4,
            current_position + 4 + length,
        );
        let tag = Tag { id, flags: tag_flags, value };
        proof {
            let next = current_position + 4 + length;
            let read = tag_views(tags@);
            assert(tag@ == tag_at(input@, current_position as int));
            assert(tag_views(tags@.push(tag)) =~= read + seq![tag@]);
            match tags_in(input@, next, to as int) {
                Some(more) => {
                    assert(read + (seq![tag@] + more) =~= (read + seq![tag@]) + more);
                },
                None => {},
            }
        }
        tags.push(tag);
        current_position += 4 + length;
    }
    assert(tag_views(tags@) + Seq::<TagView>::empty() =~= tag_views(tags@));
    Some(tags)
}

impl<'a> RFTapPacket<'a> {
    /// Reads the packet at the start of `input`: the header up to the length
    /// that it declares, and everything behind it as the payload, which is
    /// borrowed from `input`, as are the values of the tags.
    ///
    /// Fails on a buffer shorter than the fixed prefix, one that does not
    /// start with the magic word, one shorter than its declared header, a
    /// declared header too short for the fields of its flag word, and a tag
    /// that crosses the end of the header. The reserved bits of the flag word
    /// are ignored, and up to three bytes between the last tag and the end of
    /// the header are passed over.
    pub fn parse(input: &'a [u8]) -> (r: Result<RFTapPacket<'a>, DecodeError>)
        ensures
            match r {
                Ok(p) => decoding(input@) == Ok::<PacketView, DecodeError>(p@),
                Err(e) => decoding(input@) == Err::<PacketView, DecodeError>(e),
            },
    {
        if input.len() < 8 {
            return Err(DecodeError::FramingError);
        }
        if input[0] != 0x52 || input[1] != 0x46 || input[2] != 0x74 || input[3] != 0x61 {
            proof {
                let m = input@.subrange(0, 4);
                assert(m[0] == input@[0] && m[1] == input@[1] && m[2] == input@[2] && m[3]
                    == input@[3]);
            }
            return Err(DecodeError::MagicMismatch);
        }
        assert(input@.subrange(0, 4) =~= crate::format::magic());

        let units: u16 = u16_from(input, 4);
        let header_length: usize = (units as usize) * 4;
        if input.len() < header_length {
            return Err(DecodeError::FramingError);
        }
        let flags: u16 = u16_from(input, 6);
        let end: usize = end_of_fields(flags);
        if header_length < end {
            return Err(DecodeError::FramingError);
        }
        proof {
            lemma_offsets(flags);
        }
        let current_position: usize = 8;
        let (dlt, current_position) = take_u32(input, flags, DLT, current_position);
        let (freq, current_position) = take_u64(input, flags, FREQ, current_position);
        let (nomfreq, current_position) = take_u64(input, flags, NOMFREQ, current_position);
        let (freqofs, current_position) = take_u64(input, flags, FREQOFS, current_position);
        let isdbm: bool = is_set(flags, ISDBM);
        let (power, current_position) = take_u32(input, flags, POWER, current_position);
        let (noise, current_position) = take_u32(input, flags, NOISE, current_position);
        let (snr, current_position) = take_u32(input, flags, SNR, current_position);
        let (qual, current_position) = take_u32(input, flags, QUAL, current_position);
        let isunixtime: bool = is_set(flags, ISUNIXTIME);
        let (time, current_position) = take_time(input, flags, current_position);
        let (duration, current_position) = take_u64(input, flags, DURATION, current_position);
        let (location, current_position) = take_location(input, flags, current_position);

        let tags: Vec<Tag<'a>> = match read_tags(input, current_position, header_length) {
            Some(tags) => tags,
            None => {
                return Err(DecodeError::TagOverrun);
            },
        };

        Ok(
            RFTapPacket {
                dlt,
                freq,
                nomfreq,
                freqofs,
                isdbm,
                power,
                noise,
                snr,
                isunixtime,
                qual,
                time,
                duration,
                location,
                tags,
                payload: slice_subrange(input, header_length, input.len()),
            },
        )
    }
}

} // verus!
