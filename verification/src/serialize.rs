//! Writing a packet as bytes.

use crate::flags::{
    with_bit, DLT, DURATION, FREQ, FREQOFS, ISDBM, ISUNIXTIME, LOCATION, NOISE, NOMFREQ, POWER,
    QUAL, SNR, TIME,
};
use crate::format::{
    bytes_location, bytes_time, bytes_u32, bytes_u64, encoded, encoding, field_bytes, field_units,
    flag_word, header_len, lemma_tags_bytes_prefix, lemma_tags_bytes_push, lemma_units_bounds,
    magic, tag_bytes, tags_bytes, tags_fit, units_if, MAX_HEADER_LEN,
};
use crate::le::{lemma_u16_len, u16_bytes, u16_to_le, u32_bytes, u32_to_le, u64_bytes, u64_to_le};
use crate::packet::{tag_views, EncodeError, PacketView, RFTapPacket, Tag};
use vstd::prelude::*;

verus! {

/// Appends the two bytes of `n`.
fn put_u16(buffer: &mut Vec<u8>, n: u16)
    ensures
        final(buffer)@ == old(buffer)@ + u16_bytes(n),
{
    let bytes = u16_to_le(n);
    buffer.extend_from_slice(bytes.as_slice());
}

/// Appends the four bytes of `n`.
fn put_u32(buffer: &mut Vec<u8>, n: u32)
    ensures
        final(buffer)@ == old(buffer)@ + u32_bytes(n),
{
    let bytes = u32_to_le(n);
    buffer.extend_from_slice(bytes.as_slice());
}

/// Appends the eight bytes of `n`.
fn put_u64(buffer: &mut Vec<u8>, n: u64)
    ensures
        final(buffer)@ == old(buffer)@ + u64_bytes(n),
{
    let bytes = u64_to_le(n);
    buffer.extend_from_slice(bytes.as_slice());
}

/// Writes one optional 32-bit field: its bytes go behind the buffer, its bit
/// into the flag word, and its one unit of four bytes onto the length.
fn emit_u32(buffer: &mut Vec<u8>, flags: &mut u16, units: &mut u16, field: Option<u32>, mask: u16)
    requires
        *old(units) + 1 <= u16::MAX,
    ensures
        final(buffer)@ == old(buffer)@ + bytes_u32(field),
        *final(flags) == with_bit(*old(flags), field is Some, mask),
        *final(units) == *old(units) + units_if(field is Some, 1),
        *final(units) <= *old(units) + 1,
{
    assert(*flags | 0 == *flags) by (bit_vector);
    reveal(units_if);
    if let Some(n) = field {
        *units += 1;
        *flags |= mask;
        put_u32(buffer, n);
    }
}

/// Writes one optional 64-bit field, which takes two units.
fn emit_u64(buffer: &mut Vec<u8>, flags: &mut u16, units: &mut u16, field: Option<u64>, mask: u16)
    requires
        *old(units) + 2 <= u16::MAX,
    ensures
        final(buffer)@ == old(buffer)@ + bytes_u64(field),
        *final(flags) == with_bit(*old(flags), field is Some, mask),
        *final(units) == *old(units) + units_if(field is Some, 2),
        *final(units) <= *old(units) + 2,
{
    assert(*flags | 0 == *flags) by (bit_vector);
    reveal(units_if);
    if let Some(n) = field {
        *units += 2;
        *flags |= mask;
        put_u64(buffer, n);
    }
}

/// Writes the time field: two doubles, whole seconds and then the fraction,
/// four units together.
fn emit_time(buffer: &mut Vec<u8>, flags: &mut u16, units: &mut u16, field: Option<(u64, u64)>)
    requires
        *old(units) + 4 <= u16::MAX,
    ensures
        final(buffer)@ == old(buffer)@ + bytes_time(field),
        *final(flags) == with_bit(*old(flags), field is Some, TIME),
        *final(units) == *old(units) + units_if(field is Some, 4),
        *final(units) <= *old(units) + 4,
{
    assert(*flags | 0 == *flags) by (bit_vector);
    reveal(units_if);
    if let Some((int_time, frac_time)) = field {
        *units += 4;
        *flags |= TIME;
        put_u64(buffer, int_time);
        put_u64(buffer, frac_time);
        assert(buffer@ =~= old(buffer)@ + bytes_time(field));
    }
}

/// Writes the location field: latitude, longitude and altitude, six units
/// together.
fn emit_location(
    buffer: &mut Vec<u8>,
    flags: &mut u16,
    units: &mut u16,
    field: Option<(u64, u64, u64)>,
)
    requires
        *old(units) + 6 <= u16::MAX,
    ensures
        final(buffer)@ == old(buffer)@ + bytes_location(field),
        *final(flags) == with_bit(*old(flags), field is Some, LOCATION),
        *final(units) == *old(units) + units_if(field is Some, 6),
        *final(units) <= *old(units) + 6,
{
    assert(*flags | 0 == *flags) by (bit_vector);
    reveal(units_if);
    if let Some((lat, lon, alt)) = field {
        *units += 6;
        *flags |= LOCATION;
        put_u64(buffer, lat);
        put_u64(buffer, lon);
        put_u64(buffer, alt);
        assert(buffer@ =~= old(buffer)@ + bytes_location(field));
    }
}

/// Bytes appended behind what was written after a head stand behind the head
/// and all that was written.
proof fn lemma_written(head: Seq<u8>, written: Seq<u8>, more: Seq<u8>)
    ensures
        (head + written) + more == head + (written + more),
{
    assert((head + written) + more =~= head + (written + more));
}

/// Sets the bit of a mode that is on. A mode has no bytes of its own.
fn emit_mode(flags: &mut u16, on: bool, mask: u16)
    ensures
        *final(flags) == with_bit(*old(flags), on, mask),
{
    assert(*flags | 0 == *flags) by (bit_vector);
    if on {
        *flags |= mask;
    }
}

/// The number of bytes that the tags take in the header, if each value fits
/// its one-byte length and all of them fit a header.
pub fn tags_len<'a>(tags: &Vec<Tag<'a>>) -> (r: Result<usize, EncodeError>)
    ensures
        match r {
            Ok(n) => tags_fit(tag_views(tags@)) && n == tags_bytes(tag_views(tags@)).len() && n
                <= MAX_HEADER_LEN,
            Err(EncodeError::TagTooLong) => !tags_fit(tag_views(tags@)),
            Err(EncodeError::HeaderTooLong) => tags_fit(tag_views(tags@)) && tags_bytes(
                tag_views(tags@),
            ).len() > MAX_HEADER_LEN,
        },
{
    let ghost views = tag_views(tags@);
    let mut i: usize = 0;
    while i < tags.len()
        invariant
            i <= tags.len(),
            views == tag_views(tags@),
            forall|j: int| 0 <= j < i ==> (#[trigger] views[j]).value.len() <= 255,
        decreases tags.len() - i,
    {
        if tags[i].value.len() > 255 {
            assert(views[i as int].value.len() > 255);
            return Err(EncodeError::TagTooLong);
        }
        i += 1;
    }
    let mut total: usize = 0;
    let mut i: usize = 0;
    while i < tags.len()
        invariant
            i <= tags.len(),
            views == tag_views(tags@),
            tags_fit(views),
            total == tags_bytes(views.take(i as int)).len(),
            total <= MAX_HEADER_LEN,
        decreases tags.len() - i,
    {
        proof {
            assert(views.take(i + 1) =~= views.take(i as int).push(views[i as int]));
            lemma_tags_bytes_push(views.take(i as int), views[i as int]);
            lemma_tags_bytes_prefix(views, i + 1);
        }
        total += 4 + tags[i].value.len();
        if total > MAX_HEADER_LEN {
            return Err(EncodeError::HeaderTooLong);
        }
        i += 1;
    }
    assert(views.take(i as int) =~= views);
    Ok(total)
}

/// Appends the tags, each as its identifier, the length of its value, its
/// flag byte and the value.
fn put_tags<'a>(buffer: &mut Vec<u8>, tags: &Vec<Tag<'a>>)
    requires
        tags_fit(tag_views(tags@)),
    ensures
        final(buffer)@ == old(buffer)@ + tags_bytes(tag_views(tags@)),
{
    let ghost start = buffer@;
    let ghost views = tag_views(tags@);
    let mut i: usize = 0;
    assert(buffer@ =~= start + tags_bytes(views.take(0)));
    while i < tags.len()
        invariant
            i <= tags.len(),
            views == tag_views(tags@),
            tags_fit(views),
            buffer@ == start + tags_bytes(views.take(i as int)),
        decreases tags.len() - i,
    {
        let ghost before = buffer@;
        let tag = &tags[i];
        put_u16(buffer, tag.id);
        buffer.push(tag.value.len() as u8);
        buffer.push(tag.flags);
        buffer.extend_from_slice(tag.value);
        proof {
            assert(views[i as int] == tag@);
            assert(views.take(i + 1) =~= views.take(i as int).push(tag@));
            lemma_tags_bytes_push(views.take(i as int), tag@);
            assert(buffer@ =~= before + tag_bytes(tag@));
            assert(buffer@ =~= start + tags_bytes(views.take(i + 1)));
        }
        i += 1;
    }
    assert(views.take(i as int) =~= views);
}

/// Appends `count` zero bytes.
fn put_padding(buffer: &mut Vec<u8>, count: usize)
    ensures
        final(buffer)@ == old(buffer)@ + Seq::new(count as nat, |i: int| 0u8),
{
    let ghost start = buffer@;
    let mut done: usize = 0;
    assert(buffer@ =~= start + Seq::new(0, |i: int| 0u8));
    while done < count
        invariant
            done <= count,
            buffer@ == start + Seq::new(done as nat, |i: int| 0u8),
        decreases count - done,
    {
        buffer.push(0);
        done += 1;
        assert(buffer@ =~= start + Seq::new(done as nat, |i: int| 0u8));
    }
}

/// Writes the length of the header, in units of four bytes, and the flag
/// word over their placeholders behind the magic word.
fn patch_prefix(buffer: &mut Vec<u8>, units: u16, flags: u16)
    requires
        old(buffer)@.len() >= 8,
    ensures
        final(buffer)@ == old(buffer)@.subrange(0, 4) + u16_bytes(units) + u16_bytes(flags) + old(
            buffer,
        )@.subrange(8, old(buffer)@.len() as int),
{
    let length_bytes = u16_to_le(units);
    buffer[4] = length_bytes[0];
    buffer[5] = length_bytes[1];
    let flag_bytes = u16_to_le(flags);
    buffer[6] = flag_bytes[0];
    buffer[7] = flag_bytes[1];
    proof {
        lemma_u16_len(units);
        lemma_u16_len(flags);
        assert(buffer@ =~= old(buffer)@.subrange(0, 4) + u16_bytes(units) + u16_bytes(flags) + old(
            buffer,
        )@.subrange(8, old(buffer)@.len() as int));
    }
}

/// Fields appended one by one behind a head stand behind it as the bytes of
/// the fields.
proof fn lemma_fields_appended(head: Seq<u8>, p: PacketView)
    ensures
        head + bytes_u32(p.dlt) + bytes_u64(p.freq) + bytes_u64(p.nomfreq) + bytes_u64(p.freqofs)
            + bytes_u32(p.power) + bytes_u32(p.noise) + bytes_u32(p.snr) + bytes_u32(p.qual)
            + bytes_time(p.time) + bytes_u64(p.duration) + bytes_location(p.location) == head
            + field_bytes(p),
{
    let written = bytes_u32(p.dlt);
    lemma_written(head, written, bytes_u64(p.freq));
    let written = written + bytes_u64(p.freq);
    lemma_written(head, written, bytes_u64(p.nomfreq));
    let written = written + bytes_u64(p.nomfreq);
    lemma_written(head, written, bytes_u64(p.freqofs));
    let written = written + bytes_u64(p.freqofs);
    lemma_written(head, written, bytes_u32(p.power));
    let written = written + bytes_u32(p.power);
    lemma_written(head, written, bytes_u32(p.noise));
    let written = written + bytes_u32(p.noise);
    lemma_written(head, written, bytes_u32(p.snr));
    let written = written + bytes_u32(p.snr);
    lemma_written(head, written, bytes_u32(p.qual));
    let written = written + bytes_u32(p.qual);
    lemma_written(head, written, bytes_time(p.time));
    let written = written + bytes_time(p.time);
    lemma_written(head, written, bytes_u64(p.duration));
    let written = written + bytes_u64(p.duration);
    lemma_written(head, written, bytes_location(p.location));
}

impl<'a> RFTapPacket<'a> {
    /// Appends the present fields in the order of their bits, and gives the
    /// flag word and the length of prefix and fields in units of four bytes.
    fn put_fields(&self, buffer: &mut Vec<u8>) -> (r: (u16, u16))
        ensures
            final(buffer)@ == old(buffer)@ + field_bytes(self@),
            r.0 == flag_word(self@),
            r.1 == field_units(self@),
            r.1 <= 25,
    {
        let mut length_32: u16 = 2;
        let mut flags: u16 = 0;

        emit_u32(buffer, &mut flags, &mut length_32, self.dlt, DLT);
        emit_u64(buffer, &mut flags, &mut length_32, self.freq, FREQ);
        emit_u64(buffer, &mut flags, &mut length_32, self.nomfreq, NOMFREQ);
        emit_u64(buffer, &mut flags, &mut length_32, self.freqofs, FREQOFS);
        emit_mode(&mut flags, self.isdbm, ISDBM);
        emit_u32(buffer, &mut flags, &mut length_32, self.power, POWER);
        emit_u32(buffer, &mut flags, &mut length_32, self.noise, NOISE);
        emit_u32(buffer, &mut flags, &mut length_32, self.snr, SNR);
        emit_u32(buffer, &mut flags, &mut length_32, self.qual, QUAL);
        emit_mode(&mut flags, self.isunixtime, ISUNIXTIME);
        emit_time(buffer, &mut flags, &mut length_32, self.time);
        emit_u64(buffer, &mut flags, &mut length_32, self.duration, DURATION);
        emit_location(buffer, &mut flags, &mut length_32, self.location);
        proof {
            lemma_fields_appended(old(buffer)@, self@);
        }
        (flags, length_32)
    }

    /// Writes the packet: the magic word, the header length in units of four
    /// bytes, the flag word, the present fields in the order of their bits,
    /// the tags, zeros up to a whole unit, and the payload.
    ///
    /// Fails if the value of a tag is longer than 255 bytes, or if the header
    /// is longer than its 16-bit length can say.
    pub fn serialize(&self) -> (r: Result<Vec<u8>, EncodeError>)
        ensures
            match r {
                Ok(bytes) => encoded(self@) == Ok::<Seq<u8>, EncodeError>(bytes@),
                Err(e) => encoded(self@) == Err::<Seq<u8>, EncodeError>(e),
            },
    {
        proof {
            lemma_units_bounds(self@);
        }
        let tags_length: usize = match tags_len(&self.tags) {
            Ok(n) => n,
            Err(e) => {
                return Err(e);
            },
        };

        let mut buffer: Vec<u8> = vec![0x52, 0x46, 0x74, 0x61, 0, 0, 0, 0];
        let (flags, length_32) = self.put_fields(&mut buffer);

        let padding: usize = (4 - tags_length % 4) % 4;
        let units: usize = length_32 as usize + (tags_length + padding) / 4;
        if units > 0xffff {
            return Err(EncodeError::HeaderTooLong);
        }
        patch_prefix(&mut buffer, units as u16, flags);
        assert(buffer@ =~= magic() + u16_bytes((header_len(self@) / 4) as u16) + u16_bytes(
            flag_word(self@),
        ) + field_bytes(self@));

        put_tags(&mut buffer, &self.tags);
        put_padding(&mut buffer, padding);
        buffer.extend_from_slice(self.payload);
        assert(buffer@ =~= encoding(self@));

        Ok(buffer)
    }
}

} // verus!
