//! What holds of reading and writing together: a written packet is read
//! back as it was, flags and fields agree, badly framed buffers are
//! rejected, the payload starts at the declared end of the header, and
//! padding is ignored.

use crate::flags::{
    fields_end, has_bit, lemma_offsets, lemma_rebuilt_bits, ASSIGNED, DLT, DURATION, FREQ, FREQOFS,
    NOISE, NOMFREQ, POWER, QUAL, SNR,
};
use crate::format::{
    declared_flags, declared_len, decoding, encodable, encoded, encoding, field_bytes, field_units,
    flag_word, flags_match_fields, header_len, lemma_field_bytes_len, lemma_flag_word, magic,
    tags_bytes,
};
use crate::layout::{
    bits_match_fields, holds_at, lemma_encoding_parts, lemma_fields_end, lemma_fields_end_at_units,
    lemma_fields_layout, lemma_read_location, lemma_read_tags, lemma_read_time, lemma_read_u32,
    lemma_read_u64, lemma_same_field_u32, lemma_same_field_u64, lemma_same_location,
    lemma_same_tags, lemma_same_time, lemma_tags_read, same_bytes,
};
use crate::le::{lemma_u16_len, lemma_u16_read_back, u16_at};
use crate::packet::{DecodeError, EncodeError, PacketView, TagView};
use vstd::prelude::*;

verus! {

/// The bytes of a packet that can be written are the magic word, the length
/// of the header in units of four bytes, the flag word, the fields, the
/// tags, zeros up to the end of the header, which is less than four bytes
/// behind the tags and a whole number of units, and the payload.
pub proof fn lemma_encoding_layout(p: PacketView)
    requires
        encodable(p),
    ensures
        ({
            let b = encoding(p);
            let fields = 4 * field_units(p);
            let tags = fields + tags_bytes(p.tags).len();
            let header = header_len(p);
            &&& header % 4 == 0
            &&& 8 <= fields <= tags <= header < tags + 4
            &&& b.len() == header + p.payload.len()
            &&& b.subrange(0, 4) == magic()
            &&& u16_at(b, 4) == header / 4
            &&& u16_at(b, 6) == flag_word(p)
            &&& b.subrange(8, fields) == field_bytes(p)
            &&& b.subrange(fields, tags) == tags_bytes(p.tags)
            &&& forall|i: int| tags <= i < header ==> b[i] == 0
            &&& b.subrange(header, b.len() as int) == p.payload
        }),
{
    let b = encoding(p);
    lemma_encoding_parts(p);
    lemma_field_bytes_len(p);
    lemma_u16_len((header_len(p) / 4) as u16);
    lemma_u16_len(flag_word(p));
    lemma_u16_read_back(b, 4, (header_len(p) / 4) as u16);
    lemma_u16_read_back(b, 6, flag_word(p));
    reveal(holds_at);
}

/// A packet that can be written is written, and is read back from its bytes
/// as it was, field by field, tag by tag, with its payload.
pub proof fn lemma_round_trip(p: PacketView)
    requires
        encodable(p),
    ensures
        encoded(p) == Ok::<Seq<u8>, EncodeError>(encoding(p)),
        decoding(encoding(p)) == Ok::<PacketView, DecodeError>(p),
{
    let b = encoding(p);
    let f = flag_word(p);
    lemma_encoding_parts(p);
    lemma_fields_end(p);
    lemma_flag_word(p);
    lemma_u16_len((header_len(p) / 4) as u16);
    lemma_u16_len(f);
    lemma_u16_read_back(b, 4, (header_len(p) / 4) as u16);
    lemma_u16_read_back(b, 6, f);
    assert(declared_len(b) == header_len(p));
    assert(declared_flags(b) == f);
    lemma_fields_layout(b, p);
    lemma_read_u32(b, f, DLT, p.dlt);
    lemma_read_u64(b, f, FREQ, p.freq);
    lemma_read_u64(b, f, NOMFREQ, p.nomfreq);
    lemma_read_u64(b, f, FREQOFS, p.freqofs);
    lemma_read_u32(b, f, POWER, p.power);
    lemma_read_u32(b, f, NOISE, p.noise);
    lemma_read_u32(b, f, SNR, p.snr);
    lemma_read_u32(b, f, QUAL, p.qual);
    lemma_read_time(b, f, p.time);
    lemma_read_u64(b, f, DURATION, p.duration);
    lemma_read_location(b, f, p.location);
    lemma_read_tags(b, fields_end(f), header_len(p), p.tags);
    assert(b.len() >= 8 && b.len() >= declared_len(b) && declared_len(b) >= fields_end(f));
}

/// The flag word of a written packet has the bit of a field exactly where
/// the packet has the field, and no reserved bit.
pub proof fn lemma_written_flags_match_fields(p: PacketView)
    requires
        encodable(p),
    ensures
        declared_flags(encoding(p)) == flag_word(p),
        flags_match_fields(declared_flags(encoding(p)), p),
{
    lemma_encoding_parts(p);
    lemma_flag_word(p);
    lemma_u16_len(flag_word(p));
    lemma_u16_read_back(encoding(p), 6, flag_word(p));
}

/// What was read can be written: the tags of a packet that was read fit
/// their lengths, and its header is as long as the buffer declared, which is
/// the fixed prefix, the fields, the tags and less than four bytes more.
pub proof fn lemma_decoded_is_encodable(b: Seq<u8>)
    requires
        decoding(b) is Ok,
    ensures
        encodable(decoding(b)->Ok_0),
        header_len(decoding(b)->Ok_0) == declared_len(b),
{
    let p = decoding(b)->Ok_0;
    let w = declared_flags(b);
    lemma_offsets(w);
    assert(bits_match_fields(w, p));
    lemma_fields_end_at_units(w, p);
    lemma_tags_read(b, fields_end(w), declared_len(b));
}

/// In a packet that was read, a field is present exactly where the flag
/// word of the buffer has its bit, and the flag word that writing the packet
/// gives has the same bits, without the reserved ones.
pub proof fn lemma_decoded_flags_match_fields(b: Seq<u8>)
    requires
        decoding(b) is Ok,
    ensures
        ({
            let p = decoding(b)->Ok_0;
            &&& declared_flags(encoding(p)) == flag_word(p)
            &&& flag_word(p) == declared_flags(b) & ASSIGNED
            &&& flags_match_fields(flag_word(p), p)
        }),
{
    let p = decoding(b)->Ok_0;
    lemma_decoded_is_encodable(b);
    lemma_written_flags_match_fields(p);
    lemma_rebuilt_bits(declared_flags(b));
    reveal(has_bit);
}

/// A buffer shorter than the fixed prefix is rejected as badly framed, a
/// longer one that does not start with the magic word as having the wrong
/// magic, and one shorter than the header it declares as badly framed.
pub proof fn lemma_framing_rejection(b: Seq<u8>)
    ensures
        b.len() < 8 ==> decoding(b) == Err::<PacketView, DecodeError>(DecodeError::FramingError),
        b.len() >= 8 && b.subrange(0, 4) != magic() ==> decoding(b) == Err::<
            PacketView,
            DecodeError,
        >(DecodeError::MagicMismatch),
        b.len() >= 8 && b.subrange(0, 4) == magic() && b.len() < declared_len(b) ==> decoding(b)
            == Err::<PacketView, DecodeError>(DecodeError::FramingError),
{
}

/// Where the header of a well-framed buffer ends less than four bytes
/// behind its fields, the buffer is read, it has no tags, and its payload
/// starts exactly at the declared end of the header. Bytes between the
/// fields and that end are passed over: they belong neither to a tag nor to
/// the payload.
pub proof fn lemma_boundary(b: Seq<u8>)
    requires
        b.len() >= 8,
        b.subrange(0, 4) == magic(),
        declared_len(b) <= b.len(),
        fields_end(declared_flags(b)) <= declared_len(b) < fields_end(declared_flags(b)) + 4,
    ensures
        decoding(b) is Ok,
        (decoding(b)->Ok_0).tags == Seq::<TagView>::empty(),
        (decoding(b)->Ok_0).payload == b.subrange(declared_len(b), b.len() as int),
        (decoding(b)->Ok_0).payload.len() == b.len() - declared_len(b),
{
}

/// Where a packet that was read stops using its header: behind the fixed
/// prefix, the fields and the tags. What is left of the header is padding.
pub open spec fn used_len(p: PacketView) -> int {
    4 * field_units(p) + tags_bytes(p.tags).len()
}

/// The bytes between the last tag and the declared end of the header do not
/// matter: a buffer that differs from one that was read only there is read
/// as the same packet.
pub proof fn lemma_padding_is_ignored(a: Seq<u8>, b: Seq<u8>)
    requires
        decoding(a) is Ok,
        a.len() == b.len(),
        same_bytes(a, b, 0, used_len(decoding(a)->Ok_0)),
        same_bytes(a, b, declared_len(a), a.len() as int),
    ensures
        used_len(decoding(a)->Ok_0) <= declared_len(a) < used_len(decoding(a)->Ok_0) + 4,
        decoding(b) == decoding(a),
{
    let p = decoding(a)->Ok_0;
    let w = declared_flags(a);
    let end = fields_end(w);
    lemma_decoded_is_encodable(a);
    lemma_offsets(w);
    assert(bits_match_fields(w, p));
    lemma_fields_end_at_units(w, p);
    lemma_tags_read(a, end, declared_len(a));
    assert(b.subrange(0, 4) =~= a.subrange(0, 4));
    assert(declared_len(b) == declared_len(a));
    assert(declared_flags(b) == w);
    lemma_same_field_u32(a, b, w, DLT);
    lemma_same_field_u64(a, b, w, FREQ);
    lemma_same_field_u64(a, b, w, NOMFREQ);
    lemma_same_field_u64(a, b, w, FREQOFS);
    lemma_same_field_u32(a, b, w, POWER);
    lemma_same_field_u32(a, b, w, NOISE);
    lemma_same_field_u32(a, b, w, SNR);
    lemma_same_field_u32(a, b, w, QUAL);
    lemma_same_time(a, b, w);
    lemma_same_field_u64(a, b, w, DURATION);
    lemma_same_location(a, b, w);
    lemma_same_tags(a, b, end, declared_len(a));
    assert(b.subrange(declared_len(b), b.len() as int) =~= a.subrange(
        declared_len(a),
        a.len() as int,
    ));
}

} // verus!
