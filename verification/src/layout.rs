//! Where the parts of a header stand, in a buffer that was written and in one
//! that is read: the lemmas that the laws rest on.

use crate::flags::{
    fields_end, has_bit, lemma_offsets, lemma_width_in, offset_of, width_in, DLT, DURATION, FREQ,
    FREQOFS, LOCATION, NOISE, NOMFREQ, POWER, QUAL, SNR, TIME,
};
use crate::format::{
    bytes_location, bytes_time, bytes_u32, bytes_u64, encodable, encoding, field_bytes,
    field_location, field_time, field_u32, field_u64, field_units, flag_word, header_len,
    lemma_field_bytes_len, lemma_field_lens, lemma_flag_word, magic, tag_at, tag_bytes, tags_bytes,
    tags_fit, tags_in, units_if,
};
use crate::le::{
    lemma_u16_len, lemma_u16_read_back, lemma_u32_len, lemma_u32_read_back, lemma_u64_len,
    lemma_u64_read_back, u16_bytes, u32_at, u64_bytes,
};
use crate::packet::{PacketView, TagView};
use vstd::prelude::*;

verus! {

/// Whether the flag word `w` has the bit of each field that takes bytes
/// exactly where the packet has the field.
pub open spec fn bits_match_fields(w: u16, p: PacketView) -> bool {
    &&& has_bit(w, DLT) <==> p.dlt is Some
    &&& has_bit(w, FREQ) <==> p.freq is Some
    &&& has_bit(w, NOMFREQ) <==> p.nomfreq is Some
    &&& has_bit(w, FREQOFS) <==> p.freqofs is Some
    &&& has_bit(w, POWER) <==> p.power is Some
    &&& has_bit(w, NOISE) <==> p.noise is Some
    &&& has_bit(w, SNR) <==> p.snr is Some
    &&& has_bit(w, QUAL) <==> p.qual is Some
    &&& has_bit(w, TIME) <==> p.time is Some
    &&& has_bit(w, DURATION) <==> p.duration is Some
    &&& has_bit(w, LOCATION) <==> p.location is Some
}

/// Whether each field takes in the header of `w` the bytes of its units in
/// the packet.
pub open spec fn widths_are_units(w: u16, p: PacketView) -> bool {
    &&& width_in(w, DLT, 4) == 4 * units_if(p.dlt is Some, 1)
    &&& width_in(w, FREQ, 8) == 4 * units_if(p.freq is Some, 2)
    &&& width_in(w, NOMFREQ, 8) == 4 * units_if(p.nomfreq is Some, 2)
    &&& width_in(w, FREQOFS, 8) == 4 * units_if(p.freqofs is Some, 2)
    &&& width_in(w, POWER, 4) == 4 * units_if(p.power is Some, 1)
    &&& width_in(w, NOISE, 4) == 4 * units_if(p.noise is Some, 1)
    &&& width_in(w, SNR, 4) == 4 * units_if(p.snr is Some, 1)
    &&& width_in(w, QUAL, 4) == 4 * units_if(p.qual is Some, 1)
    &&& width_in(w, TIME, 16) == 4 * units_if(p.time is Some, 4)
    &&& width_in(w, DURATION, 8) == 4 * units_if(p.duration is Some, 2)
    &&& width_in(w, LOCATION, 24) == 4 * units_if(p.location is Some, 6)
}

/// Where a flag word has the bits of the fields of a packet, each field
/// takes in the header the bytes of its units.
pub(crate) proof fn lemma_widths_are_units(w: u16, p: PacketView)
    requires
        bits_match_fields(w, p),
    ensures
        widths_are_units(w, p),
{
    reveal(units_if);
    reveal(width_in);
}

/// Where a flag word has the bits of the fields of a packet, the fields end
/// where the units of the packet end.
pub(crate) proof fn lemma_fields_end_at_units(w: u16, p: PacketView)
    requires
        bits_match_fields(w, p),
    ensures
        fields_end(w) == 4 * field_units(p),
{
    lemma_widths_are_units(w, p);
    lemma_offsets(w);
}

/// The fields of a packet end where its flag word says, at the end of their
/// units.
pub(crate) proof fn lemma_fields_end(p: PacketView)
    ensures
        fields_end(flag_word(p)) == 4 * field_units(p),
        fields_end(flag_word(p)) == 8 + field_bytes(p).len(),
{
    lemma_flag_word(p);
    lemma_fields_end_at_units(flag_word(p), p);
    lemma_field_bytes_len(p);
}

/// Whether the bytes of `b` from `at` on are `piece`.
#[verifier::opaque]
pub open spec fn holds_at(b: Seq<u8>, at: int, piece: Seq<u8>) -> bool {
    &&& 0 <= at
    &&& at + piece.len() <= b.len()
    &&& b.subrange(at, at + piece.len()) == piece
}

/// Where two pieces stand one behind the other, each of them stands at its
/// place.
pub(crate) proof fn lemma_split(b: Seq<u8>, at: int, head: Seq<u8>, piece: Seq<u8>)
    requires
        holds_at(b, at, head + piece),
    ensures
        holds_at(b, at, head),
        holds_at(b, at + head.len(), piece),
{
    reveal(holds_at);
    let both = b.subrange(at, at + (head + piece).len());
    assert forall|i: int| 0 <= i < head.len() implies b[at + i] == head[i] by {
        assert(both[i] == b[at + i]);
    }
    assert forall|i: int| 0 <= i < piece.len() implies b[at + head.len() + i] == piece[i] by {
        assert(both[head.len() + i] == b[at + head.len() + i]);
    }
    assert(b.subrange(at, at + head.len()) =~= head);
    assert(b.subrange(at + head.len(), at + head.len() + piece.len()) =~= piece);
}

/// Where each part of a written packet stands.
pub(crate) proof fn lemma_encoding_parts(p: PacketView)
    requires
        encodable(p),
    ensures
        ({
            let b = encoding(p);
            let fields = 4 * field_units(p);
            let tags = tags_bytes(p.tags).len() as int;
            &&& header_len(p) % 4 == 0
            &&& 8 <= fields <= fields + tags <= header_len(p) < fields + tags + 4
            &&& b.len() == header_len(p) + p.payload.len()
            &&& b.subrange(0, 4) == magic()
            &&& b.subrange(4, 6) == u16_bytes((header_len(p) / 4) as u16)
            &&& b.subrange(6, 8) == u16_bytes(flag_word(p))
            &&& holds_at(b, 8, field_bytes(p))
            &&& holds_at(b, fields, tags_bytes(p.tags))
            &&& b.subrange(header_len(p), b.len() as int) == p.payload
        }),
{
    let b = encoding(p);
    let fields = 4 * field_units(p);
    let tags = tags_bytes(p.tags).len() as int;
    lemma_field_bytes_len(p);
    lemma_u16_len((header_len(p) / 4) as u16);
    lemma_u16_len(flag_word(p));
    assert(b.subrange(0, 4) =~= magic());
    assert(b.subrange(4, 6) =~= u16_bytes((header_len(p) / 4) as u16));
    assert(b.subrange(6, 8) =~= u16_bytes(flag_word(p)));
    reveal(holds_at);
    assert(b.subrange(8, fields) =~= field_bytes(p));
    assert(b.subrange(fields, fields + tags) =~= tags_bytes(p.tags));
    assert(b.subrange(header_len(p), b.len() as int) =~= p.payload);
}

/// Where the bytes of the fields stand behind the fixed prefix, each field
/// stands where the flag word puts it.
pub(crate) proof fn lemma_fields_layout(b: Seq<u8>, p: PacketView)
    requires
        holds_at(b, 8, field_bytes(p)),
    ensures
        ({
            let f = flag_word(p);
            &&& holds_at(b, offset_of(f, DLT), bytes_u32(p.dlt))
            &&& holds_at(b, offset_of(f, FREQ), bytes_u64(p.freq))
            &&& holds_at(b, offset_of(f, NOMFREQ), bytes_u64(p.nomfreq))
            &&& holds_at(b, offset_of(f, FREQOFS), bytes_u64(p.freqofs))
            &&& holds_at(b, offset_of(f, POWER), bytes_u32(p.power))
            &&& holds_at(b, offset_of(f, NOISE), bytes_u32(p.noise))
            &&& holds_at(b, offset_of(f, SNR), bytes_u32(p.snr))
            &&& holds_at(b, offset_of(f, QUAL), bytes_u32(p.qual))
            &&& holds_at(b, offset_of(f, TIME), bytes_time(p.time))
            &&& holds_at(b, offset_of(f, DURATION), bytes_u64(p.duration))
            &&& holds_at(b, offset_of(f, LOCATION), bytes_location(p.location))
        }),
{
    let f = flag_word(p);
    lemma_flag_word(p);
    lemma_widths_are_units(f, p);
    lemma_offsets(f);
    lemma_field_lens(p);
    let g0 = bytes_u32(p.dlt);
    let g1 = g0 + bytes_u64(p.freq);
    let g2 = g1 + bytes_u64(p.nomfreq);
    let g3 = g2 + bytes_u64(p.freqofs);
    let g4 = g3 + bytes_u32(p.power);
    let g5 = g4 + bytes_u32(p.noise);
    let g6 = g5 + bytes_u32(p.snr);
    let g7 = g6 + bytes_u32(p.qual);
    let g8 = g7 + bytes_time(p.time);
    let g9 = g8 + bytes_u64(p.duration);
    let g10 = g9 + bytes_location(p.location);
    assert(g10 == field_bytes(p));
    lemma_split(b, 8, g9, bytes_location(p.location));
    lemma_split(b, 8, g8, bytes_u64(p.duration));
    lemma_split(b, 8, g7, bytes_time(p.time));
    lemma_split(b, 8, g6, bytes_u32(p.qual));
    lemma_split(b, 8, g5, bytes_u32(p.snr));
    lemma_split(b, 8, g4, bytes_u32(p.noise));
    lemma_split(b, 8, g3, bytes_u32(p.power));
    lemma_split(b, 8, g2, bytes_u64(p.freqofs));
    lemma_split(b, 8, g1, bytes_u64(p.nomfreq));
    lemma_split(b, 8, g0, bytes_u64(p.freq));
    assert(8 + g0.len() == offset_of(f, FREQ));
    assert(8 + g1.len() == offset_of(f, NOMFREQ));
    assert(8 + g2.len() == offset_of(f, FREQOFS));
    assert(8 + g3.len() == offset_of(f, POWER));
    assert(8 + g4.len() == offset_of(f, NOISE));
    assert(8 + g5.len() == offset_of(f, SNR));
    assert(8 + g6.len() == offset_of(f, QUAL));
    assert(8 + g7.len() == offset_of(f, TIME));
    assert(8 + g8.len() == offset_of(f, DURATION));
    assert(8 + g9.len() == offset_of(f, LOCATION));
}

/// A 32-bit field that was written is read back as it was.
pub(crate) proof fn lemma_read_u32(b: Seq<u8>, f: u16, mask: u16, field: Option<u32>)
    requires
        holds_at(b, offset_of(f, mask), bytes_u32(field)),
        has_bit(f, mask) <==> field is Some,
    ensures
        field_u32(b, f, mask) == field,
{
    if let Some(n) = field {
        reveal(holds_at);
        lemma_u32_len(n);
        lemma_u32_read_back(b, offset_of(f, mask), n);
    }
}

/// A 64-bit field that was written is read back as it was.
pub(crate) proof fn lemma_read_u64(b: Seq<u8>, f: u16, mask: u16, field: Option<u64>)
    requires
        holds_at(b, offset_of(f, mask), bytes_u64(field)),
        has_bit(f, mask) <==> field is Some,
    ensures
        field_u64(b, f, mask) == field,
{
    if let Some(n) = field {
        reveal(holds_at);
        lemma_u64_len(n);
        lemma_u64_read_back(b, offset_of(f, mask), n);
    }
}

/// A time field that was written is read back as it was.
pub(crate) proof fn lemma_read_time(b: Seq<u8>, f: u16, field: Option<(u64, u64)>)
    requires
        holds_at(b, offset_of(f, TIME), bytes_time(field)),
        has_bit(f, TIME) <==> field is Some,
    ensures
        field_time(b, f) == field,
{
    if let Some((whole, fraction)) = field {
        let at = offset_of(f, TIME);
        lemma_u64_len(whole);
        lemma_u64_len(fraction);
        lemma_split(b, at, u64_bytes(whole), u64_bytes(fraction));
        reveal(holds_at);
        lemma_u64_read_back(b, at, whole);
        lemma_u64_read_back(b, at + 8, fraction);
    }
}

/// A location field that was written is read back as it was.
pub(crate) proof fn lemma_read_location(b: Seq<u8>, f: u16, field: Option<(u64, u64, u64)>)
    requires
        holds_at(b, offset_of(f, LOCATION), bytes_location(field)),
        has_bit(f, LOCATION) <==> field is Some,
    ensures
        field_location(b, f) == field,
{
    if let Some((lat, lon, alt)) = field {
        let at = offset_of(f, LOCATION);
        lemma_u64_len(lat);
        lemma_u64_len(lon);
        lemma_u64_len(alt);
        lemma_split(b, at, u64_bytes(lat) + u64_bytes(lon), u64_bytes(alt));
        lemma_split(b, at, u64_bytes(lat), u64_bytes(lon));
        reveal(holds_at);
        lemma_u64_read_back(b, at, lat);
        lemma_u64_read_back(b, at + 8, lon);
        lemma_u64_read_back(b, at + 16, alt);
    }
}

/// The bytes of tags start with the bytes of the first tag.
pub(crate) proof fn lemma_tags_bytes_first(tags: Seq<TagView>)
    requires
        tags.len() > 0,
    ensures
        tags_bytes(tags) == tag_bytes(tags[0]) + tags_bytes(tags.drop_first()),
    decreases tags.len(),
{
    if tags.len() == 1 {
        assert(tags.drop_last() =~= Seq::<TagView>::empty());
        assert(tags.drop_first() =~= Seq::<TagView>::empty());
        assert(tags_bytes(tags) =~= tag_bytes(tags[0]) + tags_bytes(tags.drop_first()));
    } else {
        let front = tags.drop_last();
        lemma_tags_bytes_first(front);
        assert(front.drop_first() =~= tags.drop_first().drop_last());
        assert(front[0] == tags[0]);
        assert(tags.drop_first().last() == tags.last());
        assert(tags_bytes(tags) =~= tag_bytes(tags[0]) + tags_bytes(tags.drop_first()));
    }
}

/// Tags that were written between `from` and a boundary less than four bytes
/// behind them are read back as they were.
pub(crate) proof fn lemma_read_tags(b: Seq<u8>, from: int, to: int, tags: Seq<TagView>)
    requires
        tags_fit(tags),
        holds_at(b, from, tags_bytes(tags)),
        from + tags_bytes(tags).len() <= to < from + tags_bytes(tags).len() + 4,
        to <= b.len(),
    ensures
        tags_in(b, from, to) == Some(tags),
    decreases tags.len(),
{
    if tags.len() == 0 {
        reveal(holds_at);
        assert(tags =~= Seq::<TagView>::empty());
    } else {
        let first = tags[0];
        let rest = tags.drop_first();
        lemma_tags_bytes_first(tags);
        lemma_u16_len(first.id);
        let head = u16_bytes(first.id) + seq![first.value.len() as u8, first.flags];
        lemma_split(b, from, tag_bytes(first), tags_bytes(rest));
        lemma_split(b, from, head, first.value);
        lemma_split(b, from, u16_bytes(first.id), seq![first.value.len() as u8, first.flags]);
        reveal(holds_at);
        lemma_u16_read_back(b, from, first.id);
        let pair = b.subrange(from + 2, from + 4);
        assert(pair[0] == b[from + 2] && pair[1] == b[from + 3]);
        assert(b[from + 2] == first.value.len());
        assert(b[from + 3] == first.flags);
        assert(tag_at(b, from) == first);
        let next = from + 4 + first.value.len();
        assert(tags_fit(rest)) by {
            assert forall|i: int| 0 <= i < rest.len() implies (#[trigger] rest[i]).value.len()
                <= 255 by {
                assert(rest[i] == tags[i + 1]);
            }
        }
        lemma_read_tags(b, next, to, rest);
        assert(seq![first] + rest =~= tags);
    }
}

/// Tags that were read fit their one-byte lengths, and their bytes end less
/// than four bytes before the boundary.
pub(crate) proof fn lemma_tags_read(b: Seq<u8>, from: int, to: int)
    requires
        0 <= from <= to <= b.len(),
        tags_in(b, from, to) is Some,
    ensures
        ({
            let tags = tags_in(b, from, to)->Some_0;
            &&& tags_fit(tags)
            &&& from + tags_bytes(tags).len() <= to < from + tags_bytes(tags).len() + 4
            &&& to - from < 4 ==> tags.len() == 0
        }),
    decreases to - from,
{
    let tags = tags_in(b, from, to)->Some_0;
    if to - from < 4 {
        assert(tags_bytes(tags) =~= Seq::<u8>::empty());
    } else {
        let next = from + 4 + (b[from + 2] as int);
        lemma_tags_read(b, next, to);
        let first = tag_at(b, from);
        let rest = tags_in(b, next, to)->Some_0;
        assert(tags == seq![first] + rest);
        assert(tags.drop_first() =~= rest);
        lemma_tags_bytes_first(tags);
        lemma_u16_len(first.id);
        assert forall|i: int| 0 <= i < tags.len() implies (#[trigger] tags[i]).value.len()
            <= 255 by {
            if i > 0 {
                assert(tags[i] == rest[i - 1]);
            }
        }
    }
}

/// Two buffers with the same four bytes at `at` hold the same number there.
pub(crate) proof fn lemma_same_u32(a: Seq<u8>, b: Seq<u8>, at: int)
    requires
        a[at] == b[at],
        a[at + 1] == b[at + 1],
        a[at + 2] == b[at + 2],
        a[at + 3] == b[at + 3],
    ensures
        u32_at(a, at) == u32_at(b, at),
{
}

/// Whether two buffers hold the same bytes from `from` up to `to`.
pub open spec fn same_bytes(a: Seq<u8>, b: Seq<u8>, from: int, to: int) -> bool {
    forall|i: int| from <= i < to ==> a[i] == b[i]
}

/// Two buffers with the same bytes where a 32-bit field stands hold the same
/// field.
pub(crate) proof fn lemma_same_field_u32(a: Seq<u8>, b: Seq<u8>, flags: u16, mask: u16)
    requires
        offset_of(flags, mask) >= 8,
        same_bytes(a, b, 8, offset_of(flags, mask) + width_in(flags, mask, 4)),
    ensures
        field_u32(a, flags, mask) == field_u32(b, flags, mask),
{
    lemma_width_in(flags, mask, 4);
    if has_bit(flags, mask) {
        lemma_same_u32(a, b, offset_of(flags, mask));
    }
}

/// Two buffers with the same bytes where a 64-bit field stands hold the same
/// field.
pub(crate) proof fn lemma_same_field_u64(a: Seq<u8>, b: Seq<u8>, flags: u16, mask: u16)
    requires
        offset_of(flags, mask) >= 8,
        same_bytes(a, b, 8, offset_of(flags, mask) + width_in(flags, mask, 8)),
    ensures
        field_u64(a, flags, mask) == field_u64(b, flags, mask),
{
    lemma_width_in(flags, mask, 8);
    if has_bit(flags, mask) {
        lemma_same_u32(a, b, offset_of(flags, mask));
        lemma_same_u32(a, b, offset_of(flags, mask) + 4);
    }
}

/// Two buffers with the same bytes where the time field stands hold the same
/// time.
pub(crate) proof fn lemma_same_time(a: Seq<u8>, b: Seq<u8>, flags: u16)
    requires
        offset_of(flags, TIME) >= 8,
        same_bytes(a, b, 8, offset_of(flags, TIME) + width_in(flags, TIME, 16)),
    ensures
        field_time(a, flags) == field_time(b, flags),
{
    lemma_width_in(flags, TIME, 16);
    if has_bit(flags, TIME) {
        let at = offset_of(flags, TIME);
        lemma_same_u32(a, b, at);
        lemma_same_u32(a, b, at + 4);
        lemma_same_u32(a, b, at + 8);
        lemma_same_u32(a, b, at + 12);
    }
}

/// Two buffers with the same bytes where the location field stands hold the
/// same location.
pub(crate) proof fn lemma_same_location(a: Seq<u8>, b: Seq<u8>, flags: u16)
    requires
        offset_of(flags, LOCATION) >= 8,
        same_bytes(a, b, 8, offset_of(flags, LOCATION) + width_in(flags, LOCATION, 24)),
    ensures
        field_location(a, flags) == field_location(b, flags),
{
    lemma_width_in(flags, LOCATION, 24);
    if has_bit(flags, LOCATION) {
        let at = offset_of(flags, LOCATION);
        lemma_same_u32(a, b, at);
        lemma_same_u32(a, b, at + 4);
        lemma_same_u32(a, b, at + 8);
        lemma_same_u32(a, b, at + 12);
        lemma_same_u32(a, b, at + 16);
        lemma_same_u32(a, b, at + 20);
    }
}

/// Two buffers with the same bytes where the tags of the first stand hold the
/// same tags.
pub(crate) proof fn lemma_same_tags(a: Seq<u8>, b: Seq<u8>, from: int, to: int)
    requires
        0 <= from <= to <= a.len(),
        a.len() == b.len(),
        tags_in(a, from, to) is Some,
        same_bytes(a, b, from, from + tags_bytes(tags_in(a, from, to)->Some_0).len()),
    ensures
        tags_in(b, from, to) == tags_in(a, from, to),
    decreases to - from,
{
    if to - from >= 4 {
        let tags = tags_in(a, from, to)->Some_0;
        let next = from + 4 + (a[from + 2] as int);
        let rest = tags_in(a, next, to)->Some_0;
        let first = tag_at(a, from);
        assert(tags == seq![first] + rest);
        assert(tags.drop_first() =~= rest);
        lemma_tags_bytes_first(tags);
        lemma_u16_len(first.id);
        assert(tags_bytes(tags).len() == 4 + first.value.len() + tags_bytes(rest).len());
        assert(a[from] == b[from] && a[from + 1] == b[from + 1] && a[from + 2] == b[from + 2]
            && a[from + 3] == b[from + 3]);
        assert(tag_at(b, from).value =~= first.value);
        lemma_same_tags(a, b, next, to);
    }
}

} // verus!
