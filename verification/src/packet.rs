//! The decoded header: its fields, its tags and the payload behind it.

use vstd::prelude::*;

verus! {

/// A tagged sub-record of the header. On the wire it is its identifier, the
/// length of its value in one byte, its flag byte, and the value.
#[derive(Debug, Clone, Copy, PartialEq, Eq)]
pub struct Tag<'a> {
    pub id: u16,
    pub flags: u8,
    pub value: &'a [u8],
}

/// A tag as a mathematical value.
pub ghost struct TagView {
    pub id: u16,
    pub flags: u8,
    pub value: Seq<u8>,
}

impl<'a> View for Tag<'a> {
    type V = TagView;

    open spec fn view(&self) -> TagView {
        TagView { id: self.id, flags: self.flags, value: self.value@ }
    }
}

/// One RFtap header with the payload that follows it.
///
/// Floating-point fields hold the IEEE-754 bit pattern of their value: 64 bits
/// for frequencies, duration and location, 32 bits for the power readings.
/// `time` holds the two doubles of the wire format, whole seconds first, then
/// the fraction of a second.
#[derive(Debug, PartialEq, Eq)]
pub struct RFTapPacket<'a> {
    pub dlt: Option<u32>,
    pub freq: Option<u64>,
    pub nomfreq: Option<u64>,
    pub freqofs: Option<u64>,
    pub isdbm: bool,
    pub power: Option<u32>,
    pub noise: Option<u32>,
    pub snr: Option<u32>,
    pub isunixtime: bool,
    pub qual: Option<u32>,
    pub time: Option<(u64, u64)>,
    pub duration: Option<u64>,
    pub location: Option<(u64, u64, u64)>,
    pub tags: Vec<Tag<'a>>,
    pub payload: &'a [u8],
}

/// A packet as a mathematical value.
pub ghost struct PacketView {
    pub dlt: Option<u32>,
    pub freq: Option<u64>,
    pub nomfreq: Option<u64>,
    pub freqofs: Option<u64>,
    pub isdbm: bool,
    pub power: Option<u32>,
    pub noise: Option<u32>,
    pub snr: Option<u32>,
    pub isunixtime: bool,
    pub qual: Option<u32>,
    pub time: Option<(u64, u64)>,
    pub duration: Option<u64>,
    pub location: Option<(u64, u64, u64)>,
    pub tags: Seq<TagView>,
    pub payload: Seq<u8>,
}

/// The tags of a vector, each as a mathematical value.
pub open spec fn tag_views<'a>(tags: Seq<Tag<'a>>) -> Seq<TagView> {
    Seq::new(tags.len(), |i: int| tags[i]@)
}

impl<'a> View for RFTapPacket<'a> {
    type V = PacketView;

    open spec fn view(&self) -> PacketView {
        PacketView {
            dlt: self.dlt,
            freq: self.freq,
            nomfreq: self.nomfreq,
            freqofs: self.freqofs,
            isdbm: self.isdbm,
            power: self.power,
            noise: self.noise,
            snr: self.snr,
            isunixtime: self.isunixtime,
            qual: self.qual,
            time: self.time,
            duration: self.duration,
            location: self.location,
            tags: tag_views(self.tags@),
            payload: self.payload@,
        }
    }
}

/// Why a buffer is no RFtap packet.
#[derive(Debug, Clone, Copy, PartialEq, Eq, Structural)]
pub enum DecodeError {
    /// The buffer is shorter than the fixed prefix or than the header it
    /// declares, or the declared header is too short for the fields that its
    /// flag word announces.
    FramingError,
    /// The buffer does not start with the magic word.
    MagicMismatch,
    /// A tag's value would run past the end of the declared header.
    TagOverrun,
}

/// Why a packet cannot be written.
#[derive(Debug, Clone, Copy, PartialEq, Eq, Structural)]
pub enum EncodeError {
    /// A tag's value is longer than its one-byte length can say.
    TagTooLong,
    /// The header is longer than its 16-bit length, counted in units of four
    /// bytes, can say.
    HeaderTooLong,
}

} // verus!
