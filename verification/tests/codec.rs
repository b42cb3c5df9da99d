use rftap::flags::{end_of_fields, is_set, width_of};
use rftap::serialize::tags_len;
use rftap::{DecodeError, EncodeError, RFTapPacket, Tag};

fn seconds_to_nanoseconds(int_part: f64, frac_part: f64) -> u128 {
    let total_seconds = int_part + frac_part;
    (total_seconds * 1_000_000_000.0) as u128
}

fn nanoseconds_to_seconds_parts(nanoseconds: u128) -> (f64, f64) {
    let total_seconds = nanoseconds as f64 / 1_000_000_000.0;
    let int_part = total_seconds.floor();
    let frac_part = total_seconds - int_part;
    (int_part, frac_part)
}

fn time_bits(nanoseconds: u128) -> (u64, u64) {
    let (int_part, frac_part) = nanoseconds_to_seconds_parts(nanoseconds);
    (int_part.to_bits(), frac_part.to_bits())
}

fn time_nanoseconds(bits: (u64, u64)) -> u128 {
    seconds_to_nanoseconds(f64::from_bits(bits.0), f64::from_bits(bits.1))
}

fn empty_packet<'a>() -> RFTapPacket<'a> {
    RFTapPacket {
        dlt: None,
        freq: None,
        nomfreq: None,
        freqofs: None,
        isdbm: false,
        power: None,
        noise: None,
        snr: None,
        isunixtime: false,
        qual: None,
        time: None,
        duration: None,
        location: None,
        tags: vec![],
        payload: &[],
    }
}

#[test]
fn test_against_wireshark() {
    // RFtap Protocol (40 bytes)
    //     RFtap Fixed header
    //     Data Link Type (DLT): 148
    //     Nominal Frequency: 162800000Hz
    //     Signal Power: 0.00 dB
    //     Time (integer part): 1671290426 seconds
    //     Time (fractional part): 0.263090372 seconds
    //     Time: 1671290426.263090 seconds

    let data = hex::decode(
        "524674610a00250694000000000000004368a341000000000000808e77e7d8410000000079d6d03f",
    )
    .unwrap();
    let packet = RFTapPacket::parse(&data).unwrap();

    assert_eq!(packet.dlt.unwrap(), 148);
    assert!(packet.freq.is_none());
    assert_eq!(f64::from_bits(packet.nomfreq.unwrap()), 162800000.0);
    assert!(packet.freqofs.is_none());
    assert_eq!(packet.isdbm, false);
    assert_eq!(f32::from_bits(packet.power.unwrap()), 0.0);
    assert!(packet.noise.is_none());
    assert!(packet.snr.is_none());
    assert_eq!(packet.isunixtime, true);
    assert_eq!(time_nanoseconds(packet.time.unwrap()), 1671290426263090432);
    assert!(packet.duration.is_none());
    assert!(packet.location.is_none());
    assert_eq!(packet.payload.len(), 0)
}

#[test]
fn test_all_fields_end_to_end() {
    let payload = vec![0xff, 0xff, 0xff];
    let packet = RFTapPacket {
        dlt: Some(123),
        freq: Some(1234566.0f64.to_bits()),
        nomfreq: Some(67456745.0f64.to_bits()),
        freqofs: Some(0.000003f64.to_bits()),
        isdbm: false,
        power: Some(12.3f32.to_bits()),
        noise: Some(0.4f32.to_bits()),
        snr: Some(99.9f32.to_bits()),
        isunixtime: true,
        qual: Some(100.0f32.to_bits()),
        time: Some(time_bits(1751558597250044416)),
        duration: Some(33.0f64.to_bits()),
        location: Some((48.0f64.to_bits(), 14.0f64.to_bits(), 440.0f64.to_bits())),
        tags: vec![],
        payload: &payload,
    };

    let serialized = packet.serialize().unwrap();

    let restored = RFTapPacket::parse(&serialized).unwrap();

    assert_eq!(packet, restored);
    assert_eq!(time_nanoseconds(restored.time.unwrap()), 1751558597250044416);
}

#[test]
fn wireshark_capture_has_no_tags_and_no_quality() {
    let data = hex::decode(
        "524674610a00250694000000000000004368a341000000000000808e77e7d8410000000079d6d03f",
    )
    .unwrap();
    let packet = RFTapPacket::parse(&data).unwrap();
    assert!(packet.qual.is_none());
    assert!(packet.tags.is_empty());
    assert_eq!(packet.nomfreq, Some(0x41a3684300000000));
    assert_eq!(packet.power, Some(0));
    assert_eq!(packet.time, Some((0x41d8e7778e800000, 0x3fd0d67900000000)));
}

#[test]
fn wireshark_capture_is_written_back_byte_for_byte() {
    let data = hex::decode(
        "524674610a00250694000000000000004368a341000000000000808e77e7d8410000000079d6d03f",
    )
    .unwrap();
    let packet = RFTapPacket::parse(&data).unwrap();
    assert_eq!(packet.serialize().unwrap(), data);
}

#[test]
fn sensor_reading_round_trips_with_time_in_tolerance() {
    let payload = [0xffu8, 0xff, 0xff];
    let mut packet = empty_packet();
    packet.dlt = Some(123);
    packet.freq = Some(1234566.0f64.to_bits());
    packet.power = Some(12.3f32.to_bits());
    packet.time = Some(time_bits(1751558597250044416));
    packet.location = Some((48.0f64.to_bits(), 14.0f64.to_bits(), 440.0f64.to_bits()));
    packet.payload = &payload;

    let bytes = packet.serialize().unwrap();
    let restored = RFTapPacket::parse(&bytes).unwrap();
    assert_eq!(restored, packet);
    assert_eq!(restored.dlt, Some(123));
    assert_eq!(f64::from_bits(restored.freq.unwrap()), 1234566.0);
    assert_eq!(f32::from_bits(restored.power.unwrap()), 12.3);
    let (lat, lon, alt) = restored.location.unwrap();
    assert_eq!(f64::from_bits(lat), 48.0);
    assert_eq!(f64::from_bits(lon), 14.0);
    assert_eq!(f64::from_bits(alt), 440.0);
    assert_eq!(restored.payload, &[0xff, 0xff, 0xff]);
    let nanoseconds = time_nanoseconds(restored.time.unwrap());
    let difference = nanoseconds.abs_diff(1751558597250044416);
    assert!(difference < 1024);
}

#[test]
fn empty_packet_is_the_bare_prefix() {
    let packet = empty_packet();
    let bytes = packet.serialize().unwrap();
    assert_eq!(bytes, vec![0x52, 0x46, 0x74, 0x61, 0x02, 0x00, 0x00, 0x00]);
    assert_eq!(RFTapPacket::parse(&bytes).unwrap(), packet);
}

#[test]
fn serialize_writes_little_endian_fields_in_bit_order() {
    let payload = [0xaau8];
    let mut packet = empty_packet();
    packet.dlt = Some(0x01020304);
    packet.isdbm = true;
    packet.qual = Some(0x0a0b0c0d);
    packet.duration = Some(0x1112131415161718);
    packet.payload = &payload;
    let bytes = packet.serialize().unwrap();
    assert_eq!(
        bytes,
        vec![
            0x52, 0x46, 0x74, 0x61, // magic
            0x06, 0x00, // six units: prefix, one, one, two
            0x11, 0x09, // bits 0, 4, 8, 11
            0x04, 0x03, 0x02, 0x01, // dlt
            0x0d, 0x0c, 0x0b, 0x0a, // qual
            0x18, 0x17, 0x16, 0x15, 0x14, 0x13, 0x12, 0x11, // duration
            0xaa, // payload
        ]
    );
}

#[test]
fn serialize_writes_time_and_location_parts_in_order() {
    let mut packet = empty_packet();
    packet.isunixtime = true;
    packet.time = Some((0x0102030405060708, 0x1112131415161718));
    packet.location = Some((0x21, 0x22, 0x23));
    let bytes = packet.serialize().unwrap();
    let mut expected = vec![0x52, 0x46, 0x74, 0x61, 0x0c, 0x00, 0x00, 0x16];
    expected.extend_from_slice(&[0x08, 0x07, 0x06, 0x05, 0x04, 0x03, 0x02, 0x01]);
    expected.extend_from_slice(&[0x18, 0x17, 0x16, 0x15, 0x14, 0x13, 0x12, 0x11]);
    expected.extend_from_slice(&[0x21, 0, 0, 0, 0, 0, 0, 0]);
    expected.extend_from_slice(&[0x22, 0, 0, 0, 0, 0, 0, 0]);
    expected.extend_from_slice(&[0x23, 0, 0, 0, 0, 0, 0, 0]);
    assert_eq!(bytes, expected);
}

#[test]
fn every_field_sets_its_own_bit() {
    let cases: Vec<(RFTapPacket, u16, usize)> = vec![
        (RFTapPacket { dlt: Some(1), ..empty_packet() }, 0x0001, 4),
        (RFTapPacket { freq: Some(1), ..empty_packet() }, 0x0002, 8),
        (RFTapPacket { nomfreq: Some(1), ..empty_packet() }, 0x0004, 8),
        (RFTapPacket { freqofs: Some(1), ..empty_packet() }, 0x0008, 8),
        (RFTapPacket { isdbm: true, ..empty_packet() }, 0x0010, 0),
        (RFTapPacket { power: Some(1), ..empty_packet() }, 0x0020, 4),
        (RFTapPacket { noise: Some(1), ..empty_packet() }, 0x0040, 4),
        (RFTapPacket { snr: Some(1), ..empty_packet() }, 0x0080, 4),
        (RFTapPacket { qual: Some(1), ..empty_packet() }, 0x0100, 4),
        (RFTapPacket { isunixtime: true, ..empty_packet() }, 0x0200, 0),
        (RFTapPacket { time: Some((1, 2)), ..empty_packet() }, 0x0400, 16),
        (RFTapPacket { duration: Some(1), ..empty_packet() }, 0x0800, 8),
        (RFTapPacket { location: Some((1, 2, 3)), ..empty_packet() }, 0x1000, 24),
    ];
    for (packet, bit, width) in cases {
        let bytes = packet.serialize().unwrap();
        assert_eq!(bytes.len(), 8 + width);
        assert_eq!(u16::from_le_bytes([bytes[4], bytes[5]]) as usize * 4, 8 + width);
        assert_eq!(u16::from_le_bytes([bytes[6], bytes[7]]), bit);
        assert_eq!(RFTapPacket::parse(&bytes).unwrap(), packet);
    }
}

#[test]
fn every_combination_of_fields_round_trips() {
    let payload = [1u8, 2, 3, 4, 5];
    for mask in 0u16..0x2000 {
        let on = |bit: u16| mask & bit != 0;
        let packet = RFTapPacket {
            dlt: if on(0x0001) { Some(0xdead_beef) } else { None },
            freq: if on(0x0002) { Some(433.92e6f64.to_bits()) } else { None },
            nomfreq: if on(0x0004) { Some(u64::MAX) } else { None },
            freqofs: if on(0x0008) { Some((-12.5f64).to_bits()) } else { None },
            isdbm: on(0x0010),
            power: if on(0x0020) { Some((-70.5f32).to_bits()) } else { None },
            noise: if on(0x0040) { Some(u32::MAX) } else { None },
            snr: if on(0x0080) { Some(0) } else { None },
            qual: if on(0x0100) { Some(0.5f32.to_bits()) } else { None },
            isunixtime: on(0x0200),
            time: if on(0x0400) { Some((7, 9)) } else { None },
            duration: if on(0x0800) { Some(f64::NAN.to_bits()) } else { None },
            location: if on(0x1000) { Some((1, u64::MAX, 3)) } else { None },
            tags: vec![],
            payload: &payload,
        };
        let bytes = packet.serialize().unwrap();
        assert_eq!(u16::from_le_bytes([bytes[6], bytes[7]]), mask);
        let restored = RFTapPacket::parse(&bytes).unwrap();
        assert_eq!(restored, packet);
        assert_eq!(restored.dlt.is_some(), on(0x0001));
        assert_eq!(restored.freq.is_some(), on(0x0002));
        assert_eq!(restored.nomfreq.is_some(), on(0x0004));
        assert_eq!(restored.freqofs.is_some(), on(0x0008));
        assert_eq!(restored.isdbm, on(0x0010));
        assert_eq!(restored.power.is_some(), on(0x0020));
        assert_eq!(restored.noise.is_some(), on(0x0040));
        assert_eq!(restored.snr.is_some(), on(0x0080));
        assert_eq!(restored.qual.is_some(), on(0x0100));
        assert_eq!(restored.isunixtime, on(0x0200));
        assert_eq!(restored.time.is_some(), on(0x0400));
        assert_eq!(restored.duration.is_some(), on(0x0800));
        assert_eq!(restored.location.is_some(), on(0x1000));
    }
}

#[test]
fn short_buffers_are_badly_framed() {
    let whole = [0x52u8, 0x46, 0x74, 0x61, 0x02, 0x00, 0x00, 0x00];
    for len in 0..8 {
        assert_eq!(RFTapPacket::parse(&whole[..len]), Err(DecodeError::FramingError));
    }
    assert!(RFTapPacket::parse(&whole).is_ok());
}

#[test]
fn wrong_magic_is_rejected() {
    let whole = [0x52u8, 0x46, 0x74, 0x61, 0x02, 0x00, 0x00, 0x00];
    for at in 0..4 {
        let mut bytes = whole;
        bytes[at] ^= 0x20;
        assert_eq!(RFTapPacket::parse(&bytes), Err(DecodeError::MagicMismatch));
    }
    assert_eq!(RFTapPacket::parse(b"RFtb\x02\x00\x00\x00"), Err(DecodeError::MagicMismatch));
}

#[test]
fn short_buffer_is_reported_before_wrong_magic() {
    assert_eq!(RFTapPacket::parse(b"XXXX"), Err(DecodeError::FramingError));
}

#[test]
fn buffer_shorter_than_declared_header_is_badly_framed() {
    // Three units declared, two present.
    let bytes = [0x52u8, 0x46, 0x74, 0x61, 0x03, 0x00, 0x00, 0x00];
    assert_eq!(RFTapPacket::parse(&bytes), Err(DecodeError::FramingError));
    // The largest header that can be declared.
    let bytes = [0x52u8, 0x46, 0x74, 0x61, 0xff, 0xff, 0x00, 0x00];
    assert_eq!(RFTapPacket::parse(&bytes), Err(DecodeError::FramingError));
}

#[test]
fn declared_header_too_short_for_its_fields_is_badly_framed() {
    // The flag word announces a data link type, the header has no room for it.
    let bytes = [0x52u8, 0x46, 0x74, 0x61, 0x02, 0x00, 0x01, 0x00, 1, 0, 0, 0];
    assert_eq!(RFTapPacket::parse(&bytes), Err(DecodeError::FramingError));
    // A header that declares less than its own fixed prefix.
    let bytes = [0x52u8, 0x46, 0x74, 0x61, 0x00, 0x00, 0x00, 0x00];
    assert_eq!(RFTapPacket::parse(&bytes), Err(DecodeError::FramingError));
    let bytes = [0x52u8, 0x46, 0x74, 0x61, 0x01, 0x00, 0x00, 0x00];
    assert_eq!(RFTapPacket::parse(&bytes), Err(DecodeError::FramingError));
}

#[test]
fn payload_starts_exactly_at_the_declared_boundary() {
    let bytes = [
        0x52u8, 0x46, 0x74, 0x61, 0x05, 0x00, 0x21, 0x00, // five units, dlt and power
        0x94, 0x00, 0x00, 0x00, // dlt
        0x00, 0x00, 0x80, 0x3f, // power
        0x00, 0x00, 0x00, 0x00, // an empty tag fills the header
        0x10, 0x20, 0x30,
    ];
    let packet = RFTapPacket::parse(&bytes).unwrap();
    assert_eq!(packet.dlt, Some(148));
    assert_eq!(f32::from_bits(packet.power.unwrap()), 1.0);
    assert_eq!(packet.payload, &[0x10, 0x20, 0x30]);

    let exact = [
        0x52u8, 0x46, 0x74, 0x61, 0x04, 0x00, 0x21, 0x00, 0x94, 0x00, 0x00, 0x00, 0x00, 0x00,
        0x80, 0x3f, 0x10, 0x20, 0x30,
    ];
    let packet = RFTapPacket::parse(&exact).unwrap();
    assert_eq!(packet.dlt, Some(148));
    assert_eq!(packet.power, Some(0x3f800000));
    assert!(packet.tags.is_empty());
    assert_eq!(packet.payload, &[0x10, 0x20, 0x30]);
    assert_eq!(packet.payload.as_ptr(), exact[16..].as_ptr());
}

#[test]
fn tags_are_read_in_order() {
    let bytes = [
        0x52u8, 0x46, 0x74, 0x61, 0x06, 0x00, 0x00, 0x00, // six units, no fields
        0x01, 0x00, 0x04, 0x80, b'w', b'i', b'f', b'i', // tag 1, four bytes
        0x34, 0x12, 0x00, 0x07, // tag 0x1234, empty
        0x02, 0x00, 0x00, 0x00, // tag 2, empty
        0xee,
    ];
    let packet = RFTapPacket::parse(&bytes).unwrap();
    assert_eq!(
        packet.tags,
        vec![
            Tag { id: 1, flags: 0x80, value: b"wifi" },
            Tag { id: 0x1234, flags: 7, value: &[] },
            Tag { id: 2, flags: 0, value: &[] },
        ]
    );
    assert_eq!(packet.payload, &[0xee]);
}

#[test]
fn slack_after_the_last_tag_is_passed_over() {
    for slack in 1..4usize {
        let value_len = 4 - slack;
        let mut bytes = vec![0x52u8, 0x46, 0x74, 0x61, 0x05, 0x00, 0x01, 0x00];
        bytes.extend_from_slice(&[7, 0, 0, 0]); // dlt
        bytes.extend_from_slice(&[0x09, 0x00, value_len as u8, 0x01]);
        bytes.extend(std::iter::repeat(0x55).take(value_len));
        bytes.extend(std::iter::repeat(0xcc).take(slack));
        assert_eq!(bytes.len(), 20);
        bytes.extend_from_slice(&[0xf0, 0xf1]);

        let packet = RFTapPacket::parse(&bytes).unwrap();
        assert_eq!(packet.dlt, Some(7));
        assert_eq!(packet.tags.len(), 1);
        assert_eq!(packet.tags[0].id, 9);
        assert_eq!(packet.tags[0].flags, 1);
        assert_eq!(packet.tags[0].value, &vec![0x55u8; value_len][..]);
        assert_eq!(packet.payload, &[0xf0, 0xf1]);
    }
}

#[test]
fn tag_that_crosses_the_boundary_overruns() {
    // The tag says five bytes, the header has four left for it.
    let bytes = [
        0x52u8, 0x46, 0x74, 0x61, 0x04, 0x00, 0x00, 0x00, 0x01, 0x00, 0x05, 0x00, 1, 2, 3, 4, 5,
        6, 7, 8,
    ];
    assert_eq!(RFTapPacket::parse(&bytes), Err(DecodeError::TagOverrun));
    // One byte less fits exactly.
    let bytes = [
        0x52u8, 0x46, 0x74, 0x61, 0x04, 0x00, 0x00, 0x00, 0x01, 0x00, 0x04, 0x00, 1, 2, 3, 4, 5,
        6, 7, 8,
    ];
    let packet = RFTapPacket::parse(&bytes).unwrap();
    assert_eq!(packet.tags, vec![Tag { id: 1, flags: 0, value: &[1, 2, 3, 4] }]);
    assert_eq!(packet.payload, &[5, 6, 7, 8]);
}

#[test]
fn second_tag_that_crosses_the_boundary_overruns() {
    let bytes = [
        0x52u8, 0x46, 0x74, 0x61, 0x04, 0x00, 0x00, 0x00, // four units
        0x01, 0x00, 0x00, 0x00, // empty tag
        0x02, 0x00, 0x01, 0x00, // one byte, none left
        0, 0, 0, 0,
    ];
    assert_eq!(RFTapPacket::parse(&bytes), Err(DecodeError::TagOverrun));
}

#[test]
fn reserved_bits_are_ignored_on_reading_and_clear_on_writing() {
    let bytes = [0x52u8, 0x46, 0x74, 0x61, 0x03, 0x00, 0x01, 0xe0, 0x2a, 0x00, 0x00, 0x00];
    let packet = RFTapPacket::parse(&bytes).unwrap();
    assert_eq!(packet, RFTapPacket { dlt: Some(42), ..empty_packet() });
    let written = packet.serialize().unwrap();
    assert_eq!(written, vec![0x52, 0x46, 0x74, 0x61, 0x03, 0x00, 0x01, 0x00, 0x2a, 0, 0, 0]);
}

#[test]
fn tags_are_written_with_padding_to_a_whole_unit() {
    let payload = [0x99u8];
    let mut packet = empty_packet();
    packet.snr = Some(0x01020304);
    packet.tags = vec![
        Tag { id: 0x0102, flags: 7, value: &[9, 8, 7] },
        Tag { id: 0xfffe, flags: 0, value: &[] },
    ];
    packet.payload = &payload;
    let bytes = packet.serialize().unwrap();
    assert_eq!(
        bytes,
        vec![
            0x52, 0x46, 0x74, 0x61, 0x06, 0x00, 0x80, 0x00, // six units, snr
            0x04, 0x03, 0x02, 0x01, // snr
            0x02, 0x01, 0x03, 0x07, 9, 8, 7, // first tag
            0xfe, 0xff, 0x00, 0x00, // second tag
            0x00, // padding
            0x99, // payload
        ]
    );
    assert_eq!(RFTapPacket::parse(&bytes).unwrap(), packet);
}

#[test]
fn tags_of_every_length_round_trip() {
    let value = [0x5au8; 255];
    for len in 0..=255usize {
        let mut packet = empty_packet();
        packet.dlt = Some(len as u32);
        packet.tags = vec![
            Tag { id: len as u16, flags: 1, value: &value[..len] },
            Tag { id: 2, flags: 3, value: &value[..255 - len] },
        ];
        packet.payload = &value[..3];
        let bytes = packet.serialize().unwrap();
        assert_eq!(bytes.len() % 4, 3);
        assert_eq!(RFTapPacket::parse(&bytes).unwrap(), packet);
    }
}

#[test]
fn tag_longer_than_its_length_byte_cannot_be_written() {
    let value = [0u8; 256];
    let mut packet = empty_packet();
    packet.tags = vec![Tag { id: 1, flags: 0, value: &value[..255] }];
    assert!(packet.serialize().is_ok());
    packet.tags = vec![Tag { id: 1, flags: 0, value: &value }];
    assert_eq!(packet.serialize(), Err(EncodeError::TagTooLong));
}

#[test]
fn header_longer_than_its_length_field_cannot_be_written() {
    let value = [0u8; 252];
    // Each tag takes 256 bytes: 1023 of them and the prefix are 65474 units.
    let mut packet = empty_packet();
    packet.tags = (0..1023).map(|i| Tag { id: i, flags: 0, value: &value }).collect();
    let bytes = packet.serialize().unwrap();
    assert_eq!(bytes.len(), 8 + 1023 * 256);
    assert_eq!(u16::from_le_bytes([bytes[4], bytes[5]]), 65474);
    assert_eq!(RFTapPacket::parse(&bytes).unwrap(), packet);

    packet.tags = (0..1024).map(|i| Tag { id: i, flags: 0, value: &value }).collect();
    assert_eq!(packet.serialize(), Err(EncodeError::HeaderTooLong));
}

#[test]
fn longest_header_is_written_and_one_unit_more_is_not() {
    let value = [7u8; 252];
    let short = [7u8; 240];
    // 1023 tags of 256 bytes and one of 244 bytes: 65535 units with the prefix.
    let mut tags: Vec<Tag> = (0..1023).map(|i| Tag { id: i, flags: 0, value: &value }).collect();
    tags.push(Tag { id: 9, flags: 0, value: &short[..240] });
    let mut packet = empty_packet();
    packet.tags = tags;
    let bytes = packet.serialize().unwrap();
    assert_eq!(bytes.len(), 4 * 65535);
    assert_eq!(&bytes[4..6], &[0xff, 0xff]);
    assert_eq!(RFTapPacket::parse(&bytes).unwrap(), packet);

    // One field more and the header no longer fits.
    packet.dlt = Some(1);
    assert_eq!(packet.serialize(), Err(EncodeError::HeaderTooLong));
}

#[test]
fn tag_too_long_is_reported_before_header_too_long() {
    let value = [0u8; 252];
    let long = [0u8; 300];
    let mut tags: Vec<Tag> = (0..1024).map(|i| Tag { id: i, flags: 0, value: &value }).collect();
    tags.push(Tag { id: 0, flags: 0, value: &long });
    let mut packet = empty_packet();
    packet.tags = tags;
    assert_eq!(packet.serialize(), Err(EncodeError::TagTooLong));
}

#[test]
fn payload_and_tag_values_are_borrowed_from_the_input() {
    let bytes = [
        0x52u8, 0x46, 0x74, 0x61, 0x04, 0x00, 0x00, 0x00, 0x01, 0x00, 0x03, 0x00, 1, 2, 3, 0,
        0xa0, 0xa1,
    ];
    let packet = RFTapPacket::parse(&bytes).unwrap();
    assert_eq!(packet.tags[0].value.as_ptr(), bytes[12..].as_ptr());
    assert_eq!(packet.payload.as_ptr(), bytes[16..].as_ptr());
}

#[test]
fn out_of_range_values_are_read_as_they_are() {
    let mut packet = empty_packet();
    packet.freq = Some(f64::NEG_INFINITY.to_bits());
    packet.power = Some(f32::NAN.to_bits());
    packet.noise = Some((-1.0e30f32).to_bits());
    let bytes = packet.serialize().unwrap();
    let restored = RFTapPacket::parse(&bytes).unwrap();
    assert_eq!(f64::from_bits(restored.freq.unwrap()), f64::NEG_INFINITY);
    assert!(f32::from_bits(restored.power.unwrap()).is_nan());
    assert_eq!(f32::from_bits(restored.noise.unwrap()), -1.0e30);
}

#[test]
fn bytes_of_the_padding_do_not_matter() {
    let zeros = [
        0x52u8, 0x46, 0x74, 0x61, 0x05, 0x00, 0x80, 0x00, // five units, snr
        1, 2, 3, 4, // snr
        0x07, 0x00, 0x02, 0x01, 0xaa, 0xbb, // a tag of two bytes
        0x00, 0x00, // padding
        0x10, 0x11,
    ];
    let expected = RFTapPacket::parse(&zeros).unwrap();
    assert_eq!(expected.tags, vec![Tag { id: 7, flags: 1, value: &[0xaa, 0xbb] }]);
    assert_eq!(expected.payload, &[0x10, 0x11]);
    for first in [0x00u8, 0x01, 0x7f, 0xff] {
        for second in [0x00u8, 0x05, 0xff] {
            let mut bytes = zeros;
            bytes[18] = first;
            bytes[19] = second;
            assert_eq!(RFTapPacket::parse(&bytes).unwrap(), expected);
        }
    }
    assert_eq!(expected.serialize().unwrap(), zeros);
}

#[test]
fn what_was_read_is_written_with_the_declared_length() {
    let buffers: Vec<Vec<u8>> = vec![
        vec![0x52, 0x46, 0x74, 0x61, 0x02, 0x00, 0x10, 0x02],
        vec![0x52, 0x46, 0x74, 0x61, 0x03, 0x00, 0x01, 0xe0, 9, 9, 9, 9, 0xfe],
        vec![0x52, 0x46, 0x74, 0x61, 0x04, 0x00, 0x00, 0x00, 1, 0, 3, 0, 7, 7, 7, 0x5a, 1, 2],
        vec![0x52, 0x46, 0x74, 0x61, 0x04, 0x00, 0x20, 0x00, 0, 0, 0, 0, 2, 0, 0, 9],
    ];
    for bytes in buffers {
        let packet = RFTapPacket::parse(&bytes).unwrap();
        let written = packet.serialize().unwrap();
        assert_eq!(written.len(), bytes.len());
        assert_eq!(&written[4..6], &bytes[4..6]);
        assert_eq!(RFTapPacket::parse(&written).unwrap(), packet);
    }
}

#[test]
fn bits_of_the_flag_word_are_told_apart() {
    let flags = 0x0625;
    let set: Vec<u16> = (0..16).map(|bit| 1u16 << bit).filter(|&mask| is_set(flags, mask)).collect();
    assert_eq!(set, vec![0x0001, 0x0004, 0x0020, 0x0200, 0x0400]);
    assert!(!is_set(0, rftap::flags::DLT));
    assert!(is_set(0xffff, rftap::flags::LOCATION));
}

#[test]
fn fields_end_behind_the_widths_of_those_present() {
    assert_eq!(end_of_fields(0x0000), 8);
    assert_eq!(end_of_fields(0x0625), 40);
    assert_eq!(end_of_fields(0x1fff), 100);
    // Modes and reserved bits take no bytes.
    assert_eq!(end_of_fields(0xe210), 8);
    assert_eq!(end_of_fields(0x0001), 12);
    assert_eq!(end_of_fields(0x0400), 24);
    assert_eq!(end_of_fields(0x1000), 32);
    assert_eq!(width_of(0x0002, rftap::flags::FREQ, 8), 8);
    assert_eq!(width_of(0x0002, rftap::flags::NOMFREQ, 8), 0);
}

#[test]
fn tags_take_four_bytes_and_their_value() {
    let value = [0u8; 300];
    assert_eq!(tags_len(&vec![]), Ok(0));
    assert_eq!(tags_len(&vec![Tag { id: 1, flags: 0, value: &value[..0] }]), Ok(4));
    assert_eq!(
        tags_len(&vec![
            Tag { id: 1, flags: 0, value: &value[..3] },
            Tag { id: 2, flags: 0, value: &value[..255] },
        ]),
        Ok(7 + 259)
    );
    assert_eq!(
        tags_len(&vec![Tag { id: 1, flags: 0, value: &value[..256] }]),
        Err(EncodeError::TagTooLong)
    );
    // 1023 tags of 256 bytes and one of 252 fill the largest header without its prefix.
    let mut tags: Vec<Tag> =
        (0..1023).map(|i| Tag { id: i, flags: 0, value: &value[..252] }).collect();
    tags.push(Tag { id: 0, flags: 0, value: &value[..248] });
    assert_eq!(tags_len(&tags), Ok(262140));
    tags.push(Tag { id: 0, flags: 0, value: &value[..0] });
    assert_eq!(tags_len(&tags), Err(EncodeError::HeaderTooLong));
}
