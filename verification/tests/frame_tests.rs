use orzatty::error::Error;
use orzatty::frame::{FrameFlags, FrameHeader, FrameType};
use orzatty::varint::{decode_varint, encode_varint, VARINT_MAX};

#[test]
fn test_frame_header_encode_decode() {
    let header = FrameHeader {
        flags: FrameFlags::control() | FrameFlags::priority(),
        frame_type: FrameType::Utf8Text,
        channel_id: 42,
        stream_id: 12345,
        length: 100,
    };

    let mut buf = [0u8; 32];
    let written = header.encode(&mut buf).unwrap();

    assert_eq!(buf[0], 0xC2);

    let (decoded, read_bytes) = FrameHeader::decode(&buf[..written]).unwrap();

    assert_eq!(decoded.flags, header.flags);
    assert_eq!(decoded.frame_type, header.frame_type);
    assert_eq!(decoded.channel_id, header.channel_id);
    assert_eq!(decoded.stream_id, header.stream_id);
    assert_eq!(decoded.length, header.length);
    assert_eq!(written, read_bytes);
}

#[test]
fn test_varint() {
    let mut buf = [0u8; 8];

    let val = 15293;
    let n = encode_varint(val, &mut buf).unwrap();
    let (decoded, read) = decode_varint(&buf[..n]).unwrap();
    assert_eq!(val, decoded);
    assert_eq!(n, read);
}

#[test]
fn test_errors() {
    let mut buf = [0u8; 1];
    match encode_varint(15293, &mut buf) {
        Err(Error::BufferTooSmall { .. }) => {}
        _ => panic!("Should have failed with BufferTooSmall"),
    }
}

#[test]
fn varint_exact_bytes_of_each_width() {
    let mut buf = [0xAAu8; 9];
    assert_eq!(encode_varint(37, &mut buf), Ok(1));
    assert_eq!(buf, [0x25, 0xAA, 0xAA, 0xAA, 0xAA, 0xAA, 0xAA, 0xAA, 0xAA]);

    let mut buf = [0xAAu8; 9];
    assert_eq!(encode_varint(15293, &mut buf), Ok(2));
    assert_eq!(&buf[..3], &[0x7B, 0xBD, 0xAA]);

    let mut buf = [0xAAu8; 9];
    assert_eq!(encode_varint(494878333, &mut buf), Ok(4));
    assert_eq!(&buf[..5], &[0x9D, 0x7F, 0x3E, 0x7D, 0xAA]);

    let mut buf = [0xAAu8; 9];
    assert_eq!(encode_varint(151288809941952652, &mut buf), Ok(8));
    assert_eq!(buf, [0xC2, 0x19, 0x7C, 0x5E, 0xFF, 0x14, 0xE8, 0x8C, 0xAA]);
}

#[test]
fn varint_width_boundaries_round_trip() {
    let cases: [(u64, usize); 9] = [
        (0, 1),
        (63, 1),
        (64, 2),
        (16383, 2),
        (16384, 4),
        (1073741823, 4),
        (1073741824, 8),
        (VARINT_MAX, 8),
        (1, 1),
    ];
    for (value, width) in cases {
        let mut buf = [0u8; 8];
        assert_eq!(encode_varint(value, &mut buf), Ok(width));
        assert_eq!(decode_varint(&buf[..width]), Ok((value, width)));
        assert_eq!(decode_varint(&buf), Ok((value, width)));
    }
}

#[test]
fn varint_above_range_is_refused_and_buffer_untouched() {
    let mut buf = [7u8; 8];
    assert_eq!(encode_varint(VARINT_MAX + 1, &mut buf), Err(Error::InvalidVarInt));
    assert_eq!(encode_varint(u64::MAX, &mut buf), Err(Error::InvalidVarInt));
    assert_eq!(buf, [7u8; 8]);
}

#[test]
fn varint_buffer_too_small_reports_need_and_room() {
    let mut empty: [u8; 0] = [];
    assert_eq!(
        encode_varint(5, &mut empty),
        Err(Error::BufferTooSmall { needed: 1, available: 0 })
    );
    let mut three = [9u8; 3];
    assert_eq!(
        encode_varint(16384, &mut three),
        Err(Error::BufferTooSmall { needed: 4, available: 3 })
    );
    assert_eq!(three, [9u8; 3]);
    let mut seven = [0u8; 7];
    assert_eq!(
        encode_varint(1073741824, &mut seven),
        Err(Error::BufferTooSmall { needed: 8, available: 7 })
    );
}

#[test]
fn varint_decode_incomplete_input() {
    assert_eq!(
        decode_varint(&[]),
        Err(Error::IncompleteInput { needed_min: 1, available: 0 })
    );
    assert_eq!(
        decode_varint(&[0x40]),
        Err(Error::IncompleteInput { needed_min: 2, available: 1 })
    );
    assert_eq!(
        decode_varint(&[0x80, 1, 2]),
        Err(Error::IncompleteInput { needed_min: 4, available: 3 })
    );
    assert_eq!(
        decode_varint(&[0xFF, 1, 2, 3, 4, 5, 6]),
        Err(Error::IncompleteInput { needed_min: 8, available: 7 })
    );
}

#[test]
fn varint_decode_masks_prefix_and_accepts_long_forms() {
    assert_eq!(decode_varint(&[0x40, 0x25]), Ok((37, 2)));
    assert_eq!(decode_varint(&[0xFF; 8]), Ok((VARINT_MAX, 8)));
    assert_eq!(decode_varint(&[0x3F, 0xFF]), Ok((63, 1)));
}

#[test]
fn header_exact_wire_bytes() {
    let header = FrameHeader {
        flags: FrameFlags::empty(),
        frame_type: FrameType::RawBinary,
        channel_id: 7,
        stream_id: 4,
        length: 4,
    };
    assert_eq!(header.to_bytes(), Ok(vec![0x00, 0x07, 0x04, 0x04]));

    let header = FrameHeader {
        flags: FrameFlags::priority(),
        frame_type: FrameType::Unknown,
        channel_id: 300,
        stream_id: 0,
        length: 70000,
    };
    assert_eq!(
        header.to_bytes(),
        Ok(vec![0x5F, 0x41, 0x2C, 0x00, 0x80, 0x01, 0x11, 0x70])
    );
}

#[test]
fn header_round_trips_every_flag_and_type() {
    let flags = [
        FrameFlags::empty(),
        FrameFlags::control(),
        FrameFlags::priority(),
        FrameFlags::control().union(FrameFlags::priority()),
    ];
    let types = [
        FrameType::RawBinary,
        FrameType::RkyvAligned,
        FrameType::Utf8Text,
        FrameType::Unknown,
    ];
    for f in flags {
        for t in types {
            let header = FrameHeader {
                flags: f,
                frame_type: t,
                channel_id: u32::MAX,
                stream_id: VARINT_MAX,
                length: 1073741824,
            };
            let mut buf = [0u8; 25];
            assert_eq!(header.encode(&mut buf), Ok(25));
            assert_eq!(FrameHeader::decode(&buf), Ok((header, 25)));
        }
    }
}

#[test]
fn header_decode_ignores_what_follows() {
    let header = FrameHeader {
        flags: FrameFlags::control(),
        frame_type: FrameType::Utf8Text,
        channel_id: 1,
        stream_id: 2,
        length: 3,
    };
    let mut bytes = header.to_bytes().unwrap();
    bytes.extend_from_slice(&[0xFF, 0xFF, 0xFF]);
    assert_eq!(FrameHeader::decode(&bytes), Ok((header, 4)));
}

#[test]
fn header_decode_unknown_type_and_reserved_bit() {
    let (header, n) = FrameHeader::decode(&[0x3D, 0, 0, 0]).unwrap();
    assert_eq!(n, 4);
    assert_eq!(header.frame_type, FrameType::Unknown);
    assert_eq!(header.flags, FrameFlags::empty());
    let (header, _) = FrameHeader::decode(&[0xE1, 0, 0, 0]).unwrap();
    assert_eq!(header.frame_type, FrameType::RkyvAligned);
    assert_eq!(header.flags, FrameFlags::control() | FrameFlags::priority());
}

#[test]
fn header_decode_truncates_wide_channel_id() {
    let bytes = [0x00, 0xC0, 0, 0, 1, 0, 0, 0, 5, 0x00, 0x00];
    let (header, n) = FrameHeader::decode(&bytes).unwrap();
    assert_eq!(n, 11);
    assert_eq!(header.channel_id, 5);
}

#[test]
fn header_decode_incomplete() {
    assert_eq!(
        FrameHeader::decode(&[]),
        Err(Error::IncompleteInput { needed_min: 1, available: 0 })
    );
    assert_eq!(
        FrameHeader::decode(&[0x00]),
        Err(Error::IncompleteInput { needed_min: 1, available: 0 })
    );
    assert_eq!(
        FrameHeader::decode(&[0x00, 0x01, 0x80, 0x00]),
        Err(Error::IncompleteInput { needed_min: 4, available: 2 })
    );
}

#[test]
fn header_encode_stops_at_first_field_without_room() {
    let header = FrameHeader {
        flags: FrameFlags::control(),
        frame_type: FrameType::RawBinary,
        channel_id: 1,
        stream_id: 16384,
        length: 9,
    };
    let mut none: [u8; 0] = [];
    assert_eq!(
        header.encode(&mut none),
        Err(Error::BufferTooSmall { needed: 1, available: 0 })
    );
    let mut buf = [0xEEu8; 5];
    assert_eq!(
        header.encode(&mut buf),
        Err(Error::BufferTooSmall { needed: 4, available: 3 })
    );
    assert_eq!(buf, [0x80, 0x01, 0xEE, 0xEE, 0xEE]);
}

#[test]
fn header_encode_refuses_fields_above_range() {
    let header = FrameHeader {
        flags: FrameFlags::empty(),
        frame_type: FrameType::RawBinary,
        channel_id: 1,
        stream_id: 2,
        length: VARINT_MAX + 1,
    };
    let mut buf = [0u8; 32];
    assert_eq!(header.encode(&mut buf), Err(Error::InvalidVarInt));
    assert_eq!(&buf[..4], &[0x00, 0x01, 0x02, 0x00]);
    assert_eq!(header.to_bytes(), Err(Error::InvalidVarInt));
}

#[test]
fn frame_type_tags() {
    assert_eq!(FrameType::from(0), FrameType::RawBinary);
    assert_eq!(FrameType::from(1), FrameType::RkyvAligned);
    assert_eq!(FrameType::from(2), FrameType::Utf8Text);
    assert_eq!(FrameType::from(3), FrameType::Unknown);
    assert_eq!(FrameType::from(255), FrameType::Unknown);
    assert_eq!(FrameType::RawBinary.tag(), 0);
    assert_eq!(FrameType::RkyvAligned.tag(), 1);
    assert_eq!(FrameType::Utf8Text.tag(), 2);
    assert_eq!(FrameType::Unknown.tag(), 255);
}

#[test]
fn flags_operations() {
    let both = FrameFlags::control() | FrameFlags::priority();
    assert_eq!(both.bits(), 0xC0);
    assert_eq!(FrameFlags::control().bits(), 0x80);
    assert_eq!(FrameFlags::priority().bits(), 0x40);
    assert_eq!(FrameFlags::empty().bits(), 0);
    assert!(both.contains(FrameFlags::control()));
    assert!(both.contains(FrameFlags::empty()));
    assert!(!FrameFlags::control().contains(FrameFlags::priority()));
    assert!(!FrameFlags::empty().contains(both));
    let mut f = FrameFlags::empty();
    f.insert(FrameFlags::priority());
    assert_eq!(f, FrameFlags::priority());
    f.insert(FrameFlags::control());
    assert_eq!(f, both);
    assert!(FrameFlags::priority() < FrameFlags::control());
}

#[test]
fn error_messages() {
    assert_eq!(
        Error::BufferTooSmall { needed: 4, available: 3 }.to_string(),
        "Buffer too small: needed 4 bytes, but only 3 available"
    );
    assert_eq!(
        Error::IncompleteInput { needed_min: 8, available: 1207 }.to_string(),
        "Incomplete input: need at least 8 bytes, but only 1207 available"
    );
    assert_eq!(Error::InvalidFrameType(10).to_string(), "Invalid frame type: 0x0a");
    assert_eq!(Error::InvalidFrameType(255).to_string(), "Invalid frame type: 0xff");
    assert_eq!(Error::InvalidVarInt.to_string(), "Invalid VarInt encoding");
    assert_eq!(
        Error::BufferTooSmall { needed: 0, available: 100 }.to_string(),
        "Buffer too small: needed 0 bytes, but only 100 available"
    );
}
