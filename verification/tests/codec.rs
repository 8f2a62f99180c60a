use bytes::{Bytes, BytesMut};
use frame_codec::buffer::{HeapRing, Ring};
use frame_codec::codec::{Decoded, EncodeError};
use frame_codec::parser::JunkKind;
use frame_codec::{Decoder, Encoder, ETX, STX};

const DEADBEEF: &[u8] = &[0xde, 0xad, 0xbe, 0xef];
const VALID_DEADBEEF_CASE: &[u8] = &[
    0xeb, 0x90, 0x00, 0x04, 0xde, 0xad, 0xbe, 0xef, 0x40, 0x97, 0xc5, 0x79,
];

/// A reproducible stream of bytes.
fn noise(seed: u32, len: usize) -> Vec<u8> {
    let mut state = seed;
    (0..len)
        .map(|_| {
            state = state.wrapping_mul(1664525).wrapping_add(1013904223);
            (state >> 24) as u8
        })
        .collect()
}

/// Noise in which the start marker does not occur.
fn junk(seed: u32, len: usize) -> Vec<u8> {
    let mut bytes = noise(seed, len);
    for at in 1..bytes.len() {
        if bytes[at - 1] == STX[0] && bytes[at] == STX[1] {
            bytes[at] = 0x91;
        }
    }
    bytes
}

#[test]
fn encode_writes_the_literal_frame() {
    let mut buf = BytesMut::new();
    let mut encoder = Encoder::new();
    assert_eq!(encoder.encode(DEADBEEF, &mut buf), Ok(()));
    assert_eq!(&buf[..], VALID_DEADBEEF_CASE);
}

#[test]
fn encode_appends_to_what_is_there() {
    let mut buf = BytesMut::from(&[0x01u8, 0x02][..]);
    let mut encoder = Encoder::new();
    assert_eq!(encoder.encode(&[], &mut buf), Ok(()));
    assert_eq!(&buf[..], &[0x01, 0x02, 0xeb, 0x90, 0x00, 0x00, 0xff, 0xff, 0xc5, 0x79]);
}

#[test]
fn encode_writes_the_length_big_endian() {
    let body = noise(7, 0x1234);
    let mut buf = BytesMut::new();
    assert_eq!(Encoder::new().encode(&body, &mut buf), Ok(()));
    assert_eq!(buf.len(), 0x1234 + 8);
    assert_eq!(&buf[..2], &STX);
    assert_eq!(&buf[2..4], &[0x12, 0x34]);
    assert_eq!(&buf[4..4 + 0x1234], &body[..]);
    assert_eq!(&buf[buf.len() - 2..], &ETX);
}

#[test]
fn encode_takes_the_largest_body() {
    let body = noise(11, 65535);
    let mut buf = BytesMut::new();
    assert_eq!(Encoder::new().encode(&body, &mut buf), Ok(()));
    assert_eq!(buf.len(), 65535 + 8);
    assert_eq!(&buf[2..4], &[0xff, 0xff]);
    let mut decoder = Decoder::new(HeapRing::with_capacity(65535 + 8));
    assert_eq!(decoder.decode(&mut buf), Some(Decoded::Frame(Bytes::from(body))));
    assert_eq!(decoder.decode(&mut buf), None);
}

#[test]
fn encode_refuses_a_body_that_is_too_large() {
    let body = vec![0u8; 65536];
    let mut buf = BytesMut::from(&[0x55u8][..]);
    assert_eq!(
        Encoder::new().encode(&body, &mut buf),
        Err(EncodeError::BodyTooLarge { len: 65536 })
    );
    assert_eq!(&buf[..], &[0x55]);
}

#[test]
fn decode_reads_the_literal_frame() {
    let mut src = BytesMut::from(VALID_DEADBEEF_CASE);
    let mut decoder = Decoder::new(Ring::<32>::new());
    assert_eq!(
        decoder.decode(&mut src),
        Some(Decoded::Frame(Bytes::from_static(DEADBEEF)))
    );
    assert!(src.is_empty());
    assert_eq!(decoder.decode(&mut src), None);
}

#[test]
fn decode_takes_from_the_source_only_what_fits() {
    let mut src = BytesMut::new();
    let mut encoder = Encoder::new();
    for _ in 0..3 {
        encoder.encode(DEADBEEF, &mut src).unwrap();
    }
    let mut decoder = Decoder::new(Ring::<16>::new());
    assert_eq!(
        decoder.decode(&mut src),
        Some(Decoded::Frame(Bytes::from_static(DEADBEEF)))
    );
    assert_eq!(src.len(), 20);
    assert_eq!(
        decoder.decode(&mut src),
        Some(Decoded::Frame(Bytes::from_static(DEADBEEF)))
    );
    assert_eq!(src.len(), 8);
    assert_eq!(
        decoder.decode(&mut src),
        Some(Decoded::Frame(Bytes::from_static(DEADBEEF)))
    );
    assert_eq!(src.len(), 0);
    assert_eq!(decoder.decode(&mut src), None);
}

#[test]
fn decode_reports_each_kind_of_junk() {
    let cases: [(&[u8], JunkKind); 4] = [
        (&[0, 1, 2, 3, 4, 5, 6, 7], JunkKind::InvalidStx),
        (&[0xeb, 0x90, 0xff, 0xff, 4, 5, 6, 7], JunkKind::InvalidLength),
        (&[0xeb, 0x90, 0x00, 0x00, 0x12, 0x34, 0xc5, 0x79], JunkKind::InvalidCrc),
        (&[0xeb, 0x90, 0x00, 0x00, 0xff, 0xff, 0xc5, 0x78], JunkKind::InvalidEtx),
    ];
    for (input, kind) in cases {
        let mut src = BytesMut::from(input);
        let mut decoder = Decoder::new(Ring::<32>::new());
        assert_eq!(decoder.decode(&mut src), Some(Decoded::Junk(kind)));
    }
}

#[test]
fn frames_around_junk_are_decoded() {
    for seed in 0..40u32 {
        let first = noise(seed * 3 + 1, 1 + (seed as usize * 37) % 1023);
        let between = junk(seed * 3 + 2, 1 + (seed as usize * 53) % 1023);
        let last = noise(seed * 3 + 3, 1 + (seed as usize * 71) % 1023);
        let mut buf = BytesMut::new();
        let mut encoder = Encoder::new();
        encoder.encode(first.as_slice(), &mut buf).unwrap();
        buf.extend_from_slice(&between);
        encoder.encode(last.as_slice(), &mut buf).unwrap();
        let mut decoder = Decoder::new(HeapRing::with_capacity(4096));
        assert_eq!(decoder.decode(&mut buf), Some(Decoded::Frame(first.into())));
        assert_eq!(decoder.decode(&mut buf), Some(Decoded::Junk(JunkKind::InvalidStx)));
        assert_eq!(decoder.decode(&mut buf), Some(Decoded::Frame(last.into())));
        assert_eq!(decoder.decode(&mut buf), None);
    }
}

#[test]
fn round_trip_of_bodies_of_many_lengths() {
    for len in [0usize, 1, 2, 3, 7, 8, 9, 255, 256, 257, 1000, 4088] {
        let body = noise(len as u32 + 99, len);
        let mut buf = BytesMut::new();
        Encoder::new().encode(&body, &mut buf).unwrap();
        let mut decoder = Decoder::new(HeapRing::with_capacity(4096));
        assert_eq!(decoder.decode(&mut buf), Some(Decoded::Frame(body.into())));
        assert_eq!(decoder.decode(&mut buf), None);
    }
}

#[test]
fn frame_split_by_the_wrap_is_copied_out_whole() {
    let mut decoder = Decoder::new(Ring::<24>::new());
    let mut src = BytesMut::from(&[0u8; 20][..]);
    assert_eq!(decoder.decode(&mut src), Some(Decoded::Junk(JunkKind::InvalidStx)));
    let body = noise(5, 12);
    Encoder::new().encode(&body, &mut src).unwrap();
    assert_eq!(decoder.decode(&mut src), Some(Decoded::Junk(JunkKind::InvalidStx)));
    assert_eq!(decoder.decode(&mut src), Some(Decoded::Frame(body.into())));
    assert_eq!(decoder.decode(&mut src), None);
    assert!(src.is_empty());
}
