use trex::protocol::{Header, HeaderDeserializer, HeaderSerializer, HeaderType, CHUNK_SIZE, MAGIC};

fn encode(h: Header) -> Vec<u8> {
    let mut s = HeaderSerializer::new();
    s.write_header(h);
    s.into_bytes()
}

fn decode_all(bytes: &[u8]) -> Vec<Header> {
    let mut d = HeaderDeserializer::new();
    let mut out = Vec::new();
    let mut rest = bytes;
    loop {
        let (n, h) = d.sync(rest);
        rest = &rest[n..];
        match h {
            Some(h) => out.push(h),
            None => break,
        }
    }
    out
}

fn same(a: &Header, b: &Header) -> bool {
    match (a, b) {
        (Header::Validate, Header::Validate) => true,
        (Header::Reset, Header::Reset) => true,
        (Header::Chunk { offset: o1, size: s1 }, Header::Chunk { offset: o2, size: s2 }) => o1 == o2 && s1 == s2,
        (Header::Apply { size: s1, hash: h1 }, Header::Apply { size: s2, hash: h2 }) => s1 == s2 && h1 == h2,
        (Header::Invalid(a), Header::Invalid(b)) => a == b,
        _ => false,
    }
}

#[test]
fn header_type_from_byte() {
    assert_eq!(HeaderType::from(0u8), HeaderType::Validate);
    assert_eq!(HeaderType::from(1u8), HeaderType::Chunk);
    assert_eq!(HeaderType::from(2u8), HeaderType::Apply);
    assert_eq!(HeaderType::from(3u8), HeaderType::Reset);
    assert_eq!(HeaderType::from(4u8), HeaderType::Invalid(4));
    assert_eq!(HeaderType::from(255u8), HeaderType::Invalid(255));
}

#[test]
fn header_type_into_byte() {
    assert_eq!(u8::from(HeaderType::Validate), 0);
    assert_eq!(u8::from(HeaderType::Chunk), 1);
    assert_eq!(u8::from(HeaderType::Apply), 2);
    assert_eq!(u8::from(HeaderType::Reset), 3);
    assert_eq!(u8::from(HeaderType::Invalid(77)), 77);
    for b in 0..=255u8 {
        assert_eq!(u8::from(HeaderType::from(b)), b);
    }
}

#[test]
fn magic_is_trex() {
    assert_eq!(&MAGIC, b"TREX");
}

#[test]
fn serialize_validate_and_reset() {
    assert_eq!(encode(Header::Validate), b"TREX\x00".to_vec());
    assert_eq!(encode(Header::Reset), b"TREX\x03".to_vec());
}

#[test]
fn serialize_chunk_little_endian() {
    let bytes = encode(Header::Chunk { offset: 0x0102_0304, size: 4096 });
    assert_eq!(bytes, vec![b'T', b'R', b'E', b'X', 1, 4, 3, 2, 1, 0, 0x10, 0, 0]);
}

#[test]
fn serialize_apply() {
    let mut hash = [0u8; 32];
    for i in 0..32 {
        hash[i] = i as u8;
    }
    let bytes = encode(Header::Apply { size: 70000, hash });
    assert_eq!(bytes.len(), 4 + 1 + 4 + 32);
    assert_eq!(&bytes[..9], &[b'T', b'R', b'E', b'X', 2, 0x70, 0x11, 0x01, 0x00]);
    assert_eq!(&bytes[9..], &hash);
}

#[test]
fn serialize_invalid_writes_magic_only() {
    assert_eq!(encode(Header::Invalid(9)), b"TREX".to_vec());
}

#[test]
fn serialize_word_truncates_to_32_bits() {
    let big: u64 = 0x1_0000_0005;
    if let Ok(offset) = usize::try_from(big) {
        let bytes = encode(Header::Chunk { offset, size: 1 });
        assert_eq!(&bytes[5..9], &[5, 0, 0, 0]);
    }
}

#[test]
fn roundtrip_every_kind() {
    let mut hash = [0xabu8; 32];
    hash[31] = 0x54;
    let headers = vec![
        Header::Validate,
        Header::Chunk { offset: 8192, size: 4096 },
        Header::Chunk { offset: 0, size: 0 },
        Header::Apply { size: 123456, hash },
        Header::Reset,
    ];
    let mut stream = Vec::new();
    for h in &headers {
        stream.extend(encode(*h));
    }
    let decoded = decode_all(&stream);
    assert_eq!(decoded.len(), headers.len());
    for (a, b) in decoded.iter().zip(headers.iter()) {
        assert!(same(a, b));
    }
}

#[test]
fn sync_skips_noise_before_magic() {
    let mut stream = vec![0u8, 1, 2, b'R', b'E', b'X', 0xff];
    stream.extend(encode(Header::Reset));
    let mut d = HeaderDeserializer::new();
    let (n, h) = d.sync(&stream);
    assert_eq!(n, stream.len());
    assert!(matches!(h, Some(Header::Reset)));
}

#[test]
fn sync_stops_right_after_header() {
    let mut stream = encode(Header::Chunk { offset: 4096, size: 3 });
    stream.extend_from_slice(&[9, 9, 9]);
    let mut d = HeaderDeserializer::new();
    let (n, h) = d.sync(&stream);
    assert_eq!(n, 13);
    assert!(matches!(h, Some(Header::Chunk { offset: 4096, size: 3 })));
    assert_eq!(&stream[n..], &[9, 9, 9]);
}

#[test]
fn sync_partial_input_keeps_state() {
    let stream = encode(Header::Chunk { offset: 7, size: 8 });
    let mut d = HeaderDeserializer::new();
    let (n1, h1) = d.sync(&stream[..6]);
    assert_eq!(n1, 6);
    assert!(h1.is_none());
    let (n2, h2) = d.sync(&stream[6..]);
    assert_eq!(n2, stream.len() - 6);
    assert!(matches!(h2, Some(Header::Chunk { offset: 7, size: 8 })));
}

#[test]
fn feed_byte_by_byte() {
    let stream = encode(Header::Validate);
    let mut d = HeaderDeserializer::new();
    for (i, b) in stream.iter().enumerate() {
        let r = d.feed(*b);
        if i + 1 < stream.len() {
            assert!(r.is_none());
        } else {
            assert!(matches!(r, Some(Header::Validate)));
        }
    }
}

#[test]
fn oversized_chunk_is_invalid_zero() {
    let stream = encode(Header::Chunk { offset: 0, size: CHUNK_SIZE + 1 });
    let decoded = decode_all(&stream);
    assert_eq!(decoded.len(), 1);
    assert!(matches!(decoded[0], Header::Invalid(0)));
}

#[test]
fn unknown_type_is_invalid_with_code() {
    let decoded = decode_all(b"TREX\x07");
    assert_eq!(decoded.len(), 1);
    assert!(matches!(decoded[0], Header::Invalid(7)));
}

#[test]
fn mismatching_byte_is_not_rescanned() {
    // The second 'T' breaks the partial match and is not taken as a new start.
    let decoded = decode_all(b"TTREX\x03");
    assert_eq!(decoded.len(), 0);
    let decoded = decode_all(b"TTREX\x03TREX\x00");
    assert_eq!(decoded.len(), 1);
    assert!(matches!(decoded[0], Header::Validate));
}

#[test]
fn incomplete_header_yields_nothing() {
    let stream = encode(Header::Apply { size: 1, hash: [1; 32] });
    let decoded = decode_all(&stream[..stream.len() - 1]);
    assert_eq!(decoded.len(), 0);
}
