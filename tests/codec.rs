use trust_dns_proto::decoder::BinDecoder;
use trust_dns_proto::encoder::{BinEncoder, EncodeMode};
use trust_dns_proto::error::ProtoError;

#[test]
fn test_read_slice() {
    let deadbeef = b"deadbeef";
    let mut decoder = BinDecoder::new(deadbeef);

    let read = decoder.read_slice(4).expect("failed to read dead");
    assert_eq!(read, b"dead");

    let read = decoder.read_slice(2).expect("failed to read be");
    assert_eq!(read, b"be");

    let read = decoder.read_slice(0).expect("failed to read nothing");
    assert_eq!(read, b"");

    // this should fail
    assert!(decoder.read_slice(3).is_err());
}

#[test]
fn round_trip_integers() {
    let mut bytes: Vec<u8> = Vec::new();
    {
        let mut encoder = BinEncoder::new(&mut bytes);
        encoder.emit_u8(0xAB);
        encoder.emit(0x01);
        encoder.emit_u16(0xBEEF);
        encoder.emit_i32(-2);
        encoder.emit_u32(0xDEAD_BEEF);
        encoder.emit_i32(i32::MIN);
        assert_eq!(encoder.offset(), 16);
    }
    assert_eq!(bytes, vec![0xAB, 0x01, 0xBE, 0xEF, 0xFF, 0xFF, 0xFF, 0xFE, 0xDE, 0xAD, 0xBE, 0xEF, 0x80, 0, 0, 0]);
    let mut decoder = BinDecoder::new(&bytes);
    assert_eq!(decoder.read_u8(), Ok(0xAB));
    assert_eq!(decoder.pop(), Ok(0x01));
    assert_eq!(decoder.read_u16(), Ok(0xBEEF));
    assert_eq!(decoder.read_i32(), Ok(-2));
    assert_eq!(decoder.read_u32(), Ok(0xDEAD_BEEF));
    assert_eq!(decoder.read_i32(), Ok(i32::MIN));
    assert!(decoder.is_empty());
    assert_eq!(decoder.read_u8(), Err(ProtoError::UnexpectedEof));
}

#[test]
fn round_trip_character_data() {
    let long = "x".repeat(255);
    for text in ["", "a", "h\u{e9}llo", long.as_str()] {
        let mut bytes: Vec<u8> = Vec::new();
        {
            let mut encoder = BinEncoder::new(&mut bytes);
            assert_eq!(encoder.emit_character_data(text), Ok(()));
        }
        assert_eq!(bytes.len(), text.len() + 1);
        assert_eq!(bytes[0] as usize, text.len());
        let mut decoder = BinDecoder::new(&bytes);
        assert_eq!(decoder.read_character_data(), Ok(text.to_string()));
        assert!(decoder.is_empty());
    }
}

#[test]
fn character_data_of_256_bytes_fails() {
    let text = "y".repeat(256);
    let mut bytes: Vec<u8> = Vec::new();
    let mut encoder = BinEncoder::new(&mut bytes);
    assert_eq!(encoder.emit_character_data(&text), Err(ProtoError::CharacterDataTooLong(256)));
    assert!(encoder.is_empty());
    assert_eq!(encoder.offset(), 0);
}

#[test]
fn emit_character_data_abc() {
    let mut bytes: Vec<u8> = Vec::new();
    {
        let mut encoder = BinEncoder::new(&mut bytes);
        encoder.emit_character_data("abc").unwrap();
    }
    assert_eq!(bytes, vec![3, b'a', b'b', b'c']);
}

#[test]
fn decoder_bounds() {
    let one = [7u8];
    assert_eq!(BinDecoder::new(&one).read_u16(), Err(ProtoError::UnexpectedEof));
    assert_eq!(BinDecoder::new(&[]).read_u16(), Err(ProtoError::UnexpectedEof));
    let two = [1u8, 2];
    assert_eq!(BinDecoder::new(&two).read_u16(), Ok(0x0102));
    let three = [1u8, 2, 3];
    assert_eq!(BinDecoder::new(&three).read_u32(), Err(ProtoError::UnexpectedEof));
    assert_eq!(BinDecoder::new(&three).read_i32(), Err(ProtoError::UnexpectedEof));
    let four = [0u8, 0, 1, 0];
    assert_eq!(BinDecoder::new(&four).read_u32(), Ok(256));
    assert_eq!(BinDecoder::new(&four).read_i32(), Ok(256));

    let mut d = BinDecoder::new(&three);
    assert_eq!(d.read_vec(4), Err(ProtoError::UnexpectedEof));
    assert_eq!(d.index(), 0);
    assert_eq!(d.read_vec(0), Ok(vec![]));
    assert_eq!(d.index(), 0);
    assert_eq!(d.read_vec(3), Ok(vec![1, 2, 3]));
    assert_eq!(d.index(), 3);
    assert_eq!(d.read_slice(0), Ok(&[][..]));
    assert_eq!(d.read_slice(1), Err(ProtoError::UnexpectedEof));
    assert_eq!(d.len(), 0);
}

#[test]
fn peek_and_clone_do_not_move() {
    let data = [1u8, 2, 3, 4];
    let mut d = BinDecoder::new(&data);
    assert_eq!(d.peek(), Some(1));
    assert_eq!(d.read_u16(), Ok(0x0102));
    assert_eq!(d.peek(), Some(3));
    assert_eq!(d.len(), 2);
    let mut back = d.clone(0);
    assert_eq!(back.read_u8(), Ok(1));
    assert_eq!(d.index(), 2);
    let past = d.clone(9);
    assert_eq!(past.len(), 0);
    assert_eq!(past.peek(), None);
    assert!(past.is_empty());
}

#[test]
fn character_data_errors() {
    let short = [5u8, b'a', b'b'];
    let mut d = BinDecoder::new(&short);
    assert_eq!(d.read_character_data(), Err(ProtoError::UnexpectedEof));
    let bad = [2u8, 0xC3, 0x28];
    let mut d = BinDecoder::new(&bad);
    assert_eq!(d.read_character_data(), Err(ProtoError::InvalidEncoding));
    let mut d = BinDecoder::new(&[]);
    assert_eq!(d.read_character_data(), Err(ProtoError::UnexpectedEof));
}

#[test]
fn label_pointers() {
    let mut bytes: Vec<u8> = Vec::new();
    let mut encoder = BinEncoder::with_mode(&mut bytes, EncodeMode::Signing);
    assert!(encoder.mode() == EncodeMode::Signing);
    let labels = vec!["example".to_string(), "com".to_string()];
    assert_eq!(encoder.get_label_pointer(&labels), None);
    encoder.emit_vec(&[0, 0, 0]);
    encoder.store_label_pointer(labels.clone());
    assert_eq!(encoder.get_label_pointer(&labels), Some(3));
    assert_eq!(encoder.get_label_pointer(&["com".to_string()]), None);
    encoder.emit_u16(1);
    encoder.store_label_pointer(labels.clone());
    assert_eq!(encoder.get_label_pointer(&labels), Some(5));
    encoder.store_label_pointer(vec!["com".to_string()]);
    assert_eq!(encoder.get_label_pointer(&["com".to_string()]), Some(5));
    assert_eq!(encoder.len(), 5);
}

#[test]
fn label_pointer_beyond_fourteen_bits_is_not_stored() {
    let mut bytes: Vec<u8> = vec![0; 0x3FFF];
    let mut encoder = BinEncoder::with_offset(&mut bytes, 0x3FFF, EncodeMode::Normal);
    assert_eq!(encoder.offset(), 0x3FFF);
    let labels = vec!["a".to_string()];
    encoder.store_label_pointer(labels.clone());
    assert_eq!(encoder.get_label_pointer(&labels), None);

    let mut bytes: Vec<u8> = vec![0; 0x3FFE];
    let mut encoder = BinEncoder::with_offset(&mut bytes, 0x3FFE, EncodeMode::Normal);
    encoder.store_label_pointer(labels.clone());
    assert_eq!(encoder.get_label_pointer(&labels), Some(0x3FFE));
}

#[test]
fn canonical_names_flag() {
    let mut bytes: Vec<u8> = Vec::new();
    let mut encoder = BinEncoder::new(&mut bytes);
    assert!(encoder.mode() == EncodeMode::Normal);
    assert!(!encoder.is_canonical_names());
    encoder.set_canonical_names(true);
    assert!(encoder.is_canonical_names());
}

#[test]
fn writing_inside_the_buffer_overwrites_and_grows() {
    let mut bytes: Vec<u8> = vec![9, 9, 9];
    {
        let mut encoder = BinEncoder::with_offset(&mut bytes, 1, EncodeMode::Normal);
        encoder.emit_u16(0x0102);
        assert_eq!(encoder.offset(), 3);
        let out = encoder.into_bytes();
        assert_eq!(out.len(), 5);
    }
    assert_eq!(bytes, vec![9, 1, 2, 0, 0]);
}

#[test]
fn large_writes_grow_the_buffer() {
    let mut bytes: Vec<u8> = Vec::new();
    {
        let mut encoder = BinEncoder::new(&mut bytes);
        let data = vec![5u8; 1000];
        encoder.emit_vec(&data);
        encoder.emit_vec(&data);
        assert_eq!(encoder.len(), 2000);
    }
    assert!(bytes.iter().all(|b| *b == 5));
}
