use deflate::{Cursor, Deflate, Error};

fn decode(bytes: &[u8]) -> Result<Deflate, Error> {
    Deflate::decode(&mut Cursor::new(bytes.to_vec()))
}

fn frame(payload: &[u8], is_final: bool) -> Vec<u8> {
    let len = payload.len() as u16;
    let nlen = !len;
    let mut out = vec![if is_final { 1u8 } else { 0u8 }];
    out.extend_from_slice(&len.to_le_bytes());
    out.extend_from_slice(&nlen.to_le_bytes());
    out.extend_from_slice(payload);
    out
}

#[test]
fn test_decode_raw_zero() {
    let deflate: Vec<u8> = vec![0x01, 0x00, 0x00, 0xff, 0xff];
    let d = Deflate::decode(&mut Cursor::new(deflate)).unwrap();
    assert_eq!(d.blocks().len(), 1);
    assert_eq!(d.data().len(), 0);
}

#[test]
fn test_decode_raw() {
    let deflate = [
        0x00, 0x01, 0x00, 0xfe, 0xff, 0x01, 0x01, 0x02, 0x00, 0xfd, 0xff, 0x02, 0x03,
    ];
    let d = Deflate::decode(&mut Cursor::new(deflate.to_vec())).unwrap();
    assert_eq!(d.data(), vec![0x01, 0x02, 0x03]);
}

#[test]
fn single_empty_block_is_final() {
    let d = decode(&[0x01, 0x00, 0x00, 0xff, 0xff]).unwrap();
    assert_eq!(d.blocks().len(), 1);
    assert!(d.blocks()[0].is_final());
    assert!(d.blocks()[0].data().is_empty());
}

#[test]
fn only_last_block_is_final() {
    let mut bytes = frame(&[1, 2], false);
    bytes.extend(frame(&[], false));
    bytes.extend(frame(&[3], true));
    let d = decode(&bytes).unwrap();
    let flags: Vec<bool> = d.blocks().iter().map(|b| b.is_final()).collect();
    assert_eq!(flags, vec![false, false, true]);
}

#[test]
fn blocks_after_final_are_not_read() {
    let mut bytes = frame(&[7, 8], true);
    bytes.extend(frame(&[9], true));
    let mut c = Cursor::new(bytes);
    let d = Deflate::decode(&mut c).unwrap();
    assert_eq!(d.data(), vec![7, 8]);
    assert_eq!(c.peek(), Some(0x01));
}

#[test]
fn payload_length_matches_len_field() {
    let bytes = [0x01, 0x03, 0x00, 0xfc, 0xff, 0xaa, 0xbb, 0xcc, 0xdd];
    let mut c = Cursor::new(bytes.to_vec());
    let d = Deflate::decode(&mut c).unwrap();
    assert_eq!(d.blocks()[0].data(), vec![0xaa, 0xbb, 0xcc]);
    assert_eq!(c.next(), Some(0xdd));
    assert_eq!(c.next(), None);
}

#[test]
fn round_trip_two_byte_length() {
    let payload: Vec<u8> = (0..300u32).map(|i| (i * 7 % 256) as u8).collect();
    let d = decode(&frame(&payload, true)).unwrap();
    assert_eq!(d.data(), payload);
}

#[test]
fn round_trip_largest_payload() {
    let payload: Vec<u8> = (0..65535u32).map(|i| (i % 251) as u8).collect();
    let bytes = frame(&payload, true);
    assert_eq!(&bytes[1..5], &[0xff, 0xff, 0x00, 0x00]);
    let d = decode(&bytes).unwrap();
    assert_eq!(d.data(), payload);
}

#[test]
fn chained_payloads_keep_order() {
    let parts: [&[u8]; 4] = [&[1, 2, 3], &[], &[4], &[5, 6]];
    let mut bytes = Vec::new();
    for (i, p) in parts.iter().enumerate() {
        bytes.extend(frame(p, i == parts.len() - 1));
    }
    let d = decode(&bytes).unwrap();
    assert_eq!(d.blocks().len(), 4);
    assert_eq!(d.data(), vec![1, 2, 3, 4, 5, 6]);
    assert_eq!(d.data(), d.data());
}

#[test]
fn empty_stored_block_before_final() {
    let d = decode(&[0x00, 0x00, 0x00, 0xff, 0xff, 0x01, 0x01, 0x00, 0xfe, 0xff, 0x2a]).unwrap();
    assert_eq!(d.blocks().len(), 2);
    assert!(d.blocks()[0].data().is_empty());
    assert_eq!(d.data(), vec![0x2a]);
}

#[test]
fn flipped_nlen_bit_is_rejected() {
    let good = frame(&[10, 20, 30], true);
    assert!(decode(&good).is_ok());
    for byte in 3..5 {
        for bit in 0..8 {
            let mut bad = good.clone();
            bad[byte] ^= 1 << bit;
            assert_eq!(decode(&bad).err(), Some(Error::InvalidStoredBlockLength));
        }
    }
}

#[test]
fn truncated_payload_is_rejected() {
    let mut bytes = frame(&[1, 2, 3, 4], true);
    bytes.pop();
    assert_eq!(decode(&bytes).err(), Some(Error::UnexpectedEndOfInput));
}

#[test]
fn empty_input_is_rejected() {
    assert_eq!(decode(&[]).err(), Some(Error::UnexpectedEndOfInput));
}

#[test]
fn missing_final_block_is_rejected() {
    let bytes = frame(&[1], false);
    assert_eq!(decode(&bytes).err(), Some(Error::UnexpectedEndOfInput));
}

#[test]
fn short_length_field_is_rejected() {
    assert_eq!(decode(&[0x01, 0x00, 0x00, 0xff]).err(), Some(Error::UnexpectedEndOfInput));
}

#[test]
fn huffman_block_types_are_unsupported() {
    for head in [0x02u8, 0x03, 0x04, 0x05, 0x06, 0x07] {
        assert_eq!(decode(&[head, 0x00, 0x00, 0xff, 0xff]).err(), Some(Error::UnsupportedBlockType));
    }
}

#[test]
fn bad_block_anywhere_fails_the_stream() {
    let mut bytes = frame(&[1, 2], false);
    bytes.push(0x05);
    assert_eq!(decode(&bytes).err(), Some(Error::UnsupportedBlockType));
}

#[test]
fn high_header_bits_are_ignored() {
    let d = decode(&[0xf9, 0x01, 0x00, 0xfe, 0xff, 0x63]).unwrap();
    assert!(d.blocks()[0].is_final());
    assert_eq!(d.data(), vec![0x63]);
}

#[test]
fn cursor_peek_does_not_consume() {
    let mut c = Cursor::new(vec![5, 6]);
    assert_eq!(c.peek(), Some(5));
    assert_eq!(c.next(), Some(5));
    assert_eq!(c.next(), Some(6));
    assert_eq!(c.peek(), None);
    assert_eq!(c.next(), None);
}
