use sine_benchmark::error::ProtocolError;
use sine_benchmark::frame::{
    decode_chunk, encode_chunk, push_record, split_blob, u64_from_be, u64_to_be, CHUNK_LEN,
    MAX_KEY_LEN, RECORD_LEN,
};

#[test]
fn be_bytes_round_trip() {
    let b = u64_to_be(0x0102_0304_0506_0708);
    assert_eq!(b, vec![1, 2, 3, 4, 5, 6, 7, 8]);
    assert_eq!(u64_from_be(&b, 0), 0x0102_0304_0506_0708);
    let neg = u64_to_be((-2i64) as u64);
    assert_eq!(neg, vec![0xff, 0xff, 0xff, 0xff, 0xff, 0xff, 0xff, 0xfe]);
}

#[test]
fn chunk_layout_is_exact() {
    let c = encode_chunk("example1", -5).unwrap();
    assert_eq!(c.len(), CHUNK_LEN);
    assert_eq!(&c[0..8], &[0, 0, 0, 0, 0, 0, 0, 8]);
    assert_eq!(&c[8..16], &(-5i64).to_be_bytes());
    assert_eq!(&c[16..24], b"example1");
    assert!(c[24..].iter().all(|b| *b == 0));
}

#[test]
fn chunk_round_trip() {
    let c = encode_chunk("größe", i64::MIN).unwrap();
    let (k, s) = decode_chunk(&c).unwrap();
    assert_eq!(k, "größe");
    assert_eq!(s, i64::MIN);
}

#[test]
fn longest_key_fits_and_longer_does_not() {
    let fits = "k".repeat(MAX_KEY_LEN);
    let c = encode_chunk(&fits, 7).unwrap();
    assert_eq!(c.len(), CHUNK_LEN);
    assert_eq!(decode_chunk(&c).unwrap(), (fits, 7));
    let too_long = "k".repeat(MAX_KEY_LEN + 1);
    assert_eq!(encode_chunk(&too_long, 7), Err(ProtocolError::KeyTooLong));
}

#[test]
fn short_chunk_is_refused() {
    assert_eq!(decode_chunk(&[0u8; 15]), Err(ProtocolError::TruncatedChunk));
}

#[test]
fn key_length_out_of_range_is_refused() {
    let mut c = encode_chunk("abc", 1).unwrap();
    c[0..8].copy_from_slice(&230i64.to_be_bytes());
    assert_eq!(decode_chunk(&c), Err(ProtocolError::InvalidKeyLength));
    c[0..8].copy_from_slice(&(-1i64).to_be_bytes());
    assert_eq!(decode_chunk(&c), Err(ProtocolError::InvalidKeyLength));
}

#[test]
fn non_utf8_key_is_refused() {
    let mut c = encode_chunk("ab", 1).unwrap();
    c[16] = 0xff;
    assert_eq!(decode_chunk(&c), Err(ProtocolError::NotUtf8));
}

#[test]
fn blob_splits_into_records() {
    let mut blob = Vec::new();
    push_record(&mut blob, &[1u8; 256], &[2u8; 256]);
    push_record(&mut blob, &[3u8; 256], &[4u8; 256]);
    assert_eq!(blob.len(), 2 * RECORD_LEN);
    let recs = split_blob(&blob).unwrap();
    assert_eq!(recs.len(), 2);
    assert_eq!(recs[0], (vec![1u8; 256], vec![2u8; 256]));
    assert_eq!(recs[1], (vec![3u8; 256], vec![4u8; 256]));
    assert_eq!(split_blob(&[]).unwrap().len(), 0);
}

#[test]
fn misaligned_blob_is_refused() {
    assert_eq!(split_blob(&[0u8; 1000]), Err(ProtocolError::MisalignedBlob));
    assert_eq!(split_blob(&[0u8; 513]), Err(ProtocolError::MisalignedBlob));
}
