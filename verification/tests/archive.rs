use rsump::archive::{decode_archive, decode_record, decoded, encode_record, encoded};
use rsump::error::MigrateError;
use rsump::types::Payload;

fn record(key: &[u8], data: &[u8]) -> Payload {
    Payload::new(key.to_vec(), data.to_vec())
}

#[test]
fn encode_then_decode_reproduces_both_fields() {
    let payload = record(b"abc", b"xyz");
    let bytes = encode_record(&payload).unwrap();
    let (back, next) = decode_record(&bytes, 0).unwrap();
    assert_eq!(back.key, b"abc".to_vec());
    assert_eq!(back.data, b"xyz".to_vec());
    assert_eq!(next, bytes.len());
}

#[test]
fn a_record_is_an_array_of_two_binary_strings() {
    let bytes = encode_record(&record(b"abc", b"xyz")).unwrap();
    assert_eq!(bytes, vec![0x92, 0xc4, 3, b'a', b'b', b'c', 0xc4, 3, b'x', b'y', b'z']);
}

#[test]
fn empty_fields_are_encoded_with_zero_lengths() {
    let bytes = encode_record(&record(b"", b"")).unwrap();
    assert_eq!(bytes, vec![0x92, 0xc4, 0, 0xc4, 0]);
    let (back, next) = decode_record(&bytes, 0).unwrap();
    assert!(back.key.is_empty());
    assert!(back.data.is_empty());
    assert_eq!(next, 5);
}

#[test]
fn the_longest_one_byte_length_is_255() {
    let data = vec![7u8; 255];
    let bytes = encode_record(&record(b"k", &data)).unwrap();
    assert_eq!(&bytes[..6], &[0x92, 0xc4, 1, b'k', 0xc4, 255]);
    assert_eq!(bytes.len(), 6 + 255);
    let (back, next) = decode_record(&bytes, 0).unwrap();
    assert_eq!(back.data, data);
    assert_eq!(next, bytes.len());
}

#[test]
fn a_length_of_256_takes_two_bytes() {
    let data = vec![9u8; 256];
    let bytes = encode_record(&record(b"k", &data)).unwrap();
    assert_eq!(&bytes[..7], &[0x92, 0xc4, 1, b'k', 0xc5, 1, 0]);
    assert_eq!(bytes.len(), 7 + 256);
    let (back, _) = decode_record(&bytes, 0).unwrap();
    assert_eq!(back.data, data);
}

#[test]
fn the_longest_two_byte_length_is_65535() {
    let key = vec![1u8; 65535];
    let bytes = encode_record(&record(&key, b"v")).unwrap();
    assert_eq!(&bytes[..4], &[0x92, 0xc5, 0xff, 0xff]);
    assert_eq!(bytes.len(), 4 + 65535 + 3);
    let (back, next) = decode_record(&bytes, 0).unwrap();
    assert_eq!(back.key, key);
    assert_eq!(back.data, b"v".to_vec());
    assert_eq!(next, bytes.len());
}

#[test]
fn a_length_of_65536_takes_four_bytes() {
    let data = vec![3u8; 65536 + 258];
    let bytes = encode_record(&record(b"k", &data)).unwrap();
    assert_eq!(&bytes[..9], &[0x92, 0xc4, 1, b'k', 0xc6, 0, 1, 1, 2]);
    assert_eq!(bytes.len(), 9 + data.len());
    let (back, next) = decode_record(&bytes, 0).unwrap();
    assert_eq!(back.data, data);
    assert_eq!(next, bytes.len());
}

#[test]
fn payload_bytes_are_carried_untouched() {
    let data: Vec<u8> = (0..=255u8).collect();
    let bytes = encode_record(&record(&[0, 255, 0x92, 0xc4], &data)).unwrap();
    let (back, _) = decode_record(&bytes, 0).unwrap();
    assert_eq!(back.key, vec![0, 255, 0x92, 0xc4]);
    assert_eq!(back.data, data);
}

#[test]
fn records_are_read_back_in_write_order() {
    let mut archive: Vec<u8> = Vec::new();
    archive.extend(encode_record(&record(b"k1", b"one")).unwrap());
    archive.extend(encode_record(&record(b"k2", b"two")).unwrap());
    archive.extend(encode_record(&record(b"k3", b"three")).unwrap());
    let records = decode_archive(&archive);
    assert_eq!(records.len(), 3);
    assert_eq!(records[0].key, b"k1".to_vec());
    assert_eq!(records[0].data, b"one".to_vec());
    assert_eq!(records[1].key, b"k2".to_vec());
    assert_eq!(records[1].data, b"two".to_vec());
    assert_eq!(records[2].key, b"k3".to_vec());
    assert_eq!(records[2].data, b"three".to_vec());
}

#[test]
fn decoding_goes_on_from_the_offset_behind_a_record() {
    let mut archive: Vec<u8> = encode_record(&record(b"a", b"1")).unwrap();
    let first_len = archive.len();
    archive.extend(encode_record(&record(b"bb", b"22")).unwrap());
    let (first, next) = decode_record(&archive, 0).unwrap();
    assert_eq!(first.key, b"a".to_vec());
    assert_eq!(next, first_len);
    let (second, end) = decode_record(&archive, next).unwrap();
    assert_eq!(second.key, b"bb".to_vec());
    assert_eq!(second.data, b"22".to_vec());
    assert_eq!(end, archive.len());
}

#[test]
fn an_empty_archive_holds_no_record() {
    assert!(decode_archive(&Vec::new()).is_empty());
    assert_eq!(decode_record(&Vec::new(), 0).unwrap_err(), MigrateError::Decode);
}

#[test]
fn a_truncated_record_ends_the_archive() {
    let mut archive: Vec<u8> = encode_record(&record(b"k1", b"one")).unwrap();
    let whole = encode_record(&record(b"k2", b"two")).unwrap();
    archive.extend(&whole[..whole.len() - 1]);
    let records = decode_archive(&archive);
    assert_eq!(records.len(), 1);
    assert_eq!(records[0].key, b"k1".to_vec());
}

#[test]
fn bytes_that_are_no_record_end_the_archive() {
    let mut archive: Vec<u8> = encode_record(&record(b"k1", b"one")).unwrap();
    archive.push(0xc1);
    archive.extend(encode_record(&record(b"k2", b"two")).unwrap());
    assert_eq!(decode_archive(&archive).len(), 1);
    assert_eq!(decode_archive(&vec![0x93, 0xc4, 0, 0xc4, 0, 0xc4, 0]).len(), 0);
    assert_eq!(decode_archive(&vec![0x91, 0xc4, 0]).len(), 0);
}

#[test]
fn an_offset_beyond_the_end_is_a_decode_failure() {
    let archive: Vec<u8> = encode_record(&record(b"a", b"1")).unwrap();
    assert_eq!(decode_record(&archive, archive.len()).unwrap_err(), MigrateError::Decode);
    assert_eq!(decode_record(&archive, archive.len() + 1).unwrap_err(), MigrateError::Decode);
    assert_eq!(decode_record(&archive, usize::MAX).unwrap_err(), MigrateError::Decode);
}

#[test]
fn a_failed_encoding_is_an_io_failure() {
    let failure = rmp_serde::encode::Error::Syntax(String::from("no room"));
    assert_eq!(encoded(Err(failure)).unwrap_err(), MigrateError::Io);
    assert_eq!(encoded(Ok(vec![1, 2, 3])).unwrap(), vec![1, 2, 3]);
}

#[test]
fn a_decoding_attempt_gives_the_record_and_the_next_offset() {
    let (payload, next) = decoded(Ok((b"k".to_vec(), b"v".to_vec(), 5)), 10).unwrap();
    assert_eq!(payload.key, b"k".to_vec());
    assert_eq!(payload.data, b"v".to_vec());
    assert_eq!(next, 15);
    let failure = rmp_serde::decode::Error::Syntax(String::from("bad"));
    assert_eq!(decoded(Err(failure), 0).unwrap_err(), MigrateError::Decode);
    let beyond = decoded(Ok((Vec::new(), Vec::new(), 2)), usize::MAX - 1);
    assert_eq!(beyond.unwrap_err(), MigrateError::Decode);
}

#[test]
fn a_copy_of_a_record_holds_the_same_bytes() {
    let first = record(b"key", b"value");
    let copy = first.clone();
    assert_eq!(copy.key, first.key);
    assert_eq!(copy.data, first.data);
}
