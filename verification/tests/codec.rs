use bytes::Bytes;
use kvstore::storage::codec::DataFileEntry;
use kvstore::storage::error::{AsStdError, ErrorKind};
use kvstore::storage::writer::FileLogWriter;

fn entry(tstamp: i64, key: &[u8], value: Option<&[u8]>) -> DataFileEntry {
    DataFileEntry { tstamp, key: key.to_vec(), value: value.map(|v| v.to_vec()) }
}

#[test]
fn encode_writes_the_fields_in_order() {
    let bytes = entry(0x0102030405060708, b"key", Some(b"hi")).encode().unwrap();
    let expected: Vec<u8> = vec![
        8, 7, 6, 5, 4, 3, 2, 1, // timestamp, little-endian
        3, 0, 0, 0, 0, 0, 0, 0, // key length
        b'k', b'e', b'y', //
        1, // a value follows
        2, 0, 0, 0, 0, 0, 0, 0, // value length
        b'h', b'i',
    ];
    assert_eq!(bytes, expected);
}

#[test]
fn encode_writes_a_tombstone_as_one_zero_byte() {
    let bytes = entry(-1, b"", None).encode().unwrap();
    let mut expected = vec![0xffu8; 8];
    expected.extend_from_slice(&[0u8; 8]);
    expected.push(0);
    assert_eq!(bytes, expected);
}

#[test]
fn encoded_size_is_the_length_of_the_encoding() {
    for e in [
        entry(1, b"", None),
        entry(2, b"k", None),
        entry(3, b"key", Some(b"")),
        entry(i64::MIN, b"key", Some(b"value")),
        entry(i64::MAX, &[7u8; 300], Some(&[9u8; 1000])),
    ] {
        let bytes = e.encode().unwrap();
        assert_eq!(e.encoded_size().unwrap(), bytes.len() as u64);
        assert_eq!(FileLogWriter::serialized_size(&e).unwrap(), bytes.len() as u64);
    }
    assert_eq!(entry(0, b"key", Some(b"value")).encoded_size().unwrap(), 33);
    assert_eq!(entry(0, b"key", None).encoded_size().unwrap(), 20);
}

#[test]
fn decode_undoes_encode() {
    for e in [
        entry(0, b"", None),
        entry(-5, b"k", Some(b"")),
        entry(1_700_000_000, b"some key", Some(b"some value")),
        entry(i64::MIN, &[0u8, 1, 2, 255], Some(&[0u8; 64])),
    ] {
        assert_eq!(DataFileEntry::decode(&e.encode().unwrap()).unwrap(), e);
    }
}

#[test]
fn decode_reads_the_first_record_and_ignores_what_follows() {
    let first = entry(1, b"a", Some(b"1"));
    let second = entry(2, b"b", None);
    let mut bytes = first.encode().unwrap();
    let first_len = bytes.len();
    bytes.extend_from_slice(&second.encode().unwrap());
    assert_eq!(DataFileEntry::decode(&bytes).unwrap(), first);
    assert_eq!(DataFileEntry::decode(&bytes[first_len..]).unwrap(), second);
}

fn codec_error(r: Result<DataFileEntry, AsStdError>) -> bool {
    match r {
        Err(e) => e.kind == ErrorKind::Codec,
        Ok(_) => false,
    }
}

#[test]
fn decode_refuses_truncated_and_malformed_records() {
    let bytes = entry(1, b"key", Some(b"value")).encode().unwrap();
    for cut in 0..bytes.len() {
        assert!(codec_error(DataFileEntry::decode(&bytes[..cut])), "cut at {}", cut);
    }
    let mut bad_tag = bytes.clone();
    bad_tag[19] = 2;
    assert!(codec_error(DataFileEntry::decode(&bad_tag)));
    let mut long_key = bytes.clone();
    long_key[15] = 0x80;
    assert!(codec_error(DataFileEntry::decode(&long_key)));
    let mut long_value = bytes.clone();
    long_value[27] = 0xff;
    assert!(codec_error(DataFileEntry::decode(&long_value)));
    assert!(codec_error(DataFileEntry::decode(&[0x9e, 0x37, 0x79, 0xb9, 0x7f, 0x4a, 0x7c, 0x15])));
}

#[test]
fn the_encoding_is_that_of_bincode() {
    for (tstamp, key, value) in [
        (0i64, &b""[..], None),
        (-1, &b"k"[..], Some(&b""[..])),
        (1_700_000_000, &b"key"[..], Some(&b"value"[..])),
        (i64::MIN, &[0u8, 255, 1][..], Some(&[5u8; 40][..])),
    ] {
        let ours = entry(tstamp, key, value);
        let theirs = (tstamp, Bytes::copy_from_slice(key), value.map(Bytes::copy_from_slice));
        let bytes = bincode::serialize(&theirs).unwrap();
        assert_eq!(ours.encode().unwrap(), bytes);
        assert_eq!(ours.encoded_size().unwrap(), bincode::serialized_size(&theirs).unwrap());
        let back: (i64, Bytes, Option<Bytes>) = bincode::deserialize(&ours.encode().unwrap()).unwrap();
        assert_eq!(back, theirs);
        assert_eq!(DataFileEntry::decode(&bytes).unwrap(), ours);
    }
}

#[test]
fn errors_say_their_kind_and_detail() {
    let e = AsStdError::new(ErrorKind::Codec, "truncated record");
    assert_eq!(e.message(), "codec: truncated record");
    assert_eq!(AsStdError::io("disk full").message(), "io: disk full");
    assert_eq!(AsStdError::io("disk full").kind, ErrorKind::Io);
    assert_eq!(AsStdError::new(ErrorKind::Invariant, "x").message(), "invariant: x");
}
