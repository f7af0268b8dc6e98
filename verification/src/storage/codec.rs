//! The on-disk form of a log record.
//!
//! A record is written as its timestamp in eight little-endian bytes, the
//! key's length in eight little-endian bytes, the key, and the value: one
//! byte `0` for a tombstone, or one byte `1`, the value's length in eight
//! little-endian bytes and the value. Records follow each other in a data
//! file with nothing between them.

use crate::storage::error::{AsStdError, ErrorKind};
use vstd::bytes::{
    lemma_auto_spec_u64_to_from_le_bytes, spec_u64_from_le_bytes, spec_u64_to_le_bytes,
    u64_from_le_bytes, u64_to_le_bytes,
};
use vstd::prelude::*;
use vstd::slice::{slice_subrange, slice_to_vec};

verus! {

/// One record of a data file. A record without a value is a tombstone: it
/// records that its key was deleted.
#[derive(Clone, Debug, PartialEq, Eq)]
pub struct DataFileEntry {
    /// Seconds since the Unix epoch at which the record was made.
    pub tstamp: i64,
    pub key: Vec<u8>,
    pub value: Option<Vec<u8>>,
}

/// The mathematical value of a [`DataFileEntry`].
pub struct Record {
    pub tstamp: i64,
    pub key: Seq<u8>,
    pub value: Option<Seq<u8>>,
}

impl View for DataFileEntry {
    type V = Record;

    open spec fn view(&self) -> Record {
        Record {
            tstamp: self.tstamp,
            key: self.key@,
            value: match self.value {
                Some(v) => Some(v@),
                None => None,
            },
        }
    }
}

/// The number of bytes that encode a record's value part.
pub open spec fn value_len(value: Option<Seq<u8>>) -> nat {
    match value {
        None => 1,
        Some(v) => 9 + v.len(),
    }
}

/// The number of bytes that encode a record.
pub open spec fn record_len(r: Record) -> nat {
    16 + r.key.len() + value_len(r.value)
}

/// The bytes that encode a record's value part.
pub open spec fn value_bytes(value: Option<Seq<u8>>) -> Seq<u8> {
    match value {
        None => seq![0u8],
        Some(v) => seq![1u8] + spec_u64_to_le_bytes(v.len() as u64) + v,
    }
}

/// The bytes that encode a record.
pub open spec fn record_bytes(r: Record) -> Seq<u8> {
    spec_u64_to_le_bytes(r.tstamp as u64) + spec_u64_to_le_bytes(r.key.len() as u64) + r.key
        + value_bytes(r.value)
}

/// Whether a record's key and value are short enough for their lengths to
/// be written in eight bytes each.
pub open spec fn encodable(r: Record) -> bool {
    &&& r.key.len() <= u64::MAX
    &&& r.value matches Some(v) ==> v.len() <= u64::MAX
}

/// The record that stands at the front of `bytes`, if one does. Bytes
/// after it are not looked at.
pub open spec fn parse_record(bytes: Seq<u8>) -> Option<Record> {
    if bytes.len() < 17 {
        None
    } else {
        let tstamp = spec_u64_from_le_bytes(bytes.subrange(0, 8)) as i64;
        let key_len = spec_u64_from_le_bytes(bytes.subrange(8, 16)) as int;
        if bytes.len() < 17 + key_len {
            None
        } else {
            let key = bytes.subrange(16, 16 + key_len);
            let tag = bytes[16 + key_len];
            if tag == 0 {
                Some(Record { tstamp, key, value: None })
            } else if tag == 1 && bytes.len() >= 25 + key_len {
                let value_len = spec_u64_from_le_bytes(
                    bytes.subrange(17 + key_len, 25 + key_len),
                ) as int;
                if bytes.len() < 25 + key_len + value_len {
                    None
                } else {
                    Some(
                        Record {
                            tstamp,
                            key,
                            value: Some(
                                bytes.subrange(25 + key_len, 25 + key_len + value_len),
                            ),
                        },
                    )
                }
            } else {
                None
            }
        }
    }
}

/// A timestamp survives the passage through its unsigned form.
pub proof fn lemma_tstamp_roundtrip(t: i64)
    ensures
        (t as u64) as i64 == t,
{
    assert((t as u64) as i64 == t) by (bit_vector);
}

/// An unsigned word survives the passage through a timestamp.
pub proof fn lemma_word_roundtrip(w: u64)
    ensures
        (w as i64) as u64 == w,
{
    assert((w as i64) as u64 == w) by (bit_vector);
}

/// The encoding of a record has exactly `record_len` bytes.
pub proof fn lemma_record_bytes_len(r: Record)
    ensures
        record_bytes(r).len() == record_len(r),
{
    lemma_auto_spec_u64_to_from_le_bytes();
}

/// Decoding undoes encoding, whatever follows the record: the format is
/// self-delimiting.
pub proof fn lemma_parse_record_bytes(r: Record, rest: Seq<u8>)
    requires
        encodable(r),
    ensures
        parse_record(record_bytes(r) + rest) == Some(r),
{
    lemma_auto_spec_u64_to_from_le_bytes();
    lemma_tstamp_roundtrip(r.tstamp);
    let bytes = record_bytes(r) + rest;
    let k = r.key.len() as int;
    assert(bytes.subrange(0, 8) == spec_u64_to_le_bytes(r.tstamp as u64));
    assert(bytes.subrange(8, 16) == spec_u64_to_le_bytes(r.key.len() as u64));
    assert(bytes.subrange(16, 16 + k) == r.key);
    match r.value {
        None => {
            assert(bytes[16 + k] == 0u8);
        },
        Some(v) => {
            assert(bytes[16 + k] == 1u8);
            assert(bytes.subrange(17 + k, 25 + k) == spec_u64_to_le_bytes(v.len() as u64));
            assert(bytes.subrange(25 + k, 25 + k + v.len()) == v);
        },
    }
}

/// A record that parses from `bytes` is the one whose encoding `bytes`
/// starts with.
pub proof fn lemma_parse_record_prefix(bytes: Seq<u8>)
    requires
        parse_record(bytes) is Some,
    ensures
        record_len(parse_record(bytes)->0) <= bytes.len(),
        encodable(parse_record(bytes)->0),
        bytes.subrange(0, record_len(parse_record(bytes)->0) as int) == record_bytes(
            parse_record(bytes)->0,
        ),
{
    lemma_auto_spec_u64_to_from_le_bytes();
    let r = parse_record(bytes)->0;
    let word = spec_u64_from_le_bytes(bytes.subrange(0, 8));
    lemma_word_roundtrip(word);
    let k = r.key.len() as int;
    assert(k == spec_u64_from_le_bytes(bytes.subrange(8, 16)));
    assert(spec_u64_to_le_bytes(r.tstamp as u64) == bytes.subrange(0, 8));
    assert(spec_u64_to_le_bytes(k as u64) == bytes.subrange(8, 16));
    match r.value {
        None => {
            assert(bytes.subrange(0, 17 + k) =~= record_bytes(r));
        },
        Some(v) => {
            assert(v.len() == spec_u64_from_le_bytes(bytes.subrange(17 + k, 25 + k)));
            assert(spec_u64_to_le_bytes(v.len() as u64) == bytes.subrange(17 + k, 25 + k));
            assert(bytes.subrange(0, 25 + k + v.len()) =~= record_bytes(r));
        },
    }
}

/// What parses from `bytes` parses from any extension of `bytes`.
pub proof fn lemma_parse_record_extend(bytes: Seq<u8>, more: Seq<u8>)
    requires
        parse_record(bytes) is Some,
    ensures
        parse_record(bytes + more) == parse_record(bytes),
{
    lemma_parse_record_prefix(bytes);
    let r = parse_record(bytes)->0;
    let n = record_len(r) as int;
    assert(bytes + more =~= record_bytes(r) + (bytes.subrange(n, bytes.len() as int) + more));
    lemma_parse_record_bytes(r, bytes.subrange(n, bytes.len() as int) + more);
}

fn append_bytes(out: &mut Vec<u8>, more: &[u8])
    ensures
        final(out)@ == old(out)@ + more@,
{
    let mut i: usize = 0;
    while i < more.len()
        invariant
            i <= more.len(),
            out@ == old(out)@ + more@.take(i as int),
        decreases more.len() - i,
    {
        out.push(more[i]);
        assert(more@.take(i as int + 1) == more@.take(i as int).push(more@[i as int]));
        i += 1;
    }
    assert(more@.take(more.len() as int) == more@);
}

impl DataFileEntry {
    /// The number of bytes that `encode` produces for this record, or a
    /// codec error when that number does not fit 64 bits.
    pub fn encoded_size(&self) -> (size: Result<u64, AsStdError>)
        ensures
            record_len(self@) <= u64::MAX ==> size == Ok::<u64, AsStdError>(
                record_len(self@) as u64,
            ),
            record_len(self@) > u64::MAX ==> size is Err && size->Err_0.kind == ErrorKind::Codec,
    {
        let value_part: u64 = match &self.value {
            None => 1,
            Some(v) => match (v.len() as u64).checked_add(9) {
                Some(n) => n,
                None => {
                    return Err(AsStdError::new(ErrorKind::Codec, "record too long"));
                },
            },
        };
        let fixed: Option<u64> = value_part.checked_add(16);
        match fixed {
            None => Err(AsStdError::new(ErrorKind::Codec, "record too long")),
            Some(n) => match n.checked_add(self.key.len() as u64) {
                Some(size) => Ok(size),
                None => Err(AsStdError::new(ErrorKind::Codec, "record too long")),
            },
        }
    }

    /// The bytes of this record, or a codec error when the record is longer
    /// than any buffer can be.
    pub fn encode(&self) -> (bytes: Result<Vec<u8>, AsStdError>)
        ensures
            record_len(self@) <= usize::MAX ==> bytes is Ok && bytes->Ok_0@ == record_bytes(
                self@,
            ),
            record_len(self@) > usize::MAX ==> bytes is Err && bytes->Err_0.kind
                == ErrorKind::Codec,
    {
        let size = match self.encoded_size() {
            Ok(size) => size,
            Err(e) => {
                return Err(e);
            },
        };
        if size > usize::MAX as u64 {
            return Err(AsStdError::new(ErrorKind::Codec, "record too long"));
        }
        let mut out: Vec<u8> = Vec::new();
        let tstamp = u64_to_le_bytes(self.tstamp as u64);
        append_bytes(&mut out, tstamp.as_slice());
        let key_len = u64_to_le_bytes(self.key.len() as u64);
        append_bytes(&mut out, key_len.as_slice());
        append_bytes(&mut out, self.key.as_slice());
        match &self.value {
            None => {
                out.push(0u8);
                assert(out@ =~= record_bytes(self@));
            },
            Some(v) => {
                out.push(1u8);
                let value_len = u64_to_le_bytes(v.len() as u64);
                append_bytes(&mut out, value_len.as_slice());
                append_bytes(&mut out, v.as_slice());
                assert(out@ =~= record_bytes(self@));
            },
        }
        Ok(out)
    }

    /// The record at the front of `bytes`, or a codec error when `bytes`
    /// does not start with a whole record.
    pub fn decode(bytes: &[u8]) -> (entry: Result<DataFileEntry, AsStdError>)
        ensures
            match entry {
                Ok(e) => parse_record(bytes@) == Some(e@),
                Err(e) => parse_record(bytes@) is None && e.kind == ErrorKind::Codec,
            },
    {
        let n = bytes.len();
        if n < 17 {
            return Err(AsStdError::new(ErrorKind::Codec, "truncated record"));
        }
        let tstamp = u64_from_le_bytes(slice_subrange(bytes, 0, 8)) as i64;
        let key_word = u64_from_le_bytes(slice_subrange(bytes, 8, 16));
        if key_word > (n - 17) as u64 {
            return Err(AsStdError::new(ErrorKind::Codec, "truncated record"));
        }
        let key_len = key_word as usize;
        let key = slice_to_vec(slice_subrange(bytes, 16, 16 + key_len));
        let tag = bytes[16 + key_len];
        if tag == 0 {
            return Ok(DataFileEntry { tstamp, key, value: None });
        }
        if tag != 1 {
            return Err(AsStdError::new(ErrorKind::Codec, "unknown value tag"));
        }
        if n - 17 - key_len < 8 {
            return Err(AsStdError::new(ErrorKind::Codec, "truncated record"));
        }
        let value_word = u64_from_le_bytes(slice_subrange(bytes, 17 + key_len, 25 + key_len));
        if value_word > (n - 25 - key_len) as u64 {
            return Err(AsStdError::new(ErrorKind::Codec, "truncated record"));
        }
        let value_len = value_word as usize;
        let value = slice_to_vec(
            slice_subrange(bytes, 25 + key_len, 25 + key_len + value_len),
        );
        Ok(DataFileEntry { tstamp, key, value: Some(value) })
    }
}

} // verus!
