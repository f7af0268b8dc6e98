//! The log writer: which file the next record goes to, and where it lands.

use crate::storage::codec::{record_bytes, record_len, DataFileEntry, Record};
use crate::storage::error::{AsStdError, ErrorKind};
use vstd::prelude::*;

verus! {

/// The size that no data file grows beyond by appending to it: one GiB.
pub const MAX_FILE_SIZE: u64 = 1_073_741_824;

/// Where an appended record landed in its file.
#[derive(Clone, Copy, Debug, PartialEq, Eq, Structural)]
pub struct LogIndex {
    pub len: u64,
    pub pos: u64,
}

/// The state of the single writer: the active file, the number of bytes
/// in it, and the size at which it gives way to the next file.
#[derive(Clone, Copy, Debug, PartialEq, Eq, Structural)]
pub struct FileLogWriter {
    pub fileid: u64,
    pub filepos: u64,
    pub max_file_size: u64,
}

/// What the host has to do for one record: append `bytes` to the data file
/// `fileid`, which it first creates when `rolled` is set, then flush.
#[derive(Clone, Debug, PartialEq, Eq)]
pub struct WriteOrder {
    pub fileid: u64,
    pub rolled: bool,
    pub bytes: Vec<u8>,
    pub entry: DataFileEntry,
}

/// Whether a record of `size` bytes no longer fits the active file.
pub open spec fn must_roll(writer: FileLogWriter, size: nat) -> bool {
    writer.filepos + size > writer.max_file_size
}

/// The file that a record of `size` bytes goes to.
pub open spec fn target_file(writer: FileLogWriter, size: nat) -> int {
    if must_roll(writer, size) {
        writer.fileid + 1
    } else {
        writer.fileid as int
    }
}

/// What `write_entry` answers for the record `r`: a codec error for a
/// record longer than any buffer, an invariant error when the record needs
/// a fresh file and the ids are used up, and otherwise the order to append
/// the record's bytes to its target file.
pub open spec fn write_result(
    writer: FileLogWriter,
    r: Record,
    order: Result<WriteOrder, AsStdError>,
) -> bool {
    if record_len(r) > usize::MAX {
        order is Err && order->Err_0.kind == ErrorKind::Codec
    } else if target_file(writer, record_len(r)) > u64::MAX {
        order is Err && order->Err_0.kind == ErrorKind::Invariant
    } else {
        &&& order is Ok
        &&& order->Ok_0.entry@ == r
        &&& order->Ok_0.bytes@ == record_bytes(r)
        &&& order->Ok_0.rolled == must_roll(writer, record_len(r))
        &&& order->Ok_0.fileid == target_file(writer, record_len(r))
    }
}

impl FileLogWriter {
    /// A writer on the file `fileid`, which holds `filepos` bytes, with the
    /// standard size limit.
    pub fn new(fileid: u64, filepos: u64) -> (writer: FileLogWriter)
        ensures
            writer == (FileLogWriter { fileid, filepos, max_file_size: MAX_FILE_SIZE }),
    {
        FileLogWriter { fileid, filepos, max_file_size: MAX_FILE_SIZE }
    }

    /// The number of bytes that `entry` takes in a data file.
    pub fn serialized_size(entry: &DataFileEntry) -> (size: Result<u64, AsStdError>)
        ensures
            record_len(entry@) <= u64::MAX ==> size == Ok::<u64, AsStdError>(
                record_len(entry@) as u64,
            ),
            record_len(entry@) > u64::MAX ==> size is Err && size->Err_0.kind == ErrorKind::Codec,
    {
        entry.encoded_size()
    }

    /// Decides where `entry` is written. The record goes to the active file
    /// unless that would take the file beyond the size limit; then it goes
    /// to a fresh file with the next id. The writer itself changes only
    /// when the host reports the write, through `append`.
    pub fn write_entry(&self, entry: DataFileEntry) -> (order: Result<WriteOrder, AsStdError>)
        ensures
            write_result(*self, entry@, order),
    {
        let bytes = match entry.encode() {
            Ok(bytes) => bytes,
            Err(e) => {
                return Err(e);
            },
        };
        proof {
            crate::storage::codec::lemma_record_bytes_len(entry@);
        }
        let size = bytes.len() as u64;
        let rolled = size > self.max_file_size || self.filepos > self.max_file_size - size;
        if !rolled {
            return Ok(WriteOrder { fileid: self.fileid, rolled, bytes, entry });
        }
        match self.fileid.checked_add(1) {
            Some(fileid) => Ok(WriteOrder { fileid, rolled, bytes, entry }),
            None => Err(AsStdError::new(ErrorKind::Invariant, "file ids exhausted")),
        }
    }

    /// Takes note of a write that the host carried out. `offset` is the
    /// position in the file after the record's last byte; the record began
    /// `order.bytes.len()` bytes before it. An offset smaller than the record
    /// is refused and leaves the writer as it was.
    pub fn append(&mut self, order: &WriteOrder, offset: u64) -> (index: Result<
        LogIndex,
        AsStdError,
    >)
        ensures
            offset >= order.bytes@.len() ==> index == Ok::<LogIndex, AsStdError>(
                LogIndex { len: order.bytes@.len() as u64, pos: (offset - order.bytes@.len()) as u64 },
            ) && *final(self) == (FileLogWriter {
                fileid: order.fileid,
                filepos: offset,
                max_file_size: old(self).max_file_size,
            }),
            offset < order.bytes@.len() ==> index is Err && index->Err_0.kind
                == ErrorKind::Invariant && *final(self) == *old(self),
    {
        let len = order.bytes.len();
        if len as u64 > offset {
            return Err(AsStdError::new(ErrorKind::Invariant, "offset before the record"));
        }
        let len = len as u64;
        self.fileid = order.fileid;
        self.filepos = offset;
        Ok(LogIndex { len, pos: offset - len })
    }
}

} // verus!
