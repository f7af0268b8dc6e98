//! The engine: `set`, `get` and `del` over the key directory, the writer
//! and the reader cache.
//!
//! The engine decides and the host acts. A write is planned, carried out by
//! the host, and committed with the offset that the host reports. A read
//! is looked up, carried out by the host, and decoded.

use crate::storage::codec::{parse_record, DataFileEntry, Record};
use crate::storage::error::{AsStdError, ErrorKind};
use crate::storage::keydir::{KeyDir, KeyDirEntry};
use crate::storage::logdir::{promoted, LogDir, ReadOrder, MAX_READER_CACHE};
use crate::storage::recovery::{
    apply_record, disk_of, distinct_ids, on_largest, recover, recovered_keydir, recovered_writer,
    DataFile,
};
use crate::storage::writer::{write_result, FileLogWriter, WriteOrder, MAX_FILE_SIZE};
use crate::util::{component_views, normalize_path, normalized_components, ComponentView, PathComponent};
use vstd::prelude::*;

verus! {

/// `chrono::Utc::now` and `DateTime::timestamp`: the seconds that have
/// passed since the Unix epoch. Nothing is stated of the number. `now`
/// panics where the system clock stands before 1970 or beyond the dates
/// that chrono can hold.
#[verifier::external_body]
fn unix_now() -> (tstamp: i64) {
    chrono::Utc::now().timestamp()
}

/// The record that binds `key` to `value`.
pub open spec fn set_record(key: Seq<u8>, value: Seq<u8>, tstamp: i64) -> Record {
    Record { tstamp, key, value: Some(value) }
}

/// The record that deletes `key`.
pub open spec fn del_record(key: Seq<u8>, tstamp: i64) -> Record {
    Record { tstamp, key, value: None }
}

/// The locator that `commit` installs for a record of `len` bytes that
/// ends at `offset` in the file `fileid`.
pub open spec fn committed_at(fileid: u64, len: nat, offset: u64, tstamp: i64) -> KeyDirEntry {
    KeyDirEntry { fileid, len: len as u64, pos: (offset - len) as u64, tstamp }
}

/// Plans the write that binds `key` to `value` at the time `tstamp`.
pub fn plan_set(writer: &FileLogWriter, key: Vec<u8>, value: Vec<u8>, tstamp: i64) -> (order:
    Result<WriteOrder, AsStdError>)
    ensures
        write_result(*writer, set_record(key@, value@, tstamp), order),
{
    writer.write_entry(DataFileEntry { tstamp, key, value: Some(value) })
}

/// What a deletion answers for a key that is in the directory: what
/// `write_entry` answers for the key's tombstone.
pub open spec fn del_result(
    writer: FileLogWriter,
    key: Seq<u8>,
    tstamp: i64,
    order: Result<Option<WriteOrder>, AsStdError>,
) -> bool {
    match order {
        Ok(Some(o)) => write_result(
            writer,
            del_record(key, tstamp),
            Ok::<WriteOrder, AsStdError>(o),
        ),
        Ok(None) => false,
        Err(e) => write_result(writer, del_record(key, tstamp), Err::<WriteOrder, AsStdError>(e)),
    }
}

/// Plans the deletion of `key` at the time `tstamp`. For a key that is not
/// in the directory there is nothing to write.
pub fn plan_del(keydir: &KeyDir, writer: &FileLogWriter, key: Vec<u8>, tstamp: i64) -> (order:
    Result<Option<WriteOrder>, AsStdError>)
    ensures
        !keydir@.contains_key(key@) ==> order is Ok && order->Ok_0 is None,
        keydir@.contains_key(key@) ==> del_result(*writer, key@, tstamp, order),
{
    if !keydir.contains_key(key.as_slice()) {
        return Ok(None);
    }
    match writer.write_entry(DataFileEntry { tstamp, key, value: None }) {
        Ok(order) => Ok(Some(order)),
        Err(e) => Err(e),
    }
}

/// Plans the write that binds `key` to `value`, stamped with the current
/// time.
pub fn set_now(writer: &FileLogWriter, key: Vec<u8>, value: Vec<u8>) -> (order: Result<
    WriteOrder,
    AsStdError,
>)
    ensures
        exists|tstamp: i64| write_result(*writer, set_record(key@, value@, tstamp), order),
{
    let tstamp = unix_now();
    plan_set(writer, key, value, tstamp)
}

/// Plans the deletion of `key`, stamped with the current time. For a key
/// that is not in the directory there is nothing to write.
pub fn del_now(keydir: &KeyDir, writer: &FileLogWriter, key: Vec<u8>) -> (order: Result<
    Option<WriteOrder>,
    AsStdError,
>)
    ensures
        !keydir@.contains_key(key@) ==> order is Ok && order->Ok_0 is None,
        keydir@.contains_key(key@) ==> exists|tstamp: i64|
            del_result(*writer, key@, tstamp, order),
{
    let tstamp = unix_now();
    plan_del(keydir, writer, key, tstamp)
}

/// Takes note of a write that the host carried out: the writer moves to
/// the end of the record and the directory follows the record. `offset` is
/// the position in the file after the record's last byte. An offset
/// smaller than the record is refused and changes nothing.
pub fn commit(keydir: &mut KeyDir, writer: &mut FileLogWriter, order: WriteOrder, offset: u64) -> (done:
    Result<(), AsStdError>)
    ensures
        offset >= order.bytes@.len() ==> done is Ok && *final(writer) == (FileLogWriter {
            fileid: order.fileid,
            filepos: offset,
            max_file_size: old(writer).max_file_size,
        }) && final(keydir)@ == apply_record(
            old(keydir)@,
            order.entry@,
            committed_at(order.fileid, order.bytes@.len(), offset, order.entry.tstamp),
        ),
        offset < order.bytes@.len() ==> done is Err && done->Err_0.kind == ErrorKind::Invariant
            && *final(writer) == *old(writer) && final(keydir)@ == old(keydir)@,
{
    let index = match writer.append(&order, offset) {
        Ok(index) => index,
        Err(e) => {
            return Err(e);
        },
    };
    let at = KeyDirEntry {
        fileid: order.fileid,
        len: index.len,
        pos: index.pos,
        tstamp: order.entry.tstamp,
    };
    match order.entry.value {
        None => {
            keydir.remove(order.entry.key.as_slice());
        },
        Some(_) => {
            keydir.insert(order.entry.key, at);
        },
    }
    Ok(())
}

/// Looks up `key` for a read: the byte range of its record, and whether
/// the host has the file open. A key that is not in the directory has no
/// value, and the reader cache is not touched.
pub fn plan_get(keydir: &KeyDir, logdir: &mut LogDir, key: &[u8]) -> (order: Option<ReadOrder>)
    ensures
        !keydir@.contains_key(key@) ==> order is None && final(logdir)@ == old(logdir)@,
        keydir@.contains_key(key@) ==> order == Some(
            ReadOrder {
                fileid: keydir@[key@].fileid,
                len: keydir@[key@].len,
                pos: keydir@[key@].pos,
                open: !old(logdir)@.contains(keydir@[key@].fileid),
            },
        ) && final(logdir)@ == if old(logdir)@.contains(keydir@[key@].fileid) {
            promoted(old(logdir)@, keydir@[key@].fileid)
        } else {
            old(logdir)@
        },
        final(logdir)@.len() <= MAX_READER_CACHE,
{
    match keydir.get(key) {
        None => {
            proof {
                use_type_invariant(&*logdir);
            }
            None
        },
        Some(entry) => Some(logdir.read(entry.fileid, entry.len, entry.pos)),
    }
}

/// The value of the record that the host read for a `get`. Bytes that are
/// no record are a codec error; a tombstone where a value was expected
/// contradicts the directory and is an invariant error.
pub fn read_value(bytes: &[u8]) -> (value: Result<Vec<u8>, AsStdError>)
    ensures
        match parse_record(bytes@) {
            None => value is Err && value->Err_0.kind == ErrorKind::Codec,
            Some(r) => match r.value {
                None => value is Err && value->Err_0.kind == ErrorKind::Invariant,
                Some(v) => value is Ok && value->Ok_0@ == v,
            },
        },
{
    match DataFileEntry::decode(bytes) {
        Err(e) => Err(e),
        Ok(entry) => match entry.value {
            Some(v) => Ok(v),
            None => Err(AsStdError::new(ErrorKind::Invariant, "locator points at a tombstone")),
        },
    }
}

/// The data directory of an invocation: the directory that was asked
/// for, normalized, or else `.kvstore/data` under the current directory.
pub fn resolve_data_dir(
    data_dir: Option<Vec<PathComponent>>,
    ends_with_slash: bool,
    current_dir: Vec<PathComponent>,
) -> (path: Vec<PathComponent>)
    ensures
        component_views(path@) == match data_dir {
            Some(given) => normalized_components(component_views(given@), ends_with_slash),
            None => component_views(current_dir@).push(ComponentView::Normal(".kvstore"@)).push(
                ComponentView::Normal("data"@),
            ),
        },
{
    match data_dir {
        Some(given) => normalize_path(&given, ends_with_slash),
        None => {
            let mut path = current_dir;
            let ghost start = component_views(path@);
            path.push(PathComponent::Normal(".kvstore".to_owned()));
            assert(component_views(path@) == start.push(ComponentView::Normal(".kvstore"@)));
            let ghost middle = component_views(path@);
            path.push(PathComponent::Normal("data".to_owned()));
            assert(component_views(path@) == middle.push(ComponentView::Normal("data"@)));
            path
        },
    }
}

/// One handle on the engine: the key directory, the writer, this handle's
/// reader cache, and the data directory's path.
pub struct KvContext {
    pub logdir: LogDir,
    pub keydir: KeyDir,
    pub writer: FileLogWriter,
    pub path: Vec<PathComponent>,
}

impl KvContext {
    /// Opens the engine on the data directory `path`, whose data files the
    /// host has read into `files`: replays them in ascending order of their
    /// ids and continues at the end of the file with the largest id.
    pub fn from_dir(path: Vec<PathComponent>, files: &Vec<DataFile>) -> (opened: Result<
        KvContext,
        AsStdError,
    >)
        ensures
            match opened {
                Ok(kv) => distinct_ids(files@) && kv.keydir@ == recovered_keydir(disk_of(files@))
                    && kv.writer == recovered_writer(disk_of(files@), MAX_FILE_SIZE) && on_largest(
                    files@,
                    kv.writer,
                ) && kv.logdir@ == Seq::<u64>::empty() && kv.path == path,
                Err(e) => !distinct_ids(files@) && e.kind == ErrorKind::Invariant,
            },
    {
        match recover(files, MAX_FILE_SIZE) {
            Ok((keydir, writer)) => Ok(KvContext { logdir: LogDir::new(), keydir, writer, path }),
            Err(e) => Err(e),
        }
    }

    /// Plans the write that binds `key` to `value`, stamped with the
    /// current time.
    pub fn set(&self, key: Vec<u8>, value: Vec<u8>) -> (order: Result<WriteOrder, AsStdError>)
        ensures
            exists|tstamp: i64| write_result(self.writer, set_record(key@, value@, tstamp), order),
    {
        set_now(&self.writer, key, value)
    }

    /// Plans the deletion of `key`, stamped with the current time. For a
    /// key that is not in the directory there is nothing to write.
    pub fn del(&self, key: Vec<u8>) -> (order: Result<Option<WriteOrder>, AsStdError>)
        ensures
            !self.keydir@.contains_key(key@) ==> order is Ok && order->Ok_0 is None,
            self.keydir@.contains_key(key@) ==> exists|tstamp: i64|
                del_result(self.writer, key@, tstamp, order),
    {
        del_now(&self.keydir, &self.writer, key)
    }

    /// Takes note of a write that the host carried out for `set` or `del`.
    pub fn commit(&mut self, order: WriteOrder, offset: u64) -> (done: Result<(), AsStdError>)
        ensures
            offset >= order.bytes@.len() ==> done is Ok && final(self).writer == (FileLogWriter {
                fileid: order.fileid,
                filepos: offset,
                max_file_size: old(self).writer.max_file_size,
            }) && final(self).keydir@ == apply_record(
                old(self).keydir@,
                order.entry@,
                committed_at(order.fileid, order.bytes@.len(), offset, order.entry.tstamp),
            ),
            offset < order.bytes@.len() ==> done is Err && done->Err_0.kind
                == ErrorKind::Invariant && final(self).writer == old(self).writer && final(self).keydir@ == old(self).keydir@,
            final(self).logdir@ == old(self).logdir@,
            final(self).path == old(self).path,
    {
        commit(&mut self.keydir, &mut self.writer, order, offset)
    }

    /// Looks up `key` for a read.
    pub fn get(&mut self, key: &[u8]) -> (order: Option<ReadOrder>)
        ensures
            !old(self).keydir@.contains_key(key@) ==> order is None && final(self).logdir@ == old(self).logdir@,
            old(self).keydir@.contains_key(key@) ==> order == Some(
                ReadOrder {
                    fileid: old(self).keydir@[key@].fileid,
                    len: old(self).keydir@[key@].len,
                    pos: old(self).keydir@[key@].pos,
                    open: !old(self).logdir@.contains(old(self).keydir@[key@].fileid),
                },
            ) && final(self).logdir@ == if old(self).logdir@.contains(
                old(self).keydir@[key@].fileid,
            ) {
                promoted(old(self).logdir@, old(self).keydir@[key@].fileid)
            } else {
                old(self).logdir@
            },
            final(self).logdir@.len() <= MAX_READER_CACHE,
            final(self).keydir@ == old(self).keydir@,
            final(self).writer == old(self).writer,
            final(self).path == old(self).path,
    {
        plan_get(&self.keydir, &mut self.logdir, key)
    }
}

} // verus!
