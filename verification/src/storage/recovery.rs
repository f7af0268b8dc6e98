//! Rebuilding the key directory from the records of data files.

use crate::storage::codec::{
    lemma_parse_record_prefix, parse_record, record_len, DataFileEntry, Record,
};
use crate::storage::error::{AsStdError, ErrorKind};
use crate::storage::keydir::{KeyDir, KeyDirEntry};
use crate::storage::writer::FileLogWriter;
use vstd::prelude::*;
use vstd::slice::slice_subrange;

verus! {

/// The locator of the record `r` that begins at `pos` in the file `fileid`.
pub open spec fn locator(fileid: u64, pos: nat, r: Record) -> KeyDirEntry {
    KeyDirEntry { fileid, len: record_len(r) as u64, pos: pos as u64, tstamp: r.tstamp }
}

/// The directory after the record `r`, found at `at`: a tombstone unbinds
/// its key, any other record binds its key to `at`.
pub open spec fn apply_record(
    keydir: Map<Seq<u8>, KeyDirEntry>,
    r: Record,
    at: KeyDirEntry,
) -> Map<Seq<u8>, KeyDirEntry> {
    match r.value {
        None => keydir.remove(r.key),
        Some(_) => keydir.insert(r.key, at),
    }
}

/// The directory after the records of `bytes` from `pos` on, taken one
/// after the other until the end or the first bytes that are no record.
pub open spec fn replay_from(
    keydir: Map<Seq<u8>, KeyDirEntry>,
    fileid: u64,
    bytes: Seq<u8>,
    pos: nat,
) -> Map<Seq<u8>, KeyDirEntry>
    decreases bytes.len() - pos,
{
    if pos >= bytes.len() {
        keydir
    } else {
        match parse_record(bytes.skip(pos as int)) {
            None => keydir,
            Some(r) => replay_from(
                apply_record(keydir, r, locator(fileid, pos, r)),
                fileid,
                bytes,
                pos + record_len(r),
            ),
        }
    }
}

/// The directory after all the records of one data file.
pub open spec fn replay_file(
    keydir: Map<Seq<u8>, KeyDirEntry>,
    fileid: u64,
    bytes: Seq<u8>,
) -> Map<Seq<u8>, KeyDirEntry> {
    replay_from(keydir, fileid, bytes, 0)
}

/// Where a scan of `bytes` that starts at `pos` stops: at the end, or at
/// the first bytes that are no record.
pub open spec fn scan_end(bytes: Seq<u8>, pos: nat) -> nat
    decreases bytes.len() - pos,
{
    if pos >= bytes.len() {
        pos
    } else {
        match parse_record(bytes.skip(pos as int)) {
            None => pos,
            Some(r) => scan_end(bytes, pos + record_len(r)),
        }
    }
}

/// Whether a data file consists of whole records and nothing else.
pub open spec fn clean(bytes: Seq<u8>) -> bool {
    scan_end(bytes, 0) == bytes.len()
}

impl KeyDir {
    /// Replays the records of one data file into the directory, and says
    /// where the scan stopped. Bytes that are no record end the scan; they
    /// are no error.
    pub fn replay_file(&mut self, fileid: u64, bytes: &[u8]) -> (end: usize)
        ensures
            final(self)@ == replay_file(old(self)@, fileid, bytes@),
            end == scan_end(bytes@, 0),
    {
        let mut pos: usize = 0;
        loop
            invariant
                pos <= bytes.len(),
                replay_from(self@, fileid, bytes@, pos as nat) == replay_file(
                    old(self)@,
                    fileid,
                    bytes@,
                ),
                scan_end(bytes@, pos as nat) == scan_end(bytes@, 0),
            ensures
                self@ == replay_file(old(self)@, fileid, bytes@),
                pos == scan_end(bytes@, 0),
            decreases bytes.len() - pos,
        {
            if pos >= bytes.len() {
                break ;
            }
            let rest = slice_subrange(bytes, pos, bytes.len());
            assert(rest@ == bytes@.skip(pos as int));
            let entry = match DataFileEntry::decode(rest) {
                Ok(entry) => entry,
                Err(_) => {
                    break ;
                },
            };
            proof {
                lemma_parse_record_prefix(rest@);
            }
            let len: usize = entry_len(&entry);
            let at = KeyDirEntry { fileid, len: len as u64, pos: pos as u64, tstamp: entry.tstamp };
            assert(at == locator(fileid, pos as nat, entry@));
            match entry.value {
                None => {
                    self.remove(entry.key.as_slice());
                },
                Some(_) => {
                    self.insert(entry.key, at);
                },
            }
            pos = pos + len;
        }
        pos
    }
}

/// The number of bytes of a record that was decoded from a buffer.
fn entry_len(entry: &DataFileEntry) -> (len: usize)
    requires
        record_len(entry@) <= usize::MAX,
    ensures
        len == record_len(entry@),
{
    let value_part: usize = match &entry.value {
        None => 1,
        Some(v) => 9 + v.len(),
    };
    16 + entry.key.len() + value_part
}

/// One data file as the host read it: its id and all its bytes.
#[derive(Clone, Debug, PartialEq, Eq)]
pub struct DataFile {
    pub id: u64,
    pub bytes: Vec<u8>,
}

/// Whether the file at index `i` has the id `id`.
pub open spec fn has_file(files: Seq<DataFile>, id: u64, i: int) -> bool {
    0 <= i < files.len() && files[i].id == id
}

/// Whether no two files have the same id.
pub open spec fn distinct_ids(files: Seq<DataFile>) -> bool {
    forall|i: int, j: int| 0 <= i < j < files.len() ==> files[i].id != files[j].id
}

/// The data directory that a list of files stands for: from each id to
/// the bytes of its file.
pub open spec fn disk_of(files: Seq<DataFile>) -> Map<u64, Seq<u8>> {
    Map::new(
        |id: u64| exists|i: int| has_file(files, id, i),
        |id: u64| files[choose|i: int| has_file(files, id, i)].bytes@,
    )
}

/// The bytes of a data file; none for a file that does not exist.
pub open spec fn file_bytes(disk: Map<u64, Seq<u8>>, id: u64) -> Seq<u8> {
    if disk.contains_key(id) {
        disk[id]
    } else {
        Seq::empty()
    }
}

/// The directory after the data files with an id below `bound`, replayed
/// in ascending order of their ids.
pub open spec fn replay_below(disk: Map<u64, Seq<u8>>, bound: nat) -> Map<Seq<u8>, KeyDirEntry>
    decreases bound,
{
    if bound == 0 {
        Map::empty()
    } else {
        let id = (bound - 1) as nat;
        let before = replay_below(disk, id);
        if id <= u64::MAX && disk.contains_key(id as u64) {
            replay_file(before, id as u64, disk[id as u64])
        } else {
            before
        }
    }
}

/// One more than the largest file id.
pub open spec fn id_limit() -> nat {
    u64::MAX as nat + 1
}

/// The directory that recovery builds from a data directory.
pub open spec fn recovered_keydir(disk: Map<u64, Seq<u8>>) -> Map<Seq<u8>, KeyDirEntry> {
    replay_below(disk, id_limit())
}

/// Whether `id` is the largest id of a data file.
pub open spec fn is_largest(disk: Map<u64, Seq<u8>>, id: u64) -> bool {
    disk.contains_key(id) && forall|other: u64| disk.contains_key(other) ==> other <= id
}

/// The id of the active file: the largest id of a data file, or 0 where
/// there is none.
pub open spec fn active_file(disk: Map<u64, Seq<u8>>) -> u64 {
    if exists|id: u64| is_largest(disk, id) {
        choose|id: u64| is_largest(disk, id)
    } else {
        0
    }
}

/// The writer that recovery sets up: on the active file, at its end.
pub open spec fn recovered_writer(disk: Map<u64, Seq<u8>>, max_file_size: u64) -> FileLogWriter {
    FileLogWriter {
        fileid: active_file(disk),
        filepos: file_bytes(disk, active_file(disk)).len() as u64,
        max_file_size,
    }
}

/// Whether the writer stands at the end of the file with the largest id,
/// or at the start of file 0 where there is no file.
pub open spec fn on_largest(files: Seq<DataFile>, writer: FileLogWriter) -> bool {
    &&& forall|i: int| 0 <= i < files.len() ==> (#[trigger] files[i]).id <= writer.fileid
    &&& files.len() == 0 ==> writer.fileid == 0 && writer.filepos == 0
    &&& files.len() > 0 ==> exists|i: int|
        has_file(files, writer.fileid, i) && writer.filepos == files[i].bytes@.len()
}

/// Ids without a data file add nothing to a replay.
pub proof fn lemma_replay_below_skip(disk: Map<u64, Seq<u8>>, from: nat, to: nat)
    requires
        from <= to,
        forall|id: u64| from <= id < to ==> !disk.contains_key(id),
    ensures
        replay_below(disk, to) == replay_below(disk, from),
    decreases to,
{
    if from < to {
        lemma_replay_below_skip(disk, from, (to - 1) as nat);
    }
}

/// Whether no two files of the list have the same id.
pub fn all_distinct(files: &Vec<DataFile>) -> (distinct: bool)
    ensures
        distinct == distinct_ids(files@),
{
    let mut j: usize = 0;
    while j < files.len()
        invariant
            j <= files.len(),
            forall|a: int, b: int| 0 <= a < b < j ==> files@[a].id != files@[b].id,
        decreases files.len() - j,
    {
        let mut i: usize = 0;
        while i < j
            invariant
                i <= j < files.len(),
                forall|a: int| 0 <= a < i ==> files@[a].id != files@[j as int].id,
            decreases j - i,
        {
            if files[i].id == files[j].id {
                return false;
            }
            i += 1;
        }
        j += 1;
    }
    true
}

/// The index of the file with the smallest id that is at least `bound`.
fn next_file(files: &Vec<DataFile>, bound: u64) -> (next: Option<usize>)
    ensures
        match next {
            Some(i) => i < files.len() && files@[i as int].id >= bound && forall|j: int|
                0 <= j < files.len() && files@[j].id >= bound ==> files@[j].id >= files@[i as int].id,
            None => forall|j: int| 0 <= j < files.len() ==> files@[j].id < bound,
        },
{
    let mut best: Option<usize> = None;
    let mut j: usize = 0;
    while j < files.len()
        invariant
            j <= files.len(),
            match best {
                Some(i) => i < j && files@[i as int].id >= bound && forall|k: int|
                    0 <= k < j && files@[k].id >= bound ==> files@[k].id >= files@[i as int].id,
                None => forall|k: int| 0 <= k < j ==> files@[k].id < bound,
            },
        decreases files.len() - j,
    {
        if files[j].id >= bound {
            best = match best {
                Some(i) => if files[j].id < files[i].id {
                    Some(j)
                } else {
                    Some(i)
                },
                None => Some(j),
            };
        }
        j += 1;
    }
    best
}

/// Rebuilds the engine's state from the data files of a directory: replays
/// them in ascending order of their ids and puts the writer at the end of
/// the file with the largest id. Two files with one id are refused.
pub fn recover(files: &Vec<DataFile>, max_file_size: u64) -> (state: Result<
    (KeyDir, FileLogWriter),
    AsStdError,
>)
    ensures
        match state {
            Ok((keydir, writer)) => distinct_ids(files@) && keydir@ == recovered_keydir(
                disk_of(files@),
            ) && writer == recovered_writer(disk_of(files@), max_file_size) && on_largest(
                files@,
                writer,
            ),
            Err(e) => !distinct_ids(files@) && e.kind == ErrorKind::Invariant,
        },
{
    if !all_distinct(files) {
        return Err(AsStdError::new(ErrorKind::Invariant, "two data files with one id"));
    }
    let ghost disk = disk_of(files@);
    let mut keydir = KeyDir::new();
    let mut active: u64 = 0;
    let mut filepos: u64 = 0;
    let mut bound: u64 = 0;
    let mut done = false;
    let ghost mut below: nat = 0;
    while !done
        invariant
            distinct_ids(files@),
            disk == disk_of(files@),
            below == if done {
                id_limit()
            } else {
                bound as nat
            },
            keydir@ == replay_below(disk, below),
            forall|id: u64| disk.contains_key(id) && id < below ==> id <= active,
            (forall|id: u64| id < below ==> !disk.contains_key(id)) ==> active == 0 && filepos == 0,
            (exists|id: u64| id < below && disk.contains_key(id)) ==> disk.contains_key(active)
                && active < below && filepos == disk[active].len(),
        decreases id_limit() - below,
    {
        match next_file(files, bound) {
            None => {
                proof {
                    assert forall|id: u64| bound <= id < id_limit() implies !disk.contains_key(
                        id,
                    ) by {
                        if disk.contains_key(id) {
                            let i = choose|i: int| has_file(files@, id, i);
                            assert(files@[i].id < bound);
                        }
                    }
                    lemma_replay_below_skip(disk, bound as nat, id_limit());
                    below = id_limit();
                }
                done = true;
            },
            Some(i) => {
                let id = files[i].id;
                proof {
                    assert(has_file(files@, id, i as int));
                    assert(disk.contains_key(id));
                    let chosen = choose|k: int| has_file(files@, id, k);
                    assert(chosen == i as int);
                    assert(disk[id] == files@[i as int].bytes@);
                    assert forall|other: u64| bound <= other < id implies !disk.contains_key(
                        other,
                    ) by {
                        if disk.contains_key(other) {
                            let k = choose|k: int| has_file(files@, other, k);
                            assert(files@[k].id >= id);
                        }
                    }
                    lemma_replay_below_skip(disk, bound as nat, id as nat);
                    assert(replay_below(disk, id as nat + 1) == replay_file(
                        replay_below(disk, id as nat),
                        id,
                        disk[id],
                    ));
                }
                keydir.replay_file(id, files[i].bytes.as_slice());
                active = id;
                filepos = files[i].bytes.len() as u64;
                if id == u64::MAX {
                    done = true;
                } else {
                    bound = id + 1;
                }
                proof {
                    below = id as nat + 1;
                }
            },
        }
    }
    let writer = FileLogWriter { fileid: active, filepos, max_file_size };
    proof {
        if exists|id: u64| disk.contains_key(id) {
            assert(is_largest(disk, active));
            let chosen = choose|id: u64| is_largest(disk, id);
            assert(chosen == active);
            let at = choose|i: int| has_file(files@, active, i);
            assert(has_file(files@, active, at) && filepos == files@[at].bytes@.len());
        } else {
            assert forall|id: u64| !is_largest(disk, id) by {}
        }
        assert forall|i: int| 0 <= i < files@.len() implies (#[trigger] files@[i]).id
            <= active by {
            assert(has_file(files@, files@[i].id, i));
            assert(disk.contains_key(files@[i].id));
        }
        if files@.len() > 0 {
            assert(has_file(files@, files@[0].id, 0));
            assert(disk.contains_key(files@[0].id));
            let at = choose|i: int| has_file(files@, active, i);
            assert(has_file(files@, writer.fileid, at) && writer.filepos
                == files@[at].bytes@.len());
        } else {
            assert forall|id: u64| !disk.contains_key(id) by {
                if disk.contains_key(id) {
                    let i = choose|i: int| has_file(files@, id, i);
                    assert(has_file(files@, id, i));
                }
            }
        }
        assert(on_largest(files@, writer));
    }
    Ok((keydir, writer))
}

} // verus!
