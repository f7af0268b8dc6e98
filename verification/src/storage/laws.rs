//! What holds of the engine together with the data directory it writes
//! to, for a host that carries out the engine's orders faithfully.

use crate::storage::codec::{
    lemma_parse_record_bytes, lemma_parse_record_extend, lemma_parse_record_prefix,
    lemma_record_bytes_len, parse_record, record_bytes, record_len, Record,
};
use crate::storage::error::AsStdError;
use crate::storage::file::{committed_at, del_record, set_record};
use crate::storage::keydir::KeyDirEntry;
use crate::storage::recovery::{
    active_file, apply_record, clean, file_bytes, id_limit, lemma_replay_below_skip, locator,
    recovered_keydir, recovered_writer, replay_below, replay_file, replay_from, scan_end,
};
use crate::storage::writer::{must_roll, target_file, write_result, FileLogWriter, WriteOrder};
use vstd::prelude::*;

verus! {

/// An engine and its data directory: the key directory, the writer, and
/// the bytes of each data file.
pub struct Store {
    pub keydir: Map<Seq<u8>, KeyDirEntry>,
    pub writer: FileLogWriter,
    pub disk: Map<u64, Seq<u8>>,
}

/// The data directory after `bytes` were appended to the file `fileid`,
/// which comes into being if it did not exist.
pub open spec fn appended(disk: Map<u64, Seq<u8>>, fileid: u64, bytes: Seq<u8>) -> Map<
    u64,
    Seq<u8>,
> {
    disk.insert(fileid, file_bytes(disk, fileid) + bytes)
}

/// Whether the engine accepts the write of `r`, and the write ends at an
/// offset that 64 bits can hold.
pub open spec fn writable(s: Store, r: Record) -> bool {
    &&& record_len(r) <= usize::MAX
    &&& target_file(s.writer, record_len(r)) <= u64::MAX
    &&& file_bytes(s.disk, target_file(s.writer, record_len(r)) as u64).len() + record_len(r)
        <= u64::MAX
}

/// The state after the record `r` was planned, appended by the host to the
/// file the plan names, and committed at the offset where the file then ends.
pub open spec fn written(s: Store, r: Record) -> Store {
    let fileid = target_file(s.writer, record_len(r)) as u64;
    let pos = file_bytes(s.disk, fileid).len();
    Store {
        keydir: apply_record(s.keydir, r, locator(fileid, pos, r)),
        writer: FileLogWriter {
            fileid,
            filepos: (pos + record_len(r)) as u64,
            max_file_size: s.writer.max_file_size,
        },
        disk: appended(s.disk, fileid, record_bytes(r)),
    }
}

/// The state after `set(key, value)`.
pub open spec fn after_set(s: Store, key: Seq<u8>, value: Seq<u8>, tstamp: i64) -> Store {
    written(s, set_record(key, value, tstamp))
}

/// Whether `del(key)` finds the key, which is also what it returns.
pub open spec fn del_finds(s: Store, key: Seq<u8>) -> bool {
    s.keydir.contains_key(key)
}

/// The state after `del(key)`: a tombstone is written for a key that is
/// in the directory, and nothing happens for any other.
pub open spec fn after_del(s: Store, key: Seq<u8>, tstamp: i64) -> Store {
    if del_finds(s, key) {
        written(s, del_record(key, tstamp))
    } else {
        s
    }
}

/// The record that the bytes at a locator decode to, if the locator lies
/// within its file and the bytes are a record.
pub open spec fn read_back(disk: Map<u64, Seq<u8>>, at: KeyDirEntry) -> Option<Record> {
    if disk.contains_key(at.fileid) && at.pos + at.len <= disk[at.fileid].len() {
        parse_record(disk[at.fileid].subrange(at.pos as int, at.pos + at.len))
    } else {
        None
    }
}

/// What `get(key)` yields: nothing for a key that is not in the directory,
/// and otherwise the value of the record at the key's locator.
pub open spec fn get_value(s: Store, key: Seq<u8>) -> Option<Seq<u8>> {
    if s.keydir.contains_key(key) {
        match read_back(s.disk, s.keydir[key]) {
            Some(r) => r.value,
            None => None,
        }
    } else {
        None
    }
}

/// Whether the locator `at` points at a whole record for `key` that
/// carries a value, the locator's timestamp and the locator's length.
pub open spec fn points_at(disk: Map<u64, Seq<u8>>, at: KeyDirEntry, key: Seq<u8>) -> bool {
    match read_back(disk, at) {
        Some(r) => r.key == key && r.value is Some && r.tstamp == at.tstamp && record_len(r)
            == at.len,
        None => false,
    }
}

/// Whether every locator of the directory points at a record of its key.
pub open spec fn consistent(keydir: Map<Seq<u8>, KeyDirEntry>, disk: Map<u64, Seq<u8>>) -> bool {
    forall|key: Seq<u8>| #[trigger] keydir.contains_key(key) ==> points_at(disk, keydir[key], key)
}

/// Whether every data file is short enough for 64-bit offsets.
pub open spec fn addressable(disk: Map<u64, Seq<u8>>) -> bool {
    forall|id: u64| #[trigger] disk.contains_key(id) ==> disk[id].len() <= u64::MAX
}

/// Whether reopening the data directory would rebuild the directory the
/// engine has: the directory is what recovery yields, the writer is on the
/// file with the largest id, and that file holds whole records only.
pub open spec fn durable(s: Store) -> bool {
    &&& s.keydir == recovered_keydir(s.disk)
    &&& forall|id: u64| #[trigger] s.disk.contains_key(id) ==> id <= s.writer.fileid
    &&& clean(file_bytes(s.disk, s.writer.fileid))
}

/// The plan of `write_entry`, carried out by the host and committed with
/// the offset where the file then ends, leads to the state `written`.
pub proof fn lemma_commit_is_written(s: Store, r: Record, order: WriteOrder, offset: u64)
    requires
        write_result(s.writer, r, Ok::<WriteOrder, AsStdError>(order)),
        record_len(r) <= usize::MAX,
        offset == file_bytes(s.disk, order.fileid).len() + order.bytes@.len(),
    ensures
        writable(s, r),
        written(s, r).keydir == apply_record(
            s.keydir,
            order.entry@,
            committed_at(order.fileid, order.bytes@.len(), offset, order.entry.tstamp),
        ),
        written(s, r).writer == (FileLogWriter {
            fileid: order.fileid,
            filepos: offset,
            max_file_size: s.writer.max_file_size,
        }),
        written(s, r).disk == appended(s.disk, order.fileid, order.bytes@),
{
    lemma_record_bytes_len(r);
}

/// A record that was written is found at its locator, whole.
pub proof fn lemma_written_read_back(s: Store, r: Record)
    requires
        writable(s, r),
    ensures
        read_back(
            written(s, r).disk,
            locator(
                target_file(s.writer, record_len(r)) as u64,
                file_bytes(s.disk, target_file(s.writer, record_len(r)) as u64).len(),
                r,
            ),
        ) == Some(r),
{
    let fileid = target_file(s.writer, record_len(r)) as u64;
    let before = file_bytes(s.disk, fileid);
    let after = written(s, r).disk[fileid];
    lemma_record_bytes_len(r);
    assert(after == before + record_bytes(r));
    assert(after.subrange(before.len() as int, (before.len() + record_len(r)) as int) == record_bytes(r));
    lemma_parse_record_bytes(r, Seq::empty());
    assert(record_bytes(r) + Seq::<u8>::empty() == record_bytes(r));
}

/// Round trip: after `set(key, value)`, `get(key)` yields `value`.
pub proof fn lemma_set_then_get(s: Store, key: Seq<u8>, value: Seq<u8>, tstamp: i64)
    requires
        writable(s, set_record(key, value, tstamp)),
    ensures
        get_value(after_set(s, key, value, tstamp), key) == Some(value),
{
    lemma_written_read_back(s, set_record(key, value, tstamp));
}

/// A locator keeps pointing at its record when bytes are appended to any file.
pub proof fn lemma_append_keeps_locator(
    disk: Map<u64, Seq<u8>>,
    fileid: u64,
    bytes: Seq<u8>,
    at: KeyDirEntry,
    key: Seq<u8>,
)
    requires
        points_at(disk, at, key),
    ensures
        points_at(appended(disk, fileid, bytes), at, key),
{
    if at.fileid == fileid {
        let before = disk[fileid];
        let after = appended(disk, fileid, bytes)[fileid];
        assert(after.subrange(at.pos as int, at.pos + at.len) == before.subrange(
            at.pos as int,
            at.pos + at.len,
        ));
    }
}

/// Writing a record keeps every locator pointing at a record of its key,
/// whether or not the write rolls over to a fresh file; the new locator
/// points into the file that the record was appended to.
pub proof fn lemma_written_consistent(s: Store, r: Record)
    requires
        consistent(s.keydir, s.disk),
        writable(s, r),
    ensures
        consistent(written(s, r).keydir, written(s, r).disk),
        r.value is Some ==> written(s, r).keydir[r.key].fileid == target_file(
            s.writer,
            record_len(r),
        ),
{
    let after = written(s, r);
    let fileid = target_file(s.writer, record_len(r)) as u64;
    lemma_written_read_back(s, r);
    assert forall|key: Seq<u8>| #[trigger] after.keydir.contains_key(key) implies points_at(
        after.disk,
        after.keydir[key],
        key,
    ) by {
        if r.value is Some && key == r.key {
        } else {
            assert(s.keydir.contains_key(key));
            lemma_append_keeps_locator(s.disk, fileid, record_bytes(r), s.keydir[key], key);
        }
    }
}

/// A write changes what `get` yields for its own key only: writes to
/// different keys do not disturb each other, in whatever order they come.
pub proof fn lemma_written_keeps_other_keys(s: Store, r: Record, other: Seq<u8>)
    requires
        consistent(s.keydir, s.disk),
        writable(s, r),
        other != r.key,
    ensures
        written(s, r).keydir.contains_key(other) == s.keydir.contains_key(other),
        get_value(written(s, r), other) == get_value(s, other),
{
    if s.keydir.contains_key(other) {
        let at = s.keydir[other];
        let fileid = target_file(s.writer, record_len(r)) as u64;
        assert(points_at(s.disk, at, other));
        if at.fileid == fileid {
            let before = s.disk[fileid];
            let after = written(s, r).disk[fileid];
            assert(after.subrange(at.pos as int, at.pos + at.len) == before.subrange(
                at.pos as int,
                at.pos + at.len,
            ));
        }
    }
}

/// A write that does not roll over leaves the active file within the size
/// limit; a write that rolls over goes to the file with the next id.
pub proof fn lemma_written_within_limit(s: Store, r: Record)
    requires
        writable(s, r),
        s.writer.filepos == file_bytes(s.disk, s.writer.fileid).len(),
    ensures
        !must_roll(s.writer, record_len(r)) ==> written(s, r).writer.fileid == s.writer.fileid
            && file_bytes(written(s, r).disk, s.writer.fileid).len() <= s.writer.max_file_size,
        must_roll(s.writer, record_len(r)) ==> written(s, r).writer.fileid == s.writer.fileid + 1,
        written(s, r).writer.filepos == file_bytes(
            written(s, r).disk,
            written(s, r).writer.fileid,
        ).len(),
{
    lemma_record_bytes_len(r);
}

/// Replaying the records of a file keeps every locator pointing at a
/// record of its key.
pub proof fn lemma_replay_from_consistent(
    keydir: Map<Seq<u8>, KeyDirEntry>,
    disk: Map<u64, Seq<u8>>,
    fileid: u64,
    pos: nat,
)
    requires
        disk.contains_key(fileid),
        disk[fileid].len() <= u64::MAX,
        pos <= disk[fileid].len(),
        consistent(keydir, disk),
    ensures
        consistent(replay_from(keydir, fileid, disk[fileid], pos), disk),
    decreases disk[fileid].len() - pos,
{
    let bytes = disk[fileid];
    if pos < bytes.len() {
        let rest = bytes.skip(pos as int);
        match parse_record(rest) {
            None => {},
            Some(r) => {
                lemma_parse_record_prefix(rest);
                let len = record_len(r);
                let at = locator(fileid, pos, r);
                let next = apply_record(keydir, r, at);
                assert(bytes.subrange(pos as int, (pos + len) as int) == rest.subrange(0, len as int));
                lemma_parse_record_bytes(r, Seq::empty());
                assert(record_bytes(r) + Seq::<u8>::empty() == record_bytes(r));
                assert(read_back(disk, at) == Some(r));
                assert forall|key: Seq<u8>| #[trigger] next.contains_key(key) implies points_at(
                    disk,
                    next[key],
                    key,
                ) by {
                    if r.value is Some && key == r.key {
                    } else {
                        assert(keydir.contains_key(key));
                    }
                }
                lemma_replay_from_consistent(next, disk, fileid, pos + len);
            },
        }
    }
}

/// Recovery yields a directory whose every locator points at a record of
/// its key, whatever the data files hold.
pub proof fn lemma_replay_below_consistent(disk: Map<u64, Seq<u8>>, bound: nat)
    requires
        addressable(disk),
    ensures
        consistent(replay_below(disk, bound), disk),
    decreases bound,
{
    if bound > 0 {
        let id = (bound - 1) as nat;
        lemma_replay_below_consistent(disk, id);
        if id <= u64::MAX && disk.contains_key(id as u64) {
            lemma_replay_from_consistent(replay_below(disk, id), disk, id as u64, 0);
        }
    }
}

/// The directory that recovery builds points, for each of its keys, at a
/// whole record of that key with a value.
pub proof fn lemma_recovered_consistent(disk: Map<u64, Seq<u8>>)
    requires
        addressable(disk),
    ensures
        consistent(recovered_keydir(disk), disk),
{
    lemma_replay_below_consistent(disk, id_limit());
}

/// A record appended to a file of whole records is replayed after them.
pub proof fn lemma_replay_from_append(
    keydir: Map<Seq<u8>, KeyDirEntry>,
    fileid: u64,
    bytes: Seq<u8>,
    pos: nat,
    r: Record,
)
    requires
        pos <= bytes.len(),
        scan_end(bytes, pos) == bytes.len(),
        record_len(r) <= u64::MAX,
    ensures
        replay_from(keydir, fileid, bytes + record_bytes(r), pos) == apply_record(
            replay_from(keydir, fileid, bytes, pos),
            r,
            locator(fileid, bytes.len(), r),
        ),
        scan_end(bytes + record_bytes(r), pos) == bytes.len() + record_len(r),
    decreases bytes.len() - pos,
{
    let longer = bytes + record_bytes(r);
    lemma_record_bytes_len(r);
    if pos == bytes.len() {
        assert(longer.skip(pos as int) == record_bytes(r));
        lemma_parse_record_bytes(r, Seq::empty());
        assert(record_bytes(r) + Seq::<u8>::empty() == record_bytes(r));
        let next = apply_record(keydir, r, locator(fileid, pos, r));
        assert(replay_from(next, fileid, longer, pos + record_len(r)) == next);
        assert(scan_end(longer, pos + record_len(r)) == pos + record_len(r));
    } else {
        let rest = bytes.skip(pos as int);
        assert(parse_record(rest) is Some);
        let r0 = parse_record(rest)->0;
        lemma_parse_record_prefix(rest);
        lemma_parse_record_extend(rest, record_bytes(r));
        assert(longer.skip(pos as int) == rest + record_bytes(r));
        lemma_replay_from_append(
            apply_record(keydir, r0, locator(fileid, pos, r0)),
            fileid,
            bytes,
            pos + record_len(r0),
            r,
        );
    }
}

/// Whether two data directories hold the same under the id `id`.
pub open spec fn same_file(d1: Map<u64, Seq<u8>>, d2: Map<u64, Seq<u8>>, id: u64) -> bool {
    d1.contains_key(id) == d2.contains_key(id) && (d1.contains_key(id) ==> d1[id] == d2[id])
}

/// Whether two data directories hold the same under each id below `bound`.
pub open spec fn agree_below(d1: Map<u64, Seq<u8>>, d2: Map<u64, Seq<u8>>, bound: nat) -> bool {
    forall|id: u64| id < bound ==> #[trigger] same_file(d1, d2, id)
}

/// Two data directories that agree on the files with an id below `bound`
/// replay to the same directory up to `bound`.
pub proof fn lemma_replay_below_agree(d1: Map<u64, Seq<u8>>, d2: Map<u64, Seq<u8>>, bound: nat)
    requires
        agree_below(d1, d2, bound),
    ensures
        replay_below(d1, bound) == replay_below(d2, bound),
    decreases bound,
{
    if bound > 0 {
        let id = (bound - 1) as nat;
        assert(agree_below(d1, d2, id));
        lemma_replay_below_agree(d1, d2, id);
        if id <= u64::MAX {
            assert(same_file(d1, d2, id as u64));
        }
    }
}

/// Replaying a file without bytes changes nothing.
pub proof fn lemma_replay_empty_file(keydir: Map<Seq<u8>, KeyDirEntry>, fileid: u64)
    ensures
        replay_file(keydir, fileid, Seq::empty()) == keydir,
        clean(Seq::<u8>::empty()),
{
}

/// Durability across reopen: a write keeps the directory equal to what
/// recovery would rebuild from the data directory.
pub proof fn lemma_written_durable(s: Store, r: Record)
    requires
        durable(s),
        writable(s, r),
    ensures
        durable(written(s, r)),
{
    let fileid = target_file(s.writer, record_len(r)) as u64;
    let before = file_bytes(s.disk, fileid);
    let after = written(s, r);
    let low = replay_below(s.disk, fileid as nat);
    lemma_replay_empty_file(low, fileid);
    assert(clean(before));
    assert(s.writer.fileid <= fileid);
    // What recovery makes of the old directory.
    assert(replay_below(s.disk, fileid as nat + 1) == replay_file(low, fileid, before));
    lemma_replay_below_skip(s.disk, fileid as nat + 1, id_limit());
    assert(s.keydir == replay_file(low, fileid, before));
    // What it makes of the new one.
    assert(agree_below(s.disk, after.disk, fileid as nat)) by {
        assert forall|id: u64| id < fileid implies #[trigger] same_file(
            s.disk,
            after.disk,
            id,
        ) by {}
    }
    lemma_replay_below_agree(s.disk, after.disk, fileid as nat);
    assert(after.disk[fileid] == before + record_bytes(r));
    assert(replay_below(after.disk, fileid as nat + 1) == replay_file(
        low,
        fileid,
        before + record_bytes(r),
    ));
    assert forall|id: u64| #[trigger] after.disk.contains_key(id) implies id <= fileid by {
        if id != fileid {
            assert(s.disk.contains_key(id));
        }
    }
    lemma_replay_below_skip(after.disk, fileid as nat + 1, id_limit());
    lemma_replay_from_append(low, fileid, before, 0, r);
    assert(recovered_keydir(after.disk) == after.keydir);
    assert(file_bytes(after.disk, after.writer.fileid) == before + record_bytes(r));
    lemma_record_bytes_len(r);
    assert(clean(file_bytes(after.disk, after.writer.fileid)));
}

/// Durability across reopen: a deletion keeps the directory equal to what
/// recovery would rebuild, so a deleted key stays deleted.
pub proof fn lemma_del_durable(s: Store, key: Seq<u8>, tstamp: i64)
    requires
        durable(s),
        del_finds(s, key) ==> writable(s, del_record(key, tstamp)),
    ensures
        durable(after_del(s, key, tstamp)),
        !after_del(s, key, tstamp).keydir.contains_key(key),
        !recovered_keydir(after_del(s, key, tstamp).disk).contains_key(key),
{
    if del_finds(s, key) {
        lemma_written_durable(s, del_record(key, tstamp));
    }
}

/// What recovery rebuilds from a data directory whose active file holds
/// whole records only is durable.
pub proof fn lemma_recovered_durable(disk: Map<u64, Seq<u8>>, max_file_size: u64)
    requires
        clean(file_bytes(disk, active_file(disk))),
        forall|id: u64| #[trigger] disk.contains_key(id) ==> id <= active_file(disk),
    ensures
        durable(
            Store {
                keydir: recovered_keydir(disk),
                writer: recovered_writer(disk, max_file_size),
                disk,
            },
        ),
{
}

/// The state after a run of `set` calls on one key, the values taken in
/// order, each with its timestamp.
pub open spec fn after_sets(s: Store, key: Seq<u8>, values: Seq<(Seq<u8>, i64)>) -> Store
    decreases values.len(),
{
    if values.len() == 0 {
        s
    } else {
        after_set(after_sets(s, key, values.drop_last()), key, values.last().0, values.last().1)
    }
}

/// Whether each `set` of a run is accepted in the state it meets.
pub open spec fn sets_writable(s: Store, key: Seq<u8>, values: Seq<(Seq<u8>, i64)>) -> bool
    decreases values.len(),
{
    if values.len() == 0 {
        true
    } else {
        &&& sets_writable(s, key, values.drop_last())
        &&& writable(
            after_sets(s, key, values.drop_last()),
            set_record(key, values.last().0, values.last().1),
        )
    }
}

/// Last writer wins: after a run of `set` calls on one key, `get` yields
/// the value of the last call.
pub proof fn lemma_last_writer_wins(s: Store, key: Seq<u8>, values: Seq<(Seq<u8>, i64)>)
    requires
        values.len() > 0,
        sets_writable(s, key, values),
    ensures
        get_value(after_sets(s, key, values), key) == Some(values.last().0),
{
    lemma_set_then_get(
        after_sets(s, key, values.drop_last()),
        key,
        values.last().0,
        values.last().1,
    );
}

/// Delete after set: `del` right after `set` finds the key, `get` then
/// yields nothing, and a second `del` finds nothing and changes nothing.
pub proof fn lemma_del_after_set(
    s: Store,
    key: Seq<u8>,
    value: Seq<u8>,
    t_set: i64,
    t_del: i64,
    t_again: i64,
)
    requires
        writable(s, set_record(key, value, t_set)),
    ensures
        del_finds(after_set(s, key, value, t_set), key),
        get_value(after_del(after_set(s, key, value, t_set), key, t_del), key) is None,
        !del_finds(after_del(after_set(s, key, value, t_set), key, t_del), key),
        after_del(after_del(after_set(s, key, value, t_set), key, t_del), key, t_again)
            == after_del(after_set(s, key, value, t_set), key, t_del),
{
}

/// Deleting a key that is not in the directory finds nothing and leaves
/// the directory, the writer and every data file as they were.
pub proof fn lemma_del_absent(s: Store, key: Seq<u8>, tstamp: i64)
    requires
        !s.keydir.contains_key(key),
    ensures
        !del_finds(s, key),
        after_del(s, key, tstamp) == s,
{
}

/// A `set` after a `del` restores the key, and reopening the data
/// directory finds the restored value, also where the tombstone and the
/// new record lie in different files.
pub proof fn lemma_set_after_del(s: Store, key: Seq<u8>, value: Seq<u8>, t_del: i64, t_set: i64)
    requires
        durable(s),
        del_finds(s, key) ==> writable(s, del_record(key, t_del)),
        writable(after_del(s, key, t_del), set_record(key, value, t_set)),
    ensures
        get_value(after_set(after_del(s, key, t_del), key, value, t_set), key) == Some(value),
        recovered_keydir(after_set(after_del(s, key, t_del), key, value, t_set).disk) == after_set(
            after_del(s, key, t_del),
            key,
            value,
            t_set,
        ).keydir,
{
    lemma_del_durable(s, key, t_del);
    let deleted = after_del(s, key, t_del);
    lemma_written_durable(deleted, set_record(key, value, t_set));
    lemma_set_then_get(deleted, key, value, t_set);
}

/// Fewer than 17 bytes are no record.
pub proof fn lemma_short_is_no_record(tail: Seq<u8>)
    requires
        tail.len() < 17,
    ensures
        parse_record(tail) is None,
{
}

/// Bytes that are no record, behind a file of whole records, add nothing
/// to the file's replay: the scan stops where they begin.
pub proof fn lemma_replay_from_garbage(
    keydir: Map<Seq<u8>, KeyDirEntry>,
    fileid: u64,
    bytes: Seq<u8>,
    pos: nat,
    tail: Seq<u8>,
)
    requires
        pos <= bytes.len(),
        scan_end(bytes, pos) == bytes.len(),
        parse_record(tail) is None,
    ensures
        replay_from(keydir, fileid, bytes + tail, pos) == replay_from(keydir, fileid, bytes, pos),
        scan_end(bytes + tail, pos) == bytes.len(),
    decreases bytes.len() - pos,
{
    let longer = bytes + tail;
    if pos == bytes.len() {
        assert(longer.skip(pos as int) == tail);
    } else {
        let rest = bytes.skip(pos as int);
        assert(parse_record(rest) is Some);
        let r0 = parse_record(rest)->0;
        lemma_parse_record_prefix(rest);
        lemma_parse_record_extend(rest, tail);
        assert(longer.skip(pos as int) == rest + tail);
        lemma_replay_from_garbage(
            apply_record(keydir, r0, locator(fileid, pos, r0)),
            fileid,
            bytes,
            pos + record_len(r0),
            tail,
        );
    }
}

/// Trailing garbage is tolerated: bytes that are no record, such as any
/// fewer than 17 bytes, put behind the active file after the engine was
/// closed, change nothing of what reopening rebuilds. Every binding is
/// found again under its locator, and the garbage makes no key.
pub proof fn lemma_garbage_tail_keeps_directory(s: Store, tail: Seq<u8>)
    requires
        durable(s),
        parse_record(tail) is None,
    ensures
        recovered_keydir(appended(s.disk, s.writer.fileid, tail)) == s.keydir,
{
    let fileid = s.writer.fileid;
    let before = file_bytes(s.disk, fileid);
    let after = appended(s.disk, fileid, tail);
    let low = replay_below(s.disk, fileid as nat);
    lemma_replay_empty_file(low, fileid);
    assert(replay_below(s.disk, fileid as nat + 1) == replay_file(low, fileid, before));
    lemma_replay_below_skip(s.disk, fileid as nat + 1, id_limit());
    assert(agree_below(s.disk, after, fileid as nat)) by {
        assert forall|id: u64| id < fileid implies #[trigger] same_file(s.disk, after, id) by {}
    }
    lemma_replay_below_agree(s.disk, after, fileid as nat);
    assert(after[fileid] == before + tail);
    assert(replay_below(after, fileid as nat + 1) == replay_file(low, fileid, before + tail));
    assert forall|id: u64| #[trigger] after.contains_key(id) implies id <= fileid by {
        if id != fileid {
            assert(s.disk.contains_key(id));
        }
    }
    lemma_replay_below_skip(after, fileid as nat + 1, id_limit());
    lemma_replay_from_garbage(low, fileid, before, 0, tail);
}

/// One accepted operation of a history.
pub enum Op {
    /// `set(key, value)` at the time `tstamp`.
    Put { key: Seq<u8>, value: Seq<u8>, tstamp: i64 },
    /// `del(key)` at the time `tstamp`.
    Del { key: Seq<u8>, tstamp: i64 },
}

/// The key that an operation is about.
pub open spec fn op_key(op: Op) -> Seq<u8> {
    match op {
        Op::Put { key, .. } => key,
        Op::Del { key, .. } => key,
    }
}

/// The state after one operation.
pub open spec fn after_op(s: Store, op: Op) -> Store {
    match op {
        Op::Put { key, value, tstamp } => after_set(s, key, value, tstamp),
        Op::Del { key, tstamp } => after_del(s, key, tstamp),
    }
}

/// Whether the engine accepts an operation in the state it meets.
pub open spec fn op_writable(s: Store, op: Op) -> bool {
    match op {
        Op::Put { key, value, tstamp } => writable(s, set_record(key, value, tstamp)),
        Op::Del { key, tstamp } => del_finds(s, key) ==> writable(s, del_record(key, tstamp)),
    }
}

/// The state after a history of operations, taken in order.
pub open spec fn after_ops(s: Store, ops: Seq<Op>) -> Store
    decreases ops.len(),
{
    if ops.len() == 0 {
        s
    } else {
        after_op(after_ops(s, ops.drop_last()), ops.last())
    }
}

/// Whether the engine accepts each operation of a history in the state
/// it meets.
pub open spec fn ops_writable(s: Store, ops: Seq<Op>) -> bool
    decreases ops.len(),
{
    if ops.len() == 0 {
        true
    } else {
        ops_writable(s, ops.drop_last()) && op_writable(
            after_ops(s, ops.drop_last()),
            ops.last(),
        )
    }
}

/// The last operation of a history that is about `key`, if there is one.
pub open spec fn last_on(ops: Seq<Op>, key: Seq<u8>) -> Option<Op>
    decreases ops.len(),
{
    if ops.len() == 0 {
        None
    } else if op_key(ops.last()) == key {
        Some(ops.last())
    } else {
        last_on(ops.drop_last(), key)
    }
}

/// What holds of an engine that was opened on a data directory whose
/// active file held whole records, at every moment of its life: reopening
/// would rebuild its directory, every locator points at a record of its
/// key, and every file is short enough for 64-bit offsets.
pub open spec fn sound(s: Store) -> bool {
    &&& durable(s)
    &&& consistent(s.keydir, s.disk)
    &&& addressable(s.disk)
}

/// An engine on an empty data directory is sound.
pub proof fn lemma_empty_sound(writer: FileLogWriter)
    ensures
        sound(Store { keydir: Map::empty(), writer, disk: Map::empty() }),
{
    lemma_replay_below_skip(Map::<u64, Seq<u8>>::empty(), 0, id_limit());
}

/// An engine as recovery sets it up is sound, where the active file holds
/// whole records.
pub proof fn lemma_recovered_sound(disk: Map<u64, Seq<u8>>, max_file_size: u64)
    requires
        addressable(disk),
        clean(file_bytes(disk, active_file(disk))),
        forall|id: u64| #[trigger] disk.contains_key(id) ==> id <= active_file(disk),
    ensures
        sound(
            Store {
                keydir: recovered_keydir(disk),
                writer: recovered_writer(disk, max_file_size),
                disk,
            },
        ),
{
    lemma_recovered_durable(disk, max_file_size);
    lemma_recovered_consistent(disk);
}

/// A write keeps an engine sound.
pub proof fn lemma_written_sound(s: Store, r: Record)
    requires
        sound(s),
        writable(s, r),
    ensures
        sound(written(s, r)),
{
    lemma_written_durable(s, r);
    lemma_written_consistent(s, r);
    lemma_record_bytes_len(r);
    let after = written(s, r);
    let fileid = target_file(s.writer, record_len(r)) as u64;
    assert forall|id: u64| #[trigger] after.disk.contains_key(id) implies after.disk[id].len()
        <= u64::MAX by {
        if id != fileid {
            assert(s.disk.contains_key(id));
        }
    }
}

/// Every operation keeps an engine sound.
pub proof fn lemma_op_sound(s: Store, op: Op)
    requires
        sound(s),
        op_writable(s, op),
    ensures
        sound(after_op(s, op)),
{
    match op {
        Op::Put { key, value, tstamp } => {
            lemma_written_sound(s, set_record(key, value, tstamp));
        },
        Op::Del { key, tstamp } => {
            if del_finds(s, key) {
                lemma_written_sound(s, del_record(key, tstamp));
            }
        },
    }
}

/// A history keeps an engine sound.
pub proof fn lemma_history_sound(s: Store, ops: Seq<Op>)
    requires
        sound(s),
        ops_writable(s, ops),
    ensures
        sound(after_ops(s, ops)),
    decreases ops.len(),
{
    if ops.len() > 0 {
        lemma_history_sound(s, ops.drop_last());
        lemma_op_sound(after_ops(s, ops.drop_last()), ops.last());
    }
}

/// What `get(key)` yields after a history is decided by the last
/// operation on the key: the value of a `set`, nothing after a `del`, and
/// what it yielded before where the history does not touch the key.
pub proof fn lemma_history_last(s: Store, ops: Seq<Op>, key: Seq<u8>)
    requires
        sound(s),
        ops_writable(s, ops),
    ensures
        match last_on(ops, key) {
            Some(Op::Put { value, .. }) => get_value(after_ops(s, ops), key) == Some(value),
            Some(Op::Del { .. }) => !after_ops(s, ops).keydir.contains_key(key) && get_value(
                after_ops(s, ops),
                key,
            ) is None,
            None => get_value(after_ops(s, ops), key) == get_value(s, key) && after_ops(
                s,
                ops,
            ).keydir.contains_key(key) == s.keydir.contains_key(key),
        },
    decreases ops.len(),
{
    if ops.len() > 0 {
        let earlier = ops.drop_last();
        let before = after_ops(s, earlier);
        let op = ops.last();
        lemma_history_sound(s, earlier);
        lemma_history_last(s, earlier, key);
        match op {
            Op::Put { key: k, value, tstamp } => {
                if k == key {
                    lemma_set_then_get(before, key, value, tstamp);
                } else {
                    lemma_written_keeps_other_keys(before, set_record(k, value, tstamp), key);
                }
            },
            Op::Del { key: k, tstamp } => {
                if k != key && del_finds(before, k) {
                    lemma_written_keeps_other_keys(before, del_record(k, tstamp), key);
                }
            },
        }
    }
}

/// Durability across reopen: after any history on a sound engine,
/// reopening the data directory rebuilds the very directory the engine
/// had at its close. So `get(key)` on the reopened engine yields the value
/// of the last `set` of the key, and nothing where the last operation on
/// the key was a `del`; no older value comes back.
pub proof fn lemma_reopen_after_history(s: Store, ops: Seq<Op>, key: Seq<u8>, max_file_size: u64)
    requires
        sound(s),
        ops_writable(s, ops),
    ensures
        recovered_keydir(after_ops(s, ops).disk) == after_ops(s, ops).keydir,
        match last_on(ops, key) {
            Some(Op::Put { value, .. }) => get_value(reopened(after_ops(s, ops), max_file_size), key)
                == Some(value),
            Some(Op::Del { .. }) => !reopened(
                after_ops(s, ops),
                max_file_size,
            ).keydir.contains_key(key) && get_value(
                reopened(after_ops(s, ops), max_file_size),
                key,
            ) is None,
            None => get_value(reopened(after_ops(s, ops), max_file_size), key) == get_value(
                s,
                key,
            ),
        },
{
    lemma_history_sound(s, ops);
    lemma_history_last(s, ops, key);
}

/// The engine that `from_dir` makes of the data directory of `s`.
pub open spec fn reopened(s: Store, max_file_size: u64) -> Store {
    Store {
        keydir: recovered_keydir(s.disk),
        writer: recovered_writer(s.disk, max_file_size),
        disk: s.disk,
    }
}

/// Trailing garbage is tolerated after any history: bytes that are no
/// record, put behind the active file of a sound engine after its close,
/// leave the reopened engine with the directory that the engine had.
pub proof fn lemma_reopen_with_garbage(s: Store, tail: Seq<u8>, max_file_size: u64)
    requires
        sound(s),
        parse_record(tail) is None,
    ensures
        reopened(
            Store {
                keydir: s.keydir,
                writer: s.writer,
                disk: appended(s.disk, s.writer.fileid, tail),
            },
            max_file_size,
        ).keydir == s.keydir,
{
    lemma_garbage_tail_keeps_directory(s, tail);
}

} // verus!
