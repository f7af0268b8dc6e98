//! The reader cache: which data files a handle keeps open for reading.

use lru::LruCache;
use std::num::NonZeroUsize;
use vstd::prelude::*;

verus! {

/// The number of data files that one handle keeps open for reading.
pub const MAX_READER_CACHE: usize = 32;

/// `lru::LruCache`, the cache that holds the open files. Nothing of its
/// inside is known here but what the functions below state.
#[verifier::external_type_specification]
#[verifier::external_body]
#[verifier::reject_recursive_types(K)]
#[verifier::reject_recursive_types(V)]
#[verifier::reject_recursive_types(S)]
pub struct ExLruCache<K, V, S>(LruCache<K, V, S>);

/// `lru::DefaultHasher`, the hasher that an `LruCache` uses unless told
/// otherwise.
#[verifier::external_type_specification]
#[verifier::external_body]
pub struct ExDefaultHasher(lru::DefaultHasher);

/// The keys of a cache, each once, from the most recently used to the
/// least.
pub uninterp spec fn lru_order(cache: LruCache<u64, ()>) -> Seq<u64>;

/// The number of keys that a cache was made to hold.
pub uninterp spec fn lru_cap(cache: LruCache<u64, ()>) -> nat;

/// `order` with `key` moved to the front.
pub open spec fn promoted(order: Seq<u64>, key: u64) -> Seq<u64> {
    seq![key] + order.remove(order.index_of(key))
}

/// `lru::LruCache::new`: an empty cache that holds at most `cap` keys.
#[verifier::external_body]
fn lru_new(cap: usize) -> (cache: LruCache<u64, ()>)
    requires
        cap > 0,
    ensures
        lru_order(cache) == Seq::<u64>::empty(),
        lru_cap(cache) == cap,
{
    LruCache::new(NonZeroUsize::new(cap).unwrap())
}

/// `lru::LruCache::get_mut`: says whether `key` is in the cache and, if it
/// is, makes it the most recently used. Nothing enters or leaves, and the
/// call does not panic.
#[verifier::external_body]
fn lru_get_mut(cache: &mut LruCache<u64, ()>, key: u64) -> (found: Option<()>)
    ensures
        found is Some == lru_order(*old(cache)).contains(key),
        lru_order(*final(cache)) == if lru_order(*old(cache)).contains(key) {
            promoted(lru_order(*old(cache)), key)
        } else {
            lru_order(*old(cache))
        },
        lru_cap(*final(cache)) == lru_cap(*old(cache)),
    no_unwind
{
    cache.get_mut(&key).copied()
}

/// `lru::LruCache::push`: makes `key` the most recently used key. A key
/// that was in the cache is handed back. A new key enters; when the cache
/// holds as many keys as it was made for, the least recently used key
/// leaves and is handed back. The call does not panic.
#[verifier::external_body]
fn lru_push(cache: &mut LruCache<u64, ()>, key: u64) -> (out: Option<u64>)
    ensures
        lru_cap(*final(cache)) == lru_cap(*old(cache)),
        lru_order(*old(cache)).contains(key) ==> out == Some(key) && lru_order(*final(cache))
            == promoted(lru_order(*old(cache)), key),
        !lru_order(*old(cache)).contains(key) && lru_order(*old(cache)).len() == lru_cap(
            *old(cache),
        ) ==> out == Some(lru_order(*old(cache)).last()) && lru_order(*final(cache)) == seq![key]
            + lru_order(*old(cache)).drop_last(),
        !lru_order(*old(cache)).contains(key) && lru_order(*old(cache)).len() != lru_cap(
            *old(cache),
        ) ==> out is None && lru_order(*final(cache)) == seq![key] + lru_order(*old(cache)),
    no_unwind
{
    cache.push(key, ()).map(|(evicted, _)| evicted)
}

/// The byte range that the host reads for one `get`, and whether it has
/// the file open already.
#[derive(Clone, Copy, Debug, PartialEq, Eq, Structural)]
pub struct ReadOrder {
    pub fileid: u64,
    pub len: u64,
    pub pos: u64,
    /// The file is not among this handle's open files: the host opens it,
    /// then reports it with `LogDir::opened`.
    pub open: bool,
}

/// The data files that one handle has open for reading, bounded in
/// number. Reading a file makes it the most recently used; opening one
/// more than the bound allows closes the least recently used.
pub struct LogDir {
    cache: LruCache<u64, ()>,
}

impl LogDir {
    /// The open files, from the most recently read to the least.
    pub closed spec fn view(&self) -> Seq<u64> {
        lru_order(self.cache)
    }

    /// The number of files that the cache was made to hold.
    pub closed spec fn capacity(&self) -> nat {
        lru_cap(self.cache)
    }

    /// What holds of every handle's cache: it was made for the bound, and
    /// its open files do not exceed the bound in number.
    #[verifier::type_invariant]
    pub open spec fn bounded(self) -> bool {
        &&& self.capacity() == MAX_READER_CACHE
        &&& self@.len() <= MAX_READER_CACHE
    }

    /// A cache with no file open.
    pub fn new() -> (logdir: LogDir)
        ensures
            logdir@ == Seq::<u64>::empty(),
    {
        LogDir { cache: lru_new(MAX_READER_CACHE) }
    }

    /// The number of open files. It never exceeds the bound.
    pub fn len(&self) -> (n: usize)
        ensures
            n == self@.len(),
            n <= MAX_READER_CACHE,
    {
        proof {
            use_type_invariant(self);
        }
        lru_len(&self.cache)
    }

    /// Looks up the file for a read of `len` bytes at `pos`. An open file
    /// becomes the most recently used; otherwise the order tells the host
    /// to open the file, and the cache stays as it is until `opened`.
    pub fn read(&mut self, fileid: u64, len: u64, pos: u64) -> (order: ReadOrder)
        ensures
            order == (ReadOrder { fileid, len, pos, open: !old(self)@.contains(fileid) }),
            final(self)@ == if old(self)@.contains(fileid) {
                promoted(old(self)@, fileid)
            } else {
                old(self)@
            },
            final(self)@.len() <= MAX_READER_CACHE,
    {
        proof {
            use_type_invariant(&*self);
        }
        let ghost before = lru_order(self.cache);
        let found = lru_get_mut(&mut self.cache, fileid);
        proof {
            if before.contains(fileid) {
                lemma_promoted_len(before, fileid);
            }
        }
        ReadOrder { fileid, len, pos, open: found.is_none() }
    }

    /// Takes note that the host opened `fileid`, which becomes the most
    /// recently used file. Hands back the file that the host must close:
    /// the least recently used one, when the cache was full.
    pub fn opened(&mut self, fileid: u64) -> (close: Option<u64>)
        ensures
            old(self)@.contains(fileid) ==> close is None && final(self)@ == promoted(
                old(self)@,
                fileid,
            ),
            !old(self)@.contains(fileid) && old(self)@.len() == MAX_READER_CACHE ==> close == Some(
                old(self)@.last(),
            ) && final(self)@ == seq![fileid] + old(self)@.drop_last(),
            !old(self)@.contains(fileid) && old(self)@.len() < MAX_READER_CACHE ==> close is None
                && final(self)@ == seq![fileid] + old(self)@,
            final(self)@.len() <= MAX_READER_CACHE,
    {
        proof {
            use_type_invariant(&*self);
        }
        let ghost before = lru_order(self.cache);
        let out = lru_push(&mut self.cache, fileid);
        proof {
            if before.contains(fileid) {
                lemma_promoted_len(before, fileid);
            }
        }
        match out {
            Some(evicted) => if evicted == fileid {
                None
            } else {
                Some(evicted)
            },
            None => None,
        }
    }
}

impl Clone for LogDir {
    /// A clone starts with no file open: open files are not shared.
    fn clone(&self) -> (logdir: LogDir)
        ensures
            logdir@ == Seq::<u64>::empty(),
    {
        LogDir::new()
    }
}

/// `lru::LruCache::len`: the number of keys in the cache.
#[verifier::external_body]
fn lru_len(cache: &LruCache<u64, ()>) -> (n: usize)
    ensures
        n == lru_order(*cache).len(),
{
    cache.len()
}

/// Moving a key to the front keeps the number of keys.
pub proof fn lemma_promoted_len(order: Seq<u64>, key: u64)
    requires
        order.contains(key),
    ensures
        promoted(order, key).len() == order.len(),
        promoted(order, key)[0] == key,
{
    let i = order.index_of(key);
    assert(0 <= i < order.len());
}

} // verus!
