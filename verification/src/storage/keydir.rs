//! The key directory: for each live key, where its current record lies.
//!
//! The directory is a hash table. A key's hash, computed over its bytes
//! from a seed that each directory draws for itself, selects a bucket; the
//! few keys that share a hash are told apart by comparing their bytes.

use std::collections::hash_map::RandomState;
use std::collections::HashMap;
use std::hash::BuildHasher;
use vstd::prelude::*;

verus! {

/// Where a record lies: the data file, the offset of its first byte, the
/// number of its bytes, and the timestamp it carries.
#[derive(Clone, Copy, Debug, PartialEq, Eq, Structural)]
pub struct KeyDirEntry {
    pub fileid: u64,
    pub len: u64,
    pub pos: u64,
    pub tstamp: i64,
}

struct Slot {
    key: Vec<u8>,
    entry: KeyDirEntry,
}

/// A map from keys to locators. It never holds values.
pub struct KeyDir {
    buckets: HashMap<u64, Vec<Slot>>,
    seed: u64,
}

/// `std::collections::hash_map::RandomState::new`: a hasher state whose
/// keys are drawn at random. Nothing is stated of it.
#[verifier::external_body]
fn random_state() -> (state: RandomState) {
    RandomState::new()
}

/// `std::hash::BuildHasher::hash_one`: the hash of a number under the
/// keys of a hasher state. Nothing is stated of it.
#[verifier::external_body]
fn hash_one(state: &RandomState, number: u64) -> (hash: u64) {
    state.hash_one(number)
}

/// The hash of the empty key under the seed 0.
const HASH_SEED: u64 = 0xcbf2_9ce4_8422_2325;

/// The factor by which the hash grows with each byte.
const HASH_PRIME: u64 = 0x0000_0100_0000_01b3;

/// The hash of a key under a seed: the hash starts from the seed, each
/// byte in turn is mixed into it by exclusive or, and the hash multiplied
/// by a prime, modulo 2^64.
spec fn key_hash(seed: u64, key: Seq<u8>) -> u64
    decreases key.len(),
{
    if key.len() == 0 {
        HASH_SEED ^ seed
    } else {
        (key_hash(seed, key.drop_last()) ^ (key.last() as u64)).wrapping_mul(HASH_PRIME)
    }
}

/// Computes the hash of a key under a seed.
fn hash_key(seed: u64, key: &[u8]) -> (hash: u64)
    ensures
        hash == key_hash(seed, key@),
{
    let mut hash: u64 = HASH_SEED ^ seed;
    let mut i: usize = 0;
    while i < key.len()
        invariant
            i <= key.len(),
            hash == key_hash(seed, key@.take(i as int)),
        decreases key.len() - i,
    {
        assert(key@.take(i as int + 1).drop_last() == key@.take(i as int));
        hash = (hash ^ (key[i] as u64)).wrapping_mul(HASH_PRIME);
        i += 1;
    }
    assert(key@.take(key.len() as int) == key@);
    hash
}

fn bytes_eq(a: &[u8], b: &[u8]) -> (same: bool)
    ensures
        same == (a@ == b@),
{
    if a.len() != b.len() {
        return false;
    }
    let mut i: usize = 0;
    while i < a.len()
        invariant
            i <= a.len(),
            a.len() == b.len(),
            a@.take(i as int) == b@.take(i as int),
        decreases a.len() - i,
    {
        if a[i] != b[i] {
            return false;
        }
        assert(a@.take(i as int + 1) == a@.take(i as int).push(a@[i as int]));
        assert(b@.take(i as int + 1) == b@.take(i as int).push(b@[i as int]));
        i += 1;
    }
    assert(a@.take(a.len() as int) == a@);
    assert(b@.take(b.len() as int) == b@);
    true
}

spec fn holds_at(slots: Seq<Slot>, key: Seq<u8>, i: int) -> bool {
    0 <= i < slots.len() && slots[i].key@ == key
}

spec fn bucket_has(slots: Seq<Slot>, key: Seq<u8>) -> bool {
    exists|i: int| holds_at(slots, key, i)
}

spec fn bucket_get(slots: Seq<Slot>, key: Seq<u8>) -> KeyDirEntry {
    slots[choose|i: int| holds_at(slots, key, i)].entry
}

/// A bucket holds each key once, and only keys with the bucket's hash.
spec fn bucket_ok(slots: Seq<Slot>, seed: u64, hash: u64) -> bool {
    &&& forall|i: int| 0 <= i < slots.len() ==> key_hash(seed, #[trigger] slots[i].key@) == hash
    &&& forall|i: int, j: int| 0 <= i < j < slots.len() ==> slots[i].key@ != slots[j].key@
}

fn find(slots: &Vec<Slot>, key: &[u8]) -> (found: Option<usize>)
    ensures
        match found {
            Some(i) => holds_at(slots@, key@, i as int),
            None => !bucket_has(slots@, key@),
        },
{
    let mut i: usize = 0;
    while i < slots.len()
        invariant
            i <= slots.len(),
            forall|j: int| 0 <= j < i ==> !holds_at(slots@, key@, j),
        decreases slots.len() - i,
    {
        if bytes_eq(slots[i].key.as_slice(), key) {
            return Some(i);
        }
        i += 1;
    }
    None
}

/// Binds `key` in a bucket.
fn bucket_put(slots: &mut Vec<Slot>, key: Vec<u8>, entry: KeyDirEntry, Ghost(seed): Ghost<u64>)
    requires
        bucket_ok(old(slots)@, seed, key_hash(seed, key@)),
    ensures
        bucket_ok(final(slots)@, seed, key_hash(seed, key@)),
        bucket_has(final(slots)@, key@),
        bucket_get(final(slots)@, key@) == entry,
        forall|k: Seq<u8>|
            k != key@ ==> (#[trigger] bucket_has(final(slots)@, k) == bucket_has(old(slots)@, k)),
        forall|k: Seq<u8>|
            k != key@ && bucket_has(old(slots)@, k) ==> #[trigger] bucket_get(final(slots)@, k)
                == bucket_get(old(slots)@, k),
{
    let ghost before = slots@;
    let ghost name = key@;
    let found = find(slots, key.as_slice());
    let ghost at: int = match found {
        Some(i) => i as int,
        None => before.len() as int,
    };
    match found {
        Some(i) => {
            slots.set(i, Slot { key, entry });
        },
        None => {
            slots.push(Slot { key, entry });
        },
    }
    proof {
        let after = slots@;
        assert(holds_at(after, name, at));
        assert forall|a: int, b: int| 0 <= a < b < after.len() implies after[a].key@
            != after[b].key@ by {
            if found is None && b == at {
                assert(!holds_at(before, name, a));
            }
        }
        assert(bucket_get(after, name) == entry) by {
            let i = choose|i: int| holds_at(after, name, i);
            assert(i == at);
        }
        assert forall|k: Seq<u8>| k != name implies (#[trigger] bucket_has(after, k)
            == bucket_has(before, k)) by {
            if bucket_has(after, k) {
                let i = choose|i: int| holds_at(after, k, i);
                assert(holds_at(before, k, i));
            }
            if bucket_has(before, k) {
                let i = choose|i: int| holds_at(before, k, i);
                assert(holds_at(after, k, i));
            }
        }
        assert forall|k: Seq<u8>| k != name && bucket_has(before, k) implies #[trigger] bucket_get(
            after,
            k,
        ) == bucket_get(before, k) by {
            let j = choose|j: int| holds_at(before, k, j);
            assert(holds_at(after, k, j));
            let i = choose|i: int| holds_at(after, k, i);
            assert(i == j);
        }
    }
}

/// Unbinds `key` in a bucket that holds it at index `i`.
fn bucket_take(slots: &mut Vec<Slot>, i: usize, Ghost(seed): Ghost<u64>, Ghost(key): Ghost<Seq<u8>>)
    requires
        bucket_ok(old(slots)@, seed, key_hash(seed, key)),
        holds_at(old(slots)@, key, i as int),
    ensures
        bucket_ok(final(slots)@, seed, key_hash(seed, key)),
        final(slots)@.len() == old(slots)@.len() - 1,
        !bucket_has(final(slots)@, key),
        forall|k: Seq<u8>|
            k != key ==> (#[trigger] bucket_has(final(slots)@, k) == bucket_has(old(slots)@, k)),
        forall|k: Seq<u8>|
            k != key && bucket_has(old(slots)@, k) ==> #[trigger] bucket_get(final(slots)@, k)
                == bucket_get(old(slots)@, k),
{
    let ghost before = slots@;
    slots.swap_remove(i);
    proof {
        let after = slots@;
        let last = before.len() - 1;
        assert forall|a: int| 0 <= a < after.len() implies #[trigger] after[a] == before[if a
            == i as int {
            last
        } else {
            a
        }] by {}
        assert forall|a: int, b: int| 0 <= a < b < after.len() implies after[a].key@
            != after[b].key@ by {
            let a0 = if a == i as int {
                last
            } else {
                a
            };
            let b0 = if b == i as int {
                last
            } else {
                b
            };
            assert(after[a] == before[a0]);
            assert(after[b] == before[b0]);
        }
        assert(!bucket_has(after, key)) by {
            if bucket_has(after, key) {
                let j = choose|j: int| holds_at(after, key, j);
                let j0 = if j == i as int {
                    last
                } else {
                    j
                };
                assert(after[j] == before[j0]);
                assert(holds_at(before, key, j0));
            }
        }
        assert forall|k: Seq<u8>| k != key implies (#[trigger] bucket_has(after, k) == bucket_has(
            before,
            k,
        )) by {
            if bucket_has(after, k) {
                let j = choose|j: int| holds_at(after, k, j);
                let j0 = if j == i as int {
                    last
                } else {
                    j
                };
                assert(after[j] == before[j0]);
                assert(holds_at(before, k, j0));
            }
            if bucket_has(before, k) {
                let j = choose|j: int| holds_at(before, k, j);
                let j1 = if j == last {
                    i as int
                } else {
                    j
                };
                assert(after[j1] == before[j]);
                assert(holds_at(after, k, j1));
            }
        }
        assert forall|k: Seq<u8>| k != key && bucket_has(before, k) implies #[trigger] bucket_get(
            after,
            k,
        ) == bucket_get(before, k) by {
            let b = choose|b: int| holds_at(before, k, b);
            assert(bucket_has(after, k));
            let a = choose|a: int| holds_at(after, k, a);
            let a0 = if a == i as int {
                last
            } else {
                a
            };
            assert(after[a] == before[a0]);
            assert(holds_at(before, k, a0));
            assert(a0 == b);
        }
    }
}

impl KeyDir {
    #[verifier::type_invariant]
    spec fn buckets_ok(self) -> bool {
        forall|hash: u64| #[trigger]
            self.buckets@.contains_key(hash) ==> bucket_ok(self.buckets@[hash]@, self.seed, hash)
    }

    /// The directory as a mathematical map.
    pub closed spec fn view(&self) -> Map<Seq<u8>, KeyDirEntry> {
        Map::new(
            |key: Seq<u8>|
                self.buckets@.contains_key(key_hash(self.seed, key)) && bucket_has(
                    self.buckets@[key_hash(self.seed, key)]@,
                    key,
                ),
            |key: Seq<u8>| bucket_get(self.buckets@[key_hash(self.seed, key)]@, key),
        )
    }

    /// An empty directory.
    pub fn new() -> (keydir: KeyDir)
        ensures
            keydir@ == Map::<Seq<u8>, KeyDirEntry>::empty(),
    {
        let state = random_state();
        let seed = hash_one(&state, 0);
        let keydir = KeyDir { buckets: HashMap::new(), seed };
        assert(keydir@ =~= Map::<Seq<u8>, KeyDirEntry>::empty());
        keydir
    }

    /// The locator of `key`, if the key is present.
    pub fn get(&self, key: &[u8]) -> (entry: Option<KeyDirEntry>)
        ensures
            entry == if self@.contains_key(key@) {
                Some(self@[key@])
            } else {
                None
            },
    {
        proof {
            use_type_invariant(self);
        }
        let seed = self.seed;
        let hash = hash_key(seed, key);
        match self.buckets.get(&hash) {
            None => None,
            Some(slots) => {
                assert(bucket_ok(slots@, seed, hash));
                match find(slots, key) {
                    Some(i) => {
                        let ghost chosen = choose|j: int| holds_at(slots@, key@, j);
                        assert(chosen == i as int);
                        Some(slots[i].entry)
                    },
                    None => None,
                }
            },
        }
    }

    /// Whether `key` is present.
    pub fn contains_key(&self, key: &[u8]) -> (present: bool)
        ensures
            present == self@.contains_key(key@),
    {
        self.get(key).is_some()
    }

    /// Binds `key` to `entry`, in place of an earlier locator if there was one.
    pub fn insert(&mut self, key: Vec<u8>, entry: KeyDirEntry)
        ensures
            final(self)@ == old(self)@.insert(key@, entry),
    {
        proof {
            use_type_invariant(&*self);
        }
        let ghost name = key@;
        let seed = self.seed;
        let hash = hash_key(seed, key.as_slice());
        let mut buckets: HashMap<u64, Vec<Slot>> = HashMap::new();
        std::mem::swap(&mut self.buckets, &mut buckets);
        let ghost before = buckets@;
        let mut slots: Vec<Slot> = match buckets.remove(&hash) {
            Some(slots) => slots,
            None => Vec::new(),
        };
        let ghost old_slots = slots@;
        assert(bucket_ok(old_slots, seed, hash));
        bucket_put(&mut slots, key, entry, Ghost(seed));
        let ghost new_slots = slots@;
        buckets.insert(hash, slots);
        proof {
            let after = buckets@;
            assert(after == before.insert(hash, after[hash]));
            assert(after[hash]@ == new_slots);
            assert forall|h: u64| #[trigger] after.contains_key(h) implies bucket_ok(
                after[h]@,
                seed,
                h,
            ) by {
                if h != hash {
                    assert(before.contains_key(h));
                }
            }
        }
        self.buckets = buckets;
        proof {
            let after = self.buckets@;
            let target = old(self)@.insert(name, entry);
            assert forall|k: Seq<u8>| #[trigger] self@.contains_key(k) == target.contains_key(
                k,
            ) by {
                if key_hash(seed, k) == hash && k != name {
                    assert(bucket_has(new_slots, k) == bucket_has(old_slots, k));
                    if !before.contains_key(hash) {
                        assert(!bucket_has(old_slots, k)) by {
                            assert forall|i: int| !holds_at(old_slots, k, i) by {}
                        }
                    }
                }
            }
            assert forall|k: Seq<u8>| #[trigger] self@.contains_key(k) implies self@[k]
                == target[k] by {
                if key_hash(seed, k) == hash && k != name {
                    assert(bucket_has(new_slots, k) == bucket_has(old_slots, k));
                    assert(bucket_get(new_slots, k) == bucket_get(old_slots, k));
                    if !before.contains_key(hash) {
                        assert forall|i: int| !holds_at(old_slots, k, i) by {}
                    }
                }
            }
            assert(self@ =~= target);
        }
    }

    /// Unbinds `key`. Says whether it was present.
    pub fn remove(&mut self, key: &[u8]) -> (present: bool)
        ensures
            present == old(self)@.contains_key(key@),
            final(self)@ == old(self)@.remove(key@),
    {
        proof {
            use_type_invariant(&*self);
        }
        let seed = self.seed;
        let hash = hash_key(seed, key);
        let at = match self.buckets.get(&hash) {
            None => None,
            Some(slots) => find(slots, key),
        };
        let i = match at {
            Some(i) => i,
            None => {
                assert(self@ =~= old(self)@.remove(key@));
                return false;
            },
        };
        let mut buckets: HashMap<u64, Vec<Slot>> = HashMap::new();
        std::mem::swap(&mut self.buckets, &mut buckets);
        let ghost before = buckets@;
        let mut slots: Vec<Slot> = match buckets.remove(&hash) {
            Some(slots) => slots,
            None => Vec::new(),
        };
        let ghost old_slots = slots@;
        assert(bucket_ok(old_slots, seed, hash));
        bucket_take(&mut slots, i, Ghost(seed), Ghost(key@));
        let ghost new_slots = slots@;
        if slots.len() > 0 {
            buckets.insert(hash, slots);
        }
        proof {
            let after = buckets@;
            assert forall|h: u64| #[trigger] after.contains_key(h) implies bucket_ok(
                after[h]@,
                seed,
                h,
            ) by {
                if h != hash {
                    assert(before.contains_key(h));
                }
            }
        }
        self.buckets = buckets;
        proof {
            let after = self.buckets@;
            let target = old(self)@.remove(key@);
            assert forall|k: Seq<u8>| #[trigger] self@.contains_key(k) == target.contains_key(
                k,
            ) by {
                if key_hash(seed, k) == hash {
                    if k != key@ {
                        assert(bucket_has(new_slots, k) == bucket_has(old_slots, k));
                    }
                    if !after.contains_key(hash) {
                        assert forall|j: int| !holds_at(new_slots, k, j) by {}
                    }
                } else {
                    assert(after.contains_key(key_hash(seed, k)) == before.contains_key(key_hash(seed, k)));
                }
            }
            assert forall|k: Seq<u8>| #[trigger] self@.contains_key(k) implies self@[k]
                == target[k] by {
                if key_hash(seed, k) == hash {
                    assert(k != key@);
                    assert(bucket_has(new_slots, k) == bucket_has(old_slots, k));
                    assert(bucket_get(new_slots, k) == bucket_get(old_slots, k));
                }
            }
            assert(self@ =~= target);
        }
        true
    }
}

} // verus!
