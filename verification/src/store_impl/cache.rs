//! The size-bounded write-back memory cache that wraps any backend.

use vstd::prelude::*;
use crate::error::{BlobError, BlobStoreError};
use crate::model::{get_owned_result, overwrite, range_len, range_part, read_part, Blobs};
use crate::store_impl::helpers::{range_contains, range_size, read_at, write_at};
use crate::store_impl::lru_order::{
    distinct_keys, has_key, keys_of, lemma_drop_first_distinct, lemma_index_of,
    lemma_push_fresh, lemma_split, lemma_total_drop_first, lemma_total_push, lemma_touched,
    lemma_without, lru_contains, lru_entries, lru_get, lru_len, lru_limit, lru_peek_lru, lru_pop,
    lru_pop_lru, lru_push, lru_unbounded, total, touched, value_of, without,
};
use crate::{BlobMeta, BlobStore, DeleteOpt, GetOpt, Key, PutOpt};

verus! {

/// `dashmap::DashMap`, whose contents are read through `resident_of`.
#[verifier::external_type_specification]
#[verifier::external_body]
#[verifier::reject_recursive_types(K)]
#[verifier::reject_recursive_types(V)]
#[verifier::reject_recursive_types(S)]
pub struct ExDashMap<K, V, S>(dashmap::DashMap<K, V, S>);

/// The blobs that the map holds, by key.
pub uninterp spec fn resident_of(map: dashmap::DashMap<Key, Vec<u8>>) -> Map<Key, Seq<u8>>;

/// Calls `DashMap::new`, which makes an empty map.
#[verifier::external_body]
fn dash_new() -> (fresh: dashmap::DashMap<Key, Vec<u8>>)
    ensures
        resident_of(fresh) == (Map::<Key, Seq<u8>>::empty()),
{
    dashmap::DashMap::new()
}

/// Calls `DashMap::insert`, which enters the value for the key and returns
/// the value that was entered for it before, if there was one.
#[verifier::external_body]
fn dash_insert(map: &mut dashmap::DashMap<Key, Vec<u8>>, key: Key, value: Vec<u8>) -> (out: Option<
    Vec<u8>,
>)
    ensures
        resident_of(*final(map)) == resident_of(*old(map)).insert(key, value@),
        out is Some == resident_of(*old(map)).contains_key(key),
        out matches Some(v) ==> v@ == resident_of(*old(map))[key],
{
    map.insert(key, value)
}

/// Calls `DashMap::remove`, which takes the entry of the key out and returns
/// it, if there was one. The value of the entry is handed on.
#[verifier::external_body]
fn dash_remove(map: &mut dashmap::DashMap<Key, Vec<u8>>, key: &Key) -> (out: Option<Vec<u8>>)
    ensures
        resident_of(*final(map)) == resident_of(*old(map)).remove(*key),
        out is Some == resident_of(*old(map)).contains_key(*key),
        out matches Some(v) ==> v@ == resident_of(*old(map))[*key],
{
    map.remove(key).map(|entry| entry.1)
}

/// Calls `DashMap::get`, which gives access to the value entered for the
/// key, if there is one. A copy of the value is handed on.
#[verifier::external_body]
fn dash_get(map: &dashmap::DashMap<Key, Vec<u8>>, key: &Key) -> (out: Option<Vec<u8>>)
    ensures
        out is Some == resident_of(*map).contains_key(*key),
        out matches Some(v) ==> v@ == resident_of(*map)[*key],
{
    map.get(key).map(|entry| entry.value().clone())
}

/// How many entries leave, the least recently used first, until `incoming`
/// more bytes fit under `cap`.
pub open spec fn evict_count(entries: Seq<(Key, usize)>, size_now: int, incoming: int, cap: int) -> nat
    decreases entries.len(),
{
    if size_now + incoming <= cap || entries.len() == 0 {
        0
    } else {
        1 + evict_count(entries.drop_first(), size_now - entries[0].1, incoming, cap)
    }
}

/// What a `SizedCache` stands for: the keys it holds with the size entered
/// for each, the least recently used first, and its byte budget.
pub struct SizedModel {
    pub entries: Seq<(Key, usize)>,
    pub cap: nat,
}

impl SizedModel {
    pub open spec fn wf(self) -> bool {
        &&& distinct_keys(self.entries)
        &&& self.size() <= self.cap <= usize::MAX
    }

    /// The bytes that are held: the sum of the sizes entered.
    pub open spec fn size(self) -> nat {
        total(self.entries)
    }

    /// Whether `incoming` bytes fit once enough entries have left.
    pub open spec fn has_room(self, incoming: nat) -> bool {
        incoming <= self.cap
    }

    /// How many entries leave when `incoming` bytes enter.
    pub open spec fn evicted_by(self, incoming: nat) -> nat {
        evict_count(self.entries, self.size() as int, incoming as int, self.cap as int)
    }

    /// The keys that leave when `incoming` bytes enter, in the order in which
    /// they leave.
    pub open spec fn victims(self, incoming: nat) -> Seq<Key> {
        keys_of(self.entries.take(self.evicted_by(incoming) as int))
    }

    /// After `push(key, size)`.
    pub open spec fn pushed(self, key: Key, size: usize) -> SizedModel {
        let n = self.evicted_by(size as nat) as int;
        SizedModel { entries: without(self.entries.skip(n), key).push((key, size)), cap: self.cap }
    }

    /// After the key was looked up.
    pub open spec fn touched(self, key: Key) -> SizedModel {
        SizedModel { entries: touched(self.entries, key), ..self }
    }

    /// After `pop()`.
    pub open spec fn popped(self) -> SizedModel {
        if self.entries.len() == 0 {
            self
        } else {
            SizedModel { entries: self.entries.drop_first(), cap: self.cap }
        }
    }

    /// After `remove(key)`.
    pub open spec fn removed(self, key: Key) -> SizedModel {
        SizedModel { entries: without(self.entries, key), cap: self.cap }
    }
}

/// The keys that are resident, in the order of their last use, with the
/// bytes counted against the budget.
pub struct SizedCache {
    cache: lru::LruCache<Key, usize>,
    size: usize,
    cap: usize,
}

impl View for SizedCache {
    type V = SizedModel;

    closed spec fn view(&self) -> SizedModel {
        SizedModel { entries: lru_entries(self.cache), cap: self.cap as nat }
    }
}

impl SizedCache {
    /// The invariant of the cache: no key is entered twice, and the bytes
    /// that are held are counted and within the budget.
    pub closed spec fn wf(&self) -> bool {
        &&& self@.wf()
        &&& lru_limit(self.cache) == usize::MAX
        &&& self.size == total(lru_entries(self.cache))
    }

    pub proof fn lemma_wf(&self)
        requires
            self.wf(),
        ensures
            self@.wf(),
    {
    }

    pub fn with_capacity(cap: usize) -> (cache: Self)
        ensures
            cache.wf(),
            cache@ == (SizedModel { entries: Seq::empty(), cap: cap as nat }),
    {
        Self { cache: lru_unbounded(), size: 0, cap }
    }

    /// Whether the key is held; looking it up makes it the most recently
    /// used one.
    pub fn contains(&mut self, key: &Key) -> (found: bool)
        requires
            old(self).wf(),
        ensures
            final(self).wf(),
            found == has_key(old(self)@.entries, *key),
            final(self)@ == old(self)@.touched(*key),
    {
        let found = lru_get(&mut self.cache, key).is_some();
        proof {
            lemma_touched(old(self)@.entries, *key);
        }
        found
    }

    /// The size entered for the key, if it is held; looking it up makes it
    /// the most recently used one.
    pub fn size_of(&mut self, key: &Key) -> (size: Option<usize>)
        requires
            old(self).wf(),
        ensures
            final(self).wf(),
            size == if has_key(old(self)@.entries, *key) {
                Some(value_of(old(self)@.entries, *key))
            } else {
                None
            },
            final(self)@ == old(self)@.touched(*key),
    {
        let size = lru_get(&mut self.cache, key);
        proof {
            lemma_touched(old(self)@.entries, *key);
        }
        size
    }

    /// Whether the key is held. The order of the keys is left alone.
    pub fn holds(&self, key: &Key) -> (found: bool)
        ensures
            found == has_key(self@.entries, *key),
    {
        lru_contains(&self.cache, key)
    }

    /// The least recently used key with its size, which stays where it is.
    pub fn peek(&self) -> (out: Option<(Key, usize)>)
        ensures
            out == if self@.entries.len() == 0 {
                None
            } else {
                Some(self@.entries[0])
            },
    {
        lru_peek_lru(&self.cache)
    }

    /// The number of keys that are held.
    pub fn len(&self) -> (len: usize)
        ensures
            len == self@.entries.len(),
    {
        lru_len(&self.cache)
    }

    /// Whether `incoming` bytes fit beside the bytes that are held.
    pub fn fits(&self, incoming: usize) -> (fits: bool)
        requires
            self.wf(),
        ensures
            fits == (self@.size() + incoming <= self@.cap),
    {
        incoming <= self.cap - self.size
    }

    /// The bytes that are held.
    pub fn size(&self) -> (size: usize)
        requires
            self.wf(),
        ensures
            size == self@.size(),
    {
        self.size
    }

    /// The byte budget.
    pub fn capacity(&self) -> (cap: usize)
        ensures
            cap == self@.cap,
    {
        self.cap
    }

    /// Enters the key with its size as the most recently used one. Before
    /// that, as long as the bytes held and the size together exceed the
    /// budget, the least recently used key leaves. The keys that left are
    /// returned in the order in which they left. An entry that the key had
    /// and that did not leave is replaced, and its bytes are held no longer.
    pub fn push(&mut self, key: Key, size: usize) -> (evict: Vec<Key>)
        requires
            old(self).wf(),
            old(self)@.has_room(size as nat),
        ensures
            final(self).wf(),
            final(self)@ == old(self)@.pushed(key, size),
            evict@ == old(self)@.victims(size as nat),
    {
        let mut evict: Vec<Key> = Vec::new();
        let ghost before = self@;
        while size > self.cap - self.size
            invariant
                self.wf(),
                self@.cap == before.cap,
                evict@.len() <= before.entries.len(),
                self@.entries == before.entries.skip(evict@.len() as int),
                evict@ == keys_of(before.entries.take(evict@.len() as int)),
                self@.size() == before.size() - total(before.entries.take(evict@.len() as int)),
                before.has_room(size as nat),
                evict@.len() + self@.evicted_by(size as nat) == before.evicted_by(size as nat),
            decreases self@.entries.len(),
        {
            let ghost n = evict@.len() as int;
            let ghost now = self@;
            let popped = lru_pop_lru(&mut self.cache);
            proof {
                if now.entries.len() == 0 {
                    assert(total(now.entries) == 0);
                    assert(false);
                }
                lemma_total_drop_first(now.entries);
                assert(before.entries.take(n + 1).drop_last() =~= before.entries.take(n));
                assert(before.entries.take(n + 1).last() == now.entries[0]);
                assert(now.entries.drop_first() =~= before.entries.skip(n + 1));
                lemma_drop_first_distinct(now.entries);
            }
            let (evict_key, s) = popped.unwrap();
            self.size -= s;
            evict.push(evict_key);
            proof {
                assert(evict@ =~= keys_of(before.entries.take(n + 1)));
            }
        }
        let ghost n = evict@.len() as int;
        let ghost kept = self@.entries;
        let replaced = lru_push(&mut self.cache, key, size);
        proof {
            lemma_without(kept, key);
            lemma_push_fresh(without(kept, key), (key, size));
            lemma_total_push(without(kept, key), (key, size));
        }
        match replaced {
            Some(entry) => {
                self.size -= entry.1;
            },
            None => {},
        }
        self.size += size;
        evict
    }

    /// Takes out the least recently used key with its size.
    pub fn pop(&mut self) -> (out: Option<(Key, usize)>)
        requires
            old(self).wf(),
        ensures
            final(self).wf(),
            out == if old(self)@.entries.len() == 0 {
                None
            } else {
                Some(old(self)@.entries[0])
            },
            final(self)@ == old(self)@.popped(),
    {
        let out = lru_pop_lru(&mut self.cache);
        match out {
            Some(entry) => {
                proof {
                    lemma_total_drop_first(old(self)@.entries);
                    lemma_drop_first_distinct(old(self)@.entries);
                }
                self.size -= entry.1;
            },
            None => {},
        }
        out
    }

    /// Takes the key out; says whether it was held.
    pub fn remove(&mut self, key: &Key) -> (found: bool)
        requires
            old(self).wf(),
        ensures
            final(self).wf(),
            found == has_key(old(self)@.entries, *key),
            final(self)@ == old(self)@.removed(*key),
    {
        proof {
            lemma_without(old(self)@.entries, *key);
        }
        if let Some(size) = lru_pop(&mut self.cache, key) {
            self.size -= size;
            return true;
        }
        false
    }
}


/// The backend after the resident copies of `victims` were written to it.
pub open spec fn flush_backend(backend: Blobs, resident: Map<Key, Seq<u8>>, victims: Seq<Key>) -> Blobs {
    Map::new(
        |k: Key| backend.contains_key(k) || victims.contains(k),
        |k: Key|
            if victims.contains(k) {
                resident[k]
            } else {
                backend[k]
            },
    )
}

/// What a `MemoryCache` stands for: what its backend holds, the keys that
/// are resident in the order of their last use, and the resident copy of
/// each.
pub struct CacheModel {
    pub backend: Blobs,
    pub lru: SizedModel,
    pub resident: Map<Key, Seq<u8>>,
}

impl CacheModel {
    /// Every resident key has a resident copy, entered with the length of
    /// that copy, and no other key has one.
    pub open spec fn wf(self) -> bool {
        &&& self.lru.wf()
        &&& forall|k: Key| self.resident.contains_key(k) <==> has_key(self.lru.entries, k)
        &&& forall|k: Key|
            has_key(self.lru.entries, k) ==> value_of(self.lru.entries, k) == self.resident[k].len()
    }

    /// What the cache holds for its callers: the resident copy of a resident
    /// key, and what the backend holds of any other.
    pub open spec fn blobs(self) -> Blobs {
        self.backend.union_prefer_right(self.resident)
    }

    pub open spec fn is_resident(self, key: Key) -> bool {
        has_key(self.lru.entries, key)
    }

    /// Sum of the lengths of the resident copies.
    pub open spec fn resident_bytes(self) -> nat {
        total(self.lru.entries)
    }

    /// After the key was looked up.
    pub open spec fn touched(self, key: Key) -> CacheModel {
        CacheModel { lru: self.lru.touched(key), ..self }
    }

    /// After the least recently used key was written back and left.
    pub open spec fn evicted(self) -> CacheModel {
        let key = self.lru.entries[0].0;
        CacheModel {
            backend: self.backend.insert(key, self.resident[key]),
            lru: self.lru.popped(),
            resident: self.resident.remove(key),
        }
    }

    /// After `data` became the resident copy of `key`: the keys that had to
    /// leave were written back to the backend first.
    pub open spec fn admitted(self, key: Key, data: Seq<u8>) -> CacheModel {
        let victims = self.lru.victims(data.len());
        CacheModel {
            backend: flush_backend(self.backend, self.resident, victims),
            lru: self.lru.pushed(key, data.len() as usize),
            resident: self.resident.remove_keys(victims.to_set()).insert(key, data),
        }
    }

    /// After `value` became the resident copy of `key` and was written to
    /// the backend as well.
    pub open spec fn stored(self, key: Key, value: Seq<u8>) -> CacheModel {
        let admitted = self.admitted(key, value);
        CacheModel { backend: admitted.backend.insert(key, value), ..admitted }
    }

    /// After the key was made resident for a replacement: looked up where it
    /// was resident, else loaded whole from the backend.
    pub open spec fn loaded(self, key: Key) -> CacheModel {
        if self.is_resident(key) {
            self.touched(key)
        } else {
            self.admitted(key, self.backend[key])
        }
    }

    /// After the key was made resident for a read with `opt`: looked up
    /// where it was resident, else loaded from the backend by a read with
    /// the same `opt`.
    pub open spec fn fetched(self, key: Key, opt: GetOpt) -> CacheModel {
        if self.is_resident(key) {
            self.touched(key)
        } else {
            self.admitted(key, get_owned_result(self.backend, key, opt)->Ok_0)
        }
    }

    /// After the key left the cache without being written back.
    pub open spec fn forgot(self, key: Key) -> CacheModel {
        CacheModel { lru: self.lru.removed(key), resident: self.resident.remove(key), ..self }
    }

    /// Whether a replacement of `r` by `value_len` bytes is admissible on a
    /// resident copy of `size` bytes: the range has to span the whole copy.
    pub open spec fn replace_fits(r: crate::BlobRange, size: nat, value_len: nat) -> bool {
        size == range_len(r) && r.end <= size && range_len(r) == value_len
    }

    /// The precondition failure of `put`, if any.
    pub open spec fn put_verdict(self, key: Key, value: Seq<u8>, opt: PutOpt) -> Option<BlobError> {
        match opt {
            PutOpt::Create => if self.is_resident(key) || self.backend.contains_key(key) {
                Some(BlobError::AlreadyExists)
            } else {
                None
            },
            PutOpt::ReplaceOrCreate => None,
            PutOpt::Replace(r) => if !self.is_resident(key) && !self.backend.contains_key(key) {
                Some(BlobError::NotFound)
            } else if !Self::replace_fits(r, self.loaded(key).resident[key].len(), value.len()) {
                Some(BlobError::RangeError)
            } else {
                None
            },
        }
    }

    /// The cache after `put`, whether it succeeded or failed on a
    /// precondition.
    pub open spec fn put_after(self, key: Key, value: Seq<u8>, opt: PutOpt) -> CacheModel {
        match opt {
            PutOpt::Create => if self.put_verdict(key, value, opt) is Some {
                self.touched(key)
            } else {
                self.stored(key, value)
            },
            PutOpt::ReplaceOrCreate => self.stored(key, value),
            PutOpt::Replace(r) => if !self.is_resident(key) && !self.backend.contains_key(key) {
                self
            } else if self.put_verdict(key, value, opt) is Some {
                self.loaded(key)
            } else {
                let loaded = self.loaded(key);
                CacheModel {
                    resident: loaded.resident.insert(
                        key,
                        overwrite(loaded.resident[key], r.start as int, value),
                    ),
                    ..loaded
                }
            },
        }
    }

    /// The number of bytes that `put` makes resident, if it makes any.
    pub open spec fn put_admits(self, key: Key, value: Seq<u8>, opt: PutOpt) -> Option<nat> {
        match opt {
            PutOpt::Create => if self.put_verdict(key, value, opt) is Some {
                None
            } else {
                Some(value.len())
            },
            PutOpt::ReplaceOrCreate => Some(value.len()),
            PutOpt::Replace(_) => if !self.is_resident(key) && self.backend.contains_key(key) {
                Some(self.backend[key].len())
            } else {
                None
            },
        }
    }

    /// Whether the read finds the key: it is resident, or the backend
    /// answers a read with the same `opt`.
    pub open spec fn get_finds(self, key: Key, opt: GetOpt) -> bool {
        self.is_resident(key) || get_owned_result(self.backend, key, opt) is Ok
    }

    /// The number of bytes that `get` makes resident, if it makes any.
    pub open spec fn get_admits(self, key: Key, opt: GetOpt) -> Option<nat> {
        if !self.is_resident(key) && get_owned_result(self.backend, key, opt) is Ok {
            Some(get_owned_result(self.backend, key, opt)->Ok_0.len())
        } else {
            None
        }
    }

    /// The cache after `get`, whether it succeeded or failed on a
    /// precondition.
    pub open spec fn get_after(self, key: Key, opt: GetOpt) -> CacheModel {
        if self.get_finds(key, opt) {
            self.fetched(key, opt)
        } else {
            self
        }
    }

    /// Length of the buffer that `get_owned` allocates for `opt`.
    pub open spec fn owned_len(self, key: Key, opt: GetOpt) -> nat {
        match opt {
            GetOpt::All => self.blobs()[key].len(),
            GetOpt::Range(r) => range_len(r),
        }
    }

    /// The cache as `get_owned` finds it for its read: for `All` the key was
    /// looked up for its size first.
    pub open spec fn sized(self, key: Key, opt: GetOpt) -> CacheModel {
        match opt {
            GetOpt::All => self.touched(key),
            GetOpt::Range(_) => self,
        }
    }

    /// What `get` writes into a buffer of `buf_len` bytes, or the
    /// precondition failure.
    pub open spec fn get_data(self, key: Key, opt: GetOpt, buf_len: nat) -> Result<
        Seq<u8>,
        BlobError,
    > {
        if !self.get_finds(key, opt) {
            Err(get_owned_result(self.backend, key, opt)->Err_0)
        } else {
            let data = self.fetched(key, opt).resident[key];
            match opt {
                GetOpt::All => if data.len() == buf_len {
                    Ok(data)
                } else {
                    Err(BlobError::RangeError)
                },
                GetOpt::Range(r) => if r.end <= data.len() && range_len(r) == buf_len {
                    Ok(range_part(data, r))
                } else {
                    Err(BlobError::RangeError)
                },
            }
        }
    }
}

/// No more entries leave than there are.
pub proof fn lemma_evict_count_bound(entries: Seq<(Key, usize)>, size_now: int, incoming: int, cap: int)
    ensures
        evict_count(entries, size_now, incoming, cap) <= entries.len(),
    decreases entries.len(),
{
    if !(size_now + incoming <= cap || entries.len() == 0) {
        lemma_evict_count_bound(entries.drop_first(), size_now - entries[0].1, incoming, cap);
    }
}

/// As many entries leave as it takes for the incoming bytes to fit: no
/// more than there are, and afterwards the count is within the budget.
pub proof fn lemma_evict_count(entries: Seq<(Key, usize)>, size_now: int, incoming: int, cap: int)
    requires
        size_now - total(entries) + incoming <= cap,
    ensures
        evict_count(entries, size_now, incoming, cap) <= entries.len(),
        size_now - total(entries.take(evict_count(entries, size_now, incoming, cap) as int))
            + incoming <= cap,
    decreases entries.len(),
{
    let n = evict_count(entries, size_now, incoming, cap) as int;
    if size_now + incoming <= cap || entries.len() == 0 {
        assert(entries.take(0) =~= Seq::<(Key, usize)>::empty());
        if entries.len() == 0 {
            assert(total(entries) == 0);
        }
    } else {
        let rest = entries.drop_first();
        lemma_total_drop_first(entries);
        lemma_evict_count(rest, size_now - entries[0].1, incoming, cap);
        assert(entries.take(n).drop_first() =~= rest.take(n - 1));
        lemma_total_drop_first(entries.take(n));
    }
}

impl SizedModel {
    /// Entering a key keeps the cache well formed. Afterwards the keys held
    /// are the new key and the old ones that did not leave, each with its
    /// size.
    pub proof fn lemma_pushed(self, key: Key, size: usize)
        requires
            self.wf(),
            self.has_room(size as nat),
        ensures
            self.pushed(key, size).wf(),
            self.evicted_by(size as nat) <= self.entries.len(),
            has_key(self.pushed(key, size).entries, key),
            value_of(self.pushed(key, size).entries, key) == size,
            forall|k: Key|
                k != key ==> (has_key(self.pushed(key, size).entries, k) <==> (has_key(
                    self.entries,
                    k,
                ) && !self.victims(size as nat).contains(k))),
            forall|k: Key|
                k != key && has_key(self.pushed(key, size).entries, k) ==> value_of(
                    self.pushed(key, size).entries,
                    k,
                ) == value_of(self.entries, k),
            forall|k: Key| self.victims(size as nat).contains(k) ==> has_key(self.entries, k),
            forall|i: int, j: int|
                0 <= i < j < self.victims(size as nat).len() ==> self.victims(size as nat)[i]
                    != self.victims(size as nat)[j],
    {
        lemma_evict_count(self.entries, self.size() as int, size as int, self.cap as int);
        let n = self.evicted_by(size as nat) as int;
        lemma_split(self.entries, n);
        let kept = self.entries.skip(n);
        lemma_without(kept, key);
        lemma_push_fresh(without(kept, key), (key, size));
        lemma_total_push(without(kept, key), (key, size));
        let after = self.pushed(key, size).entries;
        assert forall|k: Key| k != key && has_key(after, k) implies value_of(after, k) == value_of(
            self.entries,
            k,
        ) by {
            assert(has_key(without(kept, key), k));
            assert(has_key(kept, k));
        }
    }
}

impl CacheModel {
    /// Looking a key up keeps the cache well formed and what it holds.
    pub proof fn lemma_touched(self, key: Key)
        requires
            self.wf(),
        ensures
            self.touched(key).wf(),
            self.touched(key).blobs() == self.blobs(),
            forall|k: Key| self.touched(key).is_resident(k) == self.is_resident(k),
            !self.is_resident(key) ==> self.touched(key) == self,
    {
        lemma_touched(self.lru.entries, key);
        let after = self.touched(key);
        assert(after.lru.entries == touched(self.lru.entries, key));
        assert forall|k: Key| after.resident.contains_key(k) <==> has_key(after.lru.entries, k) by {
            assert(has_key(after.lru.entries, k) == has_key(self.lru.entries, k));
        }
        assert forall|k: Key| has_key(after.lru.entries, k) implies value_of(after.lru.entries, k)
            == after.resident[k].len() by {
            assert(has_key(self.lru.entries, k));
        }
    }

    /// Making `data` the resident copy of `key` keeps the cache well formed.
    /// For its callers the cache then holds `data` for `key` and, for every
    /// other key, what it held before: a key that left was written back.
    pub proof fn lemma_admitted(self, key: Key, data: Seq<u8>)
        requires
            self.wf(),
            self.lru.has_room(data.len()),
            data.len() <= usize::MAX,
        ensures
            self.admitted(key, data).wf(),
            self.admitted(key, data).blobs() == self.blobs().insert(key, data),
            self.admitted(key, data).is_resident(key),
            self.admitted(key, data).resident[key] == data,
            !self.is_resident(key) ==> (self.admitted(key, data).backend.contains_key(key)
                == self.backend.contains_key(key)),
            !self.is_resident(key) && self.backend.contains_key(key) ==> self.admitted(
                key,
                data,
            ).backend[key] == self.backend[key],
    {
        let size = data.len() as usize;
        self.lru.lemma_pushed(key, size);
        let victims = self.lru.victims(data.len());
        let after = self.admitted(key, data);
        assert forall|k: Key| after.resident.contains_key(k) <==> has_key(after.lru.entries, k) by {
            if k != key {
                assert(victims.to_set().contains(k) == victims.contains(k));
            }
        }
        assert forall|k: Key| has_key(after.lru.entries, k) implies value_of(after.lru.entries, k)
            == after.resident[k].len() by {
            if k != key {
                assert(victims.to_set().contains(k) == victims.contains(k));
            }
        }
        assert forall|k: Key| victims.to_set().contains(k) == victims.contains(k) by {}
        assert(after.blobs() =~= self.blobs().insert(key, data));
    }

    /// Writing the least recently used key back keeps the cache well formed
    /// and what it holds for its callers.
    pub proof fn lemma_evicted(self)
        requires
            self.wf(),
            self.lru.entries.len() > 0,
        ensures
            self.evicted().wf(),
            self.evicted().blobs() == self.blobs(),
            self.resident.contains_key(self.lru.entries[0].0),
            self.evicted().lru.entries.len() < self.lru.entries.len(),
    {
        let entries = self.lru.entries;
        let key = entries[0].0;
        let after = self.evicted();
        lemma_index_of(entries, 0);
        lemma_drop_first_distinct(entries);
        lemma_total_drop_first(entries);
        lemma_split(entries, 1);
        assert(entries.skip(1) =~= entries.drop_first());
        assert forall|k: Key| after.resident.contains_key(k) <==> has_key(after.lru.entries, k) by {
            if k != key {
                assert(has_key(after.lru.entries, k) == has_key(entries, k));
            }
        }
        assert forall|k: Key| has_key(after.lru.entries, k) implies value_of(after.lru.entries, k)
            == after.resident[k].len() by {
            assert(k != key);
            assert(has_key(entries, k));
        }
        assert(after.blobs() =~= self.blobs());
    }

    /// Where the copy does not fit beside the bytes held, making it resident
    /// is writing the least recently used key back and making it resident
    /// then.
    pub proof fn lemma_admitted_step(self, key: Key, data: Seq<u8>)
        requires
            self.wf(),
            data.len() <= usize::MAX,
            self.lru.size() + data.len() > self.lru.cap,
            self.lru.entries.len() > 0,
        ensures
            self.evicted().admitted(key, data) == self.admitted(key, data),
    {
        let entries = self.lru.entries;
        let first = entries[0].0;
        self.lemma_evicted();
        let next = self.evicted();
        lemma_total_drop_first(entries);
        let n = self.lru.evicted_by(data.len()) as int;
        let m = next.lru.evicted_by(data.len()) as int;
        assert(n == m + 1);
        lemma_evict_count_bound(next.lru.entries, next.lru.size() as int, data.len() as int, self.lru.cap as int);
        let victims = self.lru.victims(data.len());
        let rest = next.lru.victims(data.len());
        assert(entries.take(n).drop_first() =~= entries.drop_first().take(m));
        assert(victims =~= seq![first] + rest);
        lemma_split(entries.drop_first(), m);
        lemma_drop_first_distinct(entries);
        assert(!rest.contains(first)) by {
            if rest.contains(first) {
                assert(has_key(entries.drop_first().take(m), first));
                assert(has_key(entries.drop_first(), first));
            }
        }
        assert forall|k: Key| victims.contains(k) <==> (k == first || rest.contains(k)) by {
            if victims.contains(k) {
                let i = choose|i: int| 0 <= i < victims.len() && victims[i] == k;
                if i > 0 {
                    assert(rest[i - 1] == k);
                }
            }
            if rest.contains(k) {
                let i = choose|i: int| 0 <= i < rest.len() && rest[i] == k;
                assert(victims[i + 1] == k);
            }
            assert(victims[0] == first);
        }
        assert(entries.skip(n) =~= entries.drop_first().skip(m));
        let a = self.admitted(key, data);
        let b = next.admitted(key, data);
        assert(a.lru == b.lru);
        assert(a.resident =~= b.resident);
        assert(a.backend =~= b.backend);
    }

    /// Whatever a backend does to the blob of a resident key, the cache
    /// holds for its callers what it held.
    pub proof fn lemma_backend_of_resident(self, backend: Blobs, key: Key)
        requires
            self.resident.contains_key(key),
            crate::model::same_elsewhere(self.backend, backend, key),
        ensures
            (CacheModel { backend, ..self }).blobs() == self.blobs(),
    {
        let after = CacheModel { backend, ..self };
        assert forall|k: Key| after.blobs().contains_key(k) == self.blobs().contains_key(k) by {
            if k != key {
                assert(self.backend.contains_key(k) == backend.contains_key(k));
            }
        }
        assert forall|k: Key| after.blobs().contains_key(k) implies after.blobs()[k]
            == self.blobs()[k] by {
            if k != key {
                assert(self.backend[k] == backend[k]);
            }
        }
        assert(after.blobs() =~= self.blobs());
    }

    /// Giving a key up keeps the cache well formed.
    pub proof fn lemma_forgot(self, key: Key)
        requires
            self.wf(),
        ensures
            self.forgot(key).wf(),
            !self.forgot(key).is_resident(key),
    {
        lemma_without(self.lru.entries, key);
        let after = self.forgot(key);
        if has_key(self.lru.entries, key) {
            assert(after.lru.entries == without(self.lru.entries, key));
        } else {
            assert(after.lru.entries == self.lru.entries);
            assert(!self.resident.contains_key(key));
        }
        assert forall|k: Key| after.resident.contains_key(k) <==> has_key(after.lru.entries, k) by {
            if k != key {
                assert(has_key(after.lru.entries, k) == has_key(self.lru.entries, k));
            }
        }
        assert forall|k: Key| has_key(after.lru.entries, k) implies value_of(after.lru.entries, k)
            == after.resident[k].len() by {
            assert(k != key);
            assert(has_key(self.lru.entries, k));
        }
    }
}

impl CacheModel {
    /// `put` on the cache is `put` on what the cache holds for its callers.
    ///
    /// Where it succeeds, the cache afterwards holds what the blob store
    /// contract asks for, and every other key holds what it held: a key that
    /// had to leave was written back. Where it fails on a precondition, the
    /// cache holds what it held. Every precondition failure of the contract
    /// is one of the cache. The cache is stricter in one point: it refuses a
    /// replacement whose range does not span the whole blob.
    pub proof fn law_put(self, key: Key, value: Seq<u8>, opt: PutOpt)
        requires
            self.wf(),
            value.len() <= usize::MAX,
            self.backend.contains_key(key) ==> self.backend[key].len() <= usize::MAX,
            self.put_admits(key, value, opt) matches Some(len) ==> self.lru.has_room(len),
        ensures
            self.put_after(key, value, opt).wf(),
            self.put_after(key, value, opt).resident_bytes() <= self.lru.cap,
            match self.put_verdict(key, value, opt) {
                None => crate::model::put_result(self.blobs(), key, value, opt) == Ok::<
                    Blobs,
                    BlobError,
                >(self.put_after(key, value, opt).blobs()),
                Some(e) => {
                    &&& self.put_after(key, value, opt).blobs() == self.blobs()
                    &&& e != BlobError::RangeError ==> crate::model::put_result(
                        self.blobs(),
                        key,
                        value,
                        opt,
                    ) == Err::<Blobs, BlobError>(e)
                },
            },
            crate::model::put_result(self.blobs(), key, value, opt) matches Err(e)
                ==> self.put_verdict(key, value, opt) == Some(e),
    {
        self.lemma_touched(key);
        let after = self.put_after(key, value, opt);
        match opt {
            PutOpt::Create => {
                if self.put_verdict(key, value, opt) is None {
                    self.lemma_admitted(key, value);
                    assert(after.blobs() =~= self.blobs().insert(key, value));
                }
            },
            PutOpt::ReplaceOrCreate => {
                self.lemma_admitted(key, value);
                assert(after.blobs() =~= self.blobs().insert(key, value));
            },
            PutOpt::Replace(r) => {
                if self.is_resident(key) || self.backend.contains_key(key) {
                    if !self.is_resident(key) {
                        self.lemma_admitted(key, self.backend[key]);
                        assert(self.loaded(key).blobs() =~= self.blobs());
                    }
                    let loaded = self.loaded(key);
                    assert(loaded.resident[key] == self.blobs()[key]);
                    if self.put_verdict(key, value, opt) is None {
                        let data = loaded.resident[key];
                        assert(overwrite(data, r.start as int, value).len() == data.len());
                        assert forall|k: Key| has_key(after.lru.entries, k) implies value_of(
                            after.lru.entries,
                            k,
                        ) == after.resident[k].len() by {
                            if k != key {
                                assert(after.resident[k] == loaded.resident[k]);
                            }
                        }
                        assert forall|k: Key| after.resident.contains_key(k) <==> has_key(
                            after.lru.entries,
                            k,
                        ) by {
                            assert(loaded.resident.contains_key(k) <==> has_key(
                                loaded.lru.entries,
                                k,
                            ));
                        }
                        assert(after.blobs() =~= self.blobs().insert(
                            key,
                            overwrite(self.blobs()[key], r.start as int, value),
                        ));
                    }
                }
            },
        }
    }

    /// `get` on the cache returns what `get` returns on what the cache holds
    /// for its callers, and every precondition failure of the blob store
    /// contract is one of the cache.
    ///
    /// A read of a resident key, and a read of a whole blob, leave what the
    /// cache holds as it is. A read of a range of a key that is not resident
    /// makes that range the resident copy: afterwards the cache holds only
    /// the range for the key, and the read itself succeeds only where the
    /// range starts at offset 0.
    pub proof fn law_get(self, key: Key, opt: GetOpt, buf_len: nat)
        requires
            self.wf(),
            self.backend.contains_key(key) ==> self.backend[key].len() <= usize::MAX,
            self.get_admits(key, opt) matches Some(len) ==> self.lru.has_room(len),
        ensures
            self.get_after(key, opt).wf(),
            self.get_after(key, opt).resident_bytes() <= self.lru.cap,
            crate::model::get_result(self.blobs(), key, opt, buf_len) matches Err(e)
                ==> self.get_data(key, opt, buf_len) == Err::<Seq<u8>, BlobError>(e),
            self.get_data(key, opt, buf_len) matches Ok(data) ==> crate::model::get_result(
                self.blobs(),
                key,
                opt,
                buf_len,
            ) == Ok::<Seq<u8>, BlobError>(data),
            self.is_resident(key) || opt is All || !self.get_finds(key, opt) ==> self.get_after(
                key,
                opt,
            ).blobs() == self.blobs(),
            !self.is_resident(key) && self.get_finds(key, opt) ==> (opt matches GetOpt::Range(r)
                ==> self.get_after(key, opt).blobs() == self.blobs().insert(
                key,
                range_part(self.blobs()[key], r),
            )),
    {
        self.lemma_touched(key);
        if self.get_finds(key, opt) && !self.is_resident(key) {
            let data = get_owned_result(self.backend, key, opt)->Ok_0;
            self.lemma_admitted(key, data);
            assert(self.blobs()[key] == self.backend[key]);
            match opt {
                GetOpt::All => {
                    assert(self.get_after(key, opt).blobs() =~= self.blobs());
                },
                GetOpt::Range(r) => {
                    if self.get_data(key, opt, buf_len) is Ok {
                        assert(range_part(data, r) =~= data);
                    }
                },
            }
        }
    }

    /// `delete` on the cache is `delete` on what the cache holds for its
    /// callers, as far as the backend holds every key that is resident: the
    /// key is gone from the cache and from the backend, and every other key
    /// holds what it held.
    pub proof fn law_delete(self, key: Key)
        requires
            self.wf(),
        ensures
            self.forgot(key).wf(),
            self.backend.contains_key(key) ==> crate::model::delete_result(self.blobs(), key)
                == Ok::<Blobs, BlobError>(
                (CacheModel { backend: self.backend.remove(key), ..self.forgot(key) }).blobs(),
            ),
            !self.blobs().contains_key(key) ==> !self.backend.contains_key(key) && self.forgot(key)
                == self,
    {
        self.lemma_forgot(key);
        let after = CacheModel { backend: self.backend.remove(key), ..self.forgot(key) };
        if self.backend.contains_key(key) {
            assert(after.blobs() =~= self.blobs().remove(key));
        }
        if !self.blobs().contains_key(key) {
            assert(!self.resident.contains_key(key));
            assert(self.forgot(key).resident =~= self.resident);
            lemma_without(self.lru.entries, key);
        }
    }

    /// Writing every resident copy back leaves on the backend exactly what
    /// the cache held for its callers.
    pub proof fn law_write_back(self)
        requires
            self.wf(),
        ensures
            flush_backend(self.backend, self.resident, keys_of(self.lru.entries)) == self.blobs(),
    {
        lemma_split(self.lru.entries, self.lru.entries.len() as int);
        assert(self.lru.entries.take(self.lru.entries.len() as int) =~= self.lru.entries);
        assert(flush_backend(self.backend, self.resident, keys_of(self.lru.entries))
            =~= self.blobs());
    }
}

/// A write-back cache of whole blobs in memory over the backend `S`, bounded
/// by a budget of bytes.
///
/// The cache takes the requests of a store under their names. It is no
/// `BlobStore` itself: every request, a read too, changes the order in which
/// the resident keys leave, and a read of a range of a key that is not
/// resident changes what the cache holds for that key.
///
/// The backend is asked only where a request cannot be answered from the
/// resident copies: a request on a resident key, but `ReplaceOrCreate`,
/// never fails for the backend's sake. A key leaves the cache only after its
/// copy was written back: where the backend fails, the key stays resident,
/// the cache stays usable, and it holds for its callers what it held, but
/// for a copy that was made resident before the backend refused the blob.
pub struct MemoryCache<S> where S: BlobStore {
    store: S,
    lru: SizedCache,
    map: dashmap::DashMap<Key, Vec<u8>>,
}

impl<S> View for MemoryCache<S> where S: BlobStore {
    type V = CacheModel;

    closed spec fn view(&self) -> CacheModel {
        CacheModel { backend: self.store.blobs(), lru: self.lru@, resident: resident_of(self.map) }
    }
}

impl<S> MemoryCache<S> where S: BlobStore {
    /// The invariant of the cache.
    pub closed spec fn wf(&self) -> bool {
        &&& self.lru.wf()
        &&& self@.wf()
    }

    pub proof fn lemma_wf(&self)
        requires
            self.wf(),
        ensures
            self@.wf(),
            self@.resident_bytes() <= self@.lru.cap,
    {
    }

    /// create cache with capacity in bytes
    pub fn with_capacity(store: S, capacity: usize) -> (cache: Self)
        requires
            capacity >= 1,
        ensures
            cache.wf(),
            cache@ == (CacheModel {
                backend: store.blobs(),
                lru: SizedModel { entries: Seq::empty(), cap: capacity as nat },
                resident: Map::empty(),
            }),
    {
        let lru = SizedCache::with_capacity(capacity);
        let map = dash_new();
        let cache = Self { store, lru, map };
        proof {
            assert(cache@.resident =~= Map::empty());
        }
        cache
    }

    /// The byte budget.
    pub fn capacity(&self) -> (cap: usize)
        ensures
            cap == self@.lru.cap,
    {
        self.lru.capacity()
    }

    /// The backend, for reading.
    pub fn backend(&self) -> (store: &S)
        ensures
            store.blobs() == self@.backend,
    {
        &self.store
    }

    /// Sum of the lengths of the resident copies.
    pub fn resident_bytes(&self) -> (size: usize)
        requires
            self.wf(),
        ensures
            size == self@.resident_bytes(),
            size <= self@.lru.cap,
    {
        self.lru.size()
    }

    /// Whether the key is resident. The order of the keys is left alone.
    pub fn is_resident(&self, key: Key) -> (found: bool)
        ensures
            found == self@.is_resident(key),
    {
        self.lru.holds(&key)
    }

    /// Writes the resident copy of the least recently used key to the
    /// backend and gives the copy up. Where the backend fails, the key stays
    /// resident with its copy.
    fn evict_one(&mut self) -> (res: Result<(), BlobStoreError>)
        requires
            old(self).wf(),
            old(self)@.lru.entries.len() > 0,
        ensures
            final(self).wf(),
            final(self)@.blobs() == old(self)@.blobs(),
            match res {
                Ok(()) => final(self)@ == old(self)@.evicted(),
                Err(e) => {
                    &&& e.blob_error() is None
                    &&& final(self)@.lru == old(self)@.lru
                    &&& final(self)@.resident == old(self)@.resident
                    &&& crate::model::same_elsewhere(
                        old(self)@.backend,
                        final(self)@.backend,
                        old(self)@.lru.entries[0].0,
                    )
                },
            },
    {
        proof {
            old(self)@.lemma_evicted();
            lemma_index_of(old(self)@.lru.entries, 0);
        }
        let key = self.lru.peek().unwrap().0;
        let data = dash_get(&self.map, &key).unwrap();
        match self.store.put(key, data.as_slice(), PutOpt::ReplaceOrCreate) {
            Ok(()) => {
                self.lru.pop();
                dash_remove(&mut self.map, &key);
                Ok(())
            },
            Err(e) => {
                proof {
                    old(self)@.lemma_backend_of_resident(self@.backend, key);
                }
                Err(e)
            },
        }
    }

    /// Makes `data` the resident copy of `key`: as long as the bytes held
    /// and the copy together exceed the budget, the least recently used key
    /// is written back and leaves; then the copy is kept. Where the backend
    /// fails, the keys that were written back so far have left, and the
    /// cache holds for its callers what it held.
    fn make_resident(&mut self, key: Key, data: Vec<u8>) -> (res: Result<(), BlobStoreError>)
        requires
            old(self).wf(),
            old(self)@.lru.has_room(data@.len()),
        ensures
            final(self).wf(),
            match res {
                Ok(()) => final(self)@ == old(self)@.admitted(key, data@),
                Err(e) => e.blob_error() is None && final(self)@.blobs() == old(self)@.blobs(),
            },
    {
        while !self.lru.fits(data.len())
            invariant
                self.wf(),
                self@.lru.has_room(data@.len()),
                self@.blobs() == old(self)@.blobs(),
                self@.admitted(key, data@) == old(self)@.admitted(key, data@),
            decreases self@.lru.entries.len(),
        {
            proof {
                if self@.lru.entries.len() == 0 {
                    assert(total(self@.lru.entries) == 0);
                }
                self@.lemma_admitted_step(key, data@);
                self@.lemma_evicted();
            }
            match self.evict_one() {
                Ok(()) => {},
                Err(e) => {
                    return Err(e);
                },
            }
        }
        let ghost before = self@;
        proof {
            before.lru.lemma_pushed(key, data@.len() as usize);
            before.lemma_admitted(key, data@);
        }
        self.lru.push(key, data.len());
        let ghost data_view = data@;
        dash_insert(&mut self.map, key, data);
        proof {
            let after = before.admitted(key, data_view);
            assert(before.lru.victims(data_view.len()) =~= Seq::<Key>::empty());
            assert(before.lru.victims(data_view.len()).to_set() =~= Set::<Key>::empty());
            assert(self@.resident =~= after.resident);
            assert(self@.backend =~= after.backend);
        }
        Ok(())
    }

    /// Whether the cache holds the key: it is resident, or the backend holds
    /// it. Looking the key up makes it the most recently used one. The
    /// backend is asked only where the key is not resident.
    pub fn contains(&mut self, key: Key) -> (res: Result<bool, BlobStoreError>)
        requires
            old(self).wf(),
        ensures
            final(self).wf(),
            final(self)@ == old(self)@.touched(key),
            old(self)@.is_resident(key) ==> res is Ok,
            match res {
                Ok(b) => b == old(self)@.blobs().contains_key(key),
                Err(e) => e.blob_error() is None,
            },
    {
        proof {
            old(self)@.lemma_touched(key);
        }
        if self.lru.contains(&key) {
            Ok(true)
        } else {
            self.store.contains(key)
        }
    }

    /// The size of the blob: the length of the resident copy, or what the
    /// backend says where the key is not resident; it is asked only then.
    ///
    /// # Error
    /// - Blob(BlobError::NotFound): the blob doesn't exist.
    pub fn meta(&mut self, key: Key) -> (res: Result<BlobMeta, BlobStoreError>)
        requires
            old(self).wf(),
        ensures
            final(self).wf(),
            final(self)@ == old(self)@.touched(key),
            old(self)@.is_resident(key) ==> res is Ok,
            match res {
                Ok(m) => crate::model::meta_result(old(self)@.blobs(), key) == Ok::<nat, BlobError>(
                    m.size as nat,
                ),
                Err(BlobStoreError::Blob(e)) => crate::model::meta_result(old(self)@.blobs(), key)
                    == Err::<nat, BlobError>(e),
                Err(_) => true,
            },
    {
        proof {
            old(self)@.lemma_touched(key);
        }
        if let Some(size) = self.lru.size_of(&key) {
            Ok(BlobMeta { size })
        } else {
            self.store.meta(key)
        }
    }

    /// Second step of `put` with `Replace`, on a key that is resident: the
    /// value takes the place of the whole resident copy. No backend is
    /// asked, and the order of the resident keys is left alone.
    ///
    /// # Error
    /// - Blob(BlobError::RangeError): the range does not span the whole resident copy, or the
    ///   value is not as long as the range.
    pub fn replace_resident(&mut self, key: Key, value: &[u8], range: &crate::BlobRange) -> (res:
        Result<(), BlobStoreError>)
        requires
            old(self).wf(),
            old(self)@.is_resident(key),
        ensures
            final(self).wf(),
            final(self)@.backend == old(self)@.backend,
            final(self)@.lru == old(self)@.lru,
            res == if CacheModel::replace_fits(
                *range,
                old(self)@.resident[key].len(),
                value@.len(),
            ) {
                Ok::<(), BlobStoreError>(())
            } else {
                Err::<(), BlobStoreError>(BlobStoreError::Blob(BlobError::RangeError))
            },
            final(self)@.resident == if res is Ok {
                old(self)@.resident.insert(
                    key,
                    overwrite(old(self)@.resident[key], range.start as int, value@),
                )
            } else {
                old(self)@.resident
            },
    {
        let mut data = dash_get(&self.map, &key).unwrap();
        let len = range_size(range);
        if data.len() != len || !range_contains(&(0..data.len()), range) || len != value.len() {
            return Err(BlobStoreError::Blob(BlobError::RangeError));
        }
        if value.len() > 0 {
            write_at(&mut data, range.start, value);
        }
        proof {
            assert(data@ =~= overwrite(old(self)@.resident[key], range.start as int, value@));
        }
        dash_insert(&mut self.map, key, data);
        proof {
            let before = old(self)@;
            assert forall|k: Key| has_key(self@.lru.entries, k) implies value_of(
                self@.lru.entries,
                k,
            ) == self@.resident[k].len() by {
                if k != key {
                    assert(self@.resident[k] == before.resident[k]);
                }
            }
            assert forall|k: Key| self@.resident.contains_key(k) <==> has_key(
                self@.lru.entries,
                k,
            ) by {
                assert(before.resident.contains_key(k) <==> has_key(before.lru.entries, k));
            }
        }
        Ok(())
    }

    /// Puts the value through the cache. The backend is asked only for
    /// `ReplaceOrCreate` and where the key is not resident. Where it fails,
    /// the cache stays usable, and every other key holds what it held.
    ///
    /// # Error
    /// - Blob(BlobError::AlreadyExists): the key is resident or the backend holds it, and PutOpt::Create is used.
    /// - Blob(BlobError::NotFound): the key is not resident and the backend does not hold it, and PutOpt::Replace is used.
    /// - Blob(BlobError::RangeError): the range of PutOpt::Replace does not span the whole blob, or the value is not as long as the range.
    pub fn put(&mut self, key: Key, value: &[u8], opt: PutOpt) -> (res: Result<(), BlobStoreError>)
        requires
            old(self).wf(),
            old(self)@.put_admits(key, value@, opt) matches Some(len) ==> old(self)@.lru.has_room(len),
        ensures
            final(self).wf(),
            old(self)@.is_resident(key) && !(opt is ReplaceOrCreate) ==> (res is Ok
                || res matches Err(BlobStoreError::Blob(_))),
            match res {
                Ok(()) => {
                    &&& old(self)@.put_verdict(key, value@, opt) is None
                    &&& final(self)@ == old(self)@.put_after(key, value@, opt)
                },
                Err(BlobStoreError::Blob(e)) => {
                    &&& old(self)@.put_verdict(key, value@, opt) == Some(e)
                    &&& final(self)@ == old(self)@.put_after(key, value@, opt)
                },
                Err(_) => {
                    &&& old(self)@.put_verdict(key, value@, opt) is None || !old(self)@.is_resident(
                        key,
                    )
                    &&& final(self)@.blobs() == old(self)@.blobs() || (!(opt is Replace)
                        && final(self)@.blobs() == old(self)@.blobs().insert(key, value@))
                },
            },
    {
        proof {
            old(self)@.lemma_touched(key);
        }
        match opt {
            // replace should guarantee the key exists
            PutOpt::Replace(range) => {
                if !self.lru.contains(&key) {
                    // fetch from store
                    let data = match self.store.get_owned(key, GetOpt::All) {
                        Ok(data) => data,
                        Err(e) => {
                            return Err(e);
                        },
                    };
                    proof {
                        old(self)@.lemma_admitted(key, data@);
                    }
                    match self.make_resident(key, data) {
                        Ok(()) => {},
                        Err(e) => {
                            return Err(e);
                        },
                    }
                }
                assert(self@ == old(self)@.loaded(key));
                self.replace_resident(key, value, &range)
            },
            PutOpt::Create => {
                if self.lru.contains(&key) {
                    return Err(BlobStoreError::Blob(BlobError::AlreadyExists));
                }
                match self.store.contains(key) {
                    Ok(true) => {
                        return Err(BlobStoreError::Blob(BlobError::AlreadyExists));
                    },
                    Ok(false) => {},
                    Err(e) => {
                        return Err(e);
                    },
                }
                // create new
                proof {
                    old(self)@.lemma_admitted(key, value@);
                }
                match self.make_resident(key, vstd::slice::slice_to_vec(value)) {
                    Ok(()) => {},
                    Err(e) => {
                        return Err(e);
                    },
                }
                let ghost before = self@;
                let res = self.store.put(key, value, opt);
                proof {
                    if res is Ok {
                        assert(self@.backend =~= old(self)@.stored(key, value@).backend);
                    } else {
                        before.lemma_backend_of_resident(self@.backend, key);
                    }
                }
                res
            },
            PutOpt::ReplaceOrCreate => {
                proof {
                    old(self)@.lemma_admitted(key, value@);
                }
                match self.make_resident(key, vstd::slice::slice_to_vec(value)) {
                    Ok(()) => {},
                    Err(e) => {
                        return Err(e);
                    },
                }
                let ghost before = self@;
                let res = self.store.put(key, value, opt);
                proof {
                    if res is Ok {
                        assert(self@.backend =~= old(self)@.stored(key, value@).backend);
                    } else {
                        before.lemma_backend_of_resident(self@.backend, key);
                    }
                }
                res
            },
        }
    }

    /// Second step of `get`, on a key that is resident: the buffer is filled
    /// from the resident copy. No backend is asked, and the cache is left as
    /// it is.
    ///
    /// # Error
    /// - Blob(BlobError::RangeError): the range leaves the resident copy, or the buffer is not
    ///   as long as what is read.
    pub fn read_resident(&self, key: Key, buf: &mut [u8], opt: &GetOpt) -> (res: Result<
        (),
        BlobStoreError,
    >)
        requires
            self.wf(),
            self@.is_resident(key),
        ensures
            final(buf)@.len() == old(buf)@.len(),
            match crate::model::read_offset(*opt, self@.resident[key].len(), old(buf)@.len()) {
                Ok(offset) => {
                    &&& res is Ok
                    &&& final(buf)@ == read_part(
                        self@.resident[key],
                        offset as int,
                        old(buf)@.len(),
                    )
                },
                Err(e) => res == Err::<(), BlobStoreError>(BlobStoreError::Blob(e)) && final(buf)@
                    == old(buf)@,
            },
    {
        let data = dash_get(&self.map, &key).unwrap();
        match opt {
            GetOpt::All => {
                if data.len() != buf.len() {
                    return Err(BlobStoreError::Blob(BlobError::RangeError));
                }
                read_at(data.as_slice(), 0, buf);
                proof {
                    assert(buf@ =~= read_part(data@, 0, buf@.len()));
                }
                Ok(())
            },
            GetOpt::Range(range) => {
                if !range_contains(&(0..data.len()), range) {
                    return Err(BlobStoreError::Blob(BlobError::RangeError));
                }
                if range_size(range) != buf.len() {
                    return Err(BlobStoreError::Blob(BlobError::RangeError));
                }
                if buf.len() > 0 {
                    read_at(data.as_slice(), range.start, buf);
                }
                proof {
                    assert(buf@ =~= read_part(data@, range.start as int, buf@.len()));
                }
                Ok(())
            },
        }
    }

    /// Reads through the cache. The backend is asked only where the key is
    /// not resident. Where it fails, the cache stays usable and holds for
    /// its callers what it held.
    ///
    /// # Error
    /// - Blob(BlobError::NotFound): the key is not resident and the backend does not hold it.
    /// - Blob(BlobError::RangeError): the range is out of bounds
    /// - Blob(BlobError::RangeError): the length of the buf doesn't match the GetOpt::Range
    pub fn get(&mut self, key: Key, buf: &mut [u8], opt: GetOpt) -> (res: Result<(), BlobStoreError>)
        requires
            old(self).wf(),
            old(self)@.get_admits(key, opt) matches Some(len) ==> old(self)@.lru.has_room(len),
        ensures
            final(self).wf(),
            final(buf)@.len() == old(buf)@.len(),
            old(self)@.is_resident(key) ==> (res is Ok || res matches Err(BlobStoreError::Blob(_))),
            match res {
                Ok(()) => {
                    &&& final(self)@ == old(self)@.get_after(key, opt)
                    &&& old(self)@.get_data(key, opt, old(buf)@.len()) == Ok::<Seq<u8>, BlobError>(
                        final(buf)@,
                    )
                },
                Err(BlobStoreError::Blob(e)) => {
                    &&& final(self)@ == old(self)@.get_after(key, opt)
                    &&& old(self)@.get_data(key, opt, old(buf)@.len()) == Err::<Seq<u8>, BlobError>(
                        e,
                    )
                    &&& final(buf)@ == old(buf)@
                },
                Err(_) => {
                    &&& !old(self)@.is_resident(key)
                    &&& final(self)@.blobs() == old(self)@.blobs()
                    &&& final(buf)@ == old(buf)@
                },
            },
    {
        proof {
            old(self)@.lemma_touched(key);
        }
        if !self.lru.contains(&key) {
            // cache miss, load from store
            let data = match self.store.get_owned(key, opt.clone()) {
                Ok(data) => data,
                Err(e) => {
                    return Err(e);
                },
            };
            proof {
                old(self)@.lemma_admitted(key, data@);
            }
            match self.make_resident(key, data) {
                Ok(()) => {},
                Err(e) => {
                    return Err(e);
                },
            }
        }
        proof {
            let data = self@.resident[key];
            if opt is All {
                assert(read_part(data, 0, data.len()) =~= data);
            } else {
                let r = opt->Range_0;
                if r.end <= data.len() && range_len(r) == buf@.len() {
                    assert(read_part(data, r.start as int, buf@.len()) =~= range_part(data, r));
                }
            }
        }
        self.read_resident(key, buf, &opt)
    }

    /// Reads into a buffer of its own, sized by `meta` for `All` and by the
    /// range for `Range`. The backend is asked only where the key is not
    /// resident. Where it fails, the cache stays usable and holds for its
    /// callers what it held.
    pub fn get_owned(&mut self, key: Key, opt: GetOpt) -> (res: Result<Vec<u8>, BlobStoreError>)
        requires
            old(self).wf(),
            old(self)@.get_admits(key, opt) matches Some(len) ==> old(self)@.lru.has_room(len),
        ensures
            final(self).wf(),
            old(self)@.is_resident(key) ==> (res is Ok || res matches Err(BlobStoreError::Blob(_))),
            match res {
                Ok(data) => {
                    &&& final(self)@ == old(self)@.sized(key, opt).get_after(key, opt)
                    &&& old(self)@.sized(key, opt).get_data(
                        key,
                        opt,
                        old(self)@.owned_len(key, opt),
                    ) == Ok::<Seq<u8>, BlobError>(data@)
                },
                Err(BlobStoreError::Blob(e)) => {
                    &&& final(self)@ == old(self)@.sized(key, opt).get_after(key, opt)
                    &&& old(self)@.sized(key, opt).get_data(
                        key,
                        opt,
                        old(self)@.owned_len(key, opt),
                    ) == Err::<Seq<u8>, BlobError>(e)
                },
                Err(_) => !old(self)@.is_resident(key) && final(self)@.blobs() == old(self)@.blobs(),
            },
    {
        proof {
            old(self)@.lemma_touched(key);
        }
        let len = match &opt {
            GetOpt::All => match self.meta(key) {
                Ok(meta) => meta.size,
                Err(e) => {
                    return Err(e);
                },
            },
            GetOpt::Range(range) => range_size(range),
        };
        let mut buf = vec![0_u8; len];
        match self.get(key, buf.as_mut_slice(), opt) {
            Ok(()) => Ok(buf),
            Err(e) => Err(e),
        }
    }

    /// Takes the key out of the cache, without writing its resident copy
    /// back, and deletes it on the backend.
    ///
    /// # Error
    /// - Blob(BlobError::NotFound): the backend does not hold the key.
    pub fn delete(&mut self, key: Key, opt: DeleteOpt) -> (res: Result<
        Option<Vec<u8>>,
        BlobStoreError,
    >)
        requires
            old(self).wf(),
            opt is Discard,
        ensures
            final(self).wf(),
            final(self)@.lru == old(self)@.forgot(key).lru,
            final(self)@.resident == old(self)@.forgot(key).resident,
            match res {
                Ok(deleted) => {
                    &&& deleted is None
                    &&& old(self)@.backend.contains_key(key)
                    &&& final(self)@.backend == old(self)@.backend.remove(key)
                },
                Err(BlobStoreError::Blob(e)) => {
                    &&& e == BlobError::NotFound
                    &&& !old(self)@.backend.contains_key(key)
                    &&& final(self)@.backend == old(self)@.backend
                },
                Err(_) => crate::model::same_elsewhere(
                    old(self)@.backend,
                    final(self)@.backend,
                    key,
                ),
            },
    {
        proof {
            old(self)@.lemma_forgot(key);
        }
        self.lru.remove(&key);
        dash_remove(&mut self.map, &key);
        self.store.delete(key, opt)
    }

    /// Writes every resident copy back to the backend, the least recently
    /// used first, and leaves the cache empty. Where the backend fails, the
    /// copies that were not written stay resident, and the cache holds for
    /// its callers what it held.
    pub fn write_back(&mut self) -> (res: Result<(), BlobStoreError>)
        requires
            old(self).wf(),
        ensures
            final(self).wf(),
            final(self)@.blobs() == old(self)@.blobs(),
            old(self)@.lru.entries.len() == 0 ==> res is Ok,
            match res {
                Ok(()) => {
                    &&& final(self)@.lru.entries.len() == 0
                    &&& final(self)@.resident == Map::<Key, Seq<u8>>::empty()
                    &&& final(self)@.backend == old(self)@.blobs()
                },
                Err(e) => e.blob_error() is None,
            },
    {
        while self.lru.len() > 0
            invariant
                self.wf(),
                self@.blobs() == old(self)@.blobs(),
                self@.lru.entries.len() > 0 ==> old(self)@.lru.entries.len() > 0,
            decreases self@.lru.entries.len(),
        {
            proof {
                self@.lemma_evicted();
            }
            match self.evict_one() {
                Ok(()) => {},
                Err(e) => {
                    return Err(e);
                },
            }
        }
        proof {
            assert forall|k: Key| !self@.resident.contains_key(k) by {
                if self@.resident.contains_key(k) {
                    assert(has_key(self@.lru.entries, k));
                }
            }
            assert(self@.resident =~= Map::<Key, Seq<u8>>::empty());
            assert(self@.backend =~= self@.blobs());
        }
        Ok(())
    }

    pub fn bypass_put(&mut self, key: Key, value: &[u8], opt: PutOpt) -> (res: Result<
        (),
        BlobStoreError,
    >)
        requires
        ensures
            final(self)@.lru == old(self)@.lru,
            final(self)@.resident == old(self)@.resident,
            match res {
                Ok(()) => crate::model::put_result(old(self)@.backend, key, value@, opt) == Ok::<
                    Blobs,
                    BlobError,
                >(final(self)@.backend),
                Err(BlobStoreError::Blob(e)) => {
                    &&& crate::model::put_result(old(self)@.backend, key, value@, opt) == Err::<
                        Blobs,
                        BlobError,
                    >(e)
                    &&& final(self)@.backend == old(self)@.backend
                },
                Err(_) => crate::model::same_elsewhere(
                    old(self)@.backend,
                    final(self)@.backend,
                    key,
                ),
            },
            old(self).wf() ==> final(self).wf(),
    {
        self.store.put(key, value, opt)
    }

    pub fn bypass_get(&self, key: Key, buf: &mut [u8], opt: GetOpt) -> (res: Result<
        (),
        BlobStoreError,
    >)
        requires
        ensures
            final(buf)@.len() == old(buf)@.len(),
            match res {
                Ok(()) => crate::model::get_result(self@.backend, key, opt, old(buf)@.len()) == Ok::<
                    Seq<u8>,
                    BlobError,
                >(final(buf)@),
                Err(BlobStoreError::Blob(e)) => {
                    &&& crate::model::get_result(self@.backend, key, opt, old(buf)@.len()) == Err::<
                        Seq<u8>,
                        BlobError,
                    >(e)
                    &&& final(buf)@ == old(buf)@
                },
                Err(_) => true,
            },
    {
        self.store.get(key, buf, opt)
    }
}

} // verus!
