//! The recency order that the stores keep their resident keys in, held in an
//! `lru::LruCache`.
//!
//! The cache is read as the sequence of its entries from the least recently
//! used one to the most recently used one. What each method of the cache
//! does to that sequence is stated here once, for every store that keeps one.

use vstd::prelude::*;
use crate::Key;

verus! {

/// `lru::LruCache`, whose contents are read through `lru_entries`.
#[verifier::external_type_specification]
#[verifier::external_body]
#[verifier::reject_recursive_types(K)]
#[verifier::reject_recursive_types(V)]
#[verifier::reject_recursive_types(S)]
pub struct ExLruCache<K, V, S>(lru::LruCache<K, V, S>);

/// `lru::DefaultHasher`, the hasher that an `lru::LruCache` is made with where
/// none is named.
#[verifier::external_type_specification]
#[verifier::external_body]
pub struct ExLruHasher(lru::DefaultHasher);

/// The entries of the cache, the least recently used one first.
pub uninterp spec fn lru_entries(cache: lru::LruCache<Key, usize>) -> Seq<(Key, usize)>;

/// The number of entries that the cache was made to hold; `usize::MAX` for
/// one that never evicts by itself.
pub uninterp spec fn lru_limit(cache: lru::LruCache<Key, usize>) -> nat;

/// Whether some entry has the key.
pub open spec fn has_key(entries: Seq<(Key, usize)>, key: Key) -> bool {
    exists|i: int| 0 <= i < entries.len() && (#[trigger] entries[i]).0 == key
}

/// Position of the entry with the key, where there is one.
pub open spec fn index_of(entries: Seq<(Key, usize)>, key: Key) -> int {
    choose|i: int| 0 <= i < entries.len() && (#[trigger] entries[i]).0 == key
}

/// The value that is entered for the key, where there is one.
pub open spec fn value_of(entries: Seq<(Key, usize)>, key: Key) -> usize {
    entries[index_of(entries, key)].1
}

/// The entries without the one of the key.
pub open spec fn without(entries: Seq<(Key, usize)>, key: Key) -> Seq<(Key, usize)> {
    if has_key(entries, key) {
        entries.remove(index_of(entries, key))
    } else {
        entries
    }
}

/// The entries after the key was used: its entry, if any, is the most recent.
pub open spec fn touched(entries: Seq<(Key, usize)>, key: Key) -> Seq<(Key, usize)> {
    if has_key(entries, key) {
        without(entries, key).push((key, value_of(entries, key)))
    } else {
        entries
    }
}

/// No key is entered twice.
pub open spec fn distinct_keys(entries: Seq<(Key, usize)>) -> bool {
    forall|i: int, j: int|
        0 <= i < j < entries.len() ==> (#[trigger] entries[i]).0 != (#[trigger] entries[j]).0
}

/// Sum of the values of the entries.
pub open spec fn total(entries: Seq<(Key, usize)>) -> nat
    decreases entries.len(),
{
    if entries.len() == 0 {
        0
    } else {
        total(entries.drop_last()) + entries.last().1 as nat
    }
}

/// The keys of the entries, in their order.
pub open spec fn keys_of(entries: Seq<(Key, usize)>) -> Seq<Key> {
    Seq::new(entries.len(), |i: int| entries[i].0)
}

/// Calls `LruCache::unbounded`, which makes an empty cache that never evicts
/// by itself.
#[verifier::external_body]
pub(crate) fn lru_unbounded() -> (cache: lru::LruCache<Key, usize>)
    ensures
        lru_entries(cache) == Seq::<(Key, usize)>::empty(),
        lru_limit(cache) == usize::MAX,
{
    lru::LruCache::unbounded()
}

/// Calls `LruCache::new`, which makes an empty cache that holds at most
/// `limit` entries.
#[verifier::external_body]
pub(crate) fn lru_bounded(limit: usize) -> (cache: lru::LruCache<Key, usize>)
    requires
        limit != 0,
    ensures
        lru_entries(cache) == Seq::<(Key, usize)>::empty(),
        lru_limit(cache) == limit,
{
    lru::LruCache::new(std::num::NonZeroUsize::new(limit).unwrap())
}

/// Calls `LruCache::contains`, which says whether the key is entered and
/// leaves the order alone.
#[verifier::external_body]
pub(crate) fn lru_contains(cache: &lru::LruCache<Key, usize>, key: &Key) -> (found: bool)
    ensures
        found == has_key(lru_entries(*cache), *key),
{
    cache.contains(key)
}

/// Calls `LruCache::get`, which returns the value entered for the key and
/// makes that entry the most recently used one; for a key that is not
/// entered it returns `None` and changes nothing.
#[verifier::external_body]
pub(crate) fn lru_get(cache: &mut lru::LruCache<Key, usize>, key: &Key) -> (value: Option<usize>)
    ensures
        value == if has_key(lru_entries(*old(cache)), *key) {
            Some(value_of(lru_entries(*old(cache)), *key))
        } else {
            None
        },
        lru_entries(*final(cache)) == touched(lru_entries(*old(cache)), *key),
        lru_limit(*final(cache)) == lru_limit(*old(cache)),
{
    cache.get(key).copied()
}

/// Calls `LruCache::push`, which enters the pair as the most recently used
/// one. Where the key was entered already, its old entry is replaced and
/// returned. Otherwise, where the cache is bounded and full, the least
/// recently used entry leaves and is returned. Otherwise `None` is returned.
#[verifier::external_body]
pub(crate) fn lru_push(cache: &mut lru::LruCache<Key, usize>, key: Key, value: usize) -> (out:
    Option<(Key, usize)>)
    ensures
        lru_limit(*final(cache)) == lru_limit(*old(cache)),
        ({
            let before = lru_entries(*old(cache));
            let limit = lru_limit(*old(cache));
            if has_key(before, key) {
                &&& out == Some((key, value_of(before, key)))
                &&& lru_entries(*final(cache)) == without(before, key).push((key, value))
            } else if before.len() == limit && limit != usize::MAX {
                &&& out == Some(before[0])
                &&& lru_entries(*final(cache)) == before.drop_first().push((key, value))
            } else {
                &&& out is None
                &&& lru_entries(*final(cache)) == before.push((key, value))
            }
        }),
{
    cache.push(key, value)
}

/// Calls `LruCache::peek_lru`, which shows the least recently used entry and
/// leaves the order alone, or returns `None` where the cache is empty. A copy
/// of the entry is handed on.
#[verifier::external_body]
pub(crate) fn lru_peek_lru(cache: &lru::LruCache<Key, usize>) -> (out: Option<(Key, usize)>)
    ensures
        out == if lru_entries(*cache).len() == 0 {
            None
        } else {
            Some(lru_entries(*cache)[0])
        },
{
    cache.peek_lru().map(|entry| (*entry.0, *entry.1))
}

/// Calls `LruCache::len`, which returns the number of entries.
#[verifier::external_body]
pub(crate) fn lru_len(cache: &lru::LruCache<Key, usize>) -> (len: usize)
    ensures
        len == lru_entries(*cache).len(),
{
    cache.len()
}

/// Calls `LruCache::pop`, which removes the entry of the key and returns its
/// value, or returns `None` where the key is not entered.
#[verifier::external_body]
pub(crate) fn lru_pop(cache: &mut lru::LruCache<Key, usize>, key: &Key) -> (value: Option<usize>)
    ensures
        value == if has_key(lru_entries(*old(cache)), *key) {
            Some(value_of(lru_entries(*old(cache)), *key))
        } else {
            None
        },
        lru_entries(*final(cache)) == without(lru_entries(*old(cache)), *key),
        lru_limit(*final(cache)) == lru_limit(*old(cache)),
{
    cache.pop(key)
}

/// Calls `LruCache::pop_lru`, which removes and returns the least recently
/// used entry, or returns `None` where the cache is empty.
#[verifier::external_body]
pub(crate) fn lru_pop_lru(cache: &mut lru::LruCache<Key, usize>) -> (out: Option<(Key, usize)>)
    ensures
        out == if lru_entries(*old(cache)).len() == 0 {
            None
        } else {
            Some(lru_entries(*old(cache))[0])
        },
        lru_entries(*final(cache)) == if lru_entries(*old(cache)).len() == 0 {
            lru_entries(*old(cache))
        } else {
            lru_entries(*old(cache)).drop_first()
        },
        lru_limit(*final(cache)) == lru_limit(*old(cache)),
{
    cache.pop_lru()
}

/// With distinct keys, the entry at a position is the one found for its key.
pub proof fn lemma_index_of(entries: Seq<(Key, usize)>, i: int)
    requires
        distinct_keys(entries),
        0 <= i < entries.len(),
    ensures
        has_key(entries, entries[i].0),
        index_of(entries, entries[i].0) == i,
        value_of(entries, entries[i].0) == entries[i].1,
{
    let j = index_of(entries, entries[i].0);
    assert(0 <= j < entries.len() && entries[j].0 == entries[i].0);
    if j < i {
        assert(entries[j].0 != entries[i].0);
    } else if i < j {
        assert(entries[i].0 != entries[j].0);
    }
}

/// Taking one entry away keeps the keys distinct, removes exactly that key
/// and lowers the total by its value.
pub proof fn lemma_without(entries: Seq<(Key, usize)>, key: Key)
    requires
        distinct_keys(entries),
    ensures
        distinct_keys(without(entries, key)),
        !has_key(without(entries, key), key),
        forall|k: Key| k != key ==> has_key(without(entries, key), k) == has_key(entries, k),
        forall|k: Key|
            k != key && has_key(entries, k) ==> value_of(without(entries, key), k) == value_of(
                entries,
                k,
            ),
        has_key(entries, key) ==> total(without(entries, key)) + value_of(entries, key) == total(
            entries,
        ),
        !has_key(entries, key) ==> without(entries, key) == entries,
{
    if has_key(entries, key) {
        let i = index_of(entries, key);
        let rest = entries.remove(i);
        assert forall|a: int, b: int| 0 <= a < b < rest.len() implies (#[trigger] rest[a]).0 != (
        #[trigger] rest[b]).0 by {
            let a0 = if a < i { a } else { a + 1 };
            let b0 = if b < i { b } else { b + 1 };
            assert(rest[a] == entries[a0] && rest[b] == entries[b0]);
        }
        if has_key(rest, key) {
            let j = index_of(rest, key);
            let j0 = if j < i { j } else { j + 1 };
            assert(rest[j] == entries[j0]);
            if j0 < i {
                assert(entries[j0].0 != entries[i].0);
            } else {
                assert(entries[i].0 != entries[j0].0);
            }
        }
        assert forall|k: Key| k != key implies has_key(rest, k) == has_key(entries, k) by {
            if has_key(rest, k) {
                let j = index_of(rest, k);
                let j0 = if j < i { j } else { j + 1 };
                assert(rest[j] == entries[j0]);
            }
            if has_key(entries, k) {
                let j0 = index_of(entries, k);
                let j = if j0 < i { j0 } else { j0 - 1 };
                assert(rest[j] == entries[j0]);
            }
        }
        assert forall|k: Key| k != key && has_key(entries, k) implies value_of(rest, k)
            == value_of(entries, k) by {
            let j0 = index_of(entries, k);
            let j = if j0 < i { j0 } else { j0 - 1 };
            assert(rest[j] == entries[j0]);
            lemma_index_of(rest, j);
        }
        lemma_total_remove(entries, i);
    }
}

/// Removing the entry at a position lowers the total by its value.
pub proof fn lemma_total_remove(entries: Seq<(Key, usize)>, i: int)
    requires
        0 <= i < entries.len(),
    ensures
        total(entries.remove(i)) + entries[i].1 == total(entries),
    decreases entries.len(),
{
    if i == entries.len() - 1 {
        assert(entries.remove(i) =~= entries.drop_last());
    } else {
        lemma_total_remove(entries.drop_last(), i);
        assert(entries.remove(i).drop_last() =~= entries.drop_last().remove(i));
        assert(entries.remove(i).last() == entries.last());
    }
}

/// Entering a pair at the end raises the total by its value.
pub proof fn lemma_total_push(entries: Seq<(Key, usize)>, entry: (Key, usize))
    ensures
        total(entries.push(entry)) == total(entries) + entry.1,
{
    assert(entries.push(entry).drop_last() =~= entries);
}

/// Dropping the first entry lowers the total by its value.
pub proof fn lemma_total_drop_first(entries: Seq<(Key, usize)>)
    requires
        entries.len() > 0,
    ensures
        total(entries.drop_first()) + entries[0].1 == total(entries),
{
    lemma_total_remove(entries, 0);
    assert(entries.remove(0) =~= entries.drop_first());
}

/// Entering a key that is not there keeps the keys distinct.
pub proof fn lemma_push_fresh(entries: Seq<(Key, usize)>, entry: (Key, usize))
    requires
        distinct_keys(entries),
        !has_key(entries, entry.0),
    ensures
        distinct_keys(entries.push(entry)),
        has_key(entries.push(entry), entry.0),
        value_of(entries.push(entry), entry.0) == entry.1,
        forall|k: Key| k != entry.0 ==> has_key(entries.push(entry), k) == has_key(entries, k),
        forall|k: Key|
            k != entry.0 && has_key(entries, k) ==> value_of(entries.push(entry), k) == value_of(
                entries,
                k,
            ),
{
    let after = entries.push(entry);
    assert forall|a: int, b: int| 0 <= a < b < after.len() implies (#[trigger] after[a]).0 != (
    #[trigger] after[b]).0 by {
        if b == entries.len() {
            assert(after[a] == entries[a]);
        } else {
            assert(after[a] == entries[a] && after[b] == entries[b]);
        }
    }
    assert(after[entries.len() as int] == entry);
    lemma_index_of(after, entries.len() as int);
    assert forall|k: Key| k != entry.0 implies has_key(after, k) == has_key(entries, k) by {
        if has_key(after, k) {
            let j = index_of(after, k);
            assert(after[j] == entries[j]);
        }
        if has_key(entries, k) {
            let j = index_of(entries, k);
            assert(after[j] == entries[j]);
        }
    }
    assert forall|k: Key| k != entry.0 && has_key(entries, k) implies value_of(after, k)
        == value_of(entries, k) by {
        let j = index_of(entries, k);
        assert(after[j] == entries[j]);
        lemma_index_of(after, j);
    }
}

/// Dropping the first entry keeps the keys distinct.
pub proof fn lemma_drop_first_distinct(entries: Seq<(Key, usize)>)
    requires
        distinct_keys(entries),
        entries.len() > 0,
    ensures
        distinct_keys(entries.drop_first()),
        !has_key(entries.drop_first(), entries[0].0),
        forall|k: Key|
            k != entries[0].0 ==> has_key(entries.drop_first(), k) == has_key(entries, k),
{
    let rest = entries.drop_first();
    assert forall|a: int, b: int| 0 <= a < b < rest.len() implies (#[trigger] rest[a]).0 != (
    #[trigger] rest[b]).0 by {
        assert(rest[a] == entries[a + 1] && rest[b] == entries[b + 1]);
    }
    if has_key(rest, entries[0].0) {
        let j = choose|j: int| 0 <= j < rest.len() && (#[trigger] rest[j]).0 == entries[0].0;
        assert(rest[j] == entries[j + 1]);
        assert(entries[0].0 != entries[j + 1].0);
    }
    assert forall|k: Key| k != entries[0].0 implies has_key(rest, k) == has_key(entries, k) by {
        if has_key(rest, k) {
            let j = choose|j: int| 0 <= j < rest.len() && (#[trigger] rest[j]).0 == k;
            assert(rest[j] == entries[j + 1]);
        }
        if has_key(entries, k) {
            let j = choose|j: int| 0 <= j < entries.len() && (#[trigger] entries[j]).0 == k;
            assert(rest[j - 1] == entries[j]);
        }
    }
}

/// Looking a key up keeps the keys distinct, the keys that are held, their
/// sizes and the total.
pub proof fn lemma_touched(entries: Seq<(Key, usize)>, key: Key)
    requires
        distinct_keys(entries),
    ensures
        distinct_keys(touched(entries, key)),
        total(touched(entries, key)) == total(entries),
        forall|k: Key| has_key(touched(entries, key), k) == has_key(entries, k),
        forall|k: Key| has_key(entries, k) ==> value_of(touched(entries, key), k) == value_of(entries, k),
{
    if has_key(entries, key) {
        lemma_without(entries, key);
        lemma_push_fresh(without(entries, key), (key, value_of(entries, key)));
        lemma_total_push(without(entries, key), (key, value_of(entries, key)));
    }
}

/// Cutting the entries in two keeps the keys distinct in each part, and
/// every key is in exactly one of them, with its size.
pub proof fn lemma_split(entries: Seq<(Key, usize)>, n: int)
    requires
        distinct_keys(entries),
        0 <= n <= entries.len(),
    ensures
        distinct_keys(entries.take(n)),
        distinct_keys(entries.skip(n)),
        forall|k: Key|
            has_key(entries, k) <==> (has_key(entries.take(n), k) || has_key(entries.skip(n), k)),
        forall|k: Key| !(has_key(entries.take(n), k) && has_key(entries.skip(n), k)),
        forall|k: Key|
            has_key(entries.skip(n), k) ==> value_of(entries.skip(n), k) == value_of(entries, k),
        forall|k: Key|
            has_key(entries.take(n), k) ==> value_of(entries.take(n), k) == value_of(entries, k),
        forall|k: Key| keys_of(entries.take(n)).contains(k) <==> has_key(entries.take(n), k),
        forall|i: int, j: int|
            0 <= i < j < n ==> keys_of(entries.take(n))[i] != keys_of(entries.take(n))[j],
        total(entries.take(n)) + total(entries.skip(n)) == total(entries),
{
    let head = entries.take(n);
    let tail = entries.skip(n);
    assert forall|a: int, b: int| 0 <= a < b < head.len() implies (#[trigger] head[a]).0 != (
    #[trigger] head[b]).0 by {
        assert(head[a] == entries[a] && head[b] == entries[b]);
    }
    assert forall|a: int, b: int| 0 <= a < b < tail.len() implies (#[trigger] tail[a]).0 != (
    #[trigger] tail[b]).0 by {
        assert(tail[a] == entries[a + n] && tail[b] == entries[b + n]);
    }
    assert forall|k: Key| has_key(entries, k) <==> (has_key(head, k) || has_key(tail, k)) by {
        if has_key(entries, k) {
            let i = index_of(entries, k);
            if i < n {
                assert(head[i] == entries[i]);
            } else {
                assert(tail[i - n] == entries[i]);
            }
        }
        if has_key(head, k) {
            let i = index_of(head, k);
            assert(head[i] == entries[i]);
        }
        if has_key(tail, k) {
            let i = index_of(tail, k);
            assert(tail[i] == entries[i + n]);
        }
    }
    assert forall|k: Key| !(has_key(head, k) && has_key(tail, k)) by {
        if has_key(head, k) && has_key(tail, k) {
            let i = index_of(head, k);
            let j = index_of(tail, k);
            assert(head[i] == entries[i] && tail[j] == entries[j + n]);
            assert(entries[i].0 != entries[j + n].0);
        }
    }
    assert forall|k: Key| has_key(tail, k) implies value_of(tail, k) == value_of(entries, k) by {
        let j = index_of(tail, k);
        assert(tail[j] == entries[j + n]);
        lemma_index_of(entries, j + n);
    }
    assert forall|k: Key| has_key(head, k) implies value_of(head, k) == value_of(entries, k) by {
        let j = index_of(head, k);
        assert(head[j] == entries[j]);
        lemma_index_of(entries, j);
    }
    let keys = keys_of(head);
    assert forall|k: Key| keys.contains(k) <==> has_key(head, k) by {
        if keys.contains(k) {
            let i = choose|i: int| 0 <= i < keys.len() && keys[i] == k;
            assert(head[i].0 == k);
        }
        if has_key(head, k) {
            let i = index_of(head, k);
            assert(keys[i] == k);
        }
    }
    assert forall|i: int, j: int| 0 <= i < j < n implies keys[i] != keys[j] by {
        assert(head[i].0 != head[j].0);
    }
    lemma_total_split(entries, n);
}

/// The total of the entries is the total of a first part and of the rest.
pub proof fn lemma_total_split(entries: Seq<(Key, usize)>, n: int)
    requires
        0 <= n <= entries.len(),
    ensures
        total(entries.take(n)) + total(entries.skip(n)) == total(entries),
    decreases entries.len() - n,
{
    if n == entries.len() {
        assert(entries.take(n) =~= entries);
        assert(entries.skip(n) =~= Seq::<(Key, usize)>::empty());
    } else {
        lemma_total_split(entries, n + 1);
        assert(entries.take(n + 1).drop_last() =~= entries.take(n));
        assert(entries.take(n + 1).last() == entries[n]);
        lemma_total_drop_first(entries.skip(n));
        assert(entries.skip(n).drop_first() =~= entries.skip(n + 1));
    }
}

} // verus!
