//! The stores as they are offered across a language boundary: keys are
//! 64-bit integers, read least significant byte first, and a range is given
//! by its offset and the length of the buffer that comes with it.

use vstd::prelude::*;
use crate::error::{BlobError, BlobStoreError};
use crate::model::{
    delete_result, get_result, meta_result, put_result, same_elsewhere, Blobs,
};
use crate::store_impl::cache::{CacheModel, MemoryCache};
use crate::{BlobStore, DeleteOpt, GetOpt, Key, KeyLike, PutOpt};

verus! {

/// The key that an integer stands for: its eight bytes, least significant
/// first.
pub open spec fn key_of(number: u64) -> Key {
    choose|key: Key| key@ == vstd::bytes::spec_u64_to_le_bytes(number)
}

/// The key of an integer, with the proof that it is `key_of`.
pub fn integer_key(number: u64) -> (key: Key)
    ensures
        key == key_of(number),
{
    let key = number.as_key();
    proof {
        assert(key@ =~= key_of(number)@);
        assert(key =~= key_of(number));
    }
    key
}

/// Two integers stand for the same key only if they are the same integer.
pub proof fn law_key_of_injective(a: u64, b: u64)
    requires
        key_of(a) == key_of(b),
    ensures
        a == b,
{
    vstd::bytes::lemma_auto_spec_u64_to_from_le_bytes();
    lemma_key_exists(a);
    lemma_key_exists(b);
    assert(vstd::bytes::spec_u64_from_le_bytes(vstd::bytes::spec_u64_to_le_bytes(a)) == a);
    assert(vstd::bytes::spec_u64_from_le_bytes(vstd::bytes::spec_u64_to_le_bytes(b)) == b);
}

/// Every integer has its key.
proof fn lemma_key_exists(number: u64)
    ensures
        key_of(number)@ == vstd::bytes::spec_u64_to_le_bytes(number),
{
    vstd::bytes::lemma_auto_spec_u64_to_from_le_bytes();
    let bytes = vstd::bytes::spec_u64_to_le_bytes(number);
    assert(bytes.len() == 8);
    let key: Key = [
        bytes[0],
        bytes[1],
        bytes[2],
        bytes[3],
        bytes[4],
        bytes[5],
        bytes[6],
        bytes[7],
    ];
    assert(key@ =~= bytes);
}

/// A store behind integer keys.
pub struct BlobStoreFFI<S: BlobStore>(pub S);

impl<S: BlobStore> BlobStoreFFI<S> {
    pub fn contains(&self, key: u64) -> (res: Result<bool, BlobStoreError>)
        ensures
            match res {
                Ok(b) => b == self.0.blobs().contains_key(key_of(key)),
                Err(e) => e.blob_error() is None,
            },
    {
        self.0.contains(integer_key(key))
    }

    pub fn blob_size(&self, key: u64) -> (res: Result<usize, BlobStoreError>)
        ensures
            match res {
                Ok(size) => meta_result(self.0.blobs(), key_of(key)) == Ok::<nat, BlobError>(
                    size as nat,
                ),
                Err(BlobStoreError::Blob(e)) => meta_result(self.0.blobs(), key_of(key)) == Err::<
                    nat,
                    BlobError,
                >(e),
                Err(_) => true,
            },
    {
        match self.0.meta(integer_key(key)) {
            Ok(meta) => Ok(meta.size),
            Err(e) => Err(e),
        }
    }

    pub fn create(&mut self, key: u64, value: &[u8]) -> (res: Result<(), BlobStoreError>)
        ensures
            put_outcome(old(self).0.blobs(), final(self).0.blobs(), key, value@, PutOpt::Create, res),
    {
        self.0.put(integer_key(key), value, PutOpt::Create)
    }

    /// Replaces the bytes from `offset` on by the value.
    pub fn put(&mut self, key: u64, value: &[u8], offset: usize) -> (res: Result<
        (),
        BlobStoreError,
    >)
        requires
            offset + value@.len() <= usize::MAX,
        ensures
            put_outcome(
                old(self).0.blobs(),
                final(self).0.blobs(),
                key,
                value@,
                PutOpt::Replace(offset..(offset + value@.len()) as usize),
                res,
            ),
    {
        self.0.put(integer_key(key), value, PutOpt::Replace(offset..offset + value.len()))
    }

    pub fn put_or_create(&mut self, key: u64, value: &[u8]) -> (res: Result<(), BlobStoreError>)
        ensures
            put_outcome(
                old(self).0.blobs(),
                final(self).0.blobs(),
                key,
                value@,
                PutOpt::ReplaceOrCreate,
                res,
            ),
    {
        self.0.put(integer_key(key), value, PutOpt::ReplaceOrCreate)
    }

    pub fn get_all(&self, key: u64, buf: &mut [u8]) -> (res: Result<(), BlobStoreError>)
        ensures
            final(buf)@.len() == old(buf)@.len(),
            get_outcome(self.0.blobs(), key, GetOpt::All, old(buf)@, final(buf)@, res),
    {
        self.0.get(integer_key(key), buf, GetOpt::All)
    }

    /// Fills the buffer with the bytes from `offset` on.
    pub fn get_offset(&self, key: u64, buf: &mut [u8], offset: usize) -> (res: Result<
        (),
        BlobStoreError,
    >)
        requires
            offset + old(buf)@.len() <= usize::MAX,
        ensures
            final(buf)@.len() == old(buf)@.len(),
            get_outcome(
                self.0.blobs(),
                key,
                GetOpt::Range(offset..(offset + old(buf)@.len()) as usize),
                old(buf)@,
                final(buf)@,
                res,
            ),
    {
        let end = offset + buf.len();
        self.0.get(integer_key(key), buf, GetOpt::Range(offset..end))
    }

    pub fn delete(&mut self, key: u64) -> (res: Result<(), BlobStoreError>)
        ensures
            match res {
                Ok(()) => delete_result(old(self).0.blobs(), key_of(key)) == Ok::<Blobs, BlobError>(
                    final(self).0.blobs(),
                ),
                Err(BlobStoreError::Blob(e)) => {
                    &&& delete_result(old(self).0.blobs(), key_of(key)) == Err::<Blobs, BlobError>(
                        e,
                    )
                    &&& final(self).0.blobs() == old(self).0.blobs()
                },
                Err(_) => same_elsewhere(old(self).0.blobs(), final(self).0.blobs(), key_of(key)),
            },
    {
        match self.0.delete(integer_key(key), DeleteOpt::Discard) {
            Ok(_) => Ok(()),
            Err(e) => Err(e),
        }
    }
}

/// How the result of a `put` with `opt` for the key of `number` relates the
/// store before and after, as the blob store contract has it.
pub open spec fn put_outcome(
    before: Blobs,
    after: Blobs,
    number: u64,
    value: Seq<u8>,
    opt: PutOpt,
    res: Result<(), BlobStoreError>,
) -> bool {
    match res {
        Ok(()) => put_result(before, key_of(number), value, opt) == Ok::<Blobs, BlobError>(after),
        Err(BlobStoreError::Blob(e)) => {
            &&& put_result(before, key_of(number), value, opt) == Err::<Blobs, BlobError>(e)
            &&& after == before
        },
        Err(_) => same_elsewhere(before, after, key_of(number)),
    }
}

/// How the result of a `get` with `opt` for the key of `number` relates the
/// buffer before and after to the store, as the blob store contract has it.
pub open spec fn get_outcome(
    blobs: Blobs,
    number: u64,
    opt: GetOpt,
    before: Seq<u8>,
    after: Seq<u8>,
    res: Result<(), BlobStoreError>,
) -> bool {
    match res {
        Ok(()) => get_result(blobs, key_of(number), opt, before.len()) == Ok::<Seq<u8>, BlobError>(
            after,
        ),
        Err(BlobStoreError::Blob(e)) => {
            &&& get_result(blobs, key_of(number), opt, before.len()) == Err::<Seq<u8>, BlobError>(
                e,
            )
            &&& after == before
        },
        Err(_) => true,
    }
}

/// A cached store behind integer keys. The plain requests go through the
/// cache; the bypass requests go to the backend and leave the cache alone.
pub struct CachedStoreFFI<S: BlobStore>(pub MemoryCache<S>);

/// How the result of a `put` through the cache with `opt` for the key of
/// `number` relates the cache before and after.
pub open spec fn cached_put_outcome(
    before: CacheModel,
    after: CacheModel,
    number: u64,
    value: Seq<u8>,
    opt: PutOpt,
    res: Result<(), BlobStoreError>,
) -> bool {
    &&& before.is_resident(key_of(number)) && !(opt is ReplaceOrCreate) ==> (res is Ok
        || res matches Err(BlobStoreError::Blob(_)))
    &&& match res {
        Ok(()) => {
            &&& before.put_verdict(key_of(number), value, opt) is None
            &&& after == before.put_after(key_of(number), value, opt)
        },
        Err(BlobStoreError::Blob(e)) => {
            &&& before.put_verdict(key_of(number), value, opt) == Some(e)
            &&& after == before.put_after(key_of(number), value, opt)
        },
        Err(_) => after.blobs() == before.blobs() || (!(opt is Replace) && after.blobs()
            == before.blobs().insert(key_of(number), value)),
    }
}

/// How the result of a `get` through the cache with `opt` for the key of
/// `number` relates the cache and the buffer before and after.
pub open spec fn cached_get_outcome(
    before: CacheModel,
    after: CacheModel,
    number: u64,
    opt: GetOpt,
    buf_before: Seq<u8>,
    buf_after: Seq<u8>,
    res: Result<(), BlobStoreError>,
) -> bool {
    &&& before.is_resident(key_of(number)) ==> (res is Ok || res matches Err(
        BlobStoreError::Blob(_),
    ))
    &&& match res {
        Ok(()) => {
            &&& after == before.get_after(key_of(number), opt)
            &&& before.get_data(key_of(number), opt, buf_before.len()) == Ok::<Seq<u8>, BlobError>(
                buf_after,
            )
        },
        Err(BlobStoreError::Blob(e)) => {
            &&& after == before.get_after(key_of(number), opt)
            &&& before.get_data(key_of(number), opt, buf_before.len()) == Err::<
                Seq<u8>,
                BlobError,
            >(e)
            &&& buf_after == buf_before
        },
        Err(_) => after.blobs() == before.blobs() && buf_after == buf_before,
    }
}

impl<S: BlobStore> CachedStoreFFI<S> {
    pub fn contains(&mut self, key: u64) -> (res: Result<bool, BlobStoreError>)
        requires
            old(self).0.wf(),
        ensures
            final(self).0.wf(),
            final(self).0@ == old(self).0@.touched(key_of(key)),
            old(self).0@.is_resident(key_of(key)) ==> res is Ok,
            match res {
                Ok(b) => b == old(self).0@.blobs().contains_key(key_of(key)),
                Err(e) => e.blob_error() is None,
            },
    {
        self.0.contains(integer_key(key))
    }

    pub fn blob_size(&mut self, key: u64) -> (res: Result<usize, BlobStoreError>)
        requires
            old(self).0.wf(),
        ensures
            final(self).0.wf(),
            final(self).0@ == old(self).0@.touched(key_of(key)),
            old(self).0@.is_resident(key_of(key)) ==> res is Ok,
            match res {
                Ok(size) => meta_result(old(self).0@.blobs(), key_of(key)) == Ok::<nat, BlobError>(
                    size as nat,
                ),
                Err(BlobStoreError::Blob(e)) => meta_result(old(self).0@.blobs(), key_of(key))
                    == Err::<nat, BlobError>(e),
                Err(_) => true,
            },
    {
        match self.0.meta(integer_key(key)) {
            Ok(meta) => Ok(meta.size),
            Err(e) => Err(e),
        }
    }

    pub fn create(&mut self, key: u64, value: &[u8]) -> (res: Result<(), BlobStoreError>)
        requires
            old(self).0.wf(),
            old(self).0@.put_admits(key_of(key), value@, PutOpt::Create) matches Some(len)
                ==> old(self).0@.lru.has_room(len),
        ensures
            final(self).0.wf(),
            cached_put_outcome(old(self).0@, final(self).0@, key, value@, PutOpt::Create, res),
    {
        self.0.put(integer_key(key), value, PutOpt::Create)
    }

    pub fn bypass_create(&mut self, key: u64, value: &[u8]) -> (res: Result<(), BlobStoreError>)
        ensures
            final(self).0@.lru == old(self).0@.lru,
            final(self).0@.resident == old(self).0@.resident,
            old(self).0.wf() ==> final(self).0.wf(),
            put_outcome(
                old(self).0@.backend,
                final(self).0@.backend,
                key,
                value@,
                PutOpt::Create,
                res,
            ),
    {
        self.0.bypass_put(integer_key(key), value, PutOpt::Create)
    }

    /// Replaces the bytes from `offset` on by the value.
    pub fn put(&mut self, key: u64, value: &[u8], offset: usize) -> (res: Result<
        (),
        BlobStoreError,
    >)
        requires
            old(self).0.wf(),
            offset + value@.len() <= usize::MAX,
            old(self).0@.put_admits(
                key_of(key),
                value@,
                PutOpt::Replace(offset..(offset + value@.len()) as usize),
            ) matches Some(len) ==> old(self).0@.lru.has_room(len),
        ensures
            final(self).0.wf(),
            cached_put_outcome(
                old(self).0@,
                final(self).0@,
                key,
                value@,
                PutOpt::Replace(offset..(offset + value@.len()) as usize),
                res,
            ),
    {
        self.0.put(integer_key(key), value, PutOpt::Replace(offset..offset + value.len()))
    }

    /// Replaces the bytes from `offset` on by the value, on the backend.
    pub fn bypass_put(&mut self, key: u64, value: &[u8], offset: usize) -> (res: Result<
        (),
        BlobStoreError,
    >)
        requires
            offset + value@.len() <= usize::MAX,
        ensures
            final(self).0@.lru == old(self).0@.lru,
            final(self).0@.resident == old(self).0@.resident,
            old(self).0.wf() ==> final(self).0.wf(),
            put_outcome(
                old(self).0@.backend,
                final(self).0@.backend,
                key,
                value@,
                PutOpt::Replace(offset..(offset + value@.len()) as usize),
                res,
            ),
    {
        self.0.bypass_put(integer_key(key), value, PutOpt::Replace(offset..offset + value.len()))
    }

    pub fn put_or_create(&mut self, key: u64, value: &[u8]) -> (res: Result<(), BlobStoreError>)
        requires
            old(self).0.wf(),
            old(self).0@.lru.has_room(value@.len()),
        ensures
            final(self).0.wf(),
            cached_put_outcome(
                old(self).0@,
                final(self).0@,
                key,
                value@,
                PutOpt::ReplaceOrCreate,
                res,
            ),
    {
        self.0.put(integer_key(key), value, PutOpt::ReplaceOrCreate)
    }

    pub fn bypass_put_or_create(&mut self, key: u64, value: &[u8]) -> (res: Result<
        (),
        BlobStoreError,
    >)
        ensures
            final(self).0@.lru == old(self).0@.lru,
            final(self).0@.resident == old(self).0@.resident,
            old(self).0.wf() ==> final(self).0.wf(),
            put_outcome(
                old(self).0@.backend,
                final(self).0@.backend,
                key,
                value@,
                PutOpt::ReplaceOrCreate,
                res,
            ),
    {
        self.0.bypass_put(integer_key(key), value, PutOpt::ReplaceOrCreate)
    }

    pub fn get_all(&mut self, key: u64, buf: &mut [u8]) -> (res: Result<(), BlobStoreError>)
        requires
            old(self).0.wf(),
            old(self).0@.get_admits(key_of(key), GetOpt::All) matches Some(len) ==> old(
                self,
            ).0@.lru.has_room(len),
        ensures
            final(buf)@.len() == old(buf)@.len(),
            final(self).0.wf(),
            cached_get_outcome(
                old(self).0@,
                final(self).0@,
                key,
                GetOpt::All,
                old(buf)@,
                final(buf)@,
                res,
            ),
    {
        self.0.get(integer_key(key), buf, GetOpt::All)
    }

    pub fn bypass_get_all(&self, key: u64, buf: &mut [u8]) -> (res: Result<(), BlobStoreError>)
        ensures
            final(buf)@.len() == old(buf)@.len(),
            get_outcome(self.0@.backend, key, GetOpt::All, old(buf)@, final(buf)@, res),
    {
        self.0.bypass_get(integer_key(key), buf, GetOpt::All)
    }

    /// Fills the buffer with the bytes from `offset` on.
    pub fn get_offset(&mut self, key: u64, buf: &mut [u8], offset: usize) -> (res: Result<
        (),
        BlobStoreError,
    >)
        requires
            old(self).0.wf(),
            offset + old(buf)@.len() <= usize::MAX,
            old(self).0@.get_admits(
                key_of(key),
                GetOpt::Range(offset..(offset + old(buf)@.len()) as usize),
            ) matches Some(len) ==> old(self).0@.lru.has_room(len),
        ensures
            final(buf)@.len() == old(buf)@.len(),
            final(self).0.wf(),
            cached_get_outcome(
                old(self).0@,
                final(self).0@,
                key,
                GetOpt::Range(offset..(offset + old(buf)@.len()) as usize),
                old(buf)@,
                final(buf)@,
                res,
            ),
    {
        let end = offset + buf.len();
        self.0.get(integer_key(key), buf, GetOpt::Range(offset..end))
    }

    /// Fills the buffer with the bytes from `offset` on, from the backend.
    pub fn bypass_get_offset(&self, key: u64, buf: &mut [u8], offset: usize) -> (res: Result<
        (),
        BlobStoreError,
    >)
        requires
            offset + old(buf)@.len() <= usize::MAX,
        ensures
            final(buf)@.len() == old(buf)@.len(),
            get_outcome(
                self.0@.backend,
                key,
                GetOpt::Range(offset..(offset + old(buf)@.len()) as usize),
                old(buf)@,
                final(buf)@,
                res,
            ),
    {
        let end = offset + buf.len();
        self.0.bypass_get(integer_key(key), buf, GetOpt::Range(offset..end))
    }

    pub fn delete(&mut self, key: u64) -> (res: Result<(), BlobStoreError>)
        requires
            old(self).0.wf(),
        ensures
            final(self).0.wf(),
            final(self).0@.lru == old(self).0@.forgot(key_of(key)).lru,
            final(self).0@.resident == old(self).0@.forgot(key_of(key)).resident,
            match res {
                Ok(()) => {
                    &&& old(self).0@.backend.contains_key(key_of(key))
                    &&& final(self).0@.backend == old(self).0@.backend.remove(key_of(key))
                },
                Err(BlobStoreError::Blob(e)) => {
                    &&& e == BlobError::NotFound
                    &&& !old(self).0@.backend.contains_key(key_of(key))
                    &&& final(self).0@.backend == old(self).0@.backend
                },
                Err(_) => same_elsewhere(
                    old(self).0@.backend,
                    final(self).0@.backend,
                    key_of(key),
                ),
            },
    {
        match self.0.delete(integer_key(key), DeleteOpt::Discard) {
            Ok(_) => Ok(()),
            Err(e) => Err(e),
        }
    }
}

} // verus!
