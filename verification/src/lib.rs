//! A keyed blob store: opaque byte sequences addressed by 8-byte keys, with
//! creation, in-place replacement of a range, whole and partial reads and
//! deletion, each with an exact account of when and how it fails.

use vstd::prelude::*;

pub mod error;
pub mod facade;
pub mod model;
pub mod store_impl;
pub mod trace;

use crate::error::{BlobError, BlobStoreError};
use crate::model::{
    delete_result, get_owned_result, get_result, meta_result, put_result, same_elsewhere, Blobs,
};

verus! {

/// Key of a blob: eight opaque bytes.
pub type Key = [u8; 8];

/// Half-open range `[start, end)` of byte offsets into a blob.
pub type BlobRange = std::ops::Range<usize>;

pub type Offset = usize;

#[derive(Debug, Clone)]
pub struct BlobMeta {
    pub size: usize,
}

/// A value from which a key is derived.
pub trait KeyLike {
    fn as_key(&self) -> Key;
}

/// Calls `u64::to_le_bytes`, which returns the eight bytes of the integer,
/// least significant first.
#[verifier::external_body]
fn le_bytes(x: u64) -> (bytes: [u8; 8])
    ensures
        bytes@ == vstd::bytes::spec_u64_to_le_bytes(x),
{
    x.to_le_bytes()
}

impl KeyLike for u64 {
    fn as_key(&self) -> (key: Key)
        ensures
            key@ == vstd::bytes::spec_u64_to_le_bytes(*self),
    {
        le_bytes(*self)
    }
}

#[derive(Debug)]
pub enum PutOpt {
    /// Create the blob if it doesn't exist, fail if it does.
    Create,
    /// Replace the blob content if it exists, create it if it doesn't.
    ReplaceOrCreate,
    /// Replace the blob content if it exists, fail if it doesn't.
    Replace(BlobRange),
}

#[derive(Debug)]
pub enum GetOpt {
    /// Get all the content of the blob.
    All,
    /// Get a range of the blob.
    Range(BlobRange),
}

#[derive(Debug)]
pub enum DeleteOpt {
    /// Delete the blob and return its content.
    Interest(BlobRange),
    /// Delete the blob and discard its content.
    Discard,
}

/// The capability set of a blob store.
///
/// A store is read through `blobs`, the map from keys to byte sequences that
/// it stands for, and every method says what it returns and how it changes
/// that map. A precondition failure (`BlobStoreError::Blob`) is decided by
/// the map and the request alone and leaves the store as it was. Any other
/// error is a failure of the substrate underneath: it may come at any time,
/// and after it only the blobs of the other keys are known to be untouched.
///
/// The methods that change the store take `&mut self`: a store is used by one
/// caller at a time, and sharing it is left to the caller.
///
/// This is the contract of a backend. The write-back cache
/// (`store_impl::cache::MemoryCache`) takes the same requests but does not
/// keep this contract in two points: it refuses a `Replace` whose range does
/// not span the whole blob, and a read of a range of a key that is not
/// resident changes what it holds for that key. It has a contract of its
/// own and is no `BlobStore` here; what is proved over `S: BlobStore` is not
/// proved of a cache that is put behind this interface elsewhere.
pub trait BlobStore {
    /// What the store holds. A verified store defines it; its contracts
    /// cannot be proved otherwise. A store that is not verified leaves it as
    /// it is and answers for its methods' contracts itself.
    open spec fn blobs(&self) -> Blobs {
        arbitrary()
    }

    fn contains(&self, key: Key) -> (res: Result<bool, BlobStoreError>)
        ensures
            match res {
                Ok(b) => b == self.blobs().contains_key(key),
                Err(e) => e.blob_error() is None,
            },
    ;

    /// # Error
    /// - Blob(BlobError::NotFound): the blob doesn't exist.
    fn meta(&self, key: Key) -> (res: Result<BlobMeta, BlobStoreError>)
        ensures
            match res {
                Ok(m) => meta_result(self.blobs(), key) == Ok::<nat, BlobError>(m.size as nat),
                Err(BlobStoreError::Blob(e)) => meta_result(self.blobs(), key) == Err::<
                    nat,
                    BlobError,
                >(e),
                Err(_) => true,
            },
    ;

    /// # Error
    /// - Blob(BlobError::AlreadyExists): the blob already exists and PutOpt::Create is used.
    /// - Blob(BlobError::NotFound): the blob doesn't exist and PutOpt::Replace is used.
    /// - Blob(BlobError::RangeError): the range is out of bounds when PutOpt::Replace is used.
    /// - Blob(BlobError::RangeError): the length of the buf doesn't match the PutOpt::Replace range.
    fn put(&mut self, key: Key, value: &[u8], opt: PutOpt) -> (res: Result<(), BlobStoreError>)
        ensures
            match res {
                Ok(()) => put_result(old(self).blobs(), key, value@, opt) == Ok::<Blobs, BlobError>(
                    final(self).blobs(),
                ),
                Err(BlobStoreError::Blob(e)) => {
                    &&& put_result(old(self).blobs(), key, value@, opt) == Err::<Blobs, BlobError>(e)
                    &&& final(self).blobs() == old(self).blobs()
                },
                Err(_) => same_elsewhere(old(self).blobs(), final(self).blobs(), key),
            },
    ;

    /// # Error
    /// - Blob(BlobError::NotFound): the blob doesn't exist.
    /// - Blob(BlobError::RangeError): the range is out of bounds
    /// - Blob(BlobError::RangeError): the length of the buf doesn't match the GetOpt::Range
    fn get(&self, key: Key, buf: &mut [u8], opt: GetOpt) -> (res: Result<(), BlobStoreError>)
        ensures
            final(buf)@.len() == old(buf)@.len(),
            match res {
                Ok(()) => get_result(self.blobs(), key, opt, old(buf)@.len()) == Ok::<
                    Seq<u8>,
                    BlobError,
                >(final(buf)@),
                Err(BlobStoreError::Blob(e)) => {
                    &&& get_result(self.blobs(), key, opt, old(buf)@.len()) == Err::<
                        Seq<u8>,
                        BlobError,
                    >(e)
                    &&& final(buf)@ == old(buf)@
                },
                Err(_) => true,
            },
    ;

    /// Reads into a buffer of its own, sized by `meta` for `All` and by the
    /// range for `Range`.
    fn get_owned(&self, key: Key, opt: GetOpt) -> (res: Result<Vec<u8>, BlobStoreError>)
        ensures
            match res {
                Ok(data) => get_owned_result(self.blobs(), key, opt) == Ok::<Seq<u8>, BlobError>(
                    data@,
                ),
                Err(BlobStoreError::Blob(e)) => get_owned_result(self.blobs(), key, opt) == Err::<
                    Seq<u8>,
                    BlobError,
                >(e),
                Err(_) => true,
            },
    {
        let len = match &opt {
            GetOpt::All => match self.meta(key) {
                Ok(meta) => meta.size,
                Err(e) => {
                    return Err(e);
                },
            },
            GetOpt::Range(range) => crate::store_impl::helpers::range_size(range),
        };
        let mut buf = vec![0_u8; len];
        match self.get(key, buf.as_mut_slice(), opt) {
            Ok(()) => Ok(buf),
            Err(e) => Err(e),
        }
    }

    /// # Error
    /// - Blob(BlobError::NotFound): the blob doesn't exist.
    fn delete(&mut self, key: Key, opt: DeleteOpt) -> (res: Result<
        Option<Vec<u8>>,
        BlobStoreError,
    >)
        requires
            opt is Discard,
        ensures
            match res {
                Ok(deleted) => {
                    &&& deleted is None
                    &&& delete_result(old(self).blobs(), key) == Ok::<Blobs, BlobError>(
                        final(self).blobs(),
                    )
                },
                Err(BlobStoreError::Blob(e)) => {
                    &&& delete_result(old(self).blobs(), key) == Err::<Blobs, BlobError>(e)
                    &&& final(self).blobs() == old(self).blobs()
                },
                Err(_) => same_elsewhere(old(self).blobs(), final(self).blobs(), key),
            },
    ;
}

impl Clone for PutOpt {
    fn clone(&self) -> (res: Self)
        ensures
            res == *self,
    {
        match self {
            PutOpt::Create => PutOpt::Create,
            PutOpt::ReplaceOrCreate => PutOpt::ReplaceOrCreate,
            PutOpt::Replace(r) => PutOpt::Replace(r.start..r.end),
        }
    }
}

impl Clone for GetOpt {
    fn clone(&self) -> (res: Self)
        ensures
            res == *self,
    {
        match self {
            GetOpt::All => GetOpt::All,
            GetOpt::Range(r) => GetOpt::Range(r.start..r.end),
        }
    }
}

impl Clone for DeleteOpt {
    fn clone(&self) -> (res: Self)
        ensures
            res == *self,
    {
        match self {
            DeleteOpt::Interest(r) => DeleteOpt::Interest(r.start..r.end),
            DeleteOpt::Discard => DeleteOpt::Discard,
        }
    }
}

} // verus!
