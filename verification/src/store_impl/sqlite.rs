//! The relational backend: blobs are rows of one table of an embedded
//! database, and the store keeps the row of each key in a map that is
//! written to a file on shutdown and read again on `connect`.
//!
//! The store holds the map and decides from it what a request needs: the
//! row to open, the row to insert, where to write and to read. The database
//! is worked by the caller, who hands back what it said.

use std::collections::HashMap;
use vstd::prelude::*;
use crate::error::{BlobError, BlobStoreError};
use crate::model::{read_offset, replace_offset};
use crate::store_impl::helpers::{range_contains, range_size, BlobPath};
use crate::{DeleteOpt, GetOpt, Key, PutOpt};

verus! {

pub type RowID = i64;

/// The table of the blobs.
pub const TABLE_NAME: &'static str = "blobs";

/// The one column of the table.
pub const COLUMN_NAME: &'static str = "content";

pub const SQL_INSERT: &'static str = "INSERT INTO blobs (content) VALUES (?)";

pub const SQL_DELETE: &'static str = "DELETE FROM blobs WHERE rowid = (?)";

pub const SQL_CREATE_TABLE: &'static str =
    "CREATE TABLE IF NOT EXISTS blobs ( content BLOB NOT NULL )";

/// The file of the database under the root.
pub const DB_FILE: &'static str = "blobs.db";

/// The file under the root that the map from keys to rows is written to.
pub const MAP_FILE: &'static str = "blobs.map.dump";

/// `bincode::ErrorKind`, carried through as an opaque value.
#[verifier::external_type_specification]
#[verifier::external_body]
pub struct ExBincodeError(bincode::ErrorKind);

/// The map that `bincode::deserialize` reads from the bytes, if it reads
/// one.
pub uninterp spec fn decoded_rows(bytes: Seq<u8>) -> Option<Map<u64, i64>>;

/// Calls `u64::from_le_bytes`, which reads the eight bytes as an integer,
/// least significant first.
#[verifier::external_body]
fn key_number(key: &Key) -> (number: u64)
    ensures
        number == row_key(*key),
{
    u64::from_le_bytes(*key)
}

/// Calls `bincode::deserialize`, which reads a map from the bytes or fails.
#[verifier::external_body]
fn decode_rows(bytes: &[u8]) -> (res: Result<HashMap<u64, i64>, Box<bincode::ErrorKind>>)
    ensures
        match res {
            Ok(rows) => decoded_rows(bytes@) == Some(rows@),
            Err(_) => decoded_rows(bytes@) is None,
        },
{
    bincode::deserialize(bytes)
}

/// Calls `bincode::serialize`, which writes the map as bytes that
/// `bincode::deserialize` reads the same map from, or fails.
#[verifier::external_body]
fn encode_rows(rows: &HashMap<u64, i64>) -> (res: Result<Vec<u8>, Box<bincode::ErrorKind>>)
    ensures
        res matches Ok(bytes) ==> decoded_rows(bytes@) == Some(rows@),
{
    bincode::serialize(rows)
}

/// Calls `anyhow::Error::new`, which wraps the error.
#[verifier::external_body]
fn wrap_error(e: Box<bincode::ErrorKind>) -> anyhow::Error {
    anyhow::Error::new(e)
}

/// The number under which the row of a key is kept: the key read as an
/// integer, least significant byte first.
pub open spec fn row_key(key: Key) -> u64 {
    vstd::bytes::spec_u64_from_le_bytes(key@)
}

/// The rows that a store starts with: none where there is no dump, else
/// those that the dump holds, if it can be read.
pub open spec fn initial_rows(dump: Option<Seq<u8>>) -> Option<Map<u64, i64>> {
    match dump {
        None => Some(Map::empty()),
        Some(bytes) => decoded_rows(bytes),
    }
}

/// What a `put` needs next.
#[derive(Debug, Clone, Copy, PartialEq, Eq, Structural)]
pub enum PutStep {
    /// A row with a blob of `zero_blob` zero bytes is inserted; its row id is
    /// then recorded with `put_inserted` and its blob opened for writing.
    Insert { zero_blob: u64 },
    /// The blob of the row is opened for writing.
    Open { row_id: RowID },
}

/// The offset at which `put` writes into a blob of `blob_len` bytes, or the
/// precondition failure.
pub open spec fn put_write_result(opt: PutOpt, value_len: usize, blob_len: usize) -> Result<
    usize,
    BlobError,
> {
    match opt {
        PutOpt::Replace(r) => replace_offset(r, blob_len as nat, value_len as nat),
        _ => Ok(0usize),
    }
}

pub struct SqliteBlobStore {
    root: String,
    key_to_row_map: HashMap<u64, RowID>,
}

impl SqliteBlobStore {
    /// The root directory.
    pub closed spec fn root_view(&self) -> Seq<char> {
        self.root@
    }

    /// The row of each key that the store holds, by the number of the key.
    pub closed spec fn rows(&self) -> Map<u64, i64> {
        self.key_to_row_map@
    }

    /// Whether the store holds the key.
    pub open spec fn holds(&self, key: Key) -> bool {
        self.rows().contains_key(row_key(key))
    }

    /// Connects to the store under `root`. `dump` is what the file of the
    /// map holds, `None` where there is none: the store then starts empty.
    ///
    /// # Error
    /// - Other: the dump cannot be read as a map.
    pub fn connect(root: String, dump: Option<Vec<u8>>) -> (res: Result<Self, BlobStoreError>)
        ensures
            match res {
                Ok(store) => {
                    &&& store.root_view() == root@
                    &&& initial_rows(
                        match dump {
                            Some(bytes) => Some(bytes@),
                            None => None,
                        },
                    ) == Some(store.rows())
                },
                Err(e) => {
                    &&& e is Other
                    &&& dump matches Some(bytes)
                    &&& decoded_rows(bytes@) is None
                },
            },
    {
        let map = match dump {
            Some(bytes) => match decode_rows(bytes.as_slice()) {
                Ok(map) => map,
                Err(e) => {
                    return Err(BlobStoreError::Other(wrap_error(e)));
                },
            },
            None => HashMap::new(),
        };
        Ok(Self { key_to_row_map: map, root })
    }

    /// The file of the database.
    pub fn db_path(&self) -> (path: BlobPath)
        ensures
            path.root@ == self.root_view(),
            path.components_view() == seq![DB_FILE@],
    {
        let mut components: Vec<String> = Vec::new();
        components.push(DB_FILE.to_owned());
        let path = BlobPath { root: self.root.clone(), components };
        assert(path.components_view() =~= seq![DB_FILE@]);
        path
    }

    /// The file that the map is written to.
    pub fn map_path(&self) -> (path: BlobPath)
        ensures
            path.root@ == self.root_view(),
            path.components_view() == seq![MAP_FILE@],
    {
        let mut components: Vec<String> = Vec::new();
        components.push(MAP_FILE.to_owned());
        let path = BlobPath { root: self.root.clone(), components };
        assert(path.components_view() =~= seq![MAP_FILE@]);
        path
    }

    /// The row whose blob is to be opened for the key.
    ///
    /// # Error
    /// - Blob(BlobError::NotFound): the store does not hold the key.
    pub fn open_blob(&self, key: &Key) -> (res: Result<RowID, BlobStoreError>)
        ensures
            match res {
                Ok(row_id) => self.holds(*key) && row_id == self.rows()[row_key(*key)],
                Err(e) => !self.holds(*key) && e == BlobStoreError::Blob(BlobError::NotFound),
            },
    {
        let number = key_number(key);
        match self.key_to_row_map.get(&number) {
            Some(row_id) => Ok(*row_id),
            None => Err(BlobStoreError::Blob(BlobError::NotFound)),
        }
    }

    pub fn contains(&self, key: Key) -> (res: Result<bool, BlobStoreError>)
        ensures
            res matches Ok(found) ==> found == self.holds(key),
            res is Ok,
    {
        let number = key_number(&key);
        Ok(self.key_to_row_map.contains_key(&number))
    }

    /// First step of `put`: `Create` inserts a row with a blob of zeros as
    /// long as the value, `Replace` opens the row of the key.
    ///
    /// # Error
    /// - Blob(BlobError::AlreadyExists): the store holds the key and PutOpt::Create is used.
    /// - Blob(BlobError::NotFound): the store does not hold the key and PutOpt::Replace is used.
    pub fn put_begin(&self, key: Key, value_len: usize, opt: &PutOpt) -> (res: Result<
        PutStep,
        BlobStoreError,
    >)
        requires
            !(opt is ReplaceOrCreate),
        ensures
            match res {
                Ok(PutStep::Insert { zero_blob }) => {
                    &&& opt is Create
                    &&& !self.holds(key)
                    &&& zero_blob == value_len
                },
                Ok(PutStep::Open { row_id }) => {
                    &&& opt is Replace
                    &&& self.holds(key)
                    &&& row_id == self.rows()[row_key(key)]
                },
                Err(e) => e == BlobStoreError::Blob(
                    if opt is Create {
                        BlobError::AlreadyExists
                    } else {
                        BlobError::NotFound
                    },
                ) && self.holds(key) == (opt is Create),
            },
    {
        match opt {
            PutOpt::Create => {
                let number = key_number(&key);
                if self.key_to_row_map.contains_key(&number) {
                    return Err(BlobStoreError::Blob(BlobError::AlreadyExists));
                }
                Ok(PutStep::Insert { zero_blob: value_len as u64 })
            },
            PutOpt::Replace(_) => {
                match self.open_blob(&key) {
                    Ok(row_id) => Ok(PutStep::Open { row_id }),
                    Err(e) => Err(e),
                }
            },
            PutOpt::ReplaceOrCreate => vstd::pervasive::unreached(),
        }
    }

    /// Records the row that was inserted for the key.
    pub fn put_inserted(&mut self, key: Key, row_id: RowID)
        ensures
            final(self).rows() == old(self).rows().insert(row_key(key), row_id),
            final(self).root_view() == old(self).root_view(),
    {
        let number = key_number(&key);
        self.key_to_row_map.insert(number, row_id);
    }

    /// Second step of `put`, with the blob of the row open and `blob_len`
    /// bytes long: the offset to write the value at.
    ///
    /// # Error
    /// - Blob(BlobError::RangeError): the range of PutOpt::Replace leaves the blob or is not as
    ///   long as the value.
    pub fn put_write(opt: &PutOpt, value_len: usize, blob_len: usize) -> (res: Result<
        usize,
        BlobStoreError,
    >)
        requires
            !(opt is ReplaceOrCreate),
        ensures
            match res {
                Ok(offset) => put_write_result(*opt, value_len, blob_len) == Ok::<usize, BlobError>(
                    offset,
                ),
                Err(e) => e is Blob && put_write_result(*opt, value_len, blob_len) == Err::<
                    usize,
                    BlobError,
                >(e->Blob_0),
            },
    {
        match opt {
            PutOpt::Create => Ok(0),
            PutOpt::Replace(range) => {
                // check range
                let valid_range = 0..blob_len;
                if !range_contains(&valid_range, range) {
                    return Err(BlobStoreError::Blob(BlobError::RangeError));
                }
                if value_len != range_size(range) {
                    return Err(BlobStoreError::Blob(BlobError::RangeError));
                }
                Ok(range.start)
            },
            PutOpt::ReplaceOrCreate => vstd::pervasive::unreached(),
        }
    }

    /// Second step of `get`, with the blob of the row open and `blob_len`
    /// bytes long: the offset to read the buffer from.
    ///
    /// # Error
    /// - Blob(BlobError::RangeError): the range leaves the blob or the buffer is not as long as
    ///   what is read.
    pub fn get_read(opt: &GetOpt, buf_len: usize, blob_len: usize) -> (res: Result<
        usize,
        BlobStoreError,
    >)
        ensures
            match res {
                Ok(offset) => read_offset(*opt, blob_len as nat, buf_len as nat) == Ok::<
                    usize,
                    BlobError,
                >(offset),
                Err(e) => e is Blob && read_offset(*opt, blob_len as nat, buf_len as nat) == Err::<
                    usize,
                    BlobError,
                >(e->Blob_0),
            },
    {
        match opt {
            GetOpt::All => {
                if blob_len != buf_len {
                    return Err(BlobStoreError::Blob(BlobError::RangeError));
                }
                Ok(0)
            },
            GetOpt::Range(range) => {
                let len = range_size(range);
                if len != buf_len {
                    return Err(BlobStoreError::Blob(BlobError::RangeError));
                }
                let valid_range = 0..blob_len;
                if !range_contains(&valid_range, range) {
                    return Err(BlobStoreError::Blob(BlobError::RangeError));
                }
                Ok(range.start)
            },
        }
    }

    /// First step of `delete`: the store gives the key up and names the row
    /// that is to be deleted.
    ///
    /// # Error
    /// - Blob(BlobError::NotFound): the store does not hold the key.
    pub fn delete_begin(&mut self, key: Key, opt: &DeleteOpt) -> (res: Result<
        RowID,
        BlobStoreError,
    >)
        requires
            opt is Discard,
        ensures
            final(self).root_view() == old(self).root_view(),
            final(self).rows() == old(self).rows().remove(row_key(key)),
            match res {
                Ok(row_id) => old(self).holds(key) && row_id == old(self).rows()[row_key(key)],
                Err(e) => !old(self).holds(key) && e == BlobStoreError::Blob(BlobError::NotFound),
            },
    {
        let number = key_number(&key);
        match self.key_to_row_map.remove(&number) {
            Some(row_id) => Ok(row_id),
            None => Err(BlobStoreError::Blob(BlobError::NotFound)),
        }
    }

    /// The bytes that are written to the file of the map on shutdown. A
    /// store that is connected with them holds the same rows.
    ///
    /// # Error
    /// - Other: the map cannot be written as bytes.
    pub fn dump(&self) -> (res: Result<Vec<u8>, BlobStoreError>)
        ensures
            match res {
                Ok(bytes) => initial_rows(Some(bytes@)) == Some(self.rows()),
                Err(e) => e is Other,
            },
    {
        match encode_rows(&self.key_to_row_map) {
            Ok(bytes) => Ok(bytes),
            Err(e) => Err(BlobStoreError::Other(wrap_error(e))),
        }
    }
}

/// Two keys are kept under the same number only if they are the same key.
pub proof fn law_row_key_injective(a: Key, b: Key)
    requires
        row_key(a) == row_key(b),
    ensures
        a == b,
{
    vstd::bytes::lemma_auto_spec_u64_to_from_le_bytes();
    assert(a@.len() == 8 && b@.len() == 8);
    assert(vstd::bytes::spec_u64_to_le_bytes(vstd::bytes::spec_u64_from_le_bytes(a@)) == a@);
    assert(vstd::bytes::spec_u64_to_le_bytes(vstd::bytes::spec_u64_from_le_bytes(b@)) == b@);
    assert(a@ =~= b@);
    assert(a =~= b);
}

} // verus!
