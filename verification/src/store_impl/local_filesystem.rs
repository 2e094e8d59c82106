//! The directory-of-files backend: each blob is one regular file under the
//! root directory.
//!
//! The store itself holds only the root. What is decided here is where the
//! file of a key lies, how it is opened for each kind of request, which
//! failures of the file system are precondition failures of the store, and
//! where in the file the bytes go. Opening, seeking, reading and writing are
//! done by the caller, who hands back what the file system said.

use vstd::prelude::*;
use crate::error::{io_kind_of, new_io_error, BlobError, BlobStoreError, IoErrorKind};
use crate::model::{put_result, read_offset, replace_offset, Blobs};
use crate::store_impl::helpers::{
    key_to_path, open_outcome, range_contains, range_size, resized, written, BlobPath, OpenMode,
};
use crate::{DeleteOpt, GetOpt, Key, PutOpt};

verus! {

pub struct LocalFileSystemBlobStore {
    root: String,
}

/// First step of a `put`: which file to open, and how.
#[derive(Debug)]
pub struct OpenRequest {
    pub path: BlobPath,
    /// Whether the directories above the file are created first.
    pub create_parent: bool,
    pub mode: OpenMode,
}

/// Second step of a `put`, on the opened file: the length to set, the offset
/// to seek to, and then the value is written where the cursor stands.
#[derive(Debug, Clone, Copy, PartialEq, Eq, Structural)]
pub struct WriteRequest {
    pub set_len: Option<usize>,
    pub seek: Option<usize>,
}

impl WriteRequest {
    /// What the file holds after the request was carried out on a file that
    /// was just opened, holding `file`, and `value` was written.
    pub open spec fn file_after(self, file: Seq<u8>, value: Seq<u8>) -> Seq<u8> {
        let sized = match self.set_len {
            Some(len) => resized(file, len as nat),
            None => file,
        };
        let at = match self.seek {
            Some(offset) => offset as nat,
            None => 0,
        };
        written(sized, at, value)
    }
}

/// How `put` opens the file for `opt`.
pub open spec fn put_mode(opt: PutOpt) -> OpenMode {
    match opt {
        PutOpt::Create => OpenMode::CreateNew,
        PutOpt::Replace(_) => OpenMode::Existing,
        PutOpt::ReplaceOrCreate => OpenMode::CreateOrOpen,
    }
}

/// What `put_write` asks for, or the precondition failure.
pub open spec fn put_write_result(opt: PutOpt, value_len: usize, file_len: usize) -> Result<
    WriteRequest,
    BlobError,
> {
    match opt {
        PutOpt::Create => Ok(WriteRequest { set_len: Some(value_len), seek: None }),
        PutOpt::Replace(r) => match replace_offset(r, file_len as nat, value_len as nat) {
            Ok(offset) => Ok(WriteRequest { set_len: None, seek: Some(offset) }),
            Err(e) => Err(e),
        },
        PutOpt::ReplaceOrCreate => Ok(WriteRequest { set_len: Some(value_len), seek: Some(0) }),
    }
}

impl LocalFileSystemBlobStore {
    /// The root directory.
    pub closed spec fn root_view(&self) -> Seq<char> {
        self.root@
    }

    /// Connects to the store under `root`, which has to exist already:
    /// `root_exists` is what the file system said of it.
    pub fn connect(root: String, root_exists: bool) -> (res: Result<Self, BlobStoreError>)
        ensures
            root_exists ==> res is Ok && res->Ok_0.root_view() == root@,
            !root_exists ==> (res matches Err(BlobStoreError::Io(e)) && io_kind_of(e)
                == IoErrorKind::NotFound),
    {
        if !root_exists {
            return Err(
                BlobStoreError::Io(new_io_error(IoErrorKind::NotFound, "dev path not found")),
            );
        }
        Ok(Self { root })
    }

    pub fn root(&self) -> (root: &String)
        ensures
            root@ == self.root_view(),
    {
        &self.root
    }

    /// `root / first_half_hex / second_half_hex` for the key.
    pub fn key_to_path(&self, key: &Key) -> (path: BlobPath)
        ensures
            path.is_path_of(self.root_view(), *key),
    {
        key_to_path(&self.root, key)
    }

    /// First step of `put`: the file of the key, opened as `opt` asks.
    /// `Create` and `ReplaceOrCreate` make the directories above it first.
    pub fn put_open(&self, key: &Key, opt: &PutOpt) -> (req: OpenRequest)
        ensures
            req.path.is_path_of(self.root_view(), *key),
            req.create_parent == !(opt is Replace),
            req.mode == put_mode(*opt),
    {
        let path = self.key_to_path(key);
        match opt {
            PutOpt::Create => OpenRequest { path, create_parent: true, mode: OpenMode::CreateNew },
            PutOpt::Replace(_) => OpenRequest {
                path,
                create_parent: false,
                mode: OpenMode::Existing,
            },
            PutOpt::ReplaceOrCreate => OpenRequest {
                path,
                create_parent: true,
                mode: OpenMode::CreateOrOpen,
            },
        }
    }

    /// The error of a `put` whose file could not be opened: a file that is
    /// there already is `AlreadyExists`, one that is missing is `NotFound`.
    pub fn put_open_error(e: std::io::Error) -> (err: BlobStoreError)
        ensures
            err == BlobStoreError::io_kind_error(io_kind_of(e), e, true, true),
    {
        BlobStoreError::from_io(e, true, true)
    }

    /// Second step of `put`, with the file open: `file_len` is its length,
    /// which is read for `Replace` only.
    pub fn put_write(opt: &PutOpt, value_len: usize, file_len: usize) -> (res: Result<
        WriteRequest,
        BlobStoreError,
    >)
        ensures
            match res {
                Ok(req) => put_write_result(*opt, value_len, file_len) == Ok::<
                    WriteRequest,
                    BlobError,
                >(req),
                Err(e) => e is Blob && put_write_result(*opt, value_len, file_len) == Err::<
                    WriteRequest,
                    BlobError,
                >(e->Blob_0),
            },
    {
        match opt {
            PutOpt::Create => Ok(WriteRequest { set_len: Some(value_len), seek: None }),
            PutOpt::Replace(range) => {
                // check range validity
                let valid_range = 0..file_len;
                if !range_contains(&valid_range, range) {
                    return Err(BlobStoreError::Blob(BlobError::RangeError));
                }
                if range_size(range) != value_len {
                    return Err(BlobStoreError::Blob(BlobError::RangeError));
                }
                Ok(WriteRequest { set_len: None, seek: Some(range.start) })
            },
            PutOpt::ReplaceOrCreate => Ok(
                WriteRequest { set_len: Some(value_len), seek: Some(0) },
            ),
        }
    }

    /// The error of a `meta`, `get` or `delete` whose file could not be
    /// reached: a file that is missing is `NotFound`.
    pub fn missing_file_error(e: std::io::Error) -> (err: BlobStoreError)
        ensures
            err == BlobStoreError::io_kind_error(io_kind_of(e), e, true, false),
    {
        BlobStoreError::from_io(e, true, false)
    }

    /// Second step of `get`, with the file open and `file_len` bytes long:
    /// the offset to read the buffer from.
    pub fn get_read(opt: &GetOpt, buf_len: usize, file_len: usize) -> (res: Result<
        usize,
        BlobStoreError,
    >)
        ensures
            match res {
                Ok(offset) => read_offset(*opt, file_len as nat, buf_len as nat) == Ok::<
                    usize,
                    BlobError,
                >(offset),
                Err(e) => e is Blob && read_offset(*opt, file_len as nat, buf_len as nat) == Err::<
                    usize,
                    BlobError,
                >(e->Blob_0),
            },
    {
        match opt {
            GetOpt::All => {
                if file_len != buf_len {
                    return Err(BlobStoreError::Blob(BlobError::RangeError));
                }
                Ok(0)
            },
            GetOpt::Range(range) => {
                let valid_range = 0..file_len;
                if !range_contains(&valid_range, range) {
                    return Err(BlobStoreError::Blob(BlobError::RangeError));
                }
                let len = range_size(range);
                if len != buf_len {
                    return Err(BlobStoreError::Blob(BlobError::RangeError));
                }
                Ok(range.start)
            },
        }
    }

    /// What `delete` returns once the file was removed.
    pub fn deleted(opt: &DeleteOpt) -> (res: Result<Option<Vec<u8>>, BlobStoreError>)
        requires
            opt is Discard,
        ensures
            res matches Ok(None),
    {
        Ok(None)
    }
}

/// A `put` that is carried out as `put_open` and `put_write` ask does to the
/// file of the key what the blob store contract asks of `put`.
///
/// `file` is what the file of the key holds before, `None` where there is
/// none. Where opening fails, the kind of the failure is the precondition
/// failure of the contract. Where `put_write` refuses, so does the contract.
/// Otherwise the file afterwards holds the blob that the contract asks for.
pub proof fn law_put_on_file(key: Key, file: Option<Seq<u8>>, value: Seq<u8>, opt: PutOpt)
    requires
        value.len() <= usize::MAX,
        file matches Some(bytes) ==> bytes.len() <= usize::MAX,
    ensures
        ({
            let blobs: Blobs = match file {
                Some(bytes) => Map::<Key, Seq<u8>>::empty().insert(key, bytes),
                None => Map::<Key, Seq<u8>>::empty(),
            };
            match open_outcome(put_mode(opt), file) {
                Err(kind) => put_result(blobs, key, value, opt) == Err::<Blobs, BlobError>(
                    if kind == IoErrorKind::NotFound {
                        BlobError::NotFound
                    } else {
                        BlobError::AlreadyExists
                    },
                ),
                Ok(opened) => match put_write_result(
                    opt,
                    value.len() as usize,
                    opened.len() as usize,
                ) {
                    Err(e) => put_result(blobs, key, value, opt) == Err::<Blobs, BlobError>(e),
                    Ok(req) => put_result(blobs, key, value, opt) == Ok::<Blobs, BlobError>(
                        blobs.insert(key, req.file_after(opened, value)),
                    ),
                },
            }
        }),
{
    let blobs: Blobs = match file {
        Some(bytes) => Map::<Key, Seq<u8>>::empty().insert(key, bytes),
        None => Map::<Key, Seq<u8>>::empty(),
    };
    match open_outcome(put_mode(opt), file) {
        Err(kind) => {},
        Ok(opened) => {
            match put_write_result(opt, value.len() as usize, opened.len() as usize) {
                Err(e) => {},
                Ok(req) => {
                    let after = req.file_after(opened, value);
                    match opt {
                        PutOpt::Replace(r) => {
                            assert(after =~= crate::model::overwrite(
                                opened,
                                r.start as int,
                                value,
                            ));
                        },
                        _ => {
                            assert(after =~= value);
                        },
                    }
                },
            }
        },
    }
}

} // verus!
