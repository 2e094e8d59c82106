//! Error taxonomy of the blob store: three precondition failures that are
//! decided by the store's contents alone, and the failures of the substrate
//! underneath, which are carried through untouched.

use vstd::prelude::*;

verus! {

/// `std::io::Error`, carried through as an opaque value.
#[verifier::external_type_specification]
#[verifier::external_body]
pub struct ExIoError(std::io::Error);

/// `rusqlite::Error`, carried through as an opaque value.
#[verifier::external_type_specification]
#[verifier::external_body]
pub struct ExSqliteError(rusqlite::Error);

/// `anyhow::Error`, carried through as an opaque value.
#[verifier::external_type_specification]
#[verifier::external_body]
pub struct ExAnyhowError(anyhow::Error);

/// A failure that depends only on what the store holds and on the request.
#[derive(Debug, Clone, Copy, PartialEq, Eq, Structural)]
pub enum BlobError {
    /// The operand key does not resolve to a blob.
    NotFound,
    /// Creation was asked for a key that already has a blob.
    AlreadyExists,
    /// A range leaves the blob, or a length does not match the range.
    RangeError,
}

/// The kinds of I/O failure that the stores tell apart.
#[derive(Debug, Clone, Copy, PartialEq, Eq, Structural)]
pub enum IoErrorKind {
    NotFound,
    AlreadyExists,
    Other,
}

/// The kind of an I/O failure, as `std::io::Error::kind` gives it, sorted
/// into the kinds that the stores tell apart.
pub uninterp spec fn io_kind_of(e: std::io::Error) -> IoErrorKind;

/// Calls `std::io::Error::kind` and sorts the answer into the kinds that the
/// stores tell apart.
#[verifier::external_body]
pub(crate) fn io_error_kind(e: &std::io::Error) -> (kind: IoErrorKind)
    ensures
        kind == io_kind_of(*e),
{
    match e.kind() {
        std::io::ErrorKind::NotFound => IoErrorKind::NotFound,
        std::io::ErrorKind::AlreadyExists => IoErrorKind::AlreadyExists,
        _ => IoErrorKind::Other,
    }
}

/// Calls `std::io::Error::new` with the kind and the message given; the
/// error that it makes has that kind.
#[verifier::external_body]
pub(crate) fn new_io_error(kind: IoErrorKind, message: &str) -> (err: std::io::Error)
    ensures
        io_kind_of(err) == kind,
{
    let kind = match kind {
        IoErrorKind::NotFound => std::io::ErrorKind::NotFound,
        IoErrorKind::AlreadyExists => std::io::ErrorKind::AlreadyExists,
        IoErrorKind::Other => std::io::ErrorKind::Other,
    };
    std::io::Error::new(kind, message)
}

/// Calls `anyhow::Error::msg`, which makes an error that carries the
/// message.
#[verifier::external_body]
pub(crate) fn anyhow_message(message: &str) -> anyhow::Error {
    anyhow::Error::msg(message.to_string())
}

/// Every way an operation of a store can fail.
#[derive(Debug)]
pub enum BlobStoreError {
    Blob(BlobError),
    Io(std::io::Error),
    Sqlite(rusqlite::Error),
    Other(anyhow::Error),
}

impl BlobStoreError {
    pub fn other(e: anyhow::Error) -> (err: BlobStoreError)
        ensures
            err == BlobStoreError::Other(e),
    {
        BlobStoreError::Other(e)
    }

    /// The error that a store reports for an I/O failure of the given kind:
    /// `NotFound` and `AlreadyExists` become the precondition failure of the
    /// same name where the operation reads them so, and every other failure
    /// is handed on as it came.
    pub fn from_io_kind(
        kind: IoErrorKind,
        e: std::io::Error,
        not_found_is_blob: bool,
        already_exists_is_blob: bool,
    ) -> (err: BlobStoreError)
        ensures
            err == Self::io_kind_error(kind, e, not_found_is_blob, already_exists_is_blob),
    {
        match kind {
            IoErrorKind::NotFound => if not_found_is_blob {
                BlobStoreError::Blob(BlobError::NotFound)
            } else {
                BlobStoreError::Io(e)
            },
            IoErrorKind::AlreadyExists => if already_exists_is_blob {
                BlobStoreError::Blob(BlobError::AlreadyExists)
            } else {
                BlobStoreError::Io(e)
            },
            IoErrorKind::Other => BlobStoreError::Io(e),
        }
    }

    /// What `from_io_kind` returns.
    pub open spec fn io_kind_error(
        kind: IoErrorKind,
        e: std::io::Error,
        not_found_is_blob: bool,
        already_exists_is_blob: bool,
    ) -> BlobStoreError {
        if kind == IoErrorKind::NotFound && not_found_is_blob {
            BlobStoreError::Blob(BlobError::NotFound)
        } else if kind == IoErrorKind::AlreadyExists && already_exists_is_blob {
            BlobStoreError::Blob(BlobError::AlreadyExists)
        } else {
            BlobStoreError::Io(e)
        }
    }

    /// The error that a store reports for an I/O failure, by its kind.
    pub fn from_io(e: std::io::Error, not_found_is_blob: bool, already_exists_is_blob: bool) -> (err:
        BlobStoreError)
        ensures
            err == Self::io_kind_error(
                io_kind_of(e),
                e,
                not_found_is_blob,
                already_exists_is_blob,
            ),
    {
        let kind = io_error_kind(&e);
        Self::from_io_kind(kind, e, not_found_is_blob, already_exists_is_blob)
    }

    /// The precondition failure that this error reports, if it is one.
    pub open spec fn blob_error(self) -> Option<BlobError> {
        match self {
            BlobStoreError::Blob(e) => Some(e),
            _ => None,
        }
    }
}

} // verus!
