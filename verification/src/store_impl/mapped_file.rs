//! The memory-mapped backend: the file of each blob is mapped into memory on
//! first touch, and a bounded number of mappings is kept, the least recently
//! used one being given up for a new one.
//!
//! The store keeps the keys that are mapped, in the order of their last use,
//! each with the length of its mapping, and decides from them what a request
//! needs: the bytes of a mapping that is there, or the file to map first.
//! The mappings themselves are held by the caller, who opens and maps the
//! files, copies the bytes and gives up the mapping that the store names.

use vstd::prelude::*;
use crate::error::{
    anyhow_message, io_kind_of, new_io_error, BlobError, BlobStoreError, IoErrorKind,
};
use crate::model::{
    delete_result, overwrite, put_result, read_offset, replace_offset, Blobs,
};
use crate::store_impl::helpers::{key_to_path, range_contains, range_size, BlobPath, OpenMode};
use crate::store_impl::lru_order::{
    distinct_keys, has_key, lemma_drop_first_distinct, lemma_index_of, lemma_push_fresh,
    lemma_split, lemma_touched, lemma_without, lru_bounded, lru_contains, lru_entries, lru_get,
    lru_limit, lru_pop, lru_push, touched, value_of, without,
};
use crate::{DeleteOpt, GetOpt, Key, PutOpt};

verus! {

/// What a `MemMapStore` stands for: the keys that are mapped, the least
/// recently used first, each with the length of its mapping, and the number
/// of mappings that are kept at most.
pub struct MapModel {
    pub root: Seq<char>,
    pub pages: Seq<(Key, usize)>,
    pub limit: nat,
}

/// The mappings after a new one was entered for `key`: it replaces the one
/// that the key had, or else, where the limit is reached, the least recently
/// used one.
pub open spec fn entered(pages: Seq<(Key, usize)>, key: Key, len: usize, limit: nat) -> Seq<
    (Key, usize),
> {
    if has_key(pages, key) {
        without(pages, key).push((key, len))
    } else if pages.len() == limit && limit != usize::MAX {
        pages.drop_first().push((key, len))
    } else {
        pages.push((key, len))
    }
}

/// The key whose mapping is given up when a new one is entered for `key`.
pub open spec fn displaced(pages: Seq<(Key, usize)>, key: Key, limit: nat) -> Option<Key> {
    if !has_key(pages, key) && pages.len() == limit && limit != usize::MAX {
        Some(pages[0].0)
    } else {
        None
    }
}

/// After a mapping was entered for a key, the key is mapped with the length
/// of that mapping, no key is mapped twice, and every other key is mapped
/// as before but the one whose mapping was given up.
pub proof fn lemma_entered(pages: Seq<(Key, usize)>, key: Key, len: usize, limit: nat)
    requires
        distinct_keys(pages),
        limit > 0,
    ensures
        distinct_keys(entered(pages, key, len, limit)),
        has_key(entered(pages, key, len, limit), key),
        value_of(entered(pages, key, len, limit), key) == len,
        forall|k: Key|
            k != key ==> (has_key(entered(pages, key, len, limit), k) <==> (has_key(pages, k)
                && displaced(pages, key, limit) != Some(k))),
        forall|k: Key|
            k != key && has_key(entered(pages, key, len, limit), k) ==> value_of(
                entered(pages, key, len, limit),
                k,
            ) == value_of(pages, k),
        limit != usize::MAX && pages.len() <= limit ==> entered(pages, key, len, limit).len()
            <= limit,
{
    lemma_without(pages, key);
    lemma_push_fresh(without(pages, key), (key, len));
    if !has_key(pages, key) {
        if pages.len() > 0 {
            lemma_drop_first_distinct(pages);
            lemma_push_fresh(pages.drop_first(), (key, len));
            lemma_split(pages, 1);
            assert(pages.skip(1) =~= pages.drop_first());
            lemma_index_of(pages, 0);
            assert forall|k: Key|
                k != key && has_key(pages.drop_first().push((key, len)), k) implies value_of(
                pages.drop_first().push((key, len)),
                k,
            ) == value_of(pages, k) by {
                assert(has_key(pages.drop_first(), k));
            }
        }
        lemma_push_fresh(pages, (key, len));
    } else {
        let after = without(pages, key).push((key, len));
        assert forall|k: Key| k != key && has_key(after, k) implies value_of(after, k) == value_of(
            pages,
            k,
        ) by {
            assert(has_key(without(pages, key), k));
        }
    }
}

/// The file that has to be mapped before a request can go on.
#[derive(Debug)]
pub struct MapRequest {
    pub path: BlobPath,
    /// Whether the directories above the file are created first.
    pub create_parent: bool,
    pub mode: OpenMode,
    /// The length that the file is given before it is mapped.
    pub set_len: Option<usize>,
}

/// What a `put` needs next.
#[derive(Debug)]
pub enum PutStep {
    /// The key is mapped: the value goes into its mapping at the offset.
    Write { offset: usize },
    /// The key is not mapped: its file is to be mapped first.
    Open(MapRequest),
}

/// What a `get` needs next.
#[derive(Debug)]
pub enum GetStep {
    /// The key is mapped: the buffer is filled from its mapping at the
    /// offset.
    Read { offset: usize },
    /// The key is not mapped: its file, which has to exist, is to be mapped
    /// first.
    Open(BlobPath),
}

/// What follows the mapping of a file.
#[derive(Debug)]
pub struct Mapped {
    /// Where in the new mapping the bytes are written or read.
    pub offset: usize,
    /// The key whose mapping is to be given up.
    pub unmapped: Option<Key>,
}

pub struct MemMapStore {
    root: String,
    cache: lru::LruCache<Key, usize>,
}

impl View for MemMapStore {
    type V = MapModel;

    closed spec fn view(&self) -> MapModel {
        MapModel { root: self.root@, pages: lru_entries(self.cache), limit: lru_limit(self.cache) }
    }
}

/// The number of mappings that a store keeps where none is named.
pub const DEFAULT_CACHE_SIZE: usize = 64;

impl MemMapStore {
    /// No key is mapped twice, and no more mappings are kept than the limit
    /// allows.
    pub open spec fn wf(&self) -> bool {
        &&& distinct_keys(self@.pages)
        &&& self@.limit > 0
        &&& self@.limit != usize::MAX ==> self@.pages.len() <= self@.limit
    }

    /// Connects to the store under `root`, which has to exist already:
    /// `root_exists` is what the file system said of it. The store keeps 64
    /// mappings.
    pub fn connect(root: String, root_exists: bool) -> (res: Result<Self, BlobStoreError>)
        ensures
            root_exists ==> res is Ok && res->Ok_0.wf() && res->Ok_0@ == (MapModel {
                root: root@,
                pages: Seq::empty(),
                limit: DEFAULT_CACHE_SIZE as nat,
            }),
            !root_exists ==> (res matches Err(BlobStoreError::Io(e)) && io_kind_of(e)
                == IoErrorKind::NotFound),
    {
        if !root_exists {
            return Err(
                BlobStoreError::Io(new_io_error(IoErrorKind::NotFound, "dev path not found")),
            );
        }
        Ok(Self { root, cache: lru_bounded(DEFAULT_CACHE_SIZE) })
    }

    /// Connects to the store under `root`, which has to exist already, with
    /// room for `cache_size` mappings, which must not be 0.
    pub fn connect_with_cache_size(root: String, root_exists: bool, cache_size: usize) -> (res:
        Result<Self, BlobStoreError>)
        ensures
            root_exists && cache_size != 0 ==> res is Ok && res->Ok_0.wf() && res->Ok_0@
                == (MapModel { root: root@, pages: Seq::empty(), limit: cache_size as nat }),
            !root_exists ==> (res matches Err(BlobStoreError::Io(e)) && io_kind_of(e)
                == IoErrorKind::NotFound),
            root_exists && cache_size == 0 ==> res is Err && res->Err_0 is Other,
    {
        if !root_exists {
            return Err(
                BlobStoreError::Io(new_io_error(IoErrorKind::NotFound, "dev path not found")),
            );
        }
        if cache_size == 0 {
            return Err(BlobStoreError::Other(anyhow_message("invalid cache size")));
        }
        Ok(Self { root, cache: lru_bounded(cache_size) })
    }

    /// `root / first_half_hex / second_half_hex` for the key.
    pub fn key_to_path(&self, key: &Key) -> (path: BlobPath)
        ensures
            path.is_path_of(self@.root, *key),
    {
        key_to_path(&self.root, key)
    }

    /// Whether the key is mapped. The order of the mappings is left alone.
    pub fn is_mapped(&self, key: &Key) -> (found: bool)
        ensures
            found == has_key(self@.pages, *key),
    {
        lru_contains(&self.cache, key)
    }

    /// The error of a `Create` whose file could not be opened: a file that
    /// is there already is `AlreadyExists`.
    pub fn create_error(e: std::io::Error) -> (err: BlobStoreError)
        ensures
            err == BlobStoreError::io_kind_error(io_kind_of(e), e, false, true),
    {
        BlobStoreError::from_io(e, false, true)
    }

    /// The error of any other request whose file could not be reached: a
    /// file that is missing is `NotFound`.
    pub fn missing_file_error(e: std::io::Error) -> (err: BlobStoreError)
        ensures
            err == BlobStoreError::io_kind_error(io_kind_of(e), e, true, false),
    {
        BlobStoreError::from_io(e, true, false)
    }

    /// Enters a mapping of `len` bytes for the key as the most recently used
    /// one and names the key whose mapping is given up for it.
    fn enter(&mut self, key: Key, len: usize) -> (unmapped: Option<Key>)
        requires
            old(self).wf(),
        ensures
            final(self).wf(),
            final(self)@ == (MapModel {
                pages: entered(old(self)@.pages, key, len, old(self)@.limit),
                ..old(self)@
            }),
            unmapped == displaced(old(self)@.pages, key, old(self)@.limit),
    {
        proof {
            lemma_entered(self@.pages, key, len, self@.limit);
        }
        let was_mapped = lru_contains(&self.cache, &key);
        let out = lru_push(&mut self.cache, key, len);
        if was_mapped {
            None
        } else {
            match out {
                Some(entry) => Some(entry.0),
                None => None,
            }
        }
    }

    /// First step of `put`. `Create` always maps the file anew, after it was
    /// created with the length of the value. `Replace` writes into the
    /// mapping of the key where there is one, which becomes the most
    /// recently used one, and maps the file otherwise.
    ///
    /// # Error
    /// - Blob(BlobError::RangeError): the key is mapped, and the range of PutOpt::Replace ends
    ///   behind the mapping or is not as long as the value.
    pub fn put_begin(&mut self, key: Key, value_len: usize, opt: &PutOpt) -> (res: Result<
        PutStep,
        BlobStoreError,
    >)
        requires
            old(self).wf(),
            !(opt is ReplaceOrCreate),
        ensures
            final(self).wf(),
            final(self)@ == (MapModel {
                pages: if opt is Replace {
                    touched(old(self)@.pages, key)
                } else {
                    old(self)@.pages
                },
                ..old(self)@
            }),
            match res {
                Ok(PutStep::Write { offset }) => {
                    &&& *opt matches PutOpt::Replace(r)
                    &&& has_key(old(self)@.pages, key)
                    &&& replace_offset(
                        r,
                        value_of(old(self)@.pages, key) as nat,
                        value_len as nat,
                    ) == Ok::<usize, BlobError>(offset)
                },
                Ok(PutStep::Open(req)) => {
                    &&& req.path.is_path_of(old(self)@.root, key)
                    &&& opt is Replace ==> !has_key(old(self)@.pages, key)
                    &&& req.create_parent == (opt is Create)
                    &&& req.mode == if opt is Create {
                        OpenMode::CreateNew
                    } else {
                        OpenMode::Existing
                    }
                    &&& req.set_len == if opt is Create {
                        Some(value_len)
                    } else {
                        None
                    }
                },
                Err(e) => {
                    &&& *opt matches PutOpt::Replace(r)
                    &&& has_key(old(self)@.pages, key)
                    &&& e is Blob
                    &&& replace_offset(
                        r,
                        value_of(old(self)@.pages, key) as nat,
                        value_len as nat,
                    ) == Err::<usize, BlobError>(e->Blob_0)
                },
            },
    {
        proof {
            lemma_touched(self@.pages, key);
        }
        match opt {
            PutOpt::Create => {
                // create a new file
                let path = self.key_to_path(&key);
                Ok(
                    PutStep::Open(
                        MapRequest {
                            path,
                            create_parent: true,
                            mode: OpenMode::CreateNew,
                            set_len: Some(value_len),
                        },
                    ),
                )
            },
            PutOpt::Replace(range) => {
                if let Some(page_len) = lru_get(&mut self.cache, &key) {
                    if range.end > page_len {
                        return Err(BlobStoreError::Blob(BlobError::RangeError));
                    }
                    if value_len != range_size(range) {
                        return Err(BlobStoreError::Blob(BlobError::RangeError));
                    }
                    return Ok(PutStep::Write { offset: range.start });
                }
                // fall through to cache miss
                let path = self.key_to_path(&key);
                Ok(
                    PutStep::Open(
                        MapRequest {
                            path,
                            create_parent: false,
                            mode: OpenMode::Existing,
                            set_len: None,
                        },
                    ),
                )
            },
            PutOpt::ReplaceOrCreate => vstd::pervasive::unreached(),
        }
    }

    /// Second step of a `put` that had to map the file: `page_len` is the
    /// length of the new mapping. Where the request fits, the mapping is
    /// kept as the most recently used one; where it does not, it is not
    /// kept.
    ///
    /// # Error
    /// - Blob(BlobError::RangeError): the range of PutOpt::Replace leaves the mapping or is not
    ///   as long as the value.
    pub fn put_mapped(&mut self, key: Key, value_len: usize, opt: &PutOpt, page_len: usize) -> (res:
        Result<Mapped, BlobStoreError>)
        requires
            old(self).wf(),
            !(opt is ReplaceOrCreate),
            opt is Create ==> page_len == value_len,
        ensures
            final(self).wf(),
            match res {
                Ok(mapped) => {
                    &&& match *opt {
                        PutOpt::Replace(r) => replace_offset(r, page_len as nat, value_len as nat)
                            == Ok::<usize, BlobError>(mapped.offset),
                        _ => mapped.offset == 0,
                    }
                    &&& mapped.unmapped == displaced(old(self)@.pages, key, old(self)@.limit)
                    &&& final(self)@ == (MapModel {
                        pages: entered(old(self)@.pages, key, page_len, old(self)@.limit),
                        ..old(self)@
                    })
                },
                Err(e) => {
                    &&& e == BlobStoreError::Blob(BlobError::RangeError)
                    &&& *opt matches PutOpt::Replace(r)
                    &&& replace_offset(r, page_len as nat, value_len as nat) is Err
                    &&& final(self)@ == old(self)@
                },
            },
    {
        match opt {
            PutOpt::Create => {
                let unmapped = self.enter(key, page_len);
                Ok(Mapped { offset: 0, unmapped })
            },
            PutOpt::Replace(range) => {
                if !range_contains(&(0..page_len), range) {
                    return Err(BlobStoreError::Blob(BlobError::RangeError));
                }
                if value_len != range_size(range) {
                    return Err(BlobStoreError::Blob(BlobError::RangeError));
                }
                let unmapped = self.enter(key, page_len);
                Ok(Mapped { offset: range.start, unmapped })
            },
            PutOpt::ReplaceOrCreate => vstd::pervasive::unreached(),
        }
    }

    /// Checks a read against a mapping of `page_len` bytes.
    fn check_read(opt: &GetOpt, buf_len: usize, page_len: usize) -> (res: Result<
        usize,
        BlobStoreError,
    >)
        ensures
            match res {
                Ok(offset) => read_offset(*opt, page_len as nat, buf_len as nat) == Ok::<usize, BlobError>(offset),
                Err(e) => e is Blob && read_offset(*opt, page_len as nat, buf_len as nat) == Err::<
                    usize,
                    BlobError,
                >(e->Blob_0),
            },
    {
        match opt {
            GetOpt::All => {
                if buf_len != page_len {
                    return Err(BlobStoreError::Blob(BlobError::RangeError));
                }
                Ok(0)
            },
            GetOpt::Range(range) => {
                if !range_contains(&(0..page_len), range) {
                    return Err(BlobStoreError::Blob(BlobError::RangeError));
                }
                if buf_len != range_size(range) {
                    return Err(BlobStoreError::Blob(BlobError::RangeError));
                }
                Ok(range.start)
            },
        }
    }

    /// First step of `get`: reads from the mapping of the key where there is
    /// one, which becomes the most recently used one, and maps the file
    /// otherwise.
    ///
    /// # Error
    /// - Blob(BlobError::RangeError): the key is mapped, and the range leaves the mapping or the
    ///   buffer is not as long as what is read.
    pub fn get_begin(&mut self, key: Key, buf_len: usize, opt: &GetOpt) -> (res: Result<
        GetStep,
        BlobStoreError,
    >)
        requires
            old(self).wf(),
        ensures
            final(self).wf(),
            final(self)@ == (MapModel { pages: touched(old(self)@.pages, key), ..old(self)@ }),
            match res {
                Ok(GetStep::Read { offset }) => {
                    &&& has_key(old(self)@.pages, key)
                    &&& read_offset(*opt, value_of(old(self)@.pages, key) as nat, buf_len as nat) == Ok::<
                        usize,
                        BlobError,
                    >(offset)
                },
                Ok(GetStep::Open(path)) => {
                    &&& !has_key(old(self)@.pages, key)
                    &&& path.is_path_of(old(self)@.root, key)
                },
                Err(e) => {
                    &&& has_key(old(self)@.pages, key)
                    &&& e is Blob
                    &&& read_offset(*opt, value_of(old(self)@.pages, key) as nat, buf_len as nat) == Err::<
                        usize,
                        BlobError,
                    >(e->Blob_0)
                },
            },
    {
        proof {
            lemma_touched(self@.pages, key);
        }
        if lru_contains(&self.cache, &key) {
            let page_len = lru_get(&mut self.cache, &key).unwrap();
            match Self::check_read(opt, buf_len, page_len) {
                Ok(offset) => Ok(GetStep::Read { offset }),
                Err(e) => Err(e),
            }
        } else {
            Ok(GetStep::Open(self.key_to_path(&key)))
        }
    }

    /// Second step of a `get` that had to map the file: `page_len` is the
    /// length of the new mapping, which is kept as the most recently used
    /// one whether the read fits or not. Returns the key whose mapping is to
    /// be given up, and the offset to read from.
    ///
    /// # Error
    /// - Blob(BlobError::RangeError): the range leaves the mapping or the buffer is not as long
    ///   as what is read.
    pub fn get_mapped(&mut self, key: Key, buf_len: usize, opt: &GetOpt, page_len: usize) -> (res: (
        Option<Key>,
        Result<usize, BlobStoreError>,
    ))
        requires
            old(self).wf(),
        ensures
            final(self).wf(),
            final(self)@ == (MapModel {
                pages: entered(old(self)@.pages, key, page_len, old(self)@.limit),
                ..old(self)@
            }),
            res.0 == displaced(old(self)@.pages, key, old(self)@.limit),
            match res.1 {
                Ok(offset) => read_offset(*opt, page_len as nat, buf_len as nat) == Ok::<usize, BlobError>(
                    offset,
                ),
                Err(e) => e is Blob && read_offset(*opt, page_len as nat, buf_len as nat) == Err::<
                    usize,
                    BlobError,
                >(e->Blob_0),
            },
    {
        let unmapped = self.enter(key, page_len);
        (unmapped, Self::check_read(opt, buf_len, page_len))
    }

    /// First step of `delete`: the mapping of the key, if there is one, is
    /// to be given up, and the file at the path returned is to be removed.
    pub fn delete_begin(&mut self, key: Key, opt: &DeleteOpt) -> (path: BlobPath)
        requires
            old(self).wf(),
            opt is Discard,
        ensures
            final(self).wf(),
            final(self)@ == (MapModel { pages: without(old(self)@.pages, key), ..old(self)@ }),
            path.is_path_of(old(self)@.root, key),
    {
        proof {
            lemma_without(self@.pages, key);
        }
        lru_pop(&mut self.cache, &key);
        self.key_to_path(&key)
    }
}

impl MapModel {
    /// Whether every mapping is as long as the blob that its key has in
    /// `blobs`. The store maps a file whole and never changes the length of
    /// a file that exists, so this holds of what the store holds as long as
    /// the files are changed through the store alone.
    pub open spec fn agrees_with(self, blobs: Blobs) -> bool {
        forall|k: Key|
            has_key(self.pages, k) ==> blobs.dom().contains(k) && value_of(self.pages, k)
                == blobs[k].len()
    }

    /// A `Replace` gives the same result whether the key is mapped or not,
    /// and that result is what the blob store contract asks for: the value
    /// is written at the start of the range, or the request is refused.
    pub proof fn law_replace_mapped_or_not(self, blobs: Blobs, key: Key, value: Seq<u8>, r: crate::BlobRange)
        requires
            self.agrees_with(blobs),
            blobs.contains_key(key),
        ensures
            has_key(self.pages, key) ==> replace_offset(
                r,
                value_of(self.pages, key) as nat,
                value.len(),
            ) == replace_offset(r, blobs[key].len(), value.len()),
            put_result(blobs, key, value, PutOpt::Replace(r)) == match replace_offset(
                r,
                blobs[key].len(),
                value.len(),
            ) {
                Ok(offset) => Ok::<Blobs, BlobError>(
                    blobs.insert(key, overwrite(blobs[key], offset as int, value)),
                ),
                Err(e) => Err::<Blobs, BlobError>(e),
            },
    {
    }

    /// The mappings stay as long as the blobs: after a `put` that the blob
    /// store contract lets succeed, with the key looked up or with a new
    /// mapping of the blob's length entered for it, and after a delete.
    pub proof fn law_lengths_kept(self, blobs: Blobs, key: Key, value: Seq<u8>, opt: PutOpt, page_len: usize)
        requires
            distinct_keys(self.pages),
            self.limit > 0,
            self.agrees_with(blobs),
        ensures
            put_result(blobs, key, value, opt) matches Ok(after) ==> {
                &&& opt is Replace ==> (MapModel { pages: touched(self.pages, key), ..self }).agrees_with(
                    after,
                )
                &&& page_len == after[key].len() ==> (MapModel {
                    pages: entered(self.pages, key, page_len, self.limit),
                    ..self
                }).agrees_with(after)
            },
            delete_result(blobs, key) matches Ok(after) ==> (MapModel {
                pages: without(self.pages, key),
                ..self
            }).agrees_with(after),
    {
        lemma_touched(self.pages, key);
        lemma_entered(self.pages, key, page_len, self.limit);
        lemma_without(self.pages, key);
        if let Ok(after) = put_result(blobs, key, value, opt) {
            assert forall|k: Key| k != key implies (blobs.dom().contains(k) ==> after.dom().contains(
                k,
            ) && after[k] == blobs[k]) by {}
            if opt is Replace {
                let pages = touched(self.pages, key);
                assert forall|k: Key| has_key(pages, k) implies after.dom().contains(k)
                    && value_of(pages, k) == after[k].len() by {
                    assert(has_key(self.pages, k));
                }
            }
            if page_len == after[key].len() {
                let pages = entered(self.pages, key, page_len, self.limit);
                assert forall|k: Key| has_key(pages, k) implies after.dom().contains(k)
                    && value_of(pages, k) == after[k].len() by {
                    if k != key {
                        assert(has_key(self.pages, k));
                    }
                }
            }
        }
        if let Ok(after) = delete_result(blobs, key) {
            let pages = without(self.pages, key);
            assert forall|k: Key| has_key(pages, k) implies after.dom().contains(k) && value_of(
                pages,
                k,
            ) == after[k].len() by {
                assert(k != key);
                assert(has_key(self.pages, k));
            }
        }
    }
}

} // verus!
