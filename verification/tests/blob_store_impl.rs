use blob_store::error::{BlobError, BlobStoreError};
use blob_store::store_impl::cache::MemoryCache;
use blob_store::store_impl::helpers::{BlobPath, OpenMode};
use blob_store::store_impl::local_filesystem::LocalFileSystemBlobStore;
use blob_store::store_impl::mapped_file::{GetStep, MemMapStore, PutStep};
use blob_store::store_impl::sqlite::{
    PutStep as RowStep, SqliteBlobStore, COLUMN_NAME, SQL_CREATE_TABLE, SQL_DELETE, SQL_INSERT,
    TABLE_NAME,
};
use blob_store::{BlobMeta, BlobStore, DeleteOpt, GetOpt, Key, PutOpt};
use rand::prelude::Rng;
use std::cell::RefCell;
use std::collections::{HashMap, HashSet};
use std::io::{Seek, Write};
use std::rc::Rc;

// ---------------------------------------------------------------------------
// A file system in memory: the tests of the file-backed stores carry out on
// it what the stores ask for.
// ---------------------------------------------------------------------------

#[derive(Default)]
struct Files {
    files: HashMap<String, Vec<u8>>,
    dirs: HashSet<String>,
}

type Disk = Rc<RefCell<Files>>;

fn new_disk(root: &str) -> Disk {
    let mut files = Files::default();
    files.dirs.insert(root.to_string());
    Rc::new(RefCell::new(files))
}

fn file_name(path: &BlobPath) -> String {
    let mut name = path.root.clone();
    for component in &path.components {
        name.push('/');
        name.push_str(component);
    }
    name
}

fn parent_of(name: &str) -> String {
    name[..name.rfind('/').unwrap()].to_string()
}

fn io_error(kind: std::io::ErrorKind) -> std::io::Error {
    std::io::Error::new(kind, "simulated")
}

impl Files {
    fn create_dir_all(&mut self, dir: &str) {
        let mut at = 0;
        while let Some(next) = dir[at..].find('/') {
            if at + next > 0 {
                self.dirs.insert(dir[..at + next].to_string());
            }
            at += next + 1;
        }
        self.dirs.insert(dir.to_string());
    }

    fn open(&mut self, name: &str, mode: OpenMode) -> Result<(), std::io::Error> {
        let exists = self.files.contains_key(name);
        match mode {
            OpenMode::CreateNew if exists => Err(io_error(std::io::ErrorKind::AlreadyExists)),
            OpenMode::Existing if !exists => Err(io_error(std::io::ErrorKind::NotFound)),
            OpenMode::Existing => Ok(()),
            _ => {
                if !self.dirs.contains(&parent_of(name)) {
                    return Err(io_error(std::io::ErrorKind::NotFound));
                }
                self.files.entry(name.to_string()).or_default();
                Ok(())
            }
        }
    }

    fn len(&self, name: &str) -> Result<usize, std::io::Error> {
        match self.files.get(name) {
            Some(file) => Ok(file.len()),
            None => Err(io_error(std::io::ErrorKind::NotFound)),
        }
    }

    fn set_len(&mut self, name: &str, len: usize) {
        self.files.get_mut(name).unwrap().resize(len, 0);
    }

    fn write_at(&mut self, name: &str, offset: usize, value: &[u8]) {
        if value.is_empty() {
            return;
        }
        let file = self.files.get_mut(name).unwrap();
        if !value.is_empty() && file.len() < offset + value.len() {
            file.resize(offset + value.len(), 0);
        }
        file[offset..offset + value.len()].copy_from_slice(value);
    }

    fn read_exact_at(&self, name: &str, offset: usize, buf: &mut [u8]) -> Result<(), std::io::Error> {
        let file = &self.files[name];
        if buf.is_empty() {
            return Ok(());
        }
        if offset + buf.len() > file.len() {
            return Err(io_error(std::io::ErrorKind::UnexpectedEof));
        }
        buf.copy_from_slice(&file[offset..offset + buf.len()]);
        Ok(())
    }

    fn remove_file(&mut self, name: &str) -> Result<(), std::io::Error> {
        match self.files.remove(name) {
            Some(_) => Ok(()),
            None => Err(io_error(std::io::ErrorKind::NotFound)),
        }
    }
}

// ---------------------------------------------------------------------------
// The directory-of-files store on the file system in memory.
// ---------------------------------------------------------------------------

struct FsStore {
    logic: LocalFileSystemBlobStore,
    disk: Disk,
}

impl FsStore {
    fn connect(root: &str, disk: &Disk) -> Result<Self, BlobStoreError> {
        let exists = disk.borrow().dirs.contains(root);
        let logic = LocalFileSystemBlobStore::connect(root.to_string(), exists)?;
        Ok(Self { logic, disk: Rc::clone(disk) })
    }
}

impl BlobStore for FsStore {
    fn contains(&self, key: Key) -> Result<bool, BlobStoreError> {
        let name = file_name(&self.logic.key_to_path(&key));
        Ok(self.disk.borrow().files.contains_key(&name))
    }

    fn meta(&self, key: Key) -> Result<BlobMeta, BlobStoreError> {
        let name = file_name(&self.logic.key_to_path(&key));
        let size = self
            .disk
            .borrow()
            .len(&name)
            .map_err(LocalFileSystemBlobStore::missing_file_error)?;
        Ok(BlobMeta { size })
    }

    fn put(&mut self, key: Key, value: &[u8], opt: PutOpt) -> Result<(), BlobStoreError> {
        let req = self.logic.put_open(&key, &opt);
        let name = file_name(&req.path);
        let mut disk = self.disk.borrow_mut();
        if req.create_parent {
            disk.create_dir_all(&parent_of(&name));
        }
        disk.open(&name, req.mode).map_err(LocalFileSystemBlobStore::put_open_error)?;
        let file_len = disk.len(&name).map_err(BlobStoreError::Io)?;
        let write = LocalFileSystemBlobStore::put_write(&opt, value.len(), file_len)?;
        if let Some(len) = write.set_len {
            disk.set_len(&name, len);
        }
        disk.write_at(&name, write.seek.unwrap_or(0), value);
        Ok(())
    }

    fn get(&self, key: Key, buf: &mut [u8], opt: GetOpt) -> Result<(), BlobStoreError> {
        let name = file_name(&self.logic.key_to_path(&key));
        let disk = self.disk.borrow();
        let file_len = disk.len(&name).map_err(LocalFileSystemBlobStore::missing_file_error)?;
        let offset = LocalFileSystemBlobStore::get_read(&opt, buf.len(), file_len)?;
        disk.read_exact_at(&name, offset, buf).map_err(BlobStoreError::Io)
    }

    fn delete(&mut self, key: Key, opt: DeleteOpt) -> Result<Option<Vec<u8>>, BlobStoreError> {
        let name = file_name(&self.logic.key_to_path(&key));
        if let DeleteOpt::Interest(_) = &opt {
            panic!("Interest delete not implemented, use \"get\" before delete instead")
        }
        self.disk
            .borrow_mut()
            .remove_file(&name)
            .map_err(LocalFileSystemBlobStore::missing_file_error)?;
        LocalFileSystemBlobStore::deleted(&opt)
    }
}

// ---------------------------------------------------------------------------
// The memory-mapped store: a mapping is the file itself, and the store says
// which mappings are kept.
// ---------------------------------------------------------------------------

struct MapStore {
    logic: RefCell<MemMapStore>,
    disk: Disk,
    pages: RefCell<HashMap<Key, String>>,
}

impl MapStore {
    fn connect(root: &str, disk: &Disk) -> Result<Self, BlobStoreError> {
        let exists = disk.borrow().dirs.contains(root);
        let logic = MemMapStore::connect(root.to_string(), exists)?;
        Ok(Self { logic: RefCell::new(logic), disk: Rc::clone(disk), pages: RefCell::new(HashMap::new()) })
    }

    fn map(&self, name: &str) -> Result<usize, BlobStoreError> {
        match self.disk.borrow().len(name) {
            Ok(0) => Err(BlobStoreError::Io(io_error(std::io::ErrorKind::InvalidInput))),
            Ok(len) => Ok(len),
            Err(e) => Err(BlobStoreError::Io(e)),
        }
    }

    fn keep(&self, key: Key, name: String, unmapped: Option<Key>) {
        let mut pages = self.pages.borrow_mut();
        pages.insert(key, name);
        if let Some(victim) = unmapped {
            pages.remove(&victim);
        }
        assert!(pages.len() <= 64);
    }
}

impl BlobStore for MapStore {
    fn contains(&self, key: Key) -> Result<bool, BlobStoreError> {
        let name = file_name(&self.logic.borrow().key_to_path(&key));
        Ok(self.disk.borrow().files.contains_key(&name))
    }

    fn meta(&self, key: Key) -> Result<BlobMeta, BlobStoreError> {
        let name = file_name(&self.logic.borrow().key_to_path(&key));
        let size = self.disk.borrow().len(&name).map_err(MemMapStore::missing_file_error)?;
        Ok(BlobMeta { size })
    }

    fn put(&mut self, key: Key, value: &[u8], opt: PutOpt) -> Result<(), BlobStoreError> {
        if let PutOpt::ReplaceOrCreate = &opt {
            panic!("not implemented")
        }
        let step = self.logic.borrow_mut().put_begin(key, value.len(), &opt)?;
        match step {
            PutStep::Write { offset } => {
                let name = self.pages.borrow()[&key].clone();
                self.disk.borrow_mut().write_at(&name, offset, value);
                Ok(())
            }
            PutStep::Open(req) => {
                let name = file_name(&req.path);
                {
                    let mut disk = self.disk.borrow_mut();
                    if req.create_parent {
                        disk.create_dir_all(&parent_of(&name));
                    }
                    disk.open(&name, req.mode).map_err(|e| match req.mode {
                        OpenMode::CreateNew => MemMapStore::create_error(e),
                        _ => MemMapStore::missing_file_error(e),
                    })?;
                    if let Some(len) = req.set_len {
                        disk.set_len(&name, len);
                    }
                }
                let page_len = self.map(&name)?;
                let mapped = self.logic.borrow_mut().put_mapped(key, value.len(), &opt, page_len)?;
                self.disk.borrow_mut().write_at(&name, mapped.offset, value);
                self.keep(key, name, mapped.unmapped);
                Ok(())
            }
        }
    }

    fn get(&self, key: Key, buf: &mut [u8], opt: GetOpt) -> Result<(), BlobStoreError> {
        let step = self.logic.borrow_mut().get_begin(key, buf.len(), &opt)?;
        let (name, offset) = match step {
            GetStep::Read { offset } => (self.pages.borrow()[&key].clone(), offset),
            GetStep::Open(path) => {
                let name = file_name(&path);
                self.disk
                    .borrow_mut()
                    .open(&name, OpenMode::Existing)
                    .map_err(MemMapStore::missing_file_error)?;
                let page_len = self.map(&name)?;
                let (unmapped, offset) =
                    self.logic.borrow_mut().get_mapped(key, buf.len(), &opt, page_len);
                self.keep(key, name.clone(), unmapped);
                (name, offset?)
            }
        };
        self.disk.borrow().read_exact_at(&name, offset, buf).map_err(BlobStoreError::Io)
    }

    fn delete(&mut self, key: Key, opt: DeleteOpt) -> Result<Option<Vec<u8>>, BlobStoreError> {
        if let DeleteOpt::Interest(_) = &opt {
            panic!("not implemented")
        }
        let path = self.logic.borrow_mut().delete_begin(key, &opt);
        self.pages.borrow_mut().remove(&key);
        self.disk
            .borrow_mut()
            .remove_file(&file_name(&path))
            .map_err(MemMapStore::missing_file_error)?;
        Ok(None)
    }
}

// ---------------------------------------------------------------------------
// The relational store on a database in a temporary directory. The file of
// the map is kept in memory.
// ---------------------------------------------------------------------------

type Dumps = Rc<RefCell<HashMap<String, Vec<u8>>>>;

struct SqlStore {
    logic: SqliteBlobStore,
    conn: rusqlite::Connection,
    dumps: Dumps,
}

impl SqlStore {
    fn connect(root: &str, dumps: &Dumps) -> Result<Self, BlobStoreError> {
        let dump = dumps.borrow().get(root).cloned();
        let logic = SqliteBlobStore::connect(root.to_string(), dump)?;
        let db = file_name(&logic.db_path());
        let conn = rusqlite::Connection::open(db).map_err(BlobStoreError::Sqlite)?;
        conn.execute(SQL_CREATE_TABLE, []).map_err(BlobStoreError::Sqlite)?;
        Ok(Self { logic, conn, dumps: Rc::clone(dumps) })
    }

    fn blob(&self, row_id: i64, read_only: bool) -> Result<rusqlite::blob::Blob<'_>, BlobStoreError> {
        self.conn
            .blob_open("main", TABLE_NAME, COLUMN_NAME, row_id, read_only)
            .map_err(BlobStoreError::Sqlite)
    }
}

impl Drop for SqlStore {
    fn drop(&mut self) {
        let bytes = self.logic.dump().unwrap();
        let root = self.logic.db_path().root;
        self.dumps.borrow_mut().insert(root, bytes);
    }
}

impl BlobStore for SqlStore {
    fn contains(&self, key: Key) -> Result<bool, BlobStoreError> {
        self.logic.contains(key)
    }

    fn meta(&self, key: Key) -> Result<BlobMeta, BlobStoreError> {
        let row_id = self.logic.open_blob(&key)?;
        let size = self.blob(row_id, true)?.len();
        Ok(BlobMeta { size })
    }

    fn put(&mut self, key: Key, value: &[u8], opt: PutOpt) -> Result<(), BlobStoreError> {
        if let PutOpt::ReplaceOrCreate = &opt {
            panic!("not implemented")
        }
        let row_id = match self.logic.put_begin(key, value.len(), &opt)? {
            RowStep::Insert { zero_blob } => {
                self.conn
                    .execute(SQL_INSERT, [rusqlite::blob::ZeroBlob(zero_blob)])
                    .map_err(BlobStoreError::Sqlite)?;
                let row_id = self.conn.last_insert_rowid();
                self.logic.put_inserted(key, row_id);
                self.logic.open_blob(&key)?
            }
            RowStep::Open { row_id } => row_id,
        };
        let mut blob = self.blob(row_id, false)?;
        let offset = SqliteBlobStore::put_write(&opt, value.len(), blob.len())?;
        if value.is_empty() {
            return Ok(());
        }
        blob.seek(std::io::SeekFrom::Start(offset as u64)).map_err(BlobStoreError::Io)?;
        blob.write_all(value).map_err(BlobStoreError::Io)
    }

    fn get(&self, key: Key, buf: &mut [u8], opt: GetOpt) -> Result<(), BlobStoreError> {
        let row_id = self.logic.open_blob(&key)?;
        let blob = self.blob(row_id, true)?;
        let offset = SqliteBlobStore::get_read(&opt, buf.len(), blob.len())?;
        if buf.is_empty() {
            return Ok(());
        }
        blob.read_at_exact(buf, offset).map_err(BlobStoreError::Sqlite)
    }

    fn delete(&mut self, key: Key, opt: DeleteOpt) -> Result<Option<Vec<u8>>, BlobStoreError> {
        if let DeleteOpt::Interest(_) = &opt {
            panic!("Interest delete not implemented, use \"get\" before delete instead");
        }
        let row_id = self.logic.delete_begin(key, &opt)?;
        self.conn.execute(SQL_DELETE, [row_id]).map_err(BlobStoreError::Sqlite)?;
        Ok(None)
    }
}

// ---------------------------------------------------------------------------
// The cache over the directory-of-files store, behind the interface of a
// store. What the cache asks of its caller is tested before each call.
// ---------------------------------------------------------------------------

struct Cached(RefCell<MemoryCache<FsStore>>);

impl Cached {
    fn with_capacity(store: FsStore, capacity: std::num::NonZeroUsize) -> Self {
        Cached(RefCell::new(MemoryCache::with_capacity(store, capacity.get())))
    }
}

/// What the cache would make resident for a read of a key that is not
/// resident has to fit the budget.
fn must_fit(cache: &MemoryCache<FsStore>, key: Key, opt: &GetOpt) {
    if cache.is_resident(key) {
        return;
    }
    if let Ok(meta) = cache.backend().meta(key) {
        let len = match opt {
            GetOpt::All => meta.size,
            GetOpt::Range(range) if range.end <= meta.size => range.len(),
            GetOpt::Range(_) => 0,
        };
        assert!(len <= cache.capacity(), "cache is too small");
    }
}

impl Drop for Cached {
    fn drop(&mut self) {
        self.0.borrow_mut().write_back().unwrap();
    }
}

impl BlobStore for Cached {
    fn contains(&self, key: Key) -> Result<bool, BlobStoreError> {
        self.0.borrow_mut().contains(key)
    }

    fn meta(&self, key: Key) -> Result<BlobMeta, BlobStoreError> {
        self.0.borrow_mut().meta(key)
    }

    fn put(&mut self, key: Key, value: &[u8], opt: PutOpt) -> Result<(), BlobStoreError> {
        let mut cache = self.0.borrow_mut();
        match &opt {
            PutOpt::Replace(_) => must_fit(&cache, key, &GetOpt::All),
            _ => assert!(value.len() <= cache.capacity(), "cache is too small"),
        }
        cache.put(key, value, opt)
    }

    fn get(&self, key: Key, buf: &mut [u8], opt: GetOpt) -> Result<(), BlobStoreError> {
        let mut cache = self.0.borrow_mut();
        must_fit(&cache, key, &opt);
        cache.get(key, buf, opt)
    }

    fn get_owned(&self, key: Key, opt: GetOpt) -> Result<Vec<u8>, BlobStoreError> {
        let mut cache = self.0.borrow_mut();
        must_fit(&cache, key, &opt);
        cache.get_owned(key, opt)
    }

    fn delete(&mut self, key: Key, opt: DeleteOpt) -> Result<Option<Vec<u8>>, BlobStoreError> {
        if let DeleteOpt::Interest(_) = opt {
            panic!("delete with interest is not supported yet")
        }
        self.0.borrow_mut().delete(key, opt)
    }
}

// ---------------------------------------------------------------------------
// The checks that every store goes through.
// ---------------------------------------------------------------------------

const LOAD: usize = 4096;
const BLOB_SIZE_RANGE: std::ops::Range<usize> = 1..4096;

fn gen_random(size: usize) -> (Key, Vec<u8>) {
    let mut rng = rand::thread_rng();
    let data = (&mut rng).sample_iter(rand::distributions::Standard).take(size).collect();
    let mut key: Key = Key::default();
    rng.fill(&mut key[..]);
    (key, data)
}

fn put_blobs(blob_store: &mut dyn BlobStore) -> Vec<(Key, Vec<u8>)> {
    let mut rng = rand::thread_rng();
    (0..LOAD)
        .map(|_| gen_random(rng.gen_range(BLOB_SIZE_RANGE.clone())))
        .inspect(|(key, data)| blob_store.put(*key, &data, PutOpt::Create).unwrap())
        .collect::<Vec<_>>()
}

fn check_match(blob_store: &mut dyn BlobStore, expect: &[(Key, Vec<u8>)]) {
    expect.iter().for_each(|(key, expect)| {
        assert!(blob_store.contains(*key).unwrap());
        assert_eq!(blob_store.meta(*key).unwrap().size, expect.len());
        let received = blob_store.get_owned(*key, GetOpt::All).unwrap();
        assert_eq!(expect, &received);
    });
}

fn check_get(blob_store: &mut dyn BlobStore, expect: &[(Key, Vec<u8>)]) {
    let mut rng = rand::thread_rng();
    expect.iter().for_each(|(key, expect)| {
        // read all
        let mut received = vec![0; expect.len()];
        blob_store.get(*key, &mut received, GetOpt::All).unwrap();
        let received_owned = blob_store.get_owned(*key, GetOpt::All).unwrap();
        assert_eq!(expect, &received);
        assert_eq!(expect, &received_owned);
        // read in range
        let range_start = rng.gen_range(0..expect.len());
        let range_end = rng.gen_range(range_start..expect.len());
        let range = range_start..range_end;
        let mut range_received = vec![0; range.len()];
        blob_store.get(*key, &mut range_received, GetOpt::Range(range.clone())).unwrap();
        let range_received_owned = blob_store.get_owned(*key, GetOpt::Range(range.clone())).unwrap();
        assert_eq!(range_received, &expect[range.clone()]);
        assert_eq!(range_received_owned, expect[range.clone()]);
    });
}

fn put_exists(blob_store: &mut dyn BlobStore, expect: &[(Key, Vec<u8>)]) {
    expect.iter().for_each(|(key, _)| {
        assert!(matches!(
            blob_store.put(*key, &[0], PutOpt::Create),
            Err(BlobStoreError::Blob(BlobError::AlreadyExists))
        ));
    });
}

fn get_not_exist(blob_store: &mut dyn BlobStore) {
    let mut rng = rand::thread_rng();
    let range = 0..4096;
    let mut buf = vec![0; range.len()];
    (0..LOAD).for_each(|_| {
        let key: Key = rng.gen();
        assert!(blob_store.contains(key).unwrap() == false);
        assert!(matches!(blob_store.meta(key), Err(BlobStoreError::Blob(BlobError::NotFound))));
        assert!(matches!(
            blob_store.get_owned(key, GetOpt::All),
            Err(BlobStoreError::Blob(BlobError::NotFound))
        ));
        assert!(matches!(
            blob_store.get(key, &mut buf, GetOpt::All),
            Err(BlobStoreError::Blob(BlobError::NotFound))
        ));
        assert!(matches!(
            blob_store.get_owned(key, GetOpt::Range(range.clone())),
            Err(BlobStoreError::Blob(BlobError::NotFound))
        ));
        assert!(matches!(
            blob_store.get(key, &mut buf, GetOpt::Range(range.clone())),
            Err(BlobStoreError::Blob(BlobError::NotFound))
        ));
    })
}

fn put_replace_not_exist(blob_store: &mut dyn BlobStore) {
    let mut rng = rand::thread_rng();
    let range = 0..4096;
    let data = vec![0; range.len()];
    (0..LOAD).for_each(|_| {
        let key: Key = rng.gen();
        assert!(matches!(
            blob_store.put(key, &data, PutOpt::Replace(range.clone())),
            Err(BlobStoreError::Blob(BlobError::NotFound))
        ));
    })
}

fn put_or_create(blob_store: &mut dyn BlobStore) {
    let mut rng = rand::thread_rng();
    let range = 0..4096;
    let data = vec![0; range.len()];
    (0..LOAD).for_each(|_| {
        let key: Key = rng.gen();
        let is_replace = rng.gen_bool(0.5);
        if is_replace {
            assert!(blob_store.put(key, &data[..4096 / 2], PutOpt::Create).is_ok());
        }
        assert!(blob_store.put(key, &data, PutOpt::ReplaceOrCreate).is_ok());
        assert!(blob_store.get_owned(key, GetOpt::All).unwrap() == data);
    })
}

fn delete_not_exist(blob_store: &mut dyn BlobStore) {
    let mut rng = rand::thread_rng();
    (0..LOAD).for_each(|_| {
        let key: Key = rng.gen();
        assert!(matches!(
            blob_store.delete(key, DeleteOpt::Discard),
            Err(BlobStoreError::Blob(BlobError::NotFound))
        ));
    })
}

fn check_range(blob_store: &mut dyn BlobStore, expect: &[(Key, Vec<u8>)]) {
    expect.iter().for_each(|(key, expect)| {
        let valide_range = 0..expect.len();
        // buf not match range
        let mut buf_too_small = vec![0; expect.len() / 2];
        let mut buf_too_large = vec![0; expect.len() * 2];
        vec![&mut buf_too_small, &mut buf_too_large].into_iter().for_each(|buf| {
            assert!(matches!(
                blob_store.put(*key, &buf, PutOpt::Replace(valide_range.clone())),
                Err(BlobStoreError::Blob(BlobError::RangeError))
            ));
            assert!(matches!(
                blob_store.get(*key, buf.as_mut(), GetOpt::Range(valide_range.clone())),
                Err(BlobStoreError::Blob(BlobError::RangeError))
            ));
            assert!(matches!(
                blob_store.get(*key, buf, GetOpt::All),
                Err(BlobStoreError::Blob(BlobError::RangeError))
            ),);
        });

        // out of bound
        let out_of_bound =
            [valide_range.end + 1..valide_range.end + 1 + 128, valide_range.start..valide_range.end + 8];
        out_of_bound.into_iter().for_each(|range| {
            let mut buf = vec![0; range.len()];
            assert!(matches!(
                blob_store.put(*key, &buf, PutOpt::Replace(range.clone())),
                Err(BlobStoreError::Blob(BlobError::RangeError))
            ));
            assert!(matches!(
                blob_store.get(*key, &mut buf, GetOpt::Range(range.clone())),
                Err(BlobStoreError::Blob(BlobError::RangeError))
            ));
            assert!(matches!(
                blob_store.get_owned(*key, GetOpt::Range(range.clone())),
                Err(BlobStoreError::Blob(BlobError::RangeError))
            ));
        });
    });
}

fn check_delete(blob_store: &mut dyn BlobStore, expect: &[(Key, Vec<u8>)]) {
    expect.iter().for_each(|(key, expect)| {
        let valide_range = 0..expect.len();
        let mut buf = vec![0; expect.len()];
        // delete discard
        let deleted = blob_store.delete(*key, DeleteOpt::Discard).unwrap();
        assert_eq!(deleted, None);
        assert!(matches!(
            blob_store.get(*key, &mut buf, GetOpt::Range(valide_range.clone())),
            Err(BlobStoreError::Blob(BlobError::NotFound))
        ));
    });
}

/// expected to receive a clean store
fn test_write_read(blob_store: &mut dyn BlobStore, has_put_or_create: bool) {
    get_not_exist(blob_store);
    put_replace_not_exist(blob_store);
    delete_not_exist(blob_store);
    let expect = put_blobs(blob_store);
    check_match(blob_store, &expect);
    check_get(blob_store, &expect);
    check_range(blob_store, &expect);
    put_exists(blob_store, &expect);
    check_delete(blob_store, &expect);
    if has_put_or_create {
        put_or_create(blob_store);
    }
}

fn test_dump<F>(open: F)
where
    F: Fn() -> Result<Box<dyn BlobStore>, BlobStoreError>,
{
    let mut store = open().unwrap();
    let expect = put_blobs(&mut *store);
    drop(store);
    // reopen
    let mut store = open().unwrap();
    check_match(&mut *store, &expect);
}

/// The producers, the validators and the deleters, one after the other.
fn test_in_turn(blob: &mut dyn BlobStore) {
    let mut rng = rand::thread_rng();
    let produced = (0..LOAD)
        .map(|_| {
            let (key, data) = gen_random(rng.gen_range(BLOB_SIZE_RANGE.clone()));
            blob.put(key, &data, PutOpt::Create).unwrap();
            (key, data)
        })
        .collect::<Vec<_>>();
    let validated = produced
        .into_iter()
        .map(|(key, data)| {
            assert!(blob.contains(key).unwrap());
            assert_eq!(blob.meta(key).unwrap().size, data.len());
            let received = blob.get_owned(key, GetOpt::All).unwrap();
            assert_eq!(data, received);
            (key, data)
        })
        .collect::<Vec<_>>();
    validated.into_iter().for_each(|(key, _)| {
        assert!(blob.delete(key, DeleteOpt::Discard).is_ok());
    });
}

#[test]
fn test_local_fs() {
    // write read
    let disk = new_disk("/dev0");
    let mut store = FsStore::connect("/dev0", &disk).unwrap();
    test_write_read(&mut store, true);
    // dump
    let disk = new_disk("/dev1");
    test_dump(|| FsStore::connect("/dev1", &disk).map(|obj| -> Box<dyn BlobStore> { Box::new(obj) }));
    // one after the other
    let disk = new_disk("/dev2");
    let mut store = FsStore::connect("/dev2", &disk).unwrap();
    test_in_turn(&mut store);
}

#[test]
fn test_memory_cache() {
    const CAP: usize = 1 << 20;
    // write read
    let disk = new_disk("/dev0");
    let store = FsStore::connect("/dev0", &disk).unwrap();
    let mut store = Cached::with_capacity(store, std::num::NonZeroUsize::new(CAP).unwrap());
    test_write_read(&mut store, true);
    // dump
    let disk = new_disk("/dev1");
    test_dump(|| {
        Ok(Cached::with_capacity(
            FsStore::connect("/dev1", &disk).unwrap(),
            std::num::NonZeroUsize::new(CAP).unwrap(),
        ))
        .map(|obj| -> Box<dyn BlobStore> { Box::new(obj) })
    });
    // one after the other
    let disk = new_disk("/dev2");
    let mut store = Cached::with_capacity(
        FsStore::connect("/dev2", &disk).unwrap(),
        std::num::NonZeroUsize::new(CAP).unwrap(),
    );
    test_in_turn(&mut store);
}

#[test]
fn test_sqlite() {
    // write read
    let tmp_dir = tempfile::tempdir().unwrap();
    let dumps: Dumps = Rc::new(RefCell::new(HashMap::new()));
    let mut store = SqlStore::connect(tmp_dir.path().to_str().unwrap(), &dumps).unwrap();
    test_write_read(&mut store, false);
    // dump
    let tmp_dir = tempfile::tempdir().unwrap();
    test_dump(|| {
        SqlStore::connect(tmp_dir.path().to_str().unwrap(), &dumps)
            .map(|obj| -> Box<dyn BlobStore> { Box::new(obj) })
    });
}

#[test]
fn test_mapped_file() {
    let disk = new_disk("/dev0");
    let mut store = MapStore::connect("/dev0", &disk).unwrap();
    test_write_read(&mut store, false);
}

// ---------------------------------------------------------------------------
// The same small sequence of requests on every backend.
// ---------------------------------------------------------------------------

fn blob_error<T>(res: Result<T, BlobStoreError>) -> Option<BlobError> {
    match res {
        Err(BlobStoreError::Blob(e)) => Some(e),
        _ => None,
    }
}

fn create_replace_read(store: &mut dyn BlobStore) {
    let k: Key = [0; 8];
    // create then read all
    store.put(k, &[1, 2, 3], PutOpt::Create).unwrap();
    assert!(store.contains(k).unwrap());
    assert_eq!(store.get_owned(k, GetOpt::All).unwrap(), vec![1, 2, 3]);
    assert_eq!(store.meta(k).unwrap().size, 3);
    // create duplicate
    assert_eq!(blob_error(store.put(k, &[7], PutOpt::Create)), Some(BlobError::AlreadyExists));
    assert_eq!(store.get_owned(k, GetOpt::All).unwrap(), vec![1, 2, 3]);
    // replace with wrong length
    assert_eq!(blob_error(store.put(k, &[9], PutOpt::Replace(0..2))), Some(BlobError::RangeError));
    assert_eq!(store.get_owned(k, GetOpt::All).unwrap(), vec![1, 2, 3]);
    // replace behind the end
    assert_eq!(blob_error(store.put(k, &[9, 9], PutOpt::Replace(2..4))), Some(BlobError::RangeError));
    assert_eq!(store.get_owned(k, GetOpt::All).unwrap(), vec![1, 2, 3]);
    // range read out of bounds
    let mut buf = [0u8; 10];
    assert_eq!(blob_error(store.get(k, &mut buf, GetOpt::Range(0..10))), Some(BlobError::RangeError));
    assert_eq!(buf, [0u8; 10]);
    // read all into a buffer of another length
    assert_eq!(blob_error(store.get(k, &mut buf, GetOpt::All)), Some(BlobError::RangeError));
    // partial replace
    store.put(k, &[9, 9], PutOpt::Replace(0..2)).unwrap();
    assert_eq!(store.get_owned(k, GetOpt::All).unwrap(), vec![9, 9, 3]);
    store.put(k, &[5], PutOpt::Replace(2..3)).unwrap();
    assert_eq!(store.get_owned(k, GetOpt::All).unwrap(), vec![9, 9, 5]);
    assert_eq!(store.get_owned(k, GetOpt::Range(1..3)).unwrap(), vec![9, 5]);
    assert_eq!(store.meta(k).unwrap().size, 3);
    // delete
    assert_eq!(store.delete(k, DeleteOpt::Discard).unwrap(), None);
    assert!(!store.contains(k).unwrap());
    assert_eq!(blob_error(store.get_owned(k, GetOpt::All)), Some(BlobError::NotFound));
    assert_eq!(blob_error(store.meta(k)), Some(BlobError::NotFound));
    assert_eq!(blob_error(store.put(k, &[1], PutOpt::Replace(0..1))), Some(BlobError::NotFound));
    assert_eq!(blob_error(store.delete(k, DeleteOpt::Discard)), Some(BlobError::NotFound));
    // the key can be created again
    store.put(k, &[4, 4], PutOpt::Create).unwrap();
    assert_eq!(store.get_owned(k, GetOpt::All).unwrap(), vec![4, 4]);
}

#[test]
fn requests_on_local_fs() {
    let disk = new_disk("/dev0");
    let mut store = FsStore::connect("/dev0", &disk).unwrap();
    create_replace_read(&mut store);
    // the blob is one file under the two halves of the key in hexadecimal
    assert_eq!(disk.borrow().files["/dev0/00000000/00000000"], vec![4, 4]);
    assert_eq!(disk.borrow().files.len(), 1);
    // replace or create, on a key that exists and on one that does not
    store.put([0; 8], &[6, 6, 6], PutOpt::ReplaceOrCreate).unwrap();
    assert_eq!(store.get_owned([0; 8], GetOpt::All).unwrap(), vec![6, 6, 6]);
    store.put([0; 8], &[7], PutOpt::ReplaceOrCreate).unwrap();
    assert_eq!(store.get_owned([0; 8], GetOpt::All).unwrap(), vec![7]);
    store.put([0xab; 8], &[8, 8], PutOpt::ReplaceOrCreate).unwrap();
    assert_eq!(store.get_owned([0xab; 8], GetOpt::All).unwrap(), vec![8, 8]);
    assert_eq!(disk.borrow().files["/dev0/abababab/abababab"], vec![8, 8]);
    // a root that is not there
    assert!(matches!(
        FsStore::connect("/nowhere", &disk),
        Err(BlobStoreError::Io(e)) if e.kind() == std::io::ErrorKind::NotFound
    ));
}

#[test]
fn requests_on_mapped_files() {
    let disk = new_disk("/dev0");
    let mut store = MapStore::connect("/dev0", &disk).unwrap();
    create_replace_read(&mut store);
    assert_eq!(disk.borrow().files["/dev0/00000000/00000000"], vec![4, 4]);
}

#[test]
fn requests_on_sqlite() {
    let tmp_dir = tempfile::tempdir().unwrap();
    let dumps: Dumps = Rc::new(RefCell::new(HashMap::new()));
    let root = tmp_dir.path().to_str().unwrap();
    {
        let mut store = SqlStore::connect(root, &dumps).unwrap();
        create_replace_read(&mut store);
    }
    // the map was written on shutdown and is read again
    let store = SqlStore::connect(root, &dumps).unwrap();
    assert_eq!(store.get_owned([0; 8], GetOpt::All).unwrap(), vec![4, 4]);
    assert!(!store.contains([1; 8]).unwrap());
}

#[test]
fn requests_on_cached_local_fs() {
    let disk = new_disk("/dev0");
    let store = FsStore::connect("/dev0", &disk).unwrap();
    let mut store = Cached::with_capacity(store, std::num::NonZeroUsize::new(4).unwrap());
    let (k1, k2, k3) = ([1; 8], [2; 8], [3; 8]);
    store.put(k1, &[1, 1], PutOpt::Create).unwrap();
    store.put(k2, &[2, 2], PutOpt::Create).unwrap();
    store.put(k1, &[7, 7], PutOpt::Replace(0..2)).unwrap();
    // the replacement is not on the backend until the key leaves
    assert_eq!(disk.borrow().files["/dev0/01010101/01010101"], vec![1, 1]);
    store.put(k3, &[3, 3], PutOpt::Create).unwrap();
    assert_eq!(disk.borrow().files["/dev0/02020202/02020202"], vec![2, 2]);
    store.put(k2, &[5, 5], PutOpt::ReplaceOrCreate).unwrap();
    assert_eq!(disk.borrow().files["/dev0/01010101/01010101"], vec![7, 7]);
    assert_eq!(store.get_owned(k1, GetOpt::All).unwrap(), vec![7, 7]);
    assert_eq!(store.get_owned(k2, GetOpt::All).unwrap(), vec![5, 5]);
    assert_eq!(store.get_owned(k3, GetOpt::All).unwrap(), vec![3, 3]);
    drop(store);
    assert_eq!(disk.borrow().files["/dev0/03030303/03030303"], vec![3, 3]);
    assert_eq!(disk.borrow().files.len(), 3);
}
