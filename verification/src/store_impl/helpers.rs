//! What the file-backed stores share: the containment test on ranges, and
//! the place of a blob's file under the root directory.

use vstd::prelude::*;
use vstd::string::StrSliceExecFns;
use crate::model::{overwrite, range_len, spec_range_contains};
use crate::{BlobRange, Key};
use itertools::Itertools;

verus! {

/// check if this range contains that range
#[inline]
pub fn range_contains(this: &BlobRange, that: &BlobRange) -> (res: bool)
    ensures
        res == spec_range_contains(*this, *that),
{
    this.start <= that.start && this.end >= that.end
}

/// Number of offsets in the range; an inverted range is empty.
pub fn range_size(r: &BlobRange) -> (len: usize)
    ensures
        len == range_len(*r),
{
    if r.start <= r.end {
        r.end - r.start
    } else {
        0
    }
}

/// Writes `value` over `blob` from offset `at` on.
pub fn write_at(blob: &mut Vec<u8>, at: usize, value: &[u8])
    requires
        at + value@.len() <= old(blob)@.len(),
    ensures
        final(blob)@ == overwrite(old(blob)@, at as int, value@),
{
    let n = value.len();
    let mut i: usize = 0;
    while i < n
        invariant
            i <= n == value@.len(),
            at + n <= blob.len(),
            blob@.len() == old(blob)@.len(),
            forall|j: int| 0 <= j < blob@.len() ==> #[trigger] blob@[j] == if at <= j < at + i {
                value@[j - at]
            } else {
                old(blob)@[j]
            },
        decreases n - i,
    {
        blob[at + i] = value[i];
        i += 1;
    }
    assert(blob@ =~= overwrite(old(blob)@, at as int, value@));
}

/// Fills `buf` with the bytes of `blob` from offset `at` on.
pub fn read_at(blob: &[u8], at: usize, buf: &mut [u8])
    requires
        at + old(buf)@.len() <= blob@.len(),
    ensures
        final(buf)@ == blob@.subrange(at as int, at + old(buf)@.len()),
{
    let n = buf.len();
    let mut i: usize = 0;
    while i < n
        invariant
            i <= n == buf@.len(),
            buf@.len() == old(buf)@.len(),
            at + n <= blob.len(),
            forall|j: int| 0 <= j < i ==> #[trigger] buf@[j] == blob@[at + j],
        decreases n - i,
    {
        buf[i] = blob[at + i];
        i += 1;
    }
    assert(buf@ =~= blob@.subrange(at as int, at + old(buf)@.len()));
}

/// The sixteen lowercase hexadecimal digits.
pub open spec fn hex_digits() -> Seq<char> {
    seq!['0', '1', '2', '3', '4', '5', '6', '7', '8', '9', 'a', 'b', 'c', 'd', 'e', 'f']
}

/// Lowercase hexadecimal text of `data`: two digits for each byte, the high
/// half first.
pub open spec fn hex_of(data: Seq<u8>) -> Seq<char> {
    Seq::new(
        2 * data.len(),
        |i: int|
            if i % 2 == 0 {
                hex_digits()[data[i / 2] as int / 16]
            } else {
                hex_digits()[data[i / 2] as int % 16]
            },
    )
}

/// How many pieces of `size` a text of `len` characters is cut into.
pub open spec fn chunk_count(len: int, size: int) -> int {
    (len + size - 1) / size
}

/// The `i`-th piece of `s` cut into pieces of `size`; the last one may be
/// shorter.
pub open spec fn chunk_of(s: Seq<char>, size: int, i: int) -> Seq<char> {
    s.subrange(
        i * size,
        if (i + 1) * size <= s.len() {
            (i + 1) * size
        } else {
            s.len() as int
        },
    )
}

/// Calls `hex::encode`, which writes each byte of its argument as two
/// lowercase hexadecimal digits, the high half first.
#[verifier::external_body]
fn hex_encode(key: &Key) -> (text: String)
    ensures
        text@ == hex_of(key@),
{
    hex::encode(key)
}

/// Calls `Itertools::chunks` on the characters of `s`, which yields them in
/// order in pieces of `size`, the last piece being shorter where the text
/// runs out. The pieces are collected into strings.
#[verifier::external_body]
fn char_chunks(s: &str, size: usize) -> (chunks: Vec<String>)
    requires
        size != 0,
    ensures
        chunks@.len() == chunk_count(s@.len() as int, size as int),
        forall|i: int| 0 <= i < chunks@.len() ==> (#[trigger] chunks@[i])@ == chunk_of(s@, size as int, i),
{
    s.chars().chunks(size).into_iter().map(|chunk| chunk.collect::<String>()).collect()
}

/// Where the file of a blob lies: under `root`, one directory per component
/// but the last, which names the file.
#[derive(Debug)]
pub struct BlobPath {
    pub root: String,
    pub components: Vec<String>,
}

/// How the file of a blob is opened; always for reading and writing.
#[derive(Debug, Clone, Copy, PartialEq, Eq, Structural)]
pub enum OpenMode {
    /// The file must not exist and is created.
    CreateNew,
    /// The file must exist.
    Existing,
    /// The file is created where it does not exist.
    CreateOrOpen,
}

/// What opening a file does. `file` is what the file holds, `None` where
/// there is none; the result is what the opened file holds, or the kind of
/// the failure.
pub open spec fn open_outcome(mode: OpenMode, file: Option<Seq<u8>>) -> Result<
    Seq<u8>,
    crate::error::IoErrorKind,
> {
    match (mode, file) {
        (OpenMode::CreateNew, Some(_)) => Err(crate::error::IoErrorKind::AlreadyExists),
        (OpenMode::Existing, None) => Err(crate::error::IoErrorKind::NotFound),
        (_, Some(bytes)) => Ok(bytes),
        (_, None) => Ok(Seq::empty()),
    }
}

/// A file cut or padded with zeros to `len` bytes.
pub open spec fn resized(file: Seq<u8>, len: nat) -> Seq<u8> {
    Seq::new(
        len,
        |i: int|
            if i < file.len() {
                file[i]
            } else {
                0u8
            },
    )
}

/// A file after `value` was written at offset `at`: the bytes written
/// replace what was there, and a write that ends behind the end of the file
/// makes the file longer, with zeros where nothing was written.
pub open spec fn written(file: Seq<u8>, at: nat, value: Seq<u8>) -> Seq<u8> {
    Seq::new(
        if value.len() > 0 && at + value.len() > file.len() {
            at + value.len()
        } else {
            file.len()
        },
        |i: int|
            if at <= i < at + value.len() {
                value[i - at]
            } else if i < file.len() {
                file[i]
            } else {
                0u8
            },
    )
}

/// The components of the path of `key` below the root: the two halves of the
/// key's hexadecimal text.
pub open spec fn key_components(key: Key) -> Seq<Seq<char>> {
    seq![hex_of(key@).subrange(0, 8), hex_of(key@).subrange(8, 16)]
}

impl BlobPath {
    /// The components as sequences of characters.
    pub open spec fn components_view(self) -> Seq<Seq<char>> {
        Seq::new(self.components@.len(), |i: int| self.components@[i]@)
    }

    /// Whether this is the path of `key` under `root`.
    pub open spec fn is_path_of(self, root: Seq<char>, key: Key) -> bool {
        self.root@ == root && self.components_view() == key_components(key)
    }
}

/// Path of the blob of `key` under `root`: `root / first_half_hex / second_half_hex`.
pub fn key_to_path(root: &String, key: &Key) -> (path: BlobPath)
    ensures
        path.is_path_of(root@, *key),
{
    let key_hex = hex_encode(key);
    let delim: usize = 2;
    let components = char_chunks(key_hex.as_str(), key_hex.as_str().unicode_len() / delim);
    let path = BlobPath { root: root.clone(), components };
    assert(path.components_view() =~= key_components(*key));
    path
}

} // verus!
