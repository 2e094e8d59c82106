//! The blob store as mathematics: a store is a finite map from keys to byte
//! sequences, and every operation is a function on that map. The contracts
//! of the executable stores are written over the functions of this module.

use vstd::prelude::*;
use crate::error::BlobError;
use crate::{BlobRange, GetOpt, Key, PutOpt};

verus! {

/// What a store holds.
pub type Blobs = Map<Key, Seq<u8>>;

/// Number of offsets in the half-open range; an inverted range is empty.
pub open spec fn range_len(r: BlobRange) -> nat {
    if r.start <= r.end {
        (r.end - r.start) as nat
    } else {
        0
    }
}

/// Whether `that` lies inside `this`.
pub open spec fn spec_range_contains(this: BlobRange, that: BlobRange) -> bool {
    this.start <= that.start && this.end >= that.end
}

/// Whether `r` lies inside `[0, size)`.
pub open spec fn range_in_blob(r: BlobRange, size: nat) -> bool {
    r.end <= size
}

/// `blob` with `value` written over it from offset `at` on; the length of
/// `blob` is kept.
pub open spec fn overwrite(blob: Seq<u8>, at: int, value: Seq<u8>) -> Seq<u8> {
    Seq::new(
        blob.len(),
        |i: int|
            if at <= i < at + value.len() {
                value[i - at]
            } else {
                blob[i]
            },
    )
}

/// The bytes of `blob` at the offsets of the range; an inverted range has
/// none.
pub open spec fn range_part(blob: Seq<u8>, r: BlobRange) -> Seq<u8> {
    if r.start <= r.end {
        blob.subrange(r.start as int, r.end as int)
    } else {
        Seq::empty()
    }
}

/// The `len` bytes of `blob` from `offset` on; no bytes where `len` is 0,
/// wherever the offset lies.
pub open spec fn read_part(blob: Seq<u8>, offset: int, len: nat) -> Seq<u8> {
    if len == 0 {
        Seq::empty()
    } else {
        blob.subrange(offset, offset + len)
    }
}

/// Whether `Replace(r)` with `value` is admissible on a blob of `size` bytes.
pub open spec fn replace_fits(r: BlobRange, size: nat, value_len: nat) -> bool {
    range_in_blob(r, size) && range_len(r) == value_len
}

/// The store after `put`, or the precondition failure.
pub open spec fn put_result(blobs: Blobs, key: Key, value: Seq<u8>, opt: PutOpt) -> Result<
    Blobs,
    BlobError,
> {
    match opt {
        PutOpt::Create => if blobs.contains_key(key) {
            Err(BlobError::AlreadyExists)
        } else {
            Ok(blobs.insert(key, value))
        },
        PutOpt::ReplaceOrCreate => Ok(blobs.insert(key, value)),
        PutOpt::Replace(r) => if !blobs.contains_key(key) {
            Err(BlobError::NotFound)
        } else if !replace_fits(r, blobs[key].len(), value.len()) {
            Err(BlobError::RangeError)
        } else {
            Ok(blobs.insert(key, overwrite(blobs[key], r.start as int, value)))
        },
    }
}

/// What `get` writes into a buffer of `buf_len` bytes, or the precondition
/// failure.
pub open spec fn get_result(blobs: Blobs, key: Key, opt: GetOpt, buf_len: nat) -> Result<
    Seq<u8>,
    BlobError,
> {
    if !blobs.contains_key(key) {
        Err(BlobError::NotFound)
    } else {
        match opt {
            GetOpt::All => if blobs[key].len() == buf_len {
                Ok(blobs[key])
            } else {
                Err(BlobError::RangeError)
            },
            GetOpt::Range(r) => if range_in_blob(r, blobs[key].len()) && range_len(r) == buf_len {
                Ok(range_part(blobs[key], r))
            } else {
                Err(BlobError::RangeError)
            },
        }
    }
}

/// Length of the buffer that `get_owned` allocates for `opt`.
pub open spec fn owned_len(blobs: Blobs, key: Key, opt: GetOpt) -> nat {
    match opt {
        GetOpt::All => blobs[key].len(),
        GetOpt::Range(r) => range_len(r),
    }
}

/// What `get_owned` returns, or the precondition failure.
pub open spec fn get_owned_result(blobs: Blobs, key: Key, opt: GetOpt) -> Result<
    Seq<u8>,
    BlobError,
> {
    get_result(blobs, key, opt, owned_len(blobs, key, opt))
}

/// The size that `meta` reports, or the precondition failure.
pub open spec fn meta_result(blobs: Blobs, key: Key) -> Result<nat, BlobError> {
    if blobs.contains_key(key) {
        Ok(blobs[key].len())
    } else {
        Err(BlobError::NotFound)
    }
}

/// The store after `delete` with `Discard`, or the precondition failure.
pub open spec fn delete_result(blobs: Blobs, key: Key) -> Result<Blobs, BlobError> {
    if blobs.contains_key(key) {
        Ok(blobs.remove(key))
    } else {
        Err(BlobError::NotFound)
    }
}

/// The offset at which a store writes a value of `value_len` bytes over a
/// blob of `size` bytes for `Replace(r)`, or the precondition failure.
pub open spec fn replace_offset(r: BlobRange, size: nat, value_len: nat) -> Result<usize, BlobError> {
    if replace_fits(r, size, value_len) {
        Ok(r.start)
    } else {
        Err(BlobError::RangeError)
    }
}

/// The offset from which a store reads a buffer of `buf_len` bytes out of a
/// blob of `size` bytes, or the precondition failure.
pub open spec fn read_offset(opt: GetOpt, size: nat, buf_len: nat) -> Result<usize, BlobError> {
    match opt {
        GetOpt::All => if size == buf_len {
            Ok(0usize)
        } else {
            Err(BlobError::RangeError)
        },
        GetOpt::Range(r) => if range_in_blob(r, size) && range_len(r) == buf_len {
            Ok(r.start)
        } else {
            Err(BlobError::RangeError)
        },
    }
}

/// Whether two stores agree on every key but `key`.
pub open spec fn same_elsewhere(a: Blobs, b: Blobs, key: Key) -> bool {
    forall|k: Key|
        #![trigger a.dom().contains(k)]
        #![trigger b.dom().contains(k)]
        k != key ==> (a.dom().contains(k) == b.dom().contains(k) && a[k] == b[k])
}

/// After a successful `Create` the key is present, its size is the length of
/// the value, and reading the whole blob gives the value back.
pub proof fn law_create_then_read(blobs: Blobs, key: Key, value: Seq<u8>)
    requires
        put_result(blobs, key, value, PutOpt::Create) is Ok,
    ensures
        ({
            let after = put_result(blobs, key, value, PutOpt::Create)->Ok_0;
            &&& after.contains_key(key)
            &&& meta_result(after, key) == Ok::<nat, BlobError>(value.len())
            &&& get_owned_result(after, key, GetOpt::All) == Ok::<Seq<u8>, BlobError>(value)
        }),
{
    let after = put_result(blobs, key, value, PutOpt::Create)->Ok_0;
    assert(after[key] == value);
}

/// `Create` on a key that is present fails with `AlreadyExists`, whatever
/// the value.
pub proof fn law_create_existing(blobs: Blobs, key: Key, value: Seq<u8>)
    requires
        blobs.contains_key(key),
    ensures
        put_result(blobs, key, value, PutOpt::Create) == Err::<Blobs, BlobError>(
            BlobError::AlreadyExists,
        ),
{
}

/// A `Replace` whose value is as long as its range, on a range inside the
/// blob, succeeds; afterwards the blob has its old length, holds the value
/// at the offsets of the range and its old bytes everywhere else.
pub proof fn law_replace_range(blobs: Blobs, key: Key, value: Seq<u8>, r: BlobRange)
    requires
        blobs.contains_key(key),
        r.start <= r.end <= blobs[key].len(),
        value.len() == r.end - r.start,
    ensures
        put_result(blobs, key, value, PutOpt::Replace(r)) is Ok,
        ({
            let after = put_result(blobs, key, value, PutOpt::Replace(r))->Ok_0;
            &&& get_owned_result(after, key, GetOpt::All) is Ok
            &&& after[key].len() == blobs[key].len()
            &&& forall|o: int|
                0 <= o < blobs[key].len() ==> #[trigger] after[key][o] == if r.start <= o < r.end {
                    value[o - r.start]
                } else {
                    blobs[key][o]
                }
        }),
{
}

/// A `Replace` whose value is not as long as its range, or whose range
/// leaves the blob, fails with `RangeError`.
pub proof fn law_replace_misfit(blobs: Blobs, key: Key, value: Seq<u8>, r: BlobRange)
    requires
        blobs.contains_key(key),
        value.len() != range_len(r) || !range_in_blob(r, blobs[key].len()),
    ensures
        put_result(blobs, key, value, PutOpt::Replace(r)) == Err::<Blobs, BlobError>(
            BlobError::RangeError,
        ),
{
}

/// Reading a whole blob into a buffer of another length fails with
/// `RangeError`.
pub proof fn law_get_all_wrong_length(blobs: Blobs, key: Key, buf_len: nat)
    requires
        blobs.contains_key(key),
        buf_len != blobs[key].len(),
    ensures
        get_result(blobs, key, GetOpt::All, buf_len) == Err::<Seq<u8>, BlobError>(
            BlobError::RangeError,
        ),
{
}

/// Reading a range that leaves the blob, or into a buffer that is not as
/// long as the range, fails with `RangeError`.
pub proof fn law_get_range_misfit(blobs: Blobs, key: Key, r: BlobRange, buf_len: nat)
    requires
        blobs.contains_key(key),
        !range_in_blob(r, blobs[key].len()) || buf_len != range_len(r),
    ensures
        get_result(blobs, key, GetOpt::Range(r), buf_len) == Err::<Seq<u8>, BlobError>(
            BlobError::RangeError,
        ),
{
}

/// Deleting a key that is absent fails with `NotFound`.
pub proof fn law_delete_absent(blobs: Blobs, key: Key)
    requires
        !blobs.contains_key(key),
    ensures
        delete_result(blobs, key) == Err::<Blobs, BlobError>(BlobError::NotFound),
{
}

/// After a successful delete the key is absent and reading it fails with
/// `NotFound`.
pub proof fn law_delete_then_read(blobs: Blobs, key: Key)
    requires
        delete_result(blobs, key) is Ok,
    ensures
        ({
            let after = delete_result(blobs, key)->Ok_0;
            &&& !after.contains_key(key)
            &&& get_owned_result(after, key, GetOpt::All) == Err::<Seq<u8>, BlobError>(
                BlobError::NotFound,
            )
        }),
{
}

/// `ReplaceOrCreate` always succeeds, and reading the whole blob afterwards
/// gives the value, whether the key was present or not.
pub proof fn law_replace_or_create_then_read(blobs: Blobs, key: Key, value: Seq<u8>)
    ensures
        put_result(blobs, key, value, PutOpt::ReplaceOrCreate) is Ok,
        get_owned_result(
            put_result(blobs, key, value, PutOpt::ReplaceOrCreate)->Ok_0,
            key,
            GetOpt::All,
        ) == Ok::<Seq<u8>, BlobError>(value),
{
    let after = put_result(blobs, key, value, PutOpt::ReplaceOrCreate)->Ok_0;
    assert(after[key] == value);
}

/// A store that writes the value at `replace_offset` into the blob of a
/// key, and refuses where there is no such offset, does what `put` with
/// `Replace` asks for.
pub proof fn law_replace_offset(blobs: Blobs, key: Key, value: Seq<u8>, r: BlobRange)
    requires
        blobs.contains_key(key),
    ensures
        put_result(blobs, key, value, PutOpt::Replace(r)) == match replace_offset(
            r,
            blobs[key].len(),
            value.len(),
        ) {
            Ok(offset) => Ok::<Blobs, BlobError>(
                blobs.insert(key, overwrite(blobs[key], offset as int, value)),
            ),
            Err(e) => Err::<Blobs, BlobError>(e),
        },
{
}

/// A store that fills the buffer from `read_offset` on out of the blob of a
/// key, and refuses where there is no such offset, does what `get` asks for.
pub proof fn law_read_offset(blobs: Blobs, key: Key, opt: GetOpt, buf_len: nat)
    requires
        blobs.contains_key(key),
    ensures
        get_result(blobs, key, opt, buf_len) == match read_offset(opt, blobs[key].len(), buf_len) {
            Ok(offset) => Ok::<Seq<u8>, BlobError>(read_part(blobs[key], offset as int, buf_len)),
            Err(e) => Err::<Seq<u8>, BlobError>(e),
        },
{
    match opt {
        GetOpt::All => {
            if blobs[key].len() == buf_len {
                assert(read_part(blobs[key], 0, buf_len) =~= blobs[key]);
            }
        },
        GetOpt::Range(r) => {
            if read_offset(opt, blobs[key].len(), buf_len) is Ok {
                assert(read_part(blobs[key], r.start as int, buf_len) =~= range_part(
                    blobs[key],
                    r,
                ));
            }
        },
    }
}

/// A store that gives a new blob the length of the value and then writes
/// the value from offset 0 on holds the value, whatever the blob held when
/// it was made.
pub proof fn law_create_written(fresh: Seq<u8>, value: Seq<u8>)
    requires
        fresh.len() == value.len(),
    ensures
        overwrite(fresh, 0, value) == value,
{
    assert(overwrite(fresh, 0, value) =~= value);
}

/// A key maps to at most one blob, and no operation touches the blob of
/// another key.
pub proof fn law_other_keys_untouched(blobs: Blobs, key: Key, value: Seq<u8>, opt: PutOpt)
    ensures
        put_result(blobs, key, value, opt) matches Ok(after) ==> same_elsewhere(blobs, after, key),
        delete_result(blobs, key) matches Ok(after) ==> same_elsewhere(blobs, after, key),
{
}

} // verus!
