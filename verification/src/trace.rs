//! Records of a trace of blob accesses, as they come out of a table of text
//! fields: time stamp, region, user, application, invocation, blob name,
//! blob type, version tag, size, read and write.
//!
//! The names in a record are kept as their 64-bit hashes. Reading the table
//! itself, and reading the size, which is written as a decimal fraction, are
//! left to the caller.

use std::hash::{DefaultHasher, Hash, Hasher};
use vstd::prelude::*;
use vstd::std_specs::hash::DefaultHasherAdditionalSpecFns;
use vstd::string::StrSliceExecFns;

verus! {

#[derive(Debug, Copy, Clone, PartialEq, Eq, Structural)]
pub enum BlobType {
    Application,
    Image,
    Text,
    /// The type that is written `none`.
    Untyped,
    Other,
}

#[derive(Debug, Copy, Clone, PartialEq, Eq, Structural)]
pub enum TraceError {
    Exhaust,
    BadRecord,
    Io,
    Other,
}

#[derive(Debug, Clone)]
pub struct BlobAccessTrace {
    pub time_stamp: u64,
    pub region_id: u64,
    pub user_id: u64,
    pub app_id: u64,
    pub func_id: u64,
    pub blob_id: usize,
    pub blob_type: BlobType,
    pub version_tag: u64,
    pub size: usize,
    pub read: bool,
    pub write: bool,
}

/// What hashing a text writes into a hasher.
pub uninterp spec fn text_writes(text: Seq<char>) -> Seq<Seq<u8>>;

/// The text in lowercase, as `str::to_lowercase` gives it.
pub uninterp spec fn lowercase_of(text: Seq<char>) -> Seq<char>;

/// Calls `Hash::hash` of `str`, which writes the text into the hasher. What
/// is written depends on the text alone.
#[verifier::external_body]
fn feed_text(state: &mut DefaultHasher, text: &str)
    ensures
        final(state)@ == old(state)@ + text_writes(text@),
{
    text.hash(state)
}

/// Calls `str::to_lowercase`, which returns the text in lowercase.
#[verifier::external_body]
fn lowercase(text: &str) -> (lower: String)
    ensures
        lower@ == lowercase_of(text@),
{
    text.to_lowercase()
}

/// The 64-bit hash of a text: what a fresh `DefaultHasher` gives after the
/// text was hashed into it.
pub open spec fn text_hash(text: Seq<char>) -> u64 {
    DefaultHasher::spec_finish(Seq::<Seq<u8>>::empty() + text_writes(text))
}

/// hash a text to u64
pub fn hash_text(text: &str) -> (hash: u64)
    ensures
        hash == text_hash(text@),
{
    let mut hasher = DefaultHasher::new();
    feed_text(&mut hasher, text);
    hasher.finish()
}

/// Whether two texts are the same.
pub fn same_text(a: &str, b: &str) -> (same: bool)
    ensures
        same == (a@ == b@),
{
    a.to_owned() == b.to_owned()
}

/// The error that a name stands for; a name that is not known is `Other`.
pub open spec fn trace_err_of(name: Seq<char>) -> TraceError {
    if name == "Exhaust"@ {
        TraceError::Exhaust
    } else if name == "BadRecord"@ {
        TraceError::BadRecord
    } else if name == "Io"@ {
        TraceError::Io
    } else {
        TraceError::Other
    }
}

pub fn str_to_trace_err(string: &str) -> (err: TraceError)
    ensures
        err == trace_err_of(string@),
{
    if same_text(string, "Exhaust") {
        TraceError::Exhaust
    } else if same_text(string, "BadRecord") {
        TraceError::BadRecord
    } else if same_text(string, "Io") {
        TraceError::Io
    } else if same_text(string, "Other") {
        TraceError::Other
    } else {
        TraceError::Other
    }
}

pub fn trace_err_to_str(err: TraceError) -> (name: &'static str)
    ensures
        name@ == match err {
            TraceError::Exhaust => "Exhaust"@,
            TraceError::BadRecord => "BadRecord"@,
            TraceError::Io => "Io"@,
            TraceError::Other => "Other"@,
        },
{
    match err {
        TraceError::Exhaust => "Exhaust",
        TraceError::BadRecord => "BadRecord",
        TraceError::Io => "Io",
        TraceError::Other => "Other",
    }
}

/// Position of the first `/` in the text at or behind `from`, or the length
/// of the text where there is none.
pub open spec fn next_slash(text: Seq<char>, from: int) -> int
    decreases text.len() - from,
{
    if from >= text.len() {
        text.len() as int
    } else if text[from] == '/' {
        from
    } else {
        next_slash(text, from + 1)
    }
}

/// The second of the components that the text falls into at each `/`, if
/// there is a second one.
pub open spec fn second_component(text: Seq<char>) -> Option<Seq<char>> {
    let first = next_slash(text, 0);
    if first >= text.len() {
        None
    } else {
        Some(text.subrange(first + 1, next_slash(text, first + 1)))
    }
}

/// The blob type that a text names by its second component.
pub open spec fn blob_type_of(text: Seq<char>) -> BlobType {
    match second_component(text) {
        Some(name) => if name == "application"@ {
            BlobType::Application
        } else if name == "image"@ {
            BlobType::Image
        } else if name == "text"@ {
            BlobType::Text
        } else if name == "none"@ {
            BlobType::Untyped
        } else {
            BlobType::Other
        },
        None => BlobType::Other,
    }
}

/// Finds the first `/` at or behind `from`.
fn find_slash(text: &str, from: usize) -> (at: usize)
    requires
        from <= text@.len(),
    ensures
        at == next_slash(text@, from as int),
        from <= at <= text@.len(),
{
    let n = text.unicode_len();
    let mut i = from;
    while i < n
        invariant
            from <= i <= n == text@.len(),
            next_slash(text@, from as int) == next_slash(text@, i as int),
        decreases n - i,
    {
        if text.get_char(i) == '/' {
            return i;
        }
        i += 1;
    }
    i
}

pub fn make_blob_type_from_str(str: &str) -> (blob_type: BlobType)
    ensures
        blob_type == blob_type_of(str@),
{
    let n = str.unicode_len();
    let first = find_slash(str, 0);
    if first >= n {
        return BlobType::Other;
    }
    let end = find_slash(str, first + 1);
    let name = str.substring_char(first + 1, end);
    if same_text(name, "application") {
        BlobType::Application
    } else if same_text(name, "image") {
        BlobType::Image
    } else if same_text(name, "text") {
        BlobType::Text
    } else if same_text(name, "none") {
        BlobType::Untyped
    } else {
        BlobType::Other
    }
}

/// The value of a decimal digit.
pub open spec fn digit_of(c: char) -> Option<nat> {
    if '0' <= c <= '9' {
        Some((c as nat - '0' as nat) as nat)
    } else {
        None
    }
}

pub open spec fn all_digits(text: Seq<char>) -> bool {
    forall|i: int| 0 <= i < text.len() ==> digit_of(#[trigger] text[i]) is Some
}

/// The number that a text of decimal digits stands for.
pub open spec fn decimal_value(digits: Seq<char>) -> nat
    decreases digits.len(),
{
    if digits.len() == 0 {
        0
    } else {
        decimal_value(digits.drop_last()) * 10 + digit_of(digits.last())->0
    }
}

/// The number that a text stands for: an optional `+`, then decimal digits
/// only, at least one, whose value fits in 64 bits.
pub open spec fn parsed_u64(text: Seq<char>) -> Option<u64> {
    let digits = if text.len() > 0 && text[0] == '+' {
        text.skip(1)
    } else {
        text
    };
    if digits.len() > 0 && all_digits(digits) && decimal_value(digits) <= u64::MAX {
        Some(decimal_value(digits) as u64)
    } else {
        None
    }
}

/// The truth value that a text stands for: `true` or `false`, and nothing
/// else.
pub open spec fn parsed_bool(text: Seq<char>) -> Option<bool> {
    if text == "true"@ {
        Some(true)
    } else if text == "false"@ {
        Some(false)
    } else {
        None
    }
}

/// A longer text of digits stands for no smaller number than its beginning.
pub proof fn lemma_decimal_prefix(digits: Seq<char>, k: int)
    requires
        0 <= k <= digits.len(),
    ensures
        decimal_value(digits.take(k)) <= decimal_value(digits),
    decreases digits.len(),
{
    if k == digits.len() {
        assert(digits.take(k) =~= digits);
    } else {
        lemma_decimal_prefix(digits.drop_last(), k);
        assert(digits.drop_last().take(k) =~= digits.take(k));
    }
}

pub fn parse_u64(text: &str) -> (res: Option<u64>)
    ensures
        res == parsed_u64(text@),
{
    let n = text.unicode_len();
    if n == 0 {
        return None;
    }
    let start: usize = if text.get_char(0) == '+' {
        1
    } else {
        0
    };
    if start == n {
        return None;
    }
    let ghost digits = text@.skip(start as int);
    proof {
        if start == 0 {
            assert(text@.skip(0) =~= text@);
        }
    }
    let mut value: u64 = 0;
    let mut i: usize = start;
    proof {
        assert(digits.take(0) =~= Seq::<char>::empty());
    }
    while i < n
        invariant
            start <= i <= n == text@.len(),
            start < n,
            digits == text@.skip(start as int),
            digits == if text@.len() > 0 && text@[0] == '+' {
                text@.skip(1)
            } else {
                text@
            },
            all_digits(digits.take(i - start)),
            value == decimal_value(digits.take(i - start)),
        decreases n - i,
    {
        let c = text.get_char(i);
        let ghost k = i - start;
        proof {
            assert(digits[k] == c);
            assert(digits.take(k + 1).drop_last() =~= digits.take(k));
            assert(digits.take(k + 1).last() == c);
            lemma_decimal_prefix(digits, k + 1);
        }
        if c < '0' || c > '9' {
            return None;
        }
        let digit = (c as u64) - ('0' as u64);
        let scaled = match value.checked_mul(10) {
            Some(scaled) => scaled,
            None => {
                return None;
            },
        };
        value = match scaled.checked_add(digit) {
            Some(sum) => sum,
            None => {
                return None;
            },
        };
        proof {
            assert forall|j: int| 0 <= j < k + 1 implies digit_of(
                #[trigger] digits.take(k + 1)[j],
            ) is Some by {
                if j < k {
                    assert(digits.take(k)[j] == digits.take(k + 1)[j]);
                }
            }
        }
        i += 1;
    }
    proof {
        assert(digits.take(n - start) =~= digits);
    }
    Some(value)
}

pub fn parse_bool(text: &str) -> (res: Option<bool>)
    ensures
        res == parsed_bool(text@),
{
    if same_text(text, "true") {
        Some(true)
    } else if same_text(text, "false") {
        Some(false)
    } else {
        None
    }
}

/// The truth value that a field of a record stands for, in any case of
/// letters.
pub open spec fn record_flag(field: Seq<char>) -> Option<bool> {
    parsed_bool(lowercase_of(field))
}

/// Whether the fields make a record: there are eleven of them at least, the
/// first is a number, the tenth and the eleventh are truth values, and the
/// hash of the sixth fits a `usize`.
pub open spec fn is_record(fields: Seq<Seq<char>>) -> bool {
    &&& fields.len() >= 11
    &&& parsed_u64(fields[0]) is Some
    &&& record_flag(fields[9]) is Some
    &&& record_flag(fields[10]) is Some
    &&& text_hash(fields[5]) <= usize::MAX
}

/// The record that the fields make, with the size that was read from the
/// ninth.
pub open spec fn record_of(fields: Seq<Seq<char>>, blob_bytes: usize) -> BlobAccessTrace {
    BlobAccessTrace {
        time_stamp: parsed_u64(fields[0])->0,
        region_id: text_hash(fields[1]),
        user_id: text_hash(fields[2]),
        app_id: text_hash(fields[3]),
        func_id: text_hash(fields[4]),
        blob_id: text_hash(fields[5]) as usize,
        blob_type: blob_type_of(fields[6]),
        version_tag: text_hash(fields[7]),
        size: blob_bytes,
        read: record_flag(fields[9])->0,
        write: record_flag(fields[10])->0,
    }
}

/// The fields as sequences of characters.
pub open spec fn fields_view(fields: Seq<String>) -> Seq<Seq<char>> {
    Seq::new(fields.len(), |i: int| fields[i]@)
}

/// Makes a record of the fields of one row: Timestamp, AnonRegion,
/// AnonUserId, AnonAppName, AnonFunctionInvocationId, AnonBlobName, BlobType,
/// AnonBlobETag, BlobBytes, Read, Write. `blob_bytes` is the size as it was
/// read from the ninth field.
pub fn parse_record(fields: &Vec<String>, blob_bytes: usize) -> (record: BlobAccessTrace)
    requires
        is_record(fields_view(fields@)),
    ensures
        record == record_of(fields_view(fields@), blob_bytes),
{
    // csv HEAD format
    // Timestamp,AnonRegion,AnonUserId,AnonAppName,AnonFunctionInvocationId,AnonBlobName,BlobType,AnonBlobETag,BlobBytes,Read,Write
    let ghost view = fields_view(fields@);
    proof {
        assert(forall|i: int| 0 <= i < fields@.len() ==> view[i] == fields@[i]@);
    }
    let timestamp = parse_u64(fields[0].as_str()).unwrap();
    let read = parse_bool(lowercase(fields[9].as_str()).as_str()).unwrap();
    let write = parse_bool(lowercase(fields[10].as_str()).as_str()).unwrap();
    BlobAccessTrace {
        time_stamp: timestamp,
        region_id: hash_text(fields[1].as_str()),
        user_id: hash_text(fields[2].as_str()),
        app_id: hash_text(fields[3].as_str()),
        func_id: hash_text(fields[4].as_str()),
        blob_id: hash_text(fields[5].as_str()) as usize,
        blob_type: make_blob_type_from_str(fields[6].as_str()),
        version_tag: hash_text(fields[7].as_str()),
        size: blob_bytes,
        read,
        write,
    }
}

/// Makes a record of the fields where they make one, and says so where they
/// do not.
pub fn try_parse_record(fields: &Vec<String>, blob_bytes: usize) -> (res: Option<BlobAccessTrace>)
    ensures
        match res {
            Some(record) => is_record(fields_view(fields@)) && record == record_of(
                fields_view(fields@),
                blob_bytes,
            ),
            None => !is_record(fields_view(fields@)),
        },
{
    let ghost view = fields_view(fields@);
    proof {
        assert(forall|i: int| 0 <= i < fields@.len() ==> view[i] == fields@[i]@);
    }
    if fields.len() < 11 {
        return None;
    }
    if parse_u64(fields[0].as_str()).is_none() {
        return None;
    }
    if parse_bool(lowercase(fields[9].as_str()).as_str()).is_none() {
        return None;
    }
    if parse_bool(lowercase(fields[10].as_str()).as_str()).is_none() {
        return None;
    }
    if hash_text(fields[5].as_str()) > usize::MAX as u64 {
        return None;
    }
    Some(parse_record(fields, blob_bytes))
}

/// The rows that `csv` reads from the text of a table behind its header
/// line: the fields of each row, or `None` for a row that cannot be read.
pub uninterp spec fn csv_rows(text: Seq<u8>) -> Seq<Option<Seq<Seq<char>>>>;

/// The rows as sequences of fields.
pub open spec fn rows_view(rows: Seq<Option<Vec<String>>>) -> Seq<Option<Seq<Seq<char>>>> {
    Seq::new(
        rows.len(),
        |i: int|
            match rows[i] {
                Some(fields) => Some(fields_view(fields@)),
                None => None,
            },
    )
}

/// Calls `csv::Reader::from_reader` and `Reader::into_records`, which read
/// the text as a table with a header line and yield its rows in order, each
/// as its fields or as an error. The fields are handed on as strings, an
/// error as `None`.
#[verifier::external_body]
fn read_rows(text: &[u8]) -> (rows: Vec<Option<Vec<String>>>)
    ensures
        rows_view(rows@) == csv_rows(text@),
{
    csv::Reader::from_reader(text)
        .into_records()
        .map(|record| record.ok().map(|fields| fields.iter().map(str::to_string).collect()))
        .collect()
}

/// The rows from the first one that can be read on.
pub open spec fn skip_unreadable(rows: Seq<Option<Seq<Seq<char>>>>) -> Seq<
    Option<Seq<Seq<char>>>,
>
    decreases rows.len(),
{
    if rows.len() == 0 || rows[0] is Some {
        rows
    } else {
        skip_unreadable(rows.drop_first())
    }
}

/// A reader of the rows of a table.
pub struct BlobAccessTraceReader {
    /// The rows that are left, the next one last.
    rows: Vec<Option<Vec<String>>>,
}

impl BlobAccessTraceReader {
    /// The rows that are left, in their order.
    pub closed spec fn remaining(&self) -> Seq<Option<Seq<Seq<char>>>> {
        rows_view(self.rows@.reverse())
    }

    /// The fields of the next row that can be read; rows that cannot be read
    /// are passed over.
    ///
    /// # Error
    /// - Exhaust: no row that can be read is left.
    pub fn next_row(&mut self) -> (res: Result<Vec<String>, TraceError>)
        ensures
            ({
                let rest = skip_unreadable(old(self).remaining());
                match res {
                    Ok(fields) => {
                        &&& rest.len() > 0
                        &&& rest[0] == Some(fields_view(fields@))
                        &&& final(self).remaining() == rest.drop_first()
                    },
                    Err(e) => {
                        &&& e == TraceError::Exhaust
                        &&& rest.len() == 0
                        &&& final(self).remaining().len() == 0
                    },
                }
            }),
    {
        loop
            invariant
                skip_unreadable(self.remaining()) == skip_unreadable(old(self).remaining()),
            decreases self.rows@.len(),
        {
            let ghost before = self.rows@;
            let row = self.rows.pop();
            proof {
                if before.len() > 0 {
                    let n = before.len() as int;
                    assert(before.reverse()[0] == before[n - 1]);
                    assert(before.reverse().drop_first() =~= self.rows@.reverse());
                    assert(rows_view(before.reverse()).drop_first() =~= rows_view(
                        self.rows@.reverse(),
                    ));
                } else {
                    assert(rows_view(before.reverse()).len() == 0);
                }
            }
            match row {
                None => {
                    return Err(TraceError::Exhaust);
                },
                Some(None) => {},
                Some(Some(fields)) => {
                    return Ok(fields);
                },
            }
        }
    }
}

/// A reader of the table that the text holds: the first line is the header,
/// every other line a row.
pub fn open_reader(text: &[u8]) -> (reader: BlobAccessTraceReader)
    ensures
        reader.remaining() == csv_rows(text@),
{
    let mut rows = read_rows(text);
    let ghost all = rows@;
    let mut reversed: Vec<Option<Vec<String>>> = Vec::new();
    loop
        invariant
            rows@.len() + reversed@.len() == all.len(),
            rows@ == all.take(rows@.len() as int),
            forall|i: int| 0 <= i < reversed@.len() ==> reversed@[i] == all[all.len() - 1 - i],
        ensures
            rows@.len() == 0,
        decreases rows@.len(),
    {
        match rows.pop() {
            Some(row) => {
                reversed.push(row);
            },
            None => {
                break ;
            },
        }
    }
    proof {
        assert(reversed@.reverse() =~= all);
    }
    BlobAccessTraceReader { rows: reversed }
}

} // verus!
