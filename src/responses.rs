//! Responses of the sharing server: listings, and the newline-delimited
//! records of the metadata and query endpoints.

use vstd::prelude::*;

use crate::error::SharingError;
use crate::protocol::{
    file_views, File, ManifestView, Metadata, Protocol, Schema, Share, Table, TableFiles, TableFilesView,
    TableMetadata,
};

verus! {

/// The body of `GET /shares`.
pub struct ShareResponse {
    pub items: Vec<Share>,
}

/// The body of `GET /shares/{share}/schemas`.
pub struct SchemaResponse {
    pub items: Vec<Schema>,
}

/// The body of `GET .../tables` and `GET .../all-tables`.
pub struct TableResponse {
    pub items: Vec<Table>,
}

/// A `{"protocol": ...}` record.
pub struct ProtocolResponse {
    pub protocol: Protocol,
}

/// A `{"metaData": ...}` record.
pub struct MetadataResponse {
    pub metadata: Metadata,
}

/// A `{"file": ...}` record.
pub struct FileResponse {
    pub file: File,
}

/// A `{"file": ...}` record as an action of a table's log.
pub struct FileActionResponse {
    pub file: File,
}

/// One record of a newline-delimited response, by kind.
pub enum ResponseRecord {
    Protocol(Protocol),
    Metadata(Metadata),
    File(File),
}

pub open spec fn is_json_space(b: u8) -> bool {
    b == 0x20 || b == 0x09 || b == 0x0a || b == 0x0d
}

/// A line that holds nothing but JSON whitespace.
pub open spec fn is_blank(line: Seq<u8>) -> bool {
    forall|i: int| 0 <= i < line.len() ==> #[trigger] is_json_space(line[i])
}

/// The position of the first newline at or after `i`, or the length.
pub open spec fn line_end(b: Seq<u8>, i: int) -> int
    decreases b.len() - i,
{
    if i < 0 || i >= b.len() {
        b.len() as int
    } else if b[i] == 0x0a {
        i
    } else {
        line_end(b, i + 1)
    }
}

pub proof fn lemma_line_end(b: Seq<u8>, i: int)
    requires
        0 <= i <= b.len(),
    ensures
        i <= line_end(b, i) <= b.len(),
        line_end(b, i) < b.len() ==> b[line_end(b, i)] == 0x0a,
        forall|k: int| i <= k < line_end(b, i) ==> b[k] != 0x0a,
    decreases b.len() - i,
{
    if i < b.len() && b[i] != 0x0a {
        lemma_line_end(b, i + 1);
    }
}

/// The non-blank lines of `b` from position `i` on, without their newlines.
pub open spec fn records_from(b: Seq<u8>, i: int) -> Seq<Seq<u8>>
    decreases b.len() - i,
{
    if i < 0 || i >= b.len() {
        Seq::empty()
    } else {
        proof {
            lemma_line_end(b, i);
        }
        let j = line_end(b, i);
        let line = b.subrange(i, j);
        let rest = if j < b.len() {
            records_from(b, j + 1)
        } else {
            Seq::empty()
        };
        if is_blank(line) {
            rest
        } else {
            seq![line] + rest
        }
    }
}

/// Splits a newline-delimited body into its records: every line that is not
/// blank, in order, without its newline.
pub fn split_records(body: &[u8]) -> (r: Vec<Vec<u8>>)
    ensures
        r.deep_view() == records_from(body@, 0),
{
    let mut out: Vec<Vec<u8>> = Vec::new();
    let mut i: usize = 0;
    while i < body.len()
        invariant
            i <= body.len(),
            out.deep_view() + records_from(body@, i as int) == records_from(body@, 0),
        decreases body.len() - i,
    {
        let mut j: usize = i;
        while j < body.len() && body[j] != 0x0a
            invariant
                i <= j <= body.len(),
                line_end(body@, i as int) == line_end(body@, j as int),
            decreases body.len() - j,
        {
            j = j + 1;
        }
        let mut line: Vec<u8> = Vec::new();
        let mut blank = true;
        let mut k: usize = i;
        while k < j
            invariant
                i <= k <= j <= body.len(),
                line@ == body@.subrange(i as int, k as int),
                blank == is_blank(body@.subrange(i as int, k as int)),
            decreases j - k,
        {
            let c = body[k];
            let ghost s0 = body@.subrange(i as int, k as int);
            let ghost s1 = body@.subrange(i as int, k + 1);
            proof {
                assert(s1 =~= s0.push(c));
                if is_blank(s0) && is_json_space(c) {
                    assert forall|t: int| 0 <= t < s1.len() implies #[trigger] is_json_space(s1[t]) by {
                        if t < s0.len() {
                            assert(s1[t] == s0[t]);
                        }
                    }
                }
                if is_blank(s1) {
                    assert(is_json_space(s1[s0.len() as int]));
                    assert forall|t: int| 0 <= t < s0.len() implies #[trigger] is_json_space(s0[t]) by {
                        assert(s1[t] == s0[t]);
                    }
                }
            }
            if !(c == 0x20 || c == 0x09 || c == 0x0a || c == 0x0d) {
                blank = false;
            }
            line.push(c);
            k = k + 1;
        }
        let ghost before = out.deep_view();
        if !blank {
            proof {
                assert(line.deep_view() =~= line@);
            }
            out.push(line);
            proof {
                assert(out.deep_view() =~= before.push(body@.subrange(i as int, j as int)));
            }
        }
        proof {
            assert(before + records_from(body@, i as int) == records_from(body@, 0));
        }
        if j < body.len() {
            proof {
                assert(out.deep_view() + records_from(body@, j + 1) =~= before + records_from(body@, i as int));
            }
            i = j + 1;
        } else {
            proof {
                assert(out.deep_view() + records_from(body@, j as int) =~= before + records_from(body@, i as int));
            }
            i = j;
        }
    }
    proof {
        assert(out.deep_view() + records_from(body@, i as int) =~= out.deep_view());
    }
    out
}

/// A query response in protocol order: a protocol record, a metadata
/// record, then nothing but file records.
pub open spec fn files_in_order(s: Seq<ResponseRecord>) -> bool {
    &&& s.len() >= 2
    &&& s[0] is Protocol
    &&& s[1] is Metadata
    &&& forall|i: int| 2 <= i < s.len() ==> #[trigger] s[i] is File
}

pub open spec fn record_file(r: ResponseRecord) -> File {
    r->File_0
}

/// The table that a query response in protocol order describes.
pub open spec fn assembled(s: Seq<ResponseRecord>) -> TableFilesView {
    TableFilesView {
        metadata: ManifestView {
            min_reader_version: (s[0]->Protocol_0).min_reader_version,
            metadata: (s[1]->Metadata_0)@,
        },
        files: file_views(s.skip(2).map_values(|r: ResponseRecord| record_file(r))),
    }
}

fn protocol_error(what: &str) -> (e: SharingError)
    ensures
        e is Protocol,
{
    SharingError::Protocol { message: String::from_str(what) }
}

/// Puts a query response together: the manifest from its first two records
/// and the files from the rest. Any other order is a protocol error.
pub fn assemble_table_files(records: Vec<ResponseRecord>) -> (r: Result<TableFiles, SharingError>)
    ensures
        r is Ok <==> files_in_order(records@),
        r matches Ok(t) ==> t@ == assembled(records@),
        r matches Err(e) ==> e is Protocol,
{
    let ghost all = records@;
    let mut recs = records;
    if recs.len() < 2 {
        return Err(protocol_error("a query response needs a protocol and a metadata record"));
    }
    let tail = recs.split_off(2);
    let second = recs.pop();
    let first = recs.pop();
    let (protocol, metadata) = match (first, second) {
        (Some(ResponseRecord::Protocol(p)), Some(ResponseRecord::Metadata(m))) => (p, m),
        _ => {
            return Err(protocol_error("a query response starts with a protocol and a metadata record"));
        },
    };
    let ghost rest = tail@;
    assert(rest == all.skip(2));
    let mut files: Vec<File> = Vec::new();
    for rec in it: tail.into_iter()
        invariant
            all == records@,
            rest == all.skip(2),
            all.len() == rest.len() + 2,
            it.seq() == rest,
            files.len() == it.index(),
            forall|j: int| 0 <= j < it.index() ==> #[trigger] rest[j] is File,
            forall|j: int| 0 <= j < it.index() ==> #[trigger] files@[j] == record_file(rest[j]),
    {
        match rec {
            ResponseRecord::File(f) => {
                files.push(f);
            },
            _ => {
                proof {
                    assert(rest[it.index() as int] == rec);
                    assert(all[it.index() + 2] == rest[it.index() as int]);
                    assert(!(all[it.index() + 2] is File));
                    assert(!files_in_order(all));
                }
                return Err(protocol_error("only file records may follow the metadata record"));
            },
        }
    }
    let t = TableFiles { metadata: TableMetadata { protocol, metadata }, files };
    proof {
        assert forall|i: int| 2 <= i < all.len() implies #[trigger] all[i] is File by {
            assert(rest[i - 2] == all[i]);
        }
        assert(file_views(files@) =~= file_views(rest.map_values(|r: ResponseRecord| record_file(r))));
    }
    Ok(t)
}

/// Puts a metadata response together from its first two records, which
/// must be a protocol record and then a metadata record.
pub fn assemble_table_metadata(records: Vec<ResponseRecord>) -> (r: Result<TableMetadata, SharingError>)
    ensures
        r is Ok <==> (records@.len() >= 2 && records@[0] is Protocol && records@[1] is Metadata),
        r matches Ok(t) ==> t@ == assembled(records@).metadata,
        r matches Err(e) ==> e is Protocol,
{
    let mut records = records;
    if records.len() < 2 {
        return Err(protocol_error("a metadata response needs a protocol and a metadata record"));
    }
    records.truncate(2);
    let second = records.pop();
    let first = records.pop();
    match (first, second) {
        (Some(ResponseRecord::Protocol(protocol)), Some(ResponseRecord::Metadata(metadata))) => {
            Ok(TableMetadata { protocol, metadata })
        },
        _ => Err(protocol_error("a metadata response starts with a protocol and a metadata record")),
    }
}

pub open spec fn is_digit(b: u8) -> bool {
    48 <= b <= 57
}

/// At least one byte, and every byte a decimal digit.
pub open spec fn all_digits(s: Seq<u8>) -> bool {
    s.len() > 0 && forall|i: int| 0 <= i < s.len() ==> #[trigger] is_digit(s[i])
}

/// The number that a run of decimal digits writes.
pub open spec fn digits_value(s: Seq<u8>) -> int
    decreases s.len(),
{
    if s.len() == 0 {
        0
    } else {
        digits_value(s.drop_last()) * 10 + (s.last() - 48)
    }
}

/// The integer that `s` writes in decimal: an optional `+` or `-`, then
/// one or more digits.
pub open spec fn decimal_value(s: Seq<u8>) -> Option<int> {
    if s.len() > 0 && s[0] == 45 && all_digits(s.skip(1)) {
        Some(-digits_value(s.skip(1)))
    } else if s.len() > 0 && s[0] == 43 && all_digits(s.skip(1)) {
        Some(digits_value(s.skip(1)))
    } else if all_digits(s) {
        Some(digits_value(s))
    } else {
        None
    }
}

/// The `i32` that `s` writes in decimal, if it writes one in range.
pub open spec fn decimal_i32(s: Seq<u8>) -> Option<i32> {
    match decimal_value(s) {
        Some(v) => if i32::MIN <= v <= i32::MAX {
            Some(v as i32)
        } else {
            None
        },
        None => None,
    }
}

proof fn lemma_digits_value_nonneg(s: Seq<u8>)
    requires
        forall|i: int| 0 <= i < s.len() ==> #[trigger] is_digit(s[i]),
    ensures
        digits_value(s) >= 0,
    decreases s.len(),
{
    if s.len() > 0 {
        assert forall|i: int| 0 <= i < s.drop_last().len() implies #[trigger] is_digit(
            s.drop_last()[i],
        ) by {
            assert(s.drop_last()[i] == s[i]);
        }
        lemma_digits_value_nonneg(s.drop_last());
        assert(is_digit(s[s.len() - 1]));
    }
}

/// The value of the digits `s[start..]`, capped at `2^32`; `None` when one
/// of them is not a digit or there are none.
fn capped_digits(s: &[u8], start: usize) -> (r: Option<u64>)
    requires
        start <= s@.len(),
    ensures
        r is Some <==> all_digits(s@.subrange(start as int, s@.len() as int)),
        r matches Some(v) ==> v == if digits_value(s@.subrange(start as int, s@.len() as int))
            >= 0x1_0000_0000 {
            0x1_0000_0000
        } else {
            digits_value(s@.subrange(start as int, s@.len() as int))
        },
{
    let n = s.len();
    if start >= n {
        return None;
    }
    let mut acc: u64 = 0;
    let mut i: usize = start;
    while i < n
        invariant
            start <= i <= n == s@.len(),
            forall|j: int| start <= j < i ==> #[trigger] is_digit(s@[j]),
            acc == if digits_value(s@.subrange(start as int, i as int)) >= 0x1_0000_0000 {
                0x1_0000_0000
            } else {
                digits_value(s@.subrange(start as int, i as int))
            },
        decreases n - i,
    {
        let b = s[i];
        let ghost before = s@.subrange(start as int, i as int);
        let ghost after = s@.subrange(start as int, i + 1);
        if b < 48 || b > 57 {
            proof {
                assert(!is_digit(s@.subrange(start as int, n as int)[i - start]));
            }
            return None;
        }
        proof {
            assert(after.drop_last() =~= before);
            assert forall|j: int| 0 <= j < before.len() implies #[trigger] is_digit(before[j]) by {
                assert(before[j] == s@[start + j]);
            }
            lemma_digits_value_nonneg(before);
        }
        let d = (b - 48) as u64;
        if acc * 10 + d > 0x1_0000_0000 {
            acc = 0x1_0000_0000;
        } else {
            acc = acc * 10 + d;
        }
        i = i + 1;
    }
    proof {
        let all = s@.subrange(start as int, n as int);
        assert forall|j: int| 0 <= j < all.len() implies #[trigger] is_digit(all[j]) by {
            assert(all[j] == s@[start + j]);
        }
    }
    Some(acc)
}

/// The `i32` that `s` writes in decimal: an optional `+` or `-`, then one or
/// more digits, with a value in range.
pub fn parse_decimal_i32(s: &[u8]) -> (r: Option<i32>)
    ensures
        r == decimal_i32(s@),
{
    if s.len() == 0 {
        return None;
    }
    let signed = s[0] == 45 || s[0] == 43;
    let start: usize = if signed {
        1
    } else {
        0
    };
    proof {
        assert(s@.subrange(1, s@.len() as int) =~= s@.skip(1));
        assert(s@.subrange(0, s@.len() as int) =~= s@);
        if signed {
            assert(!is_digit(s@[0]));
            assert(!all_digits(s@));
        }
    }
    match capped_digits(s, start) {
        Some(v) => {
            if s[0] == 45 {
                if v <= 0x8000_0000 {
                    Some((0 - (v as i64)) as i32)
                } else {
                    None
                }
            } else {
                if v <= 0x7fff_ffff {
                    Some(v as i32)
                } else {
                    None
                }
            }
        },
        None => None,
    }
}

/// The version that a table's `delta-table-version` header states. A
/// response without the header gives `-1`; a header that is not a decimal
/// `i32` is a protocol error.
pub fn table_version(header: Option<&[u8]>) -> (r: Result<i32, SharingError>)
    ensures
        header is None ==> (r matches Ok(v) && v == -1),
        header matches Some(h) ==> match decimal_i32(h@) {
            Some(v) => r matches Ok(x) && x == v,
            None => r matches Err(SharingError::Protocol { .. }),
        },
{
    match header {
        None => Ok(-1),
        Some(h) => match parse_decimal_i32(h) {
            Some(v) => Ok(v),
            None => Err(protocol_error("the table version header is not a decimal number")),
        },
    }
}

} // verus!
