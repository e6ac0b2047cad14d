//! Parsing of delimiter-separated commit-log streams: records separated by
//! the record-separator byte, fields within a record separated by the
//! unit-separator byte.

use vstd::prelude::*;

use crate::text::{
    chars_of, spec_parse_i64, spec_trim, split_char, split_char_vec, string_from_chars, subvec,
    trim_bounds, parse_i64_from,
};
use crate::types::{CommitInfo, CommitInfoV};

verus! {

/// The record separator between commits.
pub open spec fn record_sep() -> char {
    '\x1e'
}

/// The field separator within a commit record.
pub open spec fn field_sep() -> char {
    '\x1f'
}

/// What one record of the log stream yields: the record is trimmed and
/// discarded when empty, split into fields, and kept only when it has at
/// least six of them, in fixed order — full hash, short hash, author name,
/// author email, timestamp, summary, and an optional seventh field holding
/// the message body.  A timestamp that does not parse becomes zero; a
/// missing body becomes the empty string.
pub open spec fn spec_parse_record(rec: Seq<char>) -> Option<CommitInfoV> {
    let t = spec_trim(rec);
    if t.len() == 0 {
        None
    } else {
        let fields = split_char(t, field_sep());
        if fields.len() < 6 {
            None
        } else {
            Some(
                CommitInfoV {
                    hash: fields[0],
                    short_hash: fields[1],
                    author_name: fields[2],
                    author_email: fields[3],
                    timestamp: match spec_parse_i64(fields[4]) {
                        Some(x) => x,
                        None => 0,
                    },
                    summary: fields[5],
                    message: spec_trim(
                        if fields.len() > 6 {
                            fields[6]
                        } else {
                            Seq::empty()
                        },
                    ),
                },
            )
        }
    }
}

/// The commits yielded by the first `n` records, dropped records omitted.
pub open spec fn log_prefix(recs: Seq<Seq<char>>, n: int) -> Seq<CommitInfoV>
    decreases n,
{
    if n <= 0 {
        Seq::empty()
    } else {
        let pre = log_prefix(recs, n - 1);
        match spec_parse_record(recs[n - 1]) {
            Some(c) => pre.push(c),
            None => pre,
        }
    }
}

/// The commits of a whole log stream, in input order.
pub open spec fn spec_parse_log(text: Seq<char>) -> Seq<CommitInfoV> {
    let recs = split_char(text, record_sep());
    log_prefix(recs, recs.len() as int)
}

/// Parses one commit record, already separated from the stream.
fn parse_record_vec(rec: &Vec<char>) -> (r: Option<CommitInfo>)
    ensures
        match r {
            Some(c) => spec_parse_record(rec@) == Some(c@),
            None => spec_parse_record(rec@) is None,
        },
{
    let (a, b) = trim_bounds(rec);
    let t = subvec(rec, a, b);
    if t.len() == 0 {
        return None;
    }
    let fields = split_char_vec(&t, '\x1f');
    if fields.len() < 6 {
        return None;
    }
    proof {
        assert(fields@[4]@.subrange(0, fields@[4]@.len() as int) =~= fields@[4]@);
    }
    let timestamp: i64 = match parse_i64_from(&fields[4], 0) {
        Some(x) => x,
        None => 0,
    };
    let message: String = if fields.len() > 6 {
        let (ma, mb) = trim_bounds(&fields[6]);
        let mv = subvec(&fields[6], ma, mb);
        string_from_chars(&mv)
    } else {
        proof {
            assert(spec_trim(Seq::<char>::empty()) =~= Seq::<char>::empty());
        }
        String::new()
    };
    let c = CommitInfo {
        hash: string_from_chars(&fields[0]),
        short_hash: string_from_chars(&fields[1]),
        author_name: string_from_chars(&fields[2]),
        author_email: string_from_chars(&fields[3]),
        timestamp,
        message,
        summary: string_from_chars(&fields[5]),
    };
    Some(c)
}

/// Parses the single-record output of a commit query.  Returns `None`
/// exactly when the trimmed text has fewer than six fields.
pub fn parse_commit_record(text: &str) -> (r: Option<CommitInfo>)
    ensures
        match r {
            Some(c) => spec_parse_record(text@) == Some(c@),
            None => spec_parse_record(text@) is None,
        },
{
    let cs = chars_of(text);
    parse_record_vec(&cs)
}

/// Parses a delimiter-separated commit-log stream into its commits, in
/// input order.  Records that trim to nothing or have fewer than six fields
/// are dropped; nothing makes the whole parse fail.
pub fn parse_commit_log(text: &str) -> (r: Vec<CommitInfo>)
    ensures
        r@.map_values(|c: CommitInfo| c@) == spec_parse_log(text@),
{
    let cs = chars_of(text);
    let recs = split_char_vec(&cs, '\x1e');
    let ghost rs = split_char(text@, record_sep());
    let mut r: Vec<CommitInfo> = Vec::new();
    let mut i: usize = 0;
    while i < recs.len()
        invariant
            0 <= i <= recs@.len(),
            recs@.len() == rs.len(),
            forall|j: int| 0 <= j < recs@.len() ==> (#[trigger] recs@[j])@ == rs[j],
            r@.map_values(|c: CommitInfo| c@) == log_prefix(rs, i as int),
        decreases recs@.len() - i,
    {
        let ghost pre = r@.map_values(|c: CommitInfo| c@);
        match parse_record_vec(&recs[i]) {
            Some(c) => {
                r.push(c);
                proof {
                    assert(r@.map_values(|c: CommitInfo| c@) =~= pre.push(
                        spec_parse_record(rs[i as int]) -> Some_0,
                    ));
                }
            },
            None => {},
        }
        i = i + 1;
    }
    r
}

} // verus!
