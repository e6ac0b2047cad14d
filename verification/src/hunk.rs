//! Parsing of hunk header lines of the shape
//! `@@ -<old_start>[,<old_lines>] +<new_start>[,<new_lines>] @@`, optionally
//! followed by function-context text, into the four ranges.

use vstd::prelude::*;

use crate::text::{
    chars_of, reps_end, spec_parse_u32, split_char, split_char_vec, split_sub, strip_reps,
    strip_reps_from, sub_break, lemma_sub_break, subvec, parse_u32_from,
};

verus! {

/// The prefix that `str::trim_start_matches` removes, repeatedly, from the
/// front of a header line.
pub open spec fn hunk_open() -> Seq<char> {
    "@@ "@
}

/// The separator that closes the range portion of a header line.
pub open spec fn hunk_close() -> Seq<char> {
    " @@"@
}

/// What one range token yields: `start,lines`, or `start` alone with a line
/// count of one; `None` when either number fails to parse.
pub open spec fn spec_parse_range(s: Seq<char>) -> Option<(u32, u32)> {
    let parts = split_char(s, ',');
    match spec_parse_u32(parts[0]) {
        None => None,
        Some(start) => {
            if parts.len() > 1 {
                match spec_parse_u32(parts[1]) {
                    None => None,
                    Some(lines) => Some((start, lines)),
                }
            } else {
                Some((start, 1))
            }
        },
    }
}

/// What a header line yields: the text between the opening `@@ ` and the
/// first closing ` @@` is split on spaces into an old-range token and a
/// new-range token, stripped of their leading `-` and `+` markers; `None`
/// when there are fewer than two tokens or either range fails to parse.
/// Text after the closing ` @@` never affects the result.
pub open spec fn spec_parse_hunk_header(line: Seq<char>) -> Option<(u32, u32, u32, u32)> {
    let rest = strip_reps(line, hunk_open());
    let seg = split_sub(rest, hunk_close())[0];
    let parts = split_char(seg, ' ');
    if parts.len() < 2 {
        None
    } else {
        let old_tok = strip_reps(parts[0], seq!['-']);
        let new_tok = strip_reps(parts[1], seq!['+']);
        match (spec_parse_range(old_tok), spec_parse_range(new_tok)) {
            (Some((a, b)), Some((c, d))) => Some((a, b, c, d)),
            _ => None,
        }
    }
}

/// Strips leading repetitions of the single character `c`, from position
/// `from` of `v`; returns the position where they end.
pub fn strip_char_reps_from(v: &Vec<char>, from: usize, c: char) -> (r: usize)
    requires
        from <= v@.len(),
    ensures
        r == reps_end(v@, seq![c], from as int),
        from <= r <= v@.len(),
{
    let mut p: Vec<char> = Vec::new();
    p.push(c);
    assert(p@ =~= seq![c]);
    strip_reps_from(v, from, &p)
}

/// What `parse_range` yields on `v[from..]`.
pub fn parse_range_from(v: &Vec<char>, from: usize) -> (r: Option<(u32, u32)>)
    requires
        from <= v@.len(),
    ensures
        r == spec_parse_range(v@.subrange(from as int, v@.len() as int)),
{
    let w = subvec(v, from, v.len());
    let parts = split_char_vec(&w, ',');
    proof {
        assert(parts@[0]@.subrange(0, parts@[0]@.len() as int) =~= parts@[0]@);
    }
    let start: u32 = match parse_u32_from(&parts[0], 0) {
        Some(x) => x,
        None => {
            return None;
        },
    };
    if parts.len() > 1 {
        proof {
            assert(parts@[1]@.subrange(0, parts@[1]@.len() as int) =~= parts@[1]@);
        }
        match parse_u32_from(&parts[1], 0) {
            Some(lines) => Some((start, lines)),
            None => None,
        }
    } else {
        Some((start, 1))
    }
}

/// Parses a range token: `start,lines`, or `start` alone, which means one
/// line.  Returns `None` when either number fails to parse as a `u32`.
pub fn parse_range(s: &str) -> (r: Option<(u32, u32)>)
    ensures
        r == spec_parse_range(s@),
{
    let cs = chars_of(s);
    proof {
        assert(cs@.subrange(0, cs@.len() as int) =~= cs@);
    }
    parse_range_from(&cs, 0)
}

/// `parse_hunk_header` on an already separated line.
pub fn parse_hunk_header_vec(line: &Vec<char>) -> (r: Option<(u32, u32, u32, u32)>)
    ensures
        r == spec_parse_hunk_header(line@),
{
    proof {
        reveal_strlit("@@ ");
        reveal_strlit(" @@");
    }
    let m_open = chars_of("@@ ");
    let k = strip_reps_from(line, 0, &m_open);
    let rest = subvec(line, k, line.len());
    let m_close = chars_of(" @@");
    let e = crate::text::find_sub(&rest, 0, &m_close);
    let seg = subvec(&rest, 0, e);
    proof {
        lemma_sub_break(rest@, 0, m_close@);
        if e < rest@.len() {
            assert(split_sub(rest@, hunk_close())[0] == rest@.subrange(0, e as int));
        } else {
            assert(split_sub(rest@, hunk_close())[0] == rest@.subrange(0, rest@.len() as int));
            assert(rest@.subrange(0, rest@.len() as int) =~= rest@.subrange(0, e as int));
        }
    }
    let parts = split_char_vec(&seg, ' ');
    if parts.len() < 2 {
        return None;
    }
    let o = strip_char_reps_from(&parts[0], 0, '-');
    let old_r = parse_range_from(&parts[0], o);
    let n = strip_char_reps_from(&parts[1], 0, '+');
    let new_r = parse_range_from(&parts[1], n);
    match (old_r, new_r) {
        (Some((a, b)), Some((c, d))) => Some((a, b, c, d)),
        _ => None,
    }
}

/// Parses a hunk header line such as `@@ -10,3 +12,5 @@ fn foo()` into
/// `(old_start, old_lines, new_start, new_lines)`; an omitted count means
/// one line.  Returns `None` when the line does not split into an old-range
/// and a new-range token, or when either token fails to parse.
pub fn parse_hunk_header(line: &str) -> (r: Option<(u32, u32, u32, u32)>)
    ensures
        r == spec_parse_hunk_header(line@),
{
    let cs = chars_of(line);
    parse_hunk_header_vec(&cs)
}

} // verus!
