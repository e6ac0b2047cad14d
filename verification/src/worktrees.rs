//! Parsing of the small listings around the core: worktree paths from a
//! porcelain worktree listing, branch classification lines, prune messages,
//! and the head fields read one per query.

use vstd::prelude::*;

use crate::text::{
    char_break, chars_of, eq_chars, has_prefix, has_prefix_at, has_prefix_from, parse_i64_from,
    spec_lines, spec_parse_i64, spec_trim, split_char, split_char_vec, split_lines,
    string_from_chars, subvec, trim_bounds,
};
use crate::types::{BranchInfo, BranchInfoV};

verus! {

// ---------------------------------------------------------------------------
// Marked lines
// ---------------------------------------------------------------------------

/// What the first `n` lines name: the text after the marker of each line
/// that begins with it.
pub open spec fn marked_lines_prefix(lines: Seq<Seq<char>>, n: int, m: Seq<char>) -> Seq<Seq<char>>
    decreases n,
{
    if n <= 0 {
        Seq::empty()
    } else {
        let pre = marked_lines_prefix(lines, n - 1, m);
        let l = lines[n - 1];
        if has_prefix(l, m) {
            pre.push(l.subrange(m.len() as int, l.len() as int))
        } else {
            pre
        }
    }
}

/// The values of every line of `text` that begins with the marker `m`: the
/// worktree paths of a porcelain worktree listing, or the branch names its
/// `branch` lines carry.
pub open spec fn spec_marked_lines(text: Seq<char>, m: Seq<char>) -> Seq<Seq<char>> {
    let ls = spec_lines(text);
    marked_lines_prefix(ls, ls.len() as int, m)
}

/// Extracts, from each line that begins with `marker`, the text after it, in
/// input order; other lines are ignored.
pub fn lines_after_marker(text: &str, marker: &str) -> (r: Vec<String>)
    ensures
        r@.map_values(|s: String| s@) == spec_marked_lines(text@, marker@),
{
    let cs = chars_of(text);
    let lines = split_lines(&cs);
    let ghost ls = spec_lines(text@);
    let m = chars_of(marker);
    let mut r: Vec<String> = Vec::new();
    let mut i: usize = 0;
    while i < lines.len()
        invariant
            0 <= i <= lines@.len(),
            lines@.len() == ls.len(),
            forall|j: int| 0 <= j < lines@.len() ==> (#[trigger] lines@[j])@ == ls[j],
            m@ == marker@,
            r@.map_values(|s: String| s@) == marked_lines_prefix(ls, i as int, marker@),
        decreases lines@.len() - i,
    {
        let line = &lines[i];
        if has_prefix_from(line, 0, &m) {
            let ghost pre = r@.map_values(|s: String| s@);
            let tail = subvec(line, m.len(), line.len());
            r.push(string_from_chars(&tail));
            proof {
                assert(r@.map_values(|s: String| s@) =~= pre.push(tail@));
            }
        }
        i = i + 1;
    }
    r
}

// ---------------------------------------------------------------------------
// Branch listing lines
// ---------------------------------------------------------------------------

/// The suffix that marks a remote's default-branch pointer, which is skipped.
pub open spec fn head_suffix() -> Seq<char> {
    "/HEAD"@
}

/// `s` ends with `p`.
pub open spec fn has_suffix(s: Seq<char>, p: Seq<char>) -> bool {
    s.len() >= p.len() && has_prefix_at(s, s.len() - p.len(), p)
}

/// `name` occurs in `set`.
pub open spec fn contains_name(set: Seq<Seq<char>>, name: Seq<char>) -> bool {
    exists|j: int| 0 <= j < set.len() && set[j] == name
}

/// What one line of a branch listing yields, given the names checked out in
/// some worktree.  The line is trimmed and discarded when empty; its name is
/// the text before the first tab; a remote default-branch pointer is
/// discarded; a name with a slash is remote, and only a local name can be
/// checked out.
pub open spec fn branch_of(line: Seq<char>, checked: Seq<Seq<char>>) -> Option<BranchInfoV> {
    let t = spec_trim(line);
    if t.len() == 0 {
        None
    } else {
        let name = split_char(t, '\t')[0];
        if has_suffix(name, head_suffix()) {
            None
        } else {
            let is_remote = char_break(name, 0, '/') < name.len();
            Some(
                BranchInfoV {
                    name,
                    is_remote,
                    is_checked_out: !is_remote && contains_name(checked, name),
                },
            )
        }
    }
}

/// The branches of the first `n` lines, discarded lines omitted.
pub open spec fn branches_prefix(lines: Seq<Seq<char>>, n: int, checked: Seq<Seq<char>>) -> Seq<
    BranchInfoV,
>
    decreases n,
{
    if n <= 0 {
        Seq::empty()
    } else {
        let pre = branches_prefix(lines, n - 1, checked);
        match branch_of(lines[n - 1], checked) {
            Some(b) => pre.push(b),
            None => pre,
        }
    }
}

/// The branches of a whole listing, in input order.
pub open spec fn spec_branches(text: Seq<char>, checked: Seq<Seq<char>>) -> Seq<BranchInfoV> {
    let ls = spec_lines(text);
    branches_prefix(ls, ls.len() as int, checked)
}

/// Does `name` equal one of the strings of `set`?
fn contains_chars(set: &Vec<String>, name: &Vec<char>) -> (r: bool)
    ensures
        r == contains_name(set@.map_values(|s: String| s@), name@),
{
    let ghost sv = set@.map_values(|s: String| s@);
    let mut j: usize = 0;
    while j < set.len()
        invariant
            0 <= j <= set@.len(),
            sv == set@.map_values(|s: String| s@),
            forall|k: int| 0 <= k < j ==> sv[k] != name@,
        decreases set@.len() - j,
    {
        let cs = chars_of(set[j].as_str());
        if eq_chars(&cs, name) {
            proof {
                assert(sv[j as int] == name@);
            }
            return true;
        }
        j = j + 1;
    }
    false
}

/// Parses a branch listing, one reference per line, into branch records in
/// input order.  `checked_out` names the branches some worktree has checked
/// out.  Empty lines and remote default-branch pointers are skipped.
pub fn parse_branch_lines(text: &str, checked_out: &Vec<String>) -> (r: Vec<BranchInfo>)
    ensures
        r@.map_values(|b: BranchInfo| b@) == spec_branches(
            text@,
            checked_out@.map_values(|s: String| s@),
        ),
{
    let cs = chars_of(text);
    let lines = split_lines(&cs);
    let ghost ls = spec_lines(text@);
    let ghost checked = checked_out@.map_values(|s: String| s@);
    let suf = chars_of("/HEAD");
    let mut r: Vec<BranchInfo> = Vec::new();
    let mut i: usize = 0;
    while i < lines.len()
        invariant
            0 <= i <= lines@.len(),
            lines@.len() == ls.len(),
            forall|j: int| 0 <= j < lines@.len() ==> (#[trigger] lines@[j])@ == ls[j],
            suf@ == head_suffix(),
            checked == checked_out@.map_values(|s: String| s@),
            r@.map_values(|b: BranchInfo| b@) == branches_prefix(ls, i as int, checked),
        decreases lines@.len() - i,
    {
        let line = &lines[i];
        let (a, b) = trim_bounds(line);
        let t = subvec(line, a, b);
        if t.len() > 0 {
            let parts = split_char_vec(&t, '\t');
            let name = &parts[0];
            let skip = name.len() >= suf.len() && has_prefix_from(name, name.len() - suf.len(), &suf);
            proof {
                assert(skip == has_suffix(name@, head_suffix()));
            }
            if !skip {
                let is_remote = find_slash(name);
                let is_checked_out = if is_remote {
                    false
                } else {
                    contains_chars(checked_out, name)
                };
                let ghost pre = r@.map_values(|b: BranchInfo| b@);
                let info = BranchInfo {
                    name: string_from_chars(name),
                    is_remote,
                    is_checked_out,
                };
                r.push(info);
                proof {
                    assert(branch_of(ls[i as int], checked) == Some(info@));
                    assert(r@.map_values(|b: BranchInfo| b@) =~= pre.push(info@));
                }
            }
        }
        i = i + 1;
    }
    r
}

/// Does the name contain a slash, which marks a remote reference?
fn find_slash(name: &Vec<char>) -> (r: bool)
    ensures
        r == (char_break(name@, 0, '/') < name@.len()),
{
    let e = crate::text::find_char(name, 0, '/');
    e < name.len()
}

// ---------------------------------------------------------------------------
// Prune messages
// ---------------------------------------------------------------------------

/// The non-empty lines among the first `n`.
pub open spec fn non_empty_prefix(lines: Seq<Seq<char>>, n: int) -> Seq<Seq<char>>
    decreases n,
{
    if n <= 0 {
        Seq::empty()
    } else {
        let pre = non_empty_prefix(lines, n - 1);
        if lines[n - 1].len() == 0 {
            pre
        } else {
            pre.push(lines[n - 1])
        }
    }
}

/// The non-empty lines of `text`.
pub open spec fn spec_non_empty_lines(text: Seq<char>) -> Seq<Seq<char>> {
    let ls = spec_lines(text);
    non_empty_prefix(ls, ls.len() as int)
}

/// The non-empty lines of a listing, in input order.
pub fn non_empty_lines(text: &str) -> (r: Vec<String>)
    ensures
        r@.map_values(|s: String| s@) == spec_non_empty_lines(text@),
{
    let cs = chars_of(text);
    let lines = split_lines(&cs);
    let ghost ls = spec_lines(text@);
    let mut r: Vec<String> = Vec::new();
    let mut i: usize = 0;
    while i < lines.len()
        invariant
            0 <= i <= lines@.len(),
            lines@.len() == ls.len(),
            forall|j: int| 0 <= j < lines@.len() ==> (#[trigger] lines@[j])@ == ls[j],
            r@.map_values(|s: String| s@) == non_empty_prefix(ls, i as int),
        decreases lines@.len() - i,
    {
        let line = &lines[i];
        if line.len() > 0 {
            let ghost pre = r@.map_values(|s: String| s@);
            r.push(string_from_chars(line));
            proof {
                assert(r@.map_values(|s: String| s@) =~= pre.push(ls[i as int]));
            }
        }
        i = i + 1;
    }
    r
}

// ---------------------------------------------------------------------------
// Head fields
// ---------------------------------------------------------------------------

/// `text` with white space removed from both ends.
pub fn trimmed(text: &str) -> (r: String)
    ensures
        r@ == spec_trim(text@),
{
    let cs = chars_of(text);
    let (a, b) = trim_bounds(&cs);
    let t = subvec(&cs, a, b);
    string_from_chars(&t)
}

/// The branch a head query names: `None` when the trimmed text reads `HEAD`,
/// which marks a detached checkout, else the trimmed name.
pub fn parse_head_branch(text: &str) -> (r: Option<String>)
    ensures
        ({
            let t = spec_trim(text@);
            match r {
                Some(s) => s@ == t && t != "HEAD"@,
                None => t == "HEAD"@,
            }
        }),
{
    let cs = chars_of(text);
    let (a, b) = trim_bounds(&cs);
    let t = subvec(&cs, a, b);
    let h = chars_of("HEAD");
    if eq_chars(&t, &h) {
        None
    } else {
        Some(string_from_chars(&t))
    }
}

/// The timestamp a head query names: the trimmed text read as an integer,
/// zero when it does not parse.
pub fn parse_timestamp(text: &str) -> (r: i64)
    ensures
        r == match spec_parse_i64(spec_trim(text@)) {
            Some(x) => x,
            None => 0,
        },
{
    let cs = chars_of(text);
    let (a, b) = trim_bounds(&cs);
    let t = subvec(&cs, a, b);
    proof {
        assert(t@.subrange(0, t@.len() as int) =~= t@);
    }
    match parse_i64_from(&t, 0) {
        Some(x) => x,
        None => 0,
    }
}

} // verus!
