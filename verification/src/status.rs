//! Parsing of porcelain status listings: one line per changed path, the
//! line's first two characters naming the index-column and worktree-column
//! state, aggregated into four counters.

use vstd::prelude::*;

use crate::text::{chars_of, spec_lines, spec_lines_from, split_lines};
use crate::types::WorktreeStatus;

verus! {

/// Aggregate counters over a status listing, as mathematical numbers.
pub ghost struct StatusCounts {
    pub modified: nat,
    pub staged: nat,
    pub untracked: nat,
    pub conflicted: nat,
}

impl StatusCounts {
    pub open spec fn zero() -> StatusCounts {
        StatusCounts { modified: 0, staged: 0, untracked: 0, conflicted: 0 }
    }

    pub open spec fn add(self, other: StatusCounts) -> StatusCounts {
        StatusCounts {
            modified: self.modified + other.modified,
            staged: self.staged + other.staged,
            untracked: self.untracked + other.untracked,
            conflicted: self.conflicted + other.conflicted,
        }
    }
}

/// The two-character pairs that mark a conflicted path.
pub open spec fn is_conflict_pair(x: char, y: char) -> bool {
    (x == 'U' && y == 'U') || (x == 'A' && y == 'A') || (x == 'D' && y == 'D') || (x == 'A' && y
        == 'U') || (x == 'U' && y == 'A') || (x == 'D' && y == 'U') || (x == 'U' && y == 'D')
}

/// The index-column characters that mark a staged change.
pub open spec fn is_staged_code(x: char) -> bool {
    x == 'M' || x == 'A' || x == 'D' || x == 'R' || x == 'C'
}

/// The worktree-column characters that mark an unstaged modification.
pub open spec fn is_modified_code(y: char) -> bool {
    y == 'M' || y == 'D'
}

/// What one status line contributes to the counters.  The first matching
/// rule wins: conflict pair, untracked pair, staged index column, modified
/// worktree column; a line shorter than two characters contributes nothing.
pub open spec fn line_counts(l: Seq<char>) -> StatusCounts {
    if l.len() < 2 {
        StatusCounts::zero()
    } else {
        let x = l[0];
        let y = l[1];
        if is_conflict_pair(x, y) {
            StatusCounts { conflicted: 1, ..StatusCounts::zero() }
        } else if x == '?' && y == '?' {
            StatusCounts { untracked: 1, ..StatusCounts::zero() }
        } else if is_staged_code(x) {
            StatusCounts { staged: 1, ..StatusCounts::zero() }
        } else if is_modified_code(y) {
            StatusCounts { modified: 1, ..StatusCounts::zero() }
        } else {
            StatusCounts::zero()
        }
    }
}

/// The counters over the first `n` lines.
pub open spec fn counts_prefix(lines: Seq<Seq<char>>, n: int) -> StatusCounts
    decreases n,
{
    if n <= 0 {
        StatusCounts::zero()
    } else {
        counts_prefix(lines, n - 1).add(line_counts(lines[n - 1]))
    }
}

/// The counters over a whole status listing.
pub open spec fn spec_status_counts(text: Seq<char>) -> StatusCounts {
    counts_prefix(spec_lines(text), spec_lines(text).len() as int)
}

/// Each counter grows by at most one per line.
proof fn lemma_counts_prefix_bound(lines: Seq<Seq<char>>, n: int)
    requires
        0 <= n,
    ensures
        counts_prefix(lines, n).modified <= n,
        counts_prefix(lines, n).staged <= n,
        counts_prefix(lines, n).untracked <= n,
        counts_prefix(lines, n).conflicted <= n,
    decreases n,
{
    if n > 0 {
        lemma_counts_prefix_bound(lines, n - 1);
    }
}

/// A text of length `n` has at most `n` lines.
pub proof fn lemma_lines_count(s: Seq<char>, pos: int)
    requires
        0 <= pos <= s.len(),
    ensures
        spec_lines_from(s, pos).len() <= s.len() - pos,
    decreases s.len() - pos,
{
    if pos < s.len() {
        let e = crate::text::char_break(s, pos, '\n');
        crate::text::lemma_char_break(s, pos, '\n');
        if e < s.len() {
            lemma_lines_count(s, e + 1);
        }
    }
}

/// Parses a porcelain status listing into the four counters, with
/// `is_clean` true exactly when every counter is zero.
///
/// Classification per line, first match winning: a recognised conflict pair
/// marks the path conflicted; `??` marks it untracked; a staged index-column
/// code marks it staged; a modified or deleted worktree-column code marks it
/// modified; anything else contributes nothing.
pub fn parse_status_porcelain(text: &str) -> (r: WorktreeStatus)
    requires
        text@.len() <= u32::MAX,
    ensures
        ({
            let c = spec_status_counts(text@);
            &&& r.modified == c.modified
            &&& r.staged == c.staged
            &&& r.untracked == c.untracked
            &&& r.conflicted == c.conflicted
            &&& r.is_clean <==> (c.modified == 0 && c.staged == 0 && c.untracked == 0
                && c.conflicted == 0)
        }),
{
    let cs = chars_of(text);
    let lines = split_lines(&cs);
    let ghost ls = spec_lines(text@);
    proof {
        lemma_lines_count(text@, 0);
    }
    let mut modified: u32 = 0;
    let mut staged: u32 = 0;
    let mut untracked: u32 = 0;
    let mut conflicted: u32 = 0;
    let mut i: usize = 0;
    while i < lines.len()
        invariant
            0 <= i <= lines@.len(),
            lines@.len() == ls.len(),
            ls.len() <= u32::MAX,
            forall|j: int| 0 <= j < lines@.len() ==> (#[trigger] lines@[j])@ == ls[j],
            modified == counts_prefix(ls, i as int).modified,
            staged == counts_prefix(ls, i as int).staged,
            untracked == counts_prefix(ls, i as int).untracked,
            conflicted == counts_prefix(ls, i as int).conflicted,
        decreases lines@.len() - i,
    {
        proof {
            lemma_counts_prefix_bound(ls, i as int);
        }
        let l = &lines[i];
        if l.len() >= 2 {
            let x = l[0];
            let y = l[1];
            if (x == 'U' && y == 'U') || (x == 'A' && y == 'A') || (x == 'D' && y == 'D') || (x
                == 'A' && y == 'U') || (x == 'U' && y == 'A') || (x == 'D' && y == 'U') || (x == 'U'
                && y == 'D') {
                conflicted = conflicted + 1;
            } else if x == '?' && y == '?' {
                untracked = untracked + 1;
            } else if x == 'M' || x == 'A' || x == 'D' || x == 'R' || x == 'C' {
                staged = staged + 1;
            } else if y == 'M' || y == 'D' {
                modified = modified + 1;
            }
        }
        i = i + 1;
    }
    WorktreeStatus {
        is_clean: modified == 0 && staged == 0 && untracked == 0 && conflicted == 0,
        modified,
        staged,
        untracked,
        conflicted,
    }
}

} // verus!
