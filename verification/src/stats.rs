//! Aggregate counters derived from parsed diffs, and the assembly of whole
//! commit and working-directory change records from raw query output.

use vstd::prelude::*;

use crate::commit_log::{parse_commit_record, spec_parse_record};
use crate::diff::{parse_git_diff_output, spec_parse_diff};
use crate::text::{chars_of, spec_lines, split_lines};
use crate::types::{
    CommitDiff, DiffHunk, DiffHunkV, DiffLine, DiffLineV, DiffStats, FileDiff, FileDiffV,
    FileStatus, LineKind, WorkingDiff,
};

verus! {

// ---------------------------------------------------------------------------
// Counting lines of one kind
// ---------------------------------------------------------------------------

/// How many lines of kind `k` a hunk holds.
pub open spec fn hunk_count(lines: Seq<DiffLineV>, k: LineKind) -> nat
    decreases lines.len(),
{
    if lines.len() == 0 {
        0
    } else {
        hunk_count(lines.drop_last(), k) + (if lines.last().kind == k {
            1nat
        } else {
            0nat
        })
    }
}

/// How many lines of kind `k` a file's hunks hold.
pub open spec fn file_count(hunks: Seq<DiffHunkV>, k: LineKind) -> nat
    decreases hunks.len(),
{
    if hunks.len() == 0 {
        0
    } else {
        file_count(hunks.drop_last(), k) + hunk_count(hunks.last().lines, k)
    }
}

/// How many lines of kind `k` a set of files holds.
pub open spec fn files_count(files: Seq<FileDiffV>, k: LineKind) -> nat
    decreases files.len(),
{
    if files.len() == 0 {
        0
    } else {
        files_count(files.drop_last(), k) + file_count(files.last().hunks, k)
    }
}

/// The number of addition lines across all hunks of all files.
pub open spec fn spec_insertions(files: Seq<FileDiffV>) -> nat {
    files_count(files, LineKind::Addition)
}

/// The number of deletion lines across all hunks of all files.
pub open spec fn spec_deletions(files: Seq<FileDiffV>) -> nat {
    files_count(files, LineKind::Deletion)
}

proof fn lemma_file_count_prefix(hunks: Seq<DiffHunkV>, j: int, k: LineKind)
    requires
        0 <= j <= hunks.len(),
    ensures
        file_count(hunks.subrange(0, j), k) <= file_count(hunks, k),
    decreases hunks.len() - j,
{
    if j < hunks.len() {
        lemma_file_count_prefix(hunks, j + 1, k);
        assert(hunks.subrange(0, j + 1).drop_last() =~= hunks.subrange(0, j));
        assert(hunks.subrange(0, j + 1).last() == hunks[j]);
    } else {
        assert(hunks.subrange(0, j) =~= hunks);
    }
}

proof fn lemma_files_count_prefix(files: Seq<FileDiffV>, i: int, k: LineKind)
    requires
        0 <= i <= files.len(),
    ensures
        files_count(files.subrange(0, i), k) <= files_count(files, k),
    decreases files.len() - i,
{
    if i < files.len() {
        lemma_files_count_prefix(files, i + 1, k);
        assert(files.subrange(0, i + 1).drop_last() =~= files.subrange(0, i));
        assert(files.subrange(0, i + 1).last() == files[i]);
    } else {
        assert(files.subrange(0, i) =~= files);
    }
}

/// Counting distributes over concatenation.
pub proof fn lemma_files_count_concat(a: Seq<FileDiffV>, b: Seq<FileDiffV>, k: LineKind)
    ensures
        files_count(a + b, k) == files_count(a, k) + files_count(b, k),
    decreases b.len(),
{
    if b.len() == 0 {
        assert(a + b =~= a);
    } else {
        lemma_files_count_concat(a, b.drop_last(), k);
        assert((a + b).drop_last() =~= a + b.drop_last());
        assert((a + b).last() == b.last());
    }
}

/// Counts the lines of kind `k` in one hunk.
fn count_hunk(lines: &Vec<DiffLine>, k: LineKind) -> (c: usize)
    ensures
        c == hunk_count(lines@.map_values(|l: DiffLine| l@), k),
        c <= lines@.len(),
{
    let ghost lv = lines@.map_values(|l: DiffLine| l@);
    let mut c: usize = 0;
    let mut j: usize = 0;
    while j < lines.len()
        invariant
            0 <= j <= lines@.len(),
            lv == lines@.map_values(|l: DiffLine| l@),
            c == hunk_count(lv.subrange(0, j as int), k),
            c <= j,
        decreases lines@.len() - j,
    {
        proof {
            assert(lv.subrange(0, j + 1).drop_last() =~= lv.subrange(0, j as int));
            assert(lv.subrange(0, j + 1).last() == lv[j as int]);
        }
        if lines[j].kind == k {
            c = c + 1;
        }
        j = j + 1;
    }
    proof {
        assert(lv.subrange(0, j as int) =~= lv);
    }
    c
}

/// Computes the aggregate counters over a set of files: how many files
/// changed, and how many addition and deletion lines their hunks hold.
/// Returns `None` exactly when one of the three counts does not fit in a
/// `u32`.
pub fn compute_diff_stats(files: &Vec<FileDiff>) -> (r: Option<DiffStats>)
    ensures
        ({
            let fv = files@.map_values(|f: FileDiff| f@);
            match r {
                Some(s) => fv.len() <= u32::MAX && spec_insertions(fv) <= u32::MAX
                    && spec_deletions(fv) <= u32::MAX && s.files_changed == fv.len()
                    && s.insertions == spec_insertions(fv) && s.deletions == spec_deletions(fv),
                None => fv.len() > u32::MAX || spec_insertions(fv) > u32::MAX || spec_deletions(fv)
                    > u32::MAX,
            }
        }),
{
    let ghost fv = files@.map_values(|f: FileDiff| f@);
    if files.len() > u32::MAX as usize {
        return None;
    }
    let mut ins: u32 = 0;
    let mut del: u32 = 0;
    let mut i: usize = 0;
    while i < files.len()
        invariant
            0 <= i <= files@.len(),
            fv == files@.map_values(|f: FileDiff| f@),
            fv.len() <= u32::MAX,
            ins == files_count(fv.subrange(0, i as int), LineKind::Addition),
            del == files_count(fv.subrange(0, i as int), LineKind::Deletion),
        decreases files@.len() - i,
    {
        let ghost hv = fv[i as int].hunks;
        let file = &files[i];
        proof {
            assert(fv[i as int] == file@);
        }
        let mut j: usize = 0;
        while j < file.hunks.len()
            invariant
                0 <= j <= file.hunks@.len(),
                hv == file.hunks@.map_values(|h: DiffHunk| h@),
                hv.len() == file.hunks@.len(),
                fv == files@.map_values(|f: FileDiff| f@),
                0 <= i < fv.len(),
                fv[i as int].hunks == hv,
                ins == files_count(fv.subrange(0, i as int), LineKind::Addition) + file_count(
                    hv.subrange(0, j as int),
                    LineKind::Addition,
                ),
                del == files_count(fv.subrange(0, i as int), LineKind::Deletion) + file_count(
                    hv.subrange(0, j as int),
                    LineKind::Deletion,
                ),
            decreases file.hunks@.len() - j,
        {
            let hunk = &file.hunks[j];
            proof {
                assert(hv[j as int] == hunk@);
            }
            let hi = count_hunk(&hunk.lines, LineKind::Addition);
            let hd = count_hunk(&hunk.lines, LineKind::Deletion);
            proof {
                assert(hv.subrange(0, j + 1).drop_last() =~= hv.subrange(0, j as int));
                assert(hv.subrange(0, j + 1).last() == hv[j as int]);
            }
            if hi as u64 > u32::MAX as u64 - ins as u64 {
                // the insertions counted so far already exceed the range,
                // and the remaining files only add to them
                proof {
                    lemma_file_count_prefix(hv, j + 1, LineKind::Addition);
                    assert(fv.subrange(0, i + 1).drop_last() =~= fv.subrange(0, i as int));
                    assert(fv.subrange(0, i + 1).last() == fv[i as int]);
                    lemma_files_count_prefix(fv, i + 1, LineKind::Addition);
                }
                return None;
            }
            ins = ins + hi as u32;
            if hd as u64 > u32::MAX as u64 - del as u64 {
                proof {
                    lemma_file_count_prefix(hv, j + 1, LineKind::Deletion);
                    assert(fv.subrange(0, i + 1).drop_last() =~= fv.subrange(0, i as int));
                    assert(fv.subrange(0, i + 1).last() == fv[i as int]);
                    lemma_files_count_prefix(fv, i + 1, LineKind::Deletion);
                }
                return None;
            }
            del = del + hd as u32;
            j = j + 1;
        }
        proof {
            assert(hv.subrange(0, hv.len() as int) =~= hv);
            assert(fv.subrange(0, i + 1).drop_last() =~= fv.subrange(0, i as int));
            assert(fv.subrange(0, i + 1).last() == fv[i as int]);
        }
        i = i + 1;
    }
    proof {
        assert(fv.subrange(0, i as int) =~= fv);
    }
    Some(DiffStats { files_changed: files.len() as u32, insertions: ins, deletions: del })
}

// ---------------------------------------------------------------------------
// Untracked paths
// ---------------------------------------------------------------------------

/// The file record that one untracked path yields: a fresh addition with no
/// hunks.
pub open spec fn untracked_file(l: Seq<char>) -> FileDiffV {
    FileDiffV {
        path: l,
        status: FileStatus::Added,
        old_path: None,
        hunks: Seq::empty(),
        binary: false,
    }
}

/// The file records of the first `n` lines of an untracked listing, empty
/// lines skipped.
pub open spec fn untracked_prefix(lines: Seq<Seq<char>>, n: int) -> Seq<FileDiffV>
    decreases n,
{
    if n <= 0 {
        Seq::empty()
    } else {
        let pre = untracked_prefix(lines, n - 1);
        if lines[n - 1].len() == 0 {
            pre
        } else {
            pre.push(untracked_file(lines[n - 1]))
        }
    }
}

/// The file records of a whole untracked listing.
pub open spec fn spec_untracked(text: Seq<char>) -> Seq<FileDiffV> {
    let ls = spec_lines(text);
    untracked_prefix(ls, ls.len() as int)
}

/// Parses an untracked-files listing, one path per line, into addition
/// records without hunks; empty lines are skipped.
pub fn parse_untracked_files(text: &str) -> (r: Vec<FileDiff>)
    ensures
        r@.map_values(|f: FileDiff| f@) == spec_untracked(text@),
{
    let cs = chars_of(text);
    let lines = split_lines(&cs);
    let ghost ls = spec_lines(text@);
    let mut r: Vec<FileDiff> = Vec::new();
    let mut i: usize = 0;
    while i < lines.len()
        invariant
            0 <= i <= lines@.len(),
            lines@.len() == ls.len(),
            forall|j: int| 0 <= j < lines@.len() ==> (#[trigger] lines@[j])@ == ls[j],
            r@.map_values(|f: FileDiff| f@) == untracked_prefix(ls, i as int),
        decreases lines@.len() - i,
    {
        let line = &lines[i];
        if line.len() > 0 {
            let ghost pre = r@.map_values(|f: FileDiff| f@);
            let f = FileDiff {
                path: crate::text::string_from_chars(line),
                status: FileStatus::Added,
                old_path: None,
                hunks: Vec::new(),
                binary: false,
            };
            r.push(f);
            proof {
                assert(f@ =~~= untracked_file(ls[i as int]));
                assert(r@.map_values(|f: FileDiff| f@) =~= pre.push(f@));
            }
        }
        i = i + 1;
    }
    r
}

// ---------------------------------------------------------------------------
// Assembly of whole change records
// ---------------------------------------------------------------------------

/// Assembles a commit's change record from the raw output of the two
/// queries behind it: the single-record commit text and the commit's diff
/// text.  Returns `None` exactly when the commit record has fewer than six
/// fields, or when a diff counter does not fit in a `u32`.
pub fn build_commit_diff(commit_text: &str, diff_text: &str) -> (r: Option<CommitDiff>)
    ensures
        ({
            let files = spec_parse_diff(diff_text@);
            match r {
                Some(cd) => {
                    &&& spec_parse_record(commit_text@) == Some(cd.commit@)
                    &&& cd.files@.map_values(|f: FileDiff| f@) == files
                    &&& files.len() <= u32::MAX && spec_insertions(files) <= u32::MAX
                        && spec_deletions(files) <= u32::MAX
                    &&& cd.stats.files_changed == files.len()
                    &&& cd.stats.insertions == spec_insertions(files)
                    &&& cd.stats.deletions == spec_deletions(files)
                },
                None => spec_parse_record(commit_text@) is None || files.len() > u32::MAX
                    || spec_insertions(files) > u32::MAX || spec_deletions(files) > u32::MAX,
            }
        }),
{
    let commit = match parse_commit_record(commit_text) {
        Some(c) => c,
        None => {
            return None;
        },
    };
    let files = parse_git_diff_output(diff_text);
    let stats = match compute_diff_stats(&files) {
        Some(s) => s,
        None => {
            return None;
        },
    };
    Some(CommitDiff { commit, files, stats })
}

/// Assembles the working-directory change record from the raw output of the
/// three queries behind it: the staged diff text, the unstaged diff text,
/// and the untracked-files listing, whose paths are appended to the unstaged
/// files as hunkless additions.  The counters cover staged and unstaged
/// files together.  Returns `None` exactly when a counter does not fit in a
/// `u32`.
pub fn build_working_diff(staged_text: &str, unstaged_text: &str, untracked_text: &str) -> (r:
    Option<WorkingDiff>)
    ensures
        ({
            let sv = spec_parse_diff(staged_text@);
            let uv = spec_parse_diff(unstaged_text@) + spec_untracked(untracked_text@);
            let ins = spec_insertions(sv + uv);
            let del = spec_deletions(sv + uv);
            match r {
                Some(w) => {
                    &&& w.staged_files@.map_values(|f: FileDiff| f@) == sv
                    &&& w.unstaged_files@.map_values(|f: FileDiff| f@) == uv
                    &&& sv.len() + uv.len() <= u32::MAX && ins <= u32::MAX && del <= u32::MAX
                    &&& w.stats.files_changed == sv.len() + uv.len()
                    &&& w.stats.insertions == ins
                    &&& w.stats.deletions == del
                },
                None => sv.len() + uv.len() > u32::MAX || ins > u32::MAX || del > u32::MAX,
            }
        }),
{
    let ghost sv = spec_parse_diff(staged_text@);
    let ghost uv = spec_parse_diff(unstaged_text@) + spec_untracked(untracked_text@);
    let staged_files = parse_git_diff_output(staged_text);
    let mut unstaged_files = parse_git_diff_output(unstaged_text);
    let mut untracked = parse_untracked_files(untracked_text);
    let ghost u0 = unstaged_files@.map_values(|f: FileDiff| f@);
    let ghost t0 = untracked@.map_values(|f: FileDiff| f@);
    unstaged_files.append(&mut untracked);
    proof {
        assert(unstaged_files@.map_values(|f: FileDiff| f@) =~= u0 + t0);
        lemma_files_count_concat(sv, uv, LineKind::Addition);
        lemma_files_count_concat(sv, uv, LineKind::Deletion);
    }
    let s1 = match compute_diff_stats(&staged_files) {
        Some(s) => s,
        None => {
            return None;
        },
    };
    let s2 = match compute_diff_stats(&unstaged_files) {
        Some(s) => s,
        None => {
            return None;
        },
    };
    if s2.files_changed as u64 > u32::MAX as u64 - s1.files_changed as u64 {
        return None;
    }
    if s2.insertions as u64 > u32::MAX as u64 - s1.insertions as u64 {
        return None;
    }
    if s2.deletions as u64 > u32::MAX as u64 - s1.deletions as u64 {
        return None;
    }
    let stats = DiffStats {
        files_changed: s1.files_changed + s2.files_changed,
        insertions: s1.insertions + s2.insertions,
        deletions: s1.deletions + s2.deletions,
    };
    Some(WorkingDiff { staged_files, unstaged_files, stats })
}

} // verus!
