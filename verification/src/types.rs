//! The structured records that the parsers produce, with their views over
//! mathematical sequences.

use vstd::prelude::*;

verus! {

/// The kind of a single line within a diff hunk.
#[derive(Debug, Clone, Copy, PartialEq, Eq, Structural)]
pub enum LineKind {
    Context,
    Addition,
    Deletion,
}

/// How a file changed.
#[derive(Debug, Clone, Copy, PartialEq, Eq, Structural)]
pub enum FileStatus {
    Added,
    Modified,
    Deleted,
    Renamed,
}

/// One line within a hunk: its kind and its text without the leading marker
/// character.
#[derive(Debug, Clone)]
pub struct DiffLine {
    pub kind: LineKind,
    pub content: String,
}

/// The view of a `DiffLine`.
#[verifier::ext_equal]
pub ghost struct DiffLineV {
    pub kind: LineKind,
    pub content: Seq<char>,
}

impl View for DiffLine {
    type V = DiffLineV;

    open spec fn view(&self) -> DiffLineV {
        DiffLineV { kind: self.kind, content: self.content@ }
    }
}

/// One contiguous change region of a file: the four ranges of its header,
/// the header's own text, and its lines in source order.
#[derive(Debug, Clone)]
pub struct DiffHunk {
    pub old_start: u32,
    pub old_lines: u32,
    pub new_start: u32,
    pub new_lines: u32,
    pub header: String,
    pub lines: Vec<DiffLine>,
}

/// The view of a `DiffHunk`.
#[verifier::ext_equal]
pub ghost struct DiffHunkV {
    pub old_start: u32,
    pub old_lines: u32,
    pub new_start: u32,
    pub new_lines: u32,
    pub header: Seq<char>,
    pub lines: Seq<DiffLineV>,
}

impl View for DiffHunk {
    type V = DiffHunkV;

    open spec fn view(&self) -> DiffHunkV {
        DiffHunkV {
            old_start: self.old_start,
            old_lines: self.old_lines,
            new_start: self.new_start,
            new_lines: self.new_lines,
            header: self.header@,
            lines: self.lines@.map_values(|l: DiffLine| l@),
        }
    }
}

/// One changed file in a diff: its current path, how it changed, its former
/// path when renamed, its hunks in source order, and whether it is binary.
#[derive(Debug, Clone)]
pub struct FileDiff {
    pub path: String,
    pub status: FileStatus,
    pub old_path: Option<String>,
    pub hunks: Vec<DiffHunk>,
    pub binary: bool,
}

/// The view of a `FileDiff`.
#[verifier::ext_equal]
pub ghost struct FileDiffV {
    pub path: Seq<char>,
    pub status: FileStatus,
    pub old_path: Option<Seq<char>>,
    pub hunks: Seq<DiffHunkV>,
    pub binary: bool,
}

impl View for FileDiff {
    type V = FileDiffV;

    open spec fn view(&self) -> FileDiffV {
        FileDiffV {
            path: self.path@,
            status: self.status,
            old_path: match self.old_path {
                Some(p) => Some(p@),
                None => None,
            },
            hunks: self.hunks@.map_values(|h: DiffHunk| h@),
            binary: self.binary,
        }
    }
}

/// Aggregate counters over a set of changed files.
#[derive(Debug, Clone, Copy)]
pub struct DiffStats {
    pub files_changed: u32,
    pub insertions: u32,
    pub deletions: u32,
}

/// One commit record.
#[derive(Debug, Clone)]
pub struct CommitInfo {
    pub hash: String,
    pub short_hash: String,
    pub author_name: String,
    pub author_email: String,
    pub timestamp: i64,
    pub message: String,
    pub summary: String,
}

/// The view of a `CommitInfo`.
#[verifier::ext_equal]
pub ghost struct CommitInfoV {
    pub hash: Seq<char>,
    pub short_hash: Seq<char>,
    pub author_name: Seq<char>,
    pub author_email: Seq<char>,
    pub timestamp: i64,
    pub message: Seq<char>,
    pub summary: Seq<char>,
}

impl View for CommitInfo {
    type V = CommitInfoV;

    open spec fn view(&self) -> CommitInfoV {
        CommitInfoV {
            hash: self.hash@,
            short_hash: self.short_hash@,
            author_name: self.author_name@,
            author_email: self.author_email@,
            timestamp: self.timestamp,
            message: self.message@,
            summary: self.summary@,
        }
    }
}

/// Aggregate counters over a status listing, with `is_clean` true exactly
/// when all four are zero.
#[derive(Debug, Clone, Copy)]
pub struct WorktreeStatus {
    pub is_clean: bool,
    pub modified: u32,
    pub staged: u32,
    pub untracked: u32,
    pub conflicted: u32,
}

/// A commit together with its diff and the diff's aggregate counters.
#[derive(Debug, Clone)]
pub struct CommitDiff {
    pub commit: CommitInfo,
    pub files: Vec<FileDiff>,
    pub stats: DiffStats,
}

/// Uncommitted changes: staged and unstaged files, with aggregate counters
/// over both.
#[derive(Debug, Clone)]
pub struct WorkingDiff {
    pub staged_files: Vec<FileDiff>,
    pub unstaged_files: Vec<FileDiff>,
    pub stats: DiffStats,
}

/// One branch of the repository, local or remote, and whether some worktree
/// has it checked out.
#[derive(Debug, Clone)]
pub struct BranchInfo {
    pub name: String,
    pub is_remote: bool,
    pub is_checked_out: bool,
}

/// The view of a `BranchInfo`.
#[verifier::ext_equal]
pub ghost struct BranchInfoV {
    pub name: Seq<char>,
    pub is_remote: bool,
    pub is_checked_out: bool,
}

impl View for BranchInfo {
    type V = BranchInfoV;

    open spec fn view(&self) -> BranchInfoV {
        BranchInfoV {
            name: self.name@,
            is_remote: self.is_remote,
            is_checked_out: self.is_checked_out,
        }
    }
}

} // verus!
