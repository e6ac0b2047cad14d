//! Parsing of unified-diff text into per-file change records.  A single
//! line-by-line scan keeps at most one in-progress file and one in-progress
//! hunk; section markers close and emit them.

use vstd::prelude::*;

use crate::hunk::{parse_hunk_header_vec, spec_parse_hunk_header};
use crate::text::{
    chars_of, has_prefix, has_prefix_from, spec_lines, split_char, split_char_vec, split_lines,
    split_sub, split_sub_vec, string_from_chars, strip_reps, strip_reps_from, subvec,
};
use crate::types::{DiffHunk, DiffHunkV, DiffLine, DiffLineV, FileDiff, FileDiffV, FileStatus, LineKind};

verus! {

// ---------------------------------------------------------------------------
// The markers that open and annotate a file section
// ---------------------------------------------------------------------------

/// Opens a new file section; the new path follows the ` b/` marker.
pub open spec fn diff_marker() -> Seq<char> {
    "diff --git "@
}

/// Marks the in-progress file binary.
pub open spec fn binary_marker() -> Seq<char> {
    "Binary files"@
}

/// Sets the in-progress file's status to `Added`.
pub open spec fn new_file_marker() -> Seq<char> {
    "new file mode"@
}

/// Sets the in-progress file's status to `Deleted`.
pub open spec fn deleted_marker() -> Seq<char> {
    "deleted file mode"@
}

/// Sets the in-progress file's status to `Renamed` and records its former
/// path.
pub open spec fn rename_marker() -> Seq<char> {
    "rename from "@
}

/// Opens a new hunk.
pub open spec fn hunk_marker() -> Seq<char> {
    "@@ "@
}

// ---------------------------------------------------------------------------
// The scan state and its transitions
// ---------------------------------------------------------------------------

/// The state of the scan: the files emitted so far, the in-progress file and
/// the in-progress hunk.
#[verifier::ext_equal]
pub ghost struct DiffScanState {
    pub files: Seq<FileDiffV>,
    pub cur_file: Option<FileDiffV>,
    pub cur_hunk: Option<DiffHunkV>,
}

/// The state before any line is read.
pub open spec fn init_scan() -> DiffScanState {
    DiffScanState { files: Seq::empty(), cur_file: None, cur_hunk: None }
}

/// Closes the in-progress file, first flushing the in-progress hunk into it.
/// Without an in-progress file nothing changes: an orphan hunk stays open.
pub open spec fn close_section(st: DiffScanState) -> DiffScanState {
    match st.cur_file {
        Some(f) => {
            let f2 = match st.cur_hunk {
                Some(h) => FileDiffV { hunks: f.hunks.push(h), ..f },
                None => f,
            };
            DiffScanState { files: st.files.push(f2), cur_file: None, cur_hunk: None }
        },
        None => st,
    }
}

/// The new path of a file section: the text after the first ` b/` marker up
/// to the next such marker or the end; without one, the text after the first
/// ` a/` marker up to the next space; without either, empty.
pub open spec fn spec_section_path(line: Seq<char>) -> Seq<char> {
    let bparts = split_sub(line, " b/"@);
    if bparts.len() >= 2 {
        bparts[1]
    } else {
        let aparts = split_sub(line, " a/"@);
        if aparts.len() >= 2 {
            split_char(aparts[1], ' ')[0]
        } else {
            Seq::empty()
        }
    }
}

/// A fresh file record for a newly opened section.
pub open spec fn fresh_file(line: Seq<char>) -> FileDiffV {
    FileDiffV {
        path: spec_section_path(line),
        status: FileStatus::Modified,
        old_path: None,
        hunks: Seq::empty(),
        binary: false,
    }
}

/// What one line of diff text does to the scan state.  The first matching
/// rule wins: a section marker closes and emits the in-progress file and
/// opens a new one; the binary, new-file, deleted-file and rename markers
/// annotate the in-progress file; a hunk header flushes the in-progress hunk
/// and opens a new one when it parses; any other line is classified by its
/// first character and appended to the in-progress hunk, or ignored.
pub open spec fn diff_step(st: DiffScanState, line: Seq<char>) -> DiffScanState {
    if has_prefix(line, diff_marker()) {
        let closed = close_section(st);
        DiffScanState { cur_file: Some(fresh_file(line)), ..closed }
    } else if has_prefix(line, binary_marker()) {
        match st.cur_file {
            Some(f) => DiffScanState { cur_file: Some(FileDiffV { binary: true, ..f }), ..st },
            None => st,
        }
    } else if has_prefix(line, new_file_marker()) {
        match st.cur_file {
            Some(f) => DiffScanState {
                cur_file: Some(FileDiffV { status: FileStatus::Added, ..f }),
                ..st
            },
            None => st,
        }
    } else if has_prefix(line, deleted_marker()) {
        match st.cur_file {
            Some(f) => DiffScanState {
                cur_file: Some(FileDiffV { status: FileStatus::Deleted, ..f }),
                ..st
            },
            None => st,
        }
    } else if has_prefix(line, rename_marker()) {
        match st.cur_file {
            Some(f) => DiffScanState {
                cur_file: Some(
                    FileDiffV {
                        status: FileStatus::Renamed,
                        old_path: Some(strip_reps(line, rename_marker())),
                        ..f
                    },
                ),
                ..st
            },
            None => st,
        }
    } else if has_prefix(line, hunk_marker()) {
        let flushed = match st.cur_file {
            Some(f) => match st.cur_hunk {
                Some(h) => DiffScanState {
                    cur_file: Some(FileDiffV { hunks: f.hunks.push(h), ..f }),
                    cur_hunk: None,
                    ..st
                },
                None => st,
            },
            None => st,
        };
        match spec_parse_hunk_header(line) {
            Some((a, b, c, d)) => DiffScanState {
                cur_hunk: Some(
                    DiffHunkV {
                        old_start: a,
                        old_lines: b,
                        new_start: c,
                        new_lines: d,
                        header: line,
                        lines: Seq::empty(),
                    },
                ),
                ..flushed
            },
            None => flushed,
        }
    } else {
        match st.cur_hunk {
            Some(h) => {
                if line.len() > 0 && (line[0] == '+' || line[0] == '-' || line[0] == ' ') {
                    let kind = if line[0] == '+' {
                        LineKind::Addition
                    } else if line[0] == '-' {
                        LineKind::Deletion
                    } else {
                        LineKind::Context
                    };
                    let dl = DiffLineV { kind, content: line.subrange(1, line.len() as int) };
                    DiffScanState { cur_hunk: Some(DiffHunkV { lines: h.lines.push(dl), ..h }), ..st }
                } else {
                    st
                }
            },
            None => st,
        }
    }
}

/// The scan state after the first `n` lines.
pub open spec fn diff_scan(lines: Seq<Seq<char>>, n: int) -> DiffScanState
    decreases n,
{
    if n <= 0 {
        init_scan()
    } else {
        diff_step(diff_scan(lines, n - 1), lines[n - 1])
    }
}

/// The files of a whole unified diff, in the order their sections appear.
pub open spec fn spec_parse_diff(text: Seq<char>) -> Seq<FileDiffV> {
    let ls = spec_lines(text);
    close_section(diff_scan(ls, ls.len() as int)).files
}

// ---------------------------------------------------------------------------
// The executable scan
// ---------------------------------------------------------------------------

/// The view of the executable scan state.
pub open spec fn scan_view(
    files: Seq<FileDiff>,
    cur_file: Option<FileDiff>,
    cur_hunk: Option<DiffHunk>,
) -> DiffScanState {
    DiffScanState {
        files: files.map_values(|f: FileDiff| f@),
        cur_file: match cur_file {
            Some(f) => Some(f@),
            None => None,
        },
        cur_hunk: match cur_hunk {
            Some(h) => Some(h@),
            None => None,
        },
    }
}

/// The new path of a file section, extracted from its opening line.
fn section_path(line: &Vec<char>) -> (r: String)
    ensures
        r@ == spec_section_path(line@),
{
    proof {
        reveal_strlit(" b/");
        reveal_strlit(" a/");
    }
    let m_b = chars_of(" b/");
    let bparts = split_sub_vec(line, &m_b);
    if bparts.len() >= 2 {
        string_from_chars(&bparts[1])
    } else {
        let m_a = chars_of(" a/");
        let aparts = split_sub_vec(line, &m_a);
        if aparts.len() >= 2 {
            let sp = split_char_vec(&aparts[1], ' ');
            string_from_chars(&sp[0])
        } else {
            let empty: Vec<char> = Vec::new();
            assert(empty@ =~= Seq::<char>::empty());
            string_from_chars(&empty)
        }
    }
}

/// Applies one line of diff text to the executable scan state.
fn diff_apply_line(
    files: &mut Vec<FileDiff>,
    cur_file: Option<FileDiff>,
    cur_hunk: Option<DiffHunk>,
    line: &Vec<char>,
) -> (r: (Option<FileDiff>, Option<DiffHunk>))
    ensures
        scan_view(final(files)@, r.0, r.1) == diff_step(
            scan_view(old(files)@, cur_file, cur_hunk),
            line@,
        ),
{
    let ghost st0 = scan_view(old(files)@, cur_file, cur_hunk);
    let m_diff = chars_of("diff --git ");
    let m_binary = chars_of("Binary files");
    let m_new = chars_of("new file mode");
    let m_del = chars_of("deleted file mode");
    let m_ren = chars_of("rename from ");
    let m_hunk = chars_of("@@ ");
    if has_prefix_from(line, 0, &m_diff) {
        // close and emit the in-progress file, then open a new section
        let mut cur_hunk = cur_hunk;
        match cur_file {
            Some(mut f) => {
                let ph = cur_hunk;
                cur_hunk = None;
                match ph {
                    Some(h) => {
                        let ghost hs0 = f.hunks@.map_values(|h: DiffHunk| h@);
                        f.hunks.push(h);
                        proof {
                            assert(f.hunks@.map_values(|h: DiffHunk| h@) =~= hs0.push(h@));
                        }
                    },
                    None => {},
                }
                let ghost fs0 = files@.map_values(|f: FileDiff| f@);
                files.push(f);
                proof {
                    assert(files@.map_values(|f: FileDiff| f@) =~= fs0.push(f@));
                }
            },
            None => {},
        }
        let path = section_path(line);
        let nf = FileDiff {
            path,
            status: FileStatus::Modified,
            old_path: None,
            hunks: Vec::new(),
            binary: false,
        };
        proof {
            assert(nf@ =~~= fresh_file(line@));
            assert(scan_view(files@, Some(nf), cur_hunk) =~~= diff_step(st0, line@));
        }
        (Some(nf), cur_hunk)
    } else if has_prefix_from(line, 0, &m_binary) {
        match cur_file {
            Some(mut f) => {
                f.binary = true;
                proof {
                    assert(scan_view(files@, Some(f), cur_hunk) =~~= diff_step(st0, line@));
                }
                (Some(f), cur_hunk)
            },
            None => (None, cur_hunk),
        }
    } else if has_prefix_from(line, 0, &m_new) {
        match cur_file {
            Some(mut f) => {
                f.status = FileStatus::Added;
                proof {
                    assert(scan_view(files@, Some(f), cur_hunk) =~~= diff_step(st0, line@));
                }
                (Some(f), cur_hunk)
            },
            None => (None, cur_hunk),
        }
    } else if has_prefix_from(line, 0, &m_del) {
        match cur_file {
            Some(mut f) => {
                f.status = FileStatus::Deleted;
                proof {
                    assert(scan_view(files@, Some(f), cur_hunk) =~~= diff_step(st0, line@));
                }
                (Some(f), cur_hunk)
            },
            None => (None, cur_hunk),
        }
    } else if has_prefix_from(line, 0, &m_ren) {
        match cur_file {
            Some(mut f) => {
                proof {
                    reveal_strlit("rename from ");
                }
                let k = strip_reps_from(line, 0, &m_ren);
                let tail = subvec(line, k, line.len());
                f.status = FileStatus::Renamed;
                f.old_path = Some(string_from_chars(&tail));
                proof {
                    assert(scan_view(files@, Some(f), cur_hunk) =~~= diff_step(st0, line@));
                }
                (Some(f), cur_hunk)
            },
            None => (None, cur_hunk),
        }
    } else if has_prefix_from(line, 0, &m_hunk) {
        // flush the in-progress hunk, then open a new one when the header
        // parses
        let mut cur_file = cur_file;
        let mut cur_hunk = cur_hunk;
        match cur_file {
            Some(mut f) => {
                let ph = cur_hunk;
                cur_hunk = None;
                match ph {
                    Some(h) => {
                        let ghost hs0 = f.hunks@.map_values(|h: DiffHunk| h@);
                        f.hunks.push(h);
                        proof {
                            assert(f.hunks@.map_values(|h: DiffHunk| h@) =~= hs0.push(h@));
                        }
                    },
                    None => {},
                }
                cur_file = Some(f);
            },
            None => {
                cur_file = None;
            },
        }
        match parse_hunk_header_vec(line) {
            Some((a, b, c, d)) => {
                let nh = DiffHunk {
                    old_start: a,
                    old_lines: b,
                    new_start: c,
                    new_lines: d,
                    header: string_from_chars(line),
                    lines: Vec::new(),
                };
                proof {
                    assert(nh@.lines =~= Seq::<DiffLineV>::empty());
                    assert(scan_view(files@, cur_file, Some(nh)) =~~= diff_step(st0, line@));
                }
                (cur_file, Some(nh))
            },
            None => {
                proof {
                    assert(scan_view(files@, cur_file, cur_hunk) =~~= diff_step(st0, line@));
                }
                (cur_file, cur_hunk)
            },
        }
    } else {
        match cur_hunk {
            Some(mut h) => {
                if line.len() > 0 {
                    let c0 = line[0];
                    if c0 == '+' || c0 == '-' || c0 == ' ' {
                        let kind = if c0 == '+' {
                            LineKind::Addition
                        } else if c0 == '-' {
                            LineKind::Deletion
                        } else {
                            LineKind::Context
                        };
                        let content = string_from_chars(&subvec(line, 1, line.len()));
                        let ghost lv0 = h.lines@.map_values(|l: DiffLine| l@);
                        h.lines.push(DiffLine { kind, content });
                        proof {
                            assert(h.lines@.map_values(|l: DiffLine| l@) =~= lv0.push(
                                DiffLineV { kind, content: line@.subrange(1, line@.len() as int) },
                            ));
                        }
                    }
                }
                proof {
                    assert(scan_view(files@, cur_file, Some(h)) =~~= diff_step(st0, line@));
                }
                (cur_file, Some(h))
            },
            None => (cur_file, None),
        }
    }
}

/// Parses unified-diff text into one record per file section, in the order
/// the sections appear.  Empty text yields an empty list; an unparsable hunk
/// header opens no hunk; unrecognised lines are ignored.
pub fn parse_git_diff_output(text: &str) -> (r: Vec<FileDiff>)
    ensures
        r@.map_values(|f: FileDiff| f@) == spec_parse_diff(text@),
{
    let cs = chars_of(text);
    let lines = split_lines(&cs);
    let ghost ls = spec_lines(text@);
    let mut files: Vec<FileDiff> = Vec::new();
    let mut cur_file: Option<FileDiff> = None;
    let mut cur_hunk: Option<DiffHunk> = None;
    let mut i: usize = 0;
    while i < lines.len()
        invariant
            0 <= i <= lines@.len(),
            lines@.len() == ls.len(),
            forall|j: int| 0 <= j < lines@.len() ==> (#[trigger] lines@[j])@ == ls[j],
            scan_view(files@, cur_file, cur_hunk) == diff_scan(ls, i as int),
        decreases lines@.len() - i,
    {
        let (nf, nh) = diff_apply_line(&mut files, cur_file, cur_hunk, &lines[i]);
        cur_file = nf;
        cur_hunk = nh;
        i = i + 1;
    }
    // close and emit the last file
    match cur_file {
        Some(mut f) => {
            match cur_hunk {
                Some(h) => {
                    let ghost hs0 = f.hunks@.map_values(|h: DiffHunk| h@);
                    f.hunks.push(h);
                    proof {
                        assert(f.hunks@.map_values(|h: DiffHunk| h@) =~= hs0.push(h@));
                    }
                },
                None => {},
            }
            let ghost fs0 = files@.map_values(|f: FileDiff| f@);
            files.push(f);
            proof {
                assert(files@.map_values(|f: FileDiff| f@) =~= fs0.push(f@));
                assert(files@.map_values(|f: FileDiff| f@) =~~= spec_parse_diff(text@));
            }
        },
        None => {
            proof {
                assert(files@.map_values(|f: FileDiff| f@) =~~= spec_parse_diff(text@));
            }
        },
    }
    files
}

} // verus!
