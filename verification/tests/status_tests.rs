use gitout::status::parse_status_porcelain;

#[test]
fn test_status_clean() {
    let status = parse_status_porcelain("");
    assert!(status.is_clean);
    assert_eq!(status.modified, 0);
    assert_eq!(status.staged, 0);
    assert_eq!(status.untracked, 0);
    assert_eq!(status.conflicted, 0);
}

#[test]
fn test_status_modified_unstaged() {
    let status = parse_status_porcelain(" M src/main.rs\n");
    assert!(!status.is_clean);
    assert_eq!(status.modified, 1);
    assert_eq!(status.staged, 0);
}

#[test]
fn test_status_staged() {
    let status = parse_status_porcelain("M  src/main.rs\n");
    assert!(!status.is_clean);
    assert_eq!(status.staged, 1);
    assert_eq!(status.modified, 0);
}

#[test]
fn test_status_added_staged() {
    let status = parse_status_porcelain("A  new_file.rs\n");
    assert!(!status.is_clean);
    assert_eq!(status.staged, 1);
}

#[test]
fn test_status_deleted_staged() {
    let status = parse_status_porcelain("D  old_file.rs\n");
    assert!(!status.is_clean);
    assert_eq!(status.staged, 1);
}

#[test]
fn test_status_untracked() {
    let status = parse_status_porcelain("?? untracked.txt\n");
    assert!(!status.is_clean);
    assert_eq!(status.untracked, 1);
}

#[test]
fn test_status_conflicts() {
    // UU - both modified (merge conflict)
    let status = parse_status_porcelain("UU conflicted.rs\n");
    assert!(!status.is_clean);
    assert_eq!(status.conflicted, 1);

    // AA - both added
    let status = parse_status_porcelain("AA both_added.rs\n");
    assert_eq!(status.conflicted, 1);

    // DD - both deleted
    let status = parse_status_porcelain("DD both_deleted.rs\n");
    assert_eq!(status.conflicted, 1);
}

#[test]
fn test_status_mixed() {
    let output = "M  staged.rs\n M modified.rs\n?? untracked.txt\nUU conflict.rs\n";
    let status = parse_status_porcelain(output);
    assert!(!status.is_clean);
    assert_eq!(status.staged, 1);
    assert_eq!(status.modified, 1);
    assert_eq!(status.untracked, 1);
    assert_eq!(status.conflicted, 1);
}

// ==================== further status edge cases ====================

#[test]
fn test_status_conflict_beats_staged_column() {
    // UU counts as conflicted, never as staged or modified
    let status = parse_status_porcelain("UU a\nAU b\nUA c\nDU d\nUD e\n");
    assert_eq!(status.conflicted, 5);
    assert_eq!(status.staged, 0);
    assert_eq!(status.modified, 0);
}

#[test]
fn test_status_short_line_skipped() {
    // a line shorter than two characters contributes nothing
    let status = parse_status_porcelain("M\n\n M ok.rs\n");
    assert_eq!(status.modified, 1);
    assert_eq!(status.staged, 0);
    assert!(!status.is_clean);
}

#[test]
fn test_status_unrecognised_codes_ignored() {
    // unmodified / ignored markers touch no counter
    let status = parse_status_porcelain("!! ignored.txt\n   nothing\n");
    assert!(status.is_clean);
    assert_eq!(status.modified + status.staged + status.untracked + status.conflicted, 0);
}

#[test]
fn test_status_renamed_and_copied_staged() {
    let status = parse_status_porcelain("R  moved.rs\nC  copied.rs\n");
    assert_eq!(status.staged, 2);
}

#[test]
fn test_status_worktree_deleted_modified() {
    let status = parse_status_porcelain(" D gone.rs\n");
    assert_eq!(status.modified, 1);
}
