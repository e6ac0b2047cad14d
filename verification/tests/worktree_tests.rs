use gitout::worktrees::{
    lines_after_marker, non_empty_lines, parse_branch_lines, parse_head_branch, parse_timestamp,
    trimmed,
};

#[test]
fn test_lines_after_marker_worktree_paths() {
    let listing = "worktree /repos/main\nHEAD abc123\nbranch refs/heads/main\n\nworktree /repos/feature\nHEAD def456\nbranch refs/heads/feature\n";
    let paths = lines_after_marker(listing, "worktree ");
    assert_eq!(paths, vec!["/repos/main".to_string(), "/repos/feature".to_string()]);
    let branches = lines_after_marker(listing, "branch refs/heads/");
    assert_eq!(branches, vec!["main".to_string(), "feature".to_string()]);
}

#[test]
fn test_lines_after_marker_empty() {
    assert!(lines_after_marker("", "worktree ").is_empty());
}

#[test]
fn test_parse_branch_lines_classifies() {
    let checked = vec!["main".to_string()];
    let listing = "main\tlocal\nfeature\tlocal\norigin/main\tremote\norigin/HEAD\tremote\n";
    let branches = parse_branch_lines(listing, &checked);
    assert_eq!(branches.len(), 3);
    assert_eq!(branches[0].name, "main");
    assert!(!branches[0].is_remote);
    assert!(branches[0].is_checked_out);
    assert_eq!(branches[1].name, "feature");
    assert!(!branches[1].is_remote);
    assert!(!branches[1].is_checked_out);
    assert_eq!(branches[2].name, "origin/main");
    assert!(branches[2].is_remote);
    assert!(!branches[2].is_checked_out);
}

#[test]
fn test_parse_branch_lines_skips_blank() {
    let branches = parse_branch_lines("\n   \nmain\tlocal\n", &Vec::new());
    assert_eq!(branches.len(), 1);
    assert_eq!(branches[0].name, "main");
}

#[test]
fn test_non_empty_lines_filters() {
    let lines = non_empty_lines("one\n\ntwo\n\n");
    assert_eq!(lines, vec!["one".to_string(), "two".to_string()]);
}

#[test]
fn test_trimmed_strips_both_ends() {
    assert_eq!(trimmed("  abc123 \n"), "abc123");
    assert_eq!(trimmed(""), "");
}

#[test]
fn test_parse_head_branch_detached() {
    assert_eq!(parse_head_branch("HEAD\n"), None);
    assert_eq!(parse_head_branch("main\n"), Some("main".to_string()));
}

#[test]
fn test_parse_timestamp_values() {
    assert_eq!(parse_timestamp("1700000000\n"), 1700000000);
    assert_eq!(parse_timestamp("garbage"), 0);
    assert_eq!(parse_timestamp(""), 0);
}
