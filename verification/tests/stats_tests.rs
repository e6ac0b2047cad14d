use gitout::stats::{
    build_commit_diff, build_working_diff, compute_diff_stats, parse_untracked_files,
};
use gitout::diff::parse_git_diff_output;
use gitout::types::FileStatus;

#[test]
fn test_compute_diff_stats_counts() {
    let diff = "diff --git a/f b/f\n@@ -1,3 +1,4 @@\n ctx\n+add1\n+add2\n-del1\ndiff --git a/g b/g\n@@ -1 +1 @@\n-del2\n+add3\n";
    let files = parse_git_diff_output(diff);
    let stats = compute_diff_stats(&files).unwrap();
    assert_eq!(stats.files_changed, 2);
    assert_eq!(stats.insertions, 3);
    assert_eq!(stats.deletions, 2);
}

#[test]
fn test_compute_diff_stats_empty() {
    let files = parse_git_diff_output("");
    let stats = compute_diff_stats(&files).unwrap();
    assert_eq!(stats.files_changed, 0);
    assert_eq!(stats.insertions, 0);
    assert_eq!(stats.deletions, 0);
}

#[test]
fn test_parse_untracked_files_listing() {
    let files = parse_untracked_files("a.txt\n\nsrc/b.rs\n");
    assert_eq!(files.len(), 2);
    assert_eq!(files[0].path, "a.txt");
    assert!(matches!(files[0].status, FileStatus::Added));
    assert!(files[0].hunks.is_empty());
    assert!(!files[0].binary);
    assert_eq!(files[1].path, "src/b.rs");
}

#[test]
fn test_build_commit_diff_assembles() {
    let commit = "full\x1fshort\x1fAda\x1fada@x\x1f99\x1fTop\x1fBody";
    let diff = "diff --git a/f b/f\n@@ -1,2 +1,2 @@\n-x\n+y\n";
    let cd = build_commit_diff(commit, diff).unwrap();
    assert_eq!(cd.commit.hash, "full");
    assert_eq!(cd.commit.summary, "Top");
    assert_eq!(cd.files.len(), 1);
    assert_eq!(cd.stats.files_changed, 1);
    assert_eq!(cd.stats.insertions, 1);
    assert_eq!(cd.stats.deletions, 1);
}

#[test]
fn test_build_commit_diff_rejects_short_record() {
    assert!(build_commit_diff("only\x1fthree\x1ffields", "").is_none());
}

#[test]
fn test_build_working_diff_combines() {
    let staged = "diff --git a/s b/s\n@@ -1 +1,2 @@\n+s1\n+s2\n-s3\n";
    let unstaged = "diff --git a/u b/u\n@@ -1 +1 @@\n+u1\n";
    let untracked = "fresh.txt\n";
    let w = build_working_diff(staged, unstaged, untracked).unwrap();
    assert_eq!(w.staged_files.len(), 1);
    assert_eq!(w.unstaged_files.len(), 2);
    assert_eq!(w.unstaged_files[1].path, "fresh.txt");
    assert!(matches!(w.unstaged_files[1].status, FileStatus::Added));
    assert_eq!(w.stats.files_changed, 3);
    assert_eq!(w.stats.insertions, 3);
    assert_eq!(w.stats.deletions, 1);
}

#[test]
fn test_build_working_diff_empty() {
    let w = build_working_diff("", "", "").unwrap();
    assert!(w.staged_files.is_empty());
    assert!(w.unstaged_files.is_empty());
    assert_eq!(w.stats.files_changed, 0);
    assert_eq!(w.stats.insertions, 0);
    assert_eq!(w.stats.deletions, 0);
}
