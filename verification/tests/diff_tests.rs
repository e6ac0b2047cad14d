use gitout::diff::parse_git_diff_output;
use gitout::types::{FileStatus, LineKind};

#[test]
fn test_parse_diff_empty() {
    let files = parse_git_diff_output("");
    assert!(files.is_empty());
}

#[test]
fn test_parse_diff_single_modified_file() {
    let diff = r#"diff --git a/src/main.rs b/src/main.rs
index abc1234..def5678 100644
--- a/src/main.rs
+++ b/src/main.rs
@@ -1,3 +1,4 @@
 fn main() {
+    println!("Hello");
     println!("World");
 }
"#;
    let files = parse_git_diff_output(diff);
    assert_eq!(files.len(), 1);
    assert_eq!(files[0].path, "src/main.rs");
    assert!(matches!(files[0].status, FileStatus::Modified));
    assert!(!files[0].binary);
    assert_eq!(files[0].hunks.len(), 1);

    let hunk = &files[0].hunks[0];
    assert_eq!(hunk.old_start, 1);
    assert_eq!(hunk.old_lines, 3);
    assert_eq!(hunk.new_start, 1);
    assert_eq!(hunk.new_lines, 4);
    assert_eq!(hunk.lines.len(), 4);

    // Check line types
    assert!(matches!(hunk.lines[0].kind, LineKind::Context));
    assert!(matches!(hunk.lines[1].kind, LineKind::Addition));
    assert!(matches!(hunk.lines[2].kind, LineKind::Context));
    assert!(matches!(hunk.lines[3].kind, LineKind::Context));
}

#[test]
fn test_parse_diff_new_file() {
    let diff = r#"diff --git a/new_file.txt b/new_file.txt
new file mode 100644
index 0000000..abc1234
--- /dev/null
+++ b/new_file.txt
@@ -0,0 +1,2 @@
+line 1
+line 2
"#;
    let files = parse_git_diff_output(diff);
    assert_eq!(files.len(), 1);
    assert_eq!(files[0].path, "new_file.txt");
    assert!(matches!(files[0].status, FileStatus::Added));
}

#[test]
fn test_parse_diff_deleted_file() {
    let diff = r#"diff --git a/old_file.txt b/old_file.txt
deleted file mode 100644
index abc1234..0000000
--- a/old_file.txt
+++ /dev/null
@@ -1,2 +0,0 @@
-line 1
-line 2
"#;
    let files = parse_git_diff_output(diff);
    assert_eq!(files.len(), 1);
    assert_eq!(files[0].path, "old_file.txt");
    assert!(matches!(files[0].status, FileStatus::Deleted));
}

#[test]
fn test_parse_diff_renamed_file() {
    let diff = r#"diff --git a/old_name.rs b/new_name.rs
similarity index 95%
rename from old_name.rs
rename to new_name.rs
index abc1234..def5678 100644
--- a/old_name.rs
+++ b/new_name.rs
@@ -1,3 +1,3 @@
 fn main() {
-    old();
+    new();
 }
"#;
    let files = parse_git_diff_output(diff);
    assert_eq!(files.len(), 1);
    assert_eq!(files[0].path, "new_name.rs");
    assert!(matches!(files[0].status, FileStatus::Renamed));
    assert_eq!(files[0].old_path, Some("old_name.rs".to_string()));
}

#[test]
fn test_parse_diff_binary_file() {
    let diff = r#"diff --git a/image.png b/image.png
new file mode 100644
index 0000000..abc1234
Binary files /dev/null and b/image.png differ
"#;
    let files = parse_git_diff_output(diff);
    assert_eq!(files.len(), 1);
    assert_eq!(files[0].path, "image.png");
    assert!(files[0].binary);
    assert!(files[0].hunks.is_empty());
}

#[test]
fn test_parse_diff_multiple_files() {
    let diff = r#"diff --git a/file1.rs b/file1.rs
index abc..def 100644
--- a/file1.rs
+++ b/file1.rs
@@ -1 +1 @@
-old
+new
diff --git a/file2.rs b/file2.rs
index 123..456 100644
--- a/file2.rs
+++ b/file2.rs
@@ -1 +1 @@
-foo
+bar
"#;
    let files = parse_git_diff_output(diff);
    assert_eq!(files.len(), 2);
    assert_eq!(files[0].path, "file1.rs");
    assert_eq!(files[1].path, "file2.rs");
}

#[test]
fn test_parse_diff_multiple_hunks() {
    let diff = r#"diff --git a/file.rs b/file.rs
index abc..def 100644
--- a/file.rs
+++ b/file.rs
@@ -1,3 +1,3 @@
 fn foo() {
-    old1();
+    new1();
 }
@@ -10,3 +10,3 @@
 fn bar() {
-    old2();
+    new2();
 }
"#;
    let files = parse_git_diff_output(diff);
    assert_eq!(files.len(), 1);
    assert_eq!(files[0].hunks.len(), 2);
    assert_eq!(files[0].hunks[0].old_start, 1);
    assert_eq!(files[0].hunks[1].old_start, 10);
}

// ==================== further diff edge cases ====================

#[test]
fn test_parse_diff_line_contents() {
    let diff = "diff --git a/f b/f\n@@ -1,2 +1,2 @@\n same\n-gone\n+here\n";
    let files = parse_git_diff_output(diff);
    assert_eq!(files.len(), 1);
    let hunk = &files[0].hunks[0];
    assert_eq!(hunk.header, "@@ -1,2 +1,2 @@");
    assert_eq!(hunk.lines.len(), 3);
    assert_eq!(hunk.lines[0].content, "same");
    assert_eq!(hunk.lines[1].content, "gone");
    assert_eq!(hunk.lines[2].content, "here");
}

#[test]
fn test_parse_diff_unparsable_hunk_header_skipped() {
    // a malformed header opens no hunk, so its lines are dropped
    let diff = "diff --git a/f b/f\n@@ bogus @@\n+dropped\n@@ -1 +1 @@\n+kept\n";
    let files = parse_git_diff_output(diff);
    assert_eq!(files.len(), 1);
    assert_eq!(files[0].hunks.len(), 1);
    assert_eq!(files[0].hunks[0].lines.len(), 1);
    assert_eq!(files[0].hunks[0].lines[0].content, "kept");
}

#[test]
fn test_parse_diff_path_fallback_without_b_marker() {
    // without a ` b/` marker the path falls back to the ` a/` text up to the
    // next space
    let diff = "diff --git a/just_one.rs\n";
    let files = parse_git_diff_output(diff);
    assert_eq!(files.len(), 1);
    assert_eq!(files[0].path, "just_one.rs");
}
