use gitout::hunk::{parse_hunk_header, parse_range};

// ==================== parse_range tests ====================

#[test]
fn test_parse_range_with_comma() {
    assert_eq!(parse_range("1,5"), Some((1, 5)));
    assert_eq!(parse_range("10,20"), Some((10, 20)));
    assert_eq!(parse_range("0,0"), Some((0, 0)));
}

#[test]
fn test_parse_range_single_number() {
    // Single number implies 1 line
    assert_eq!(parse_range("1"), Some((1, 1)));
    assert_eq!(parse_range("10"), Some((10, 1)));
    assert_eq!(parse_range("0"), Some((0, 1)));
}

#[test]
fn test_parse_range_invalid() {
    assert_eq!(parse_range(""), None);
    assert_eq!(parse_range("abc"), None);
    assert_eq!(parse_range("1,abc"), None);
    assert_eq!(parse_range("abc,1"), None);
}

// ==================== parse_hunk_header tests ====================

#[test]
fn test_parse_hunk_header_basic() {
    assert_eq!(parse_hunk_header("@@ -1,5 +1,7 @@"), Some((1, 5, 1, 7)));
    assert_eq!(parse_hunk_header("@@ -10,3 +12,5 @@"), Some((10, 3, 12, 5)));
}

#[test]
fn test_parse_hunk_header_single_line() {
    // Single line changes (no comma means 1 line)
    assert_eq!(parse_hunk_header("@@ -1 +1 @@"), Some((1, 1, 1, 1)));
}

#[test]
fn test_parse_hunk_header_with_context() {
    // Hunk headers can have function context after @@
    assert_eq!(
        parse_hunk_header("@@ -10,3 +12,5 @@ fn some_function()"),
        Some((10, 3, 12, 5))
    );
}

#[test]
fn test_parse_hunk_header_new_file() {
    // New file: old side is 0,0
    assert_eq!(parse_hunk_header("@@ -0,0 +1,10 @@"), Some((0, 0, 1, 10)));
}

#[test]
fn test_parse_hunk_header_deleted_file() {
    // Deleted file: new side is 0,0
    assert_eq!(parse_hunk_header("@@ -1,10 +0,0 @@"), Some((1, 10, 0, 0)));
}

#[test]
fn test_parse_hunk_header_invalid() {
    assert_eq!(parse_hunk_header("not a hunk header"), None);
    assert_eq!(parse_hunk_header("@@ @@"), None);
    assert_eq!(parse_hunk_header("@@ -1 @@"), None);
}

// ==================== further header edge cases ====================

#[test]
fn test_parse_hunk_header_round_trip_values() {
    // arbitrary values with trailing context, as the round-trip law states
    assert_eq!(
        parse_hunk_header("@@ -42,7 +99,3 @@ tail text"),
        Some((42, 7, 99, 3))
    );
    assert_eq!(
        parse_hunk_header("@@ -4294967295,4294967295 +0,0 @@"),
        Some((u32::MAX, u32::MAX, 0, 0))
    );
}

#[test]
fn test_parse_hunk_header_out_of_range() {
    // a number that does not fit in u32 fails the whole header
    assert_eq!(parse_hunk_header("@@ -4294967296,1 +1,1 @@"), None);
}

#[test]
fn test_parse_hunk_header_one_count_omitted() {
    assert_eq!(parse_hunk_header("@@ -3 +7,2 @@"), Some((3, 1, 7, 2)));
    assert_eq!(parse_hunk_header("@@ -3,2 +7 @@"), Some((3, 2, 7, 1)));
}

#[test]
fn test_parse_range_plus_sign() {
    // u32 parsing accepts one leading plus sign
    assert_eq!(parse_range("+7,+2"), Some((7, 2)));
}
