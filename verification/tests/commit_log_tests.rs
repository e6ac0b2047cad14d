use gitout::commit_log::{parse_commit_log, parse_commit_record};

#[test]
fn test_commit_log_single() {
    // Format: hash, short_hash, author_name, author_email, timestamp, summary, body
    let output = "abc123def456\x1fabc123\x1fJohn Doe\x1fjohn@example.com\x1f1700000000\x1fFix bug\x1fDetailed description\x1e";
    let commits = parse_commit_log(output);
    assert_eq!(commits.len(), 1);
    assert_eq!(commits[0].hash, "abc123def456");
    assert_eq!(commits[0].short_hash, "abc123");
    assert_eq!(commits[0].author_name, "John Doe");
    assert_eq!(commits[0].author_email, "john@example.com");
    assert_eq!(commits[0].timestamp, 1700000000);
    assert_eq!(commits[0].summary, "Fix bug");
    assert_eq!(commits[0].message, "Detailed description");
}

#[test]
fn test_commit_log_multiple() {
    let output = "hash1\x1fh1\x1fAlice\x1falice@test.com\x1f1700000000\x1fFirst\x1fBody1\x1e\
                      hash2\x1fh2\x1fBob\x1fbob@test.com\x1f1700001000\x1fSecond\x1fBody2\x1e";
    let commits = parse_commit_log(output);
    assert_eq!(commits.len(), 2);
    assert_eq!(commits[0].summary, "First");
    assert_eq!(commits[1].summary, "Second");
}

#[test]
fn test_commit_log_empty_body() {
    let output = "hash\x1fh\x1fName\x1femail\x1f1700000000\x1fSummary\x1f\x1e";
    let commits = parse_commit_log(output);
    assert_eq!(commits.len(), 1);
    assert_eq!(commits[0].message, "");
}

#[test]
fn test_commit_log_multiline_body() {
    let output = "hash\x1fh\x1fName\x1femail\x1f1700000000\x1fSummary\x1fLine1\nLine2\nLine3\x1e";
    let commits = parse_commit_log(output);
    assert_eq!(commits.len(), 1);
    assert_eq!(commits[0].message, "Line1\nLine2\nLine3");
}

#[test]
fn test_commit_log_empty() {
    let commits = parse_commit_log("");
    assert!(commits.is_empty());
}

#[test]
fn test_commit_log_invalid_record() {
    // Too few fields - should be skipped
    let output = "hash\x1fh\x1fName\x1e";
    let commits = parse_commit_log(output);
    assert!(commits.is_empty());
}

// ==================== further commit log edge cases ====================

#[test]
fn test_commit_log_two_records_then_short_one() {
    // a trailing record with only three fields is dropped without touching
    // the two before it
    let output = "h1\x1fs1\x1fAlice\x1fa@x\x1f1\x1fOne\x1fB1\x1e\
h2\x1fs2\x1fBob\x1fb@x\x1f2\x1fTwo\x1fB2\x1e\
h3\x1fs3\x1fCarol\x1e";
    let commits = parse_commit_log(output);
    assert_eq!(commits.len(), 2);
    assert_eq!(commits[0].summary, "One");
    assert_eq!(commits[1].summary, "Two");
}

#[test]
fn test_commit_log_bad_timestamp_defaults_to_zero() {
    let output = "h\x1fs\x1fN\x1fe\x1fnot_a_number\x1fSummary\x1e";
    let commits = parse_commit_log(output);
    assert_eq!(commits.len(), 1);
    assert_eq!(commits[0].timestamp, 0);
}

#[test]
fn test_commit_log_negative_timestamp() {
    let output = "h\x1fs\x1fN\x1fe\x1f-45\x1fSummary\x1e";
    let commits = parse_commit_log(output);
    assert_eq!(commits.len(), 1);
    assert_eq!(commits[0].timestamp, -45);
}

#[test]
fn test_commit_log_six_fields_only() {
    // the body field may be absent entirely
    let output = "h\x1fs\x1fN\x1fe\x1f7\x1fSummary\x1e";
    let commits = parse_commit_log(output);
    assert_eq!(commits.len(), 1);
    assert_eq!(commits[0].message, "");
    assert_eq!(commits[0].summary, "Summary");
}

#[test]
fn test_commit_log_body_trimmed() {
    let output = "h\x1fs\x1fN\x1fe\x1f7\x1fSummary\x1f  body text \n\x1e";
    let commits = parse_commit_log(output);
    assert_eq!(commits.len(), 1);
    assert_eq!(commits[0].message, "body text");
}

#[test]
fn test_commit_record_single() {
    let record = "full\x1fshort\x1fAda\x1fada@x\x1f99\x1fTop line\x1fBody here\n";
    let commit = parse_commit_record(record).unwrap();
    assert_eq!(commit.hash, "full");
    assert_eq!(commit.short_hash, "short");
    assert_eq!(commit.author_name, "Ada");
    assert_eq!(commit.author_email, "ada@x");
    assert_eq!(commit.timestamp, 99);
    assert_eq!(commit.summary, "Top line");
    assert_eq!(commit.message, "Body here");
}

#[test]
fn test_commit_record_too_few_fields() {
    assert!(parse_commit_record("a\x1fb\x1fc").is_none());
    assert!(parse_commit_record("   ").is_none());
}
