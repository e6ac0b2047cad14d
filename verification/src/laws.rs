//! Laws that relate the parsers' results across whole families of inputs,
//! stated over the same specification functions the parsers' contracts use.

use vstd::prelude::*;

use crate::commit_log::{log_prefix, record_sep, spec_parse_log, spec_parse_record};
use crate::diff::{
    binary_marker, close_section, deleted_marker, diff_marker, diff_scan, diff_step, hunk_marker,
    init_scan, new_file_marker, rename_marker, spec_section_path,
};
use crate::hunk::{hunk_close, hunk_open, spec_parse_hunk_header, spec_parse_range};
use crate::text::{
    all_digits, digit_val, digits_val, has_prefix, has_prefix_at, is_digit,
    lemma_split_char_concat, lemma_split_char_whole, lemma_sub_break_unique, reps_end, split_char,
    split_sub, spec_parse_u32, strip_reps, sub_break,
};
use crate::types::{CommitInfoV, FileDiffV, FileStatus};

verus! {

/// No record separator occurs in `s`.
pub open spec fn rs_free(s: Seq<char>) -> bool {
    forall|i: int| 0 <= i < s.len() ==> s[i] != record_sep()
}

/// Two well-formed records joined by the record separator parse to exactly
/// those two commits, in input order.
pub proof fn lemma_log_two_records(r1: Seq<char>, r2: Seq<char>)
    requires
        rs_free(r1),
        rs_free(r2),
        spec_parse_record(r1) is Some,
        spec_parse_record(r2) is Some,
    ensures
        spec_parse_log(r1 + seq![record_sep()] + r2) == seq![
            spec_parse_record(r1)->Some_0,
            spec_parse_record(r2)->Some_0,
        ],
{
    let s = r1 + seq![record_sep()] + r2;
    lemma_split_char_concat(r1, r2, record_sep());
    lemma_split_char_whole(r2, record_sep());
    let recs = split_char(s, record_sep());
    assert(recs =~= seq![r1, r2]);
    assert(log_prefix(recs, 0) =~= Seq::<CommitInfoV>::empty());
    assert(log_prefix(recs, 1) =~= seq![spec_parse_record(r1)->Some_0]);
    assert(log_prefix(recs, 2) =~= seq![
        spec_parse_record(r1)->Some_0,
        spec_parse_record(r2)->Some_0,
    ]);
    assert(spec_parse_log(s) =~= seq![
        spec_parse_record(r1)->Some_0,
        spec_parse_record(r2)->Some_0,
    ]);
}

/// A trailing malformed record — one the record parser rejects, such as one
/// with fewer than six fields — is dropped without affecting the commits
/// before it.
pub proof fn lemma_log_short_trailing_record(r1: Seq<char>, r2: Seq<char>, r3: Seq<char>)
    requires
        rs_free(r1),
        rs_free(r2),
        rs_free(r3),
        spec_parse_record(r1) is Some,
        spec_parse_record(r2) is Some,
        spec_parse_record(r3) is None,
    ensures
        spec_parse_log(r1 + seq![record_sep()] + r2 + seq![record_sep()] + r3) == seq![
            spec_parse_record(r1)->Some_0,
            spec_parse_record(r2)->Some_0,
        ],
{
    let s = r1 + seq![record_sep()] + r2 + seq![record_sep()] + r3;
    let tail = r2 + seq![record_sep()] + r3;
    assert(s =~= r1 + seq![record_sep()] + tail);
    lemma_split_char_concat(r1, tail, record_sep());
    lemma_split_char_concat(r2, r3, record_sep());
    lemma_split_char_whole(r3, record_sep());
    let recs = split_char(s, record_sep());
    assert(recs =~= seq![r1, r2, r3]);
    assert(log_prefix(recs, 0) =~= Seq::<CommitInfoV>::empty());
    assert(log_prefix(recs, 1) =~= seq![spec_parse_record(r1)->Some_0]);
    assert(log_prefix(recs, 2) =~= seq![
        spec_parse_record(r1)->Some_0,
        spec_parse_record(r2)->Some_0,
    ]);
    assert(log_prefix(recs, 3) == log_prefix(recs, 2));
    assert(spec_parse_log(s) =~= seq![
        spec_parse_record(r1)->Some_0,
        spec_parse_record(r2)->Some_0,
    ]);
}

/// Empty input yields empty output everywhere: no files from an empty diff,
/// no commits from an empty log, and all-zero counters from an empty status
/// listing.
pub proof fn lemma_empty_inputs()
    ensures
        crate::diff::spec_parse_diff(Seq::empty()) == Seq::<FileDiffV>::empty(),
        spec_parse_log(Seq::empty()) == Seq::<CommitInfoV>::empty(),
        crate::status::spec_status_counts(Seq::empty()) == crate::status::StatusCounts::zero(),
{
    let e = Seq::<char>::empty();
    assert(crate::text::spec_lines(e) =~= Seq::<Seq<char>>::empty());
    assert(crate::diff::spec_parse_diff(e) =~= Seq::<FileDiffV>::empty());
    // the log splits even empty text into one empty record, which is dropped
    assert(split_char(e, record_sep()) =~~= seq![e]);
    assert(crate::text::spec_trim(e) =~= e);
    assert(spec_parse_record(e) is None);
    let recs = split_char(e, record_sep());
    assert(recs.len() == 1 && recs[0] == e);
    assert(log_prefix(recs, 0) =~= Seq::<CommitInfoV>::empty());
    assert(log_prefix(recs, 1) =~= Seq::<CommitInfoV>::empty());
}

/// Scanning a single file section that opens no hunk leaves exactly the one
/// in-progress file, with no hunks, marked binary exactly when a binary line
/// was seen.
proof fn lemma_binary_scan(lines: Seq<Seq<char>>, n: int)
    requires
        1 <= n <= lines.len(),
        has_prefix(lines[0], diff_marker()),
        forall|i: int|
            1 <= i < n ==> !has_prefix(#[trigger] lines[i], diff_marker()) && !has_prefix(
                lines[i],
                hunk_marker(),
            ),
    ensures
        ({
            let st = diff_scan(lines, n);
            &&& st.files.len() == 0
            &&& st.cur_hunk is None
            &&& st.cur_file is Some
            &&& (st.cur_file->Some_0).hunks.len() == 0
            &&& (st.cur_file->Some_0).path == spec_section_path(lines[0])
            &&& ((st.cur_file->Some_0).binary <==> (exists|i: int|
                1 <= i < n && has_prefix(#[trigger] lines[i], binary_marker())))
        }),
    decreases n,
{
    if n == 1 {
        assert(diff_scan(lines, 1) == diff_step(init_scan(), lines[0]));
        assert(!(exists|i: int| 1 <= i < 1 && has_prefix(#[trigger] lines[i], binary_marker())));
    } else {
        lemma_binary_scan(lines, n - 1);
        let st = diff_scan(lines, n - 1);
        let l = lines[n - 1];
        assert(diff_scan(lines, n) == diff_step(st, l));
        if has_prefix(l, binary_marker()) {
            assert(exists|i: int| 1 <= i < n && has_prefix(#[trigger] lines[i], binary_marker()));
        } else {
            assert((exists|i: int| 1 <= i < n && has_prefix(#[trigger] lines[i], binary_marker()))
                <==> (exists|i: int|
                1 <= i < n - 1 && has_prefix(#[trigger] lines[i], binary_marker())));
        }
    }
}

/// A diff section with a binary-files line and no hunk headers yields one
/// file with the binary flag set and no hunks.
pub proof fn lemma_binary_section(lines: Seq<Seq<char>>)
    requires
        lines.len() >= 1,
        has_prefix(lines[0], diff_marker()),
        forall|i: int|
            1 <= i < lines.len() ==> !has_prefix(#[trigger] lines[i], diff_marker()) && !has_prefix(
                lines[i],
                hunk_marker(),
            ),
        exists|i: int| 1 <= i < lines.len() && has_prefix(#[trigger] lines[i], binary_marker()),
    ensures
        ({
            let files = close_section(diff_scan(lines, lines.len() as int)).files;
            &&& files.len() == 1
            &&& files[0].binary
            &&& files[0].hunks.len() == 0
        }),
{
    lemma_binary_scan(lines, lines.len() as int);
}

/// Scanning a single file section whose only status markers are one rename
/// line leaves exactly the one in-progress file; once the rename line has
/// been read, the file is renamed and carries its former path.
proof fn lemma_rename_scan(lines: Seq<Seq<char>>, n: int, r: int)
    requires
        1 <= n <= lines.len(),
        1 <= r < lines.len(),
        has_prefix(lines[0], diff_marker()),
        forall|i: int| 1 <= i < lines.len() ==> !has_prefix(#[trigger] lines[i], diff_marker()),
        forall|i: int|
            1 <= i < lines.len() ==> !has_prefix(#[trigger] lines[i], new_file_marker())
                && !has_prefix(lines[i], deleted_marker()),
        forall|i: int|
            1 <= i < lines.len() && i != r ==> !has_prefix(#[trigger] lines[i], rename_marker()),
        has_prefix(lines[r], rename_marker()),
    ensures
        ({
            let st = diff_scan(lines, n);
            &&& st.files.len() == 0
            &&& st.cur_file is Some
            &&& (st.cur_file->Some_0).path == spec_section_path(lines[0])
            &&& r < n ==> (st.cur_file->Some_0).status == FileStatus::Renamed
                && (st.cur_file->Some_0).old_path == Some(strip_reps(lines[r], rename_marker()))
        }),
    decreases n,
{
    if n == 1 {
        assert(diff_scan(lines, 1) == diff_step(init_scan(), lines[0]));
    } else {
        lemma_rename_scan(lines, n - 1, r);
        let st = diff_scan(lines, n - 1);
        let l = lines[n - 1];
        if n - 1 == r {
            // the rename line reaches the rename branch: it cannot also be a
            // binary-files line, as the two markers differ in their first
            // character
            reveal_strlit("rename from ");
            reveal_strlit("Binary files");
            assert(l[0] == rename_marker()[0]);
            if has_prefix(l, binary_marker()) {
                assert(l[0] == binary_marker()[0]);
                assert(false);
            }
        }
        assert(diff_scan(lines, n) == diff_step(st, l));
    }
}

/// A diff section whose one rename line reads `rename from X` yields exactly
/// one file with status `Renamed`, former path `X`, and the path named by
/// the section header.
pub proof fn lemma_rename_section(lines: Seq<Seq<char>>, r: int, x: Seq<char>)
    requires
        lines.len() >= 1,
        1 <= r < lines.len(),
        has_prefix(lines[0], diff_marker()),
        forall|i: int| 1 <= i < lines.len() ==> !has_prefix(#[trigger] lines[i], diff_marker()),
        forall|i: int|
            1 <= i < lines.len() ==> !has_prefix(#[trigger] lines[i], new_file_marker())
                && !has_prefix(lines[i], deleted_marker()),
        forall|i: int|
            1 <= i < lines.len() && i != r ==> !has_prefix(#[trigger] lines[i], rename_marker()),
        lines[r] == rename_marker() + x,
        !has_prefix(x, rename_marker()),
    ensures
        ({
            let files = close_section(diff_scan(lines, lines.len() as int)).files;
            &&& files.len() == 1
            &&& files[0].status == FileStatus::Renamed
            &&& files[0].old_path == Some(x)
            &&& files[0].path == spec_section_path(lines[0])
        }),
{
    let m = rename_marker();
    let line = lines[r];
    reveal_strlit("rename from ");
    assert forall|i: int| 0 <= i < m.len() implies line[i] == m[i] by {
        assert(line[i] == (m + x)[i]);
    }
    assert(has_prefix(line, m));
    lemma_rename_scan(lines, lines.len() as int, r);
    // the stripped former path is exactly x: the marker occurs once at the
    // front and x does not begin with it again
    assert(reps_end(line, m, 0) == reps_end(line, m, m.len() as int));
    if has_prefix_at(line, m.len() as int, m) {
        assert forall|i: int| 0 <= i < m.len() implies x[i] == m[i] by {
            assert(line[m.len() + i] == (m + x)[m.len() + i]);
            assert(line[m.len() + i] == x[i]);
        }
        assert(has_prefix(x, m));
        assert(false);
    }
    assert(reps_end(line, m, m.len() as int) == m.len() as int);
    assert(strip_reps(line, m) =~= x);
}

// ---------------------------------------------------------------------------
// The hunk header round trip
// ---------------------------------------------------------------------------

/// The character of one decimal digit.
pub open spec fn digit_char(d: nat) -> char {
    if d == 0 {
        '0'
    } else if d == 1 {
        '1'
    } else if d == 2 {
        '2'
    } else if d == 3 {
        '3'
    } else if d == 4 {
        '4'
    } else if d == 5 {
        '5'
    } else if d == 6 {
        '6'
    } else if d == 7 {
        '7'
    } else if d == 8 {
        '8'
    } else {
        '9'
    }
}

/// The decimal numeral of `n`, most significant digit first.
pub open spec fn dec_digits(n: nat) -> Seq<char>
    decreases n,
{
    if n < 10 {
        seq![digit_char(n)]
    } else {
        proof {
            assert(n / 10 < n) by (nonlinear_arith)
                requires
                    n >= 10,
            ;
        }
        dec_digits(n / 10).push(digit_char(n % 10))
    }
}

/// The decimal numeral of a `u32`.
pub open spec fn render_u32(n: u32) -> Seq<char> {
    dec_digits(n as nat)
}

/// A decimal numeral is non-empty, all digits, and reads back as its value.
pub proof fn lemma_dec_digits(n: nat)
    ensures
        dec_digits(n).len() >= 1,
        all_digits(dec_digits(n)),
        digits_val(dec_digits(n)) == n,
    decreases n,
{
    if n < 10 {
        let s = dec_digits(n);
        assert(s.drop_last() =~= Seq::<char>::empty());
        assert(digits_val(Seq::<char>::empty()) == 0);
        assert(s.last() == digit_char(n));
        assert(digits_val(s) == digit_val(digit_char(n)));
    } else {
        assert(n / 10 < n) by (nonlinear_arith)
            requires
                n >= 10,
        ;
        lemma_dec_digits(n / 10);
        let pre = dec_digits(n / 10);
        let s = pre.push(digit_char(n % 10));
        assert(s.drop_last() =~= pre);
        assert(s.last() == digit_char(n % 10));
        assert(digits_val(s) == digits_val(pre) * 10 + digit_val(digit_char(n % 10)));
        assert((n / 10) * 10 + n % 10 == n) by (nonlinear_arith);
        assert forall|i: int| 0 <= i < s.len() implies is_digit(#[trigger] s[i]) by {
            if i < pre.len() {
                assert(s[i] == pre[i]);
            }
        }
    }
}

/// Parsing the assembled text `@@ -<A> +<B> @@<t>`, for any range tokens
/// free of spaces, at-signs and leading sign markers, yields exactly what
/// the two tokens parse to.
proof fn lemma_header_parse(a_tok: Seq<char>, b_tok: Seq<char>, t: Seq<char>)
    requires
        a_tok.len() >= 1,
        b_tok.len() >= 1,
        forall|i: int| 0 <= i < a_tok.len() ==> #[trigger] a_tok[i] != ' ' && a_tok[i] != '@',
        forall|i: int| 0 <= i < b_tok.len() ==> #[trigger] b_tok[i] != ' ' && b_tok[i] != '@',
        a_tok[0] != '-',
        b_tok[0] != '+',
    ensures
        ({
            let h = seq!['@', '@', ' ', '-'] + a_tok + seq![' ', '+'] + b_tok + seq![' ', '@', '@']
                + t;
            spec_parse_hunk_header(h) == match (spec_parse_range(a_tok), spec_parse_range(b_tok)) {
                (Some((x, y)), Some((z, w))) => Some((x, y, z, w)),
                _ => None,
            }
        }),
{
    let al = a_tok.len() as int;
    let bl = b_tok.len() as int;
    let h = seq!['@', '@', ' ', '-'] + a_tok + seq![' ', '+'] + b_tok + seq![' ', '@', '@'] + t;
    reveal_strlit("@@ ");
    reveal_strlit(" @@");
    let mo = hunk_open();
    let mc = hunk_close();
    assert(mo.len() == 3);
    assert(mc.len() == 3);
    // the opening marker is removed once: the next character is the dash
    assert(has_prefix_at(h, 0, mo));
    assert(h[3] == '-');
    if has_prefix_at(h, 3, mo) {
        assert(h[3] == mo[0]);
        assert(false);
    }
    assert(reps_end(h, mo, 3) == 3);
    assert(reps_end(h, mo, 0) == 3);
    let rest = strip_reps(h, mo);
    assert(rest =~= seq!['-'] + a_tok + seq![' ', '+'] + b_tok + seq![' ', '@', '@'] + t);
    // the closing marker first occurs right after the second token
    let k = 3 + al + bl;
    assert(rest[k] == ' ' && rest[k + 1] == '@' && rest[k + 2] == '@');
    assert(has_prefix_at(rest, k, mc)) by {
        assert(forall|i: int|
            0 <= i < 3 ==> #[trigger] mc[i] == seq![' ', '@', '@'][i] && rest[k + i] == seq![
                ' ',
                '@',
                '@',
            ][i]);
    }
    assert forall|j: int| 0 <= j < k implies !has_prefix_at(rest, j, mc) by {
        if has_prefix_at(rest, j, mc) {
            assert(rest[j] == mc[0]);
            assert(rest[j + 1] == mc[1]);
            if j == 0 {
                assert(rest[0] == '-');
            } else if j < 1 + al {
                assert(rest[j] == a_tok[j - 1]);
            } else if j == 1 + al {
                assert(rest[j + 1] == '+');
            } else if j == 2 + al {
                assert(rest[j] == '+');
            } else {
                assert(rest[j] == b_tok[j - 3 - al]);
            }
        }
    }
    lemma_sub_break_unique(rest, 0, mc, k);
    assert(sub_break(rest, 0, mc) == k);
    let seg = split_sub(rest, mc)[0];
    assert(seg == rest.subrange(0, k));
    let old_tok = seq!['-'] + a_tok;
    let new_tok = seq!['+'] + b_tok;
    assert(seg =~= old_tok + seq![' '] + new_tok);
    // the one space splits the segment into the two tokens
    assert forall|i: int| 0 <= i < old_tok.len() implies #[trigger] old_tok[i] != ' ' by {
        if i > 0 {
            assert(old_tok[i] == a_tok[i - 1]);
        }
    }
    assert forall|i: int| 0 <= i < new_tok.len() implies #[trigger] new_tok[i] != ' ' by {
        if i > 0 {
            assert(new_tok[i] == b_tok[i - 1]);
        }
    }
    lemma_split_char_concat(old_tok, new_tok, ' ');
    lemma_split_char_whole(new_tok, ' ');
    let parts = split_char(seg, ' ');
    assert(parts =~= seq![old_tok, new_tok]);
    // each token loses exactly its one leading sign
    assert(has_prefix_at(old_tok, 0, seq!['-']));
    assert(old_tok[1] == a_tok[0]);
    if has_prefix_at(old_tok, 1, seq!['-']) {
        assert(old_tok[1] == '-');
        assert(false);
    }
    assert(reps_end(old_tok, seq!['-'], 1) == 1);
    assert(reps_end(old_tok, seq!['-'], 0) == 1);
    assert(strip_reps(old_tok, seq!['-']) =~= a_tok);
    assert(has_prefix_at(new_tok, 0, seq!['+']));
    assert(new_tok[1] == b_tok[0]);
    if has_prefix_at(new_tok, 1, seq!['+']) {
        assert(new_tok[1] == '+');
        assert(false);
    }
    assert(reps_end(new_tok, seq!['+'], 1) == 1);
    assert(reps_end(new_tok, seq!['+'], 0) == 1);
    assert(strip_reps(new_tok, seq!['+']) =~= b_tok);
}

/// A digit string parses as an unsigned number: its own value.
proof fn lemma_parse_digits(n: u32)
    ensures
        spec_parse_u32(render_u32(n)) == Some(n),
        render_u32(n).len() >= 1,
        all_digits(render_u32(n)),
    decreases n,
{
    lemma_dec_digits(n as nat);
    let s = render_u32(n);
    assert(is_digit(s[0]));
    assert(s[0] != '+');
}

/// A `start,lines` pair of numerals parses back to its two numbers.
proof fn lemma_parse_range_pair(x: u32, y: u32)
    ensures
        spec_parse_range(render_u32(x) + seq![','] + render_u32(y)) == Some((x, y)),
{
    lemma_parse_digits(x);
    lemma_parse_digits(y);
    let rx = render_u32(x);
    let ry = render_u32(y);
    assert forall|i: int| 0 <= i < rx.len() implies #[trigger] rx[i] != ',' by {
        assert(is_digit(rx[i]));
    }
    assert forall|i: int| 0 <= i < ry.len() implies #[trigger] ry[i] != ',' by {
        assert(is_digit(ry[i]));
    }
    lemma_split_char_concat(rx, ry, ',');
    lemma_split_char_whole(ry, ',');
    assert(split_char(rx + seq![','] + ry, ',') =~= seq![rx, ry]);
}

/// A lone numeral parses back to its number with a line count of one.
proof fn lemma_parse_range_single(x: u32)
    ensures
        spec_parse_range(render_u32(x)) == Some((x, 1u32)),
{
    lemma_parse_digits(x);
    let rx = render_u32(x);
    assert forall|i: int| 0 <= i < rx.len() implies #[trigger] rx[i] != ',' by {
        assert(is_digit(rx[i]));
    }
    lemma_split_char_whole(rx, ',');
}

/// The tokens built from numerals meet the side conditions of
/// `lemma_header_parse`.
proof fn lemma_range_token_chars(s: Seq<char>)
    requires
        all_digits(s),
        s.len() >= 1,
    ensures
        forall|i: int| 0 <= i < s.len() ==> #[trigger] s[i] != ' ' && s[i] != '@',
        s[0] != '-',
        s[0] != '+',
{
    assert forall|i: int| 0 <= i < s.len() implies #[trigger] s[i] != ' ' && s[i] != '@' by {
        assert(is_digit(s[i]));
    }
    assert(is_digit(s[0]));
}

/// The header text assembled from four numbers, with both counts written
/// out, followed by arbitrary context text.
pub open spec fn header_with_counts(a: u32, b: u32, c: u32, d: u32, t: Seq<char>) -> Seq<char> {
    seq!['@', '@', ' ', '-'] + (render_u32(a) + seq![','] + render_u32(b)) + seq![' ', '+'] + (
    render_u32(c) + seq![','] + render_u32(d)) + seq![' ', '@', '@'] + t
}

/// The header text assembled from two start numbers, with both counts
/// omitted, followed by arbitrary context text.
pub open spec fn header_without_counts(a: u32, c: u32, t: Seq<char>) -> Seq<char> {
    seq!['@', '@', ' ', '-'] + render_u32(a) + seq![' ', '+'] + render_u32(c) + seq![' ', '@', '@']
        + t
}

/// For any numbers `a,b,c,d` and any trailing context text, the header
/// `@@ -a,b +c,d @@` parses to exactly `(a, b, c, d)`.
pub proof fn lemma_hunk_header_round_trip(a: u32, b: u32, c: u32, d: u32, t: Seq<char>)
    ensures
        spec_parse_hunk_header(header_with_counts(a, b, c, d, t)) == Some((a, b, c, d)),
{
    lemma_parse_digits(a);
    lemma_parse_digits(b);
    lemma_parse_digits(c);
    lemma_parse_digits(d);
    let a_tok = render_u32(a) + seq![','] + render_u32(b);
    let b_tok = render_u32(c) + seq![','] + render_u32(d);
    lemma_range_token_chars(render_u32(a));
    lemma_range_token_chars(render_u32(b));
    lemma_range_token_chars(render_u32(c));
    lemma_range_token_chars(render_u32(d));
    let la = render_u32(a).len() as int;
    assert forall|i: int| 0 <= i < a_tok.len() implies #[trigger] a_tok[i] != ' ' && a_tok[i]
        != '@' by {
        if i < la {
            assert(a_tok[i] == render_u32(a)[i]);
        } else if i > la {
            assert(a_tok[i] == render_u32(b)[i - la - 1]);
        }
    }
    let lc = render_u32(c).len() as int;
    assert forall|i: int| 0 <= i < b_tok.len() implies #[trigger] b_tok[i] != ' ' && b_tok[i]
        != '@' by {
        if i < lc {
            assert(b_tok[i] == render_u32(c)[i]);
        } else if i > lc {
            assert(b_tok[i] == render_u32(d)[i - lc - 1]);
        }
    }
    assert(a_tok[0] == render_u32(a)[0]);
    assert(b_tok[0] == render_u32(c)[0]);
    lemma_header_parse(a_tok, b_tok, t);
    lemma_parse_range_pair(a, b);
    lemma_parse_range_pair(c, d);
}

/// For any numbers `a,c` and any trailing context text, the header
/// `@@ -a +c @@` parses to `(a, 1, c, 1)`: an omitted count means one line.
pub proof fn lemma_hunk_header_default_counts(a: u32, c: u32, t: Seq<char>)
    ensures
        spec_parse_hunk_header(header_without_counts(a, c, t)) == Some((a, 1u32, c, 1u32)),
{
    lemma_parse_digits(a);
    lemma_parse_digits(c);
    lemma_range_token_chars(render_u32(a));
    lemma_range_token_chars(render_u32(c));
    lemma_header_parse(render_u32(a), render_u32(c), t);
    lemma_parse_range_single(a);
    lemma_parse_range_single(c);
}

/// A count may also be omitted on one side alone: that side's count is one
/// and the other side keeps its written count.
pub proof fn lemma_hunk_header_one_count_omitted(a: u32, c: u32, d: u32, t: Seq<char>)
    ensures
        spec_parse_hunk_header(
            seq!['@', '@', ' ', '-'] + render_u32(a) + seq![' ', '+'] + (render_u32(c) + seq![',']
                + render_u32(d)) + seq![' ', '@', '@'] + t,
        ) == Some((a, 1u32, c, d)),
        spec_parse_hunk_header(
            seq!['@', '@', ' ', '-'] + (render_u32(a) + seq![','] + render_u32(d)) + seq![' ', '+']
                + render_u32(c) + seq![' ', '@', '@'] + t,
        ) == Some((a, d, c, 1u32)),
{
    lemma_parse_digits(a);
    lemma_parse_digits(c);
    lemma_parse_digits(d);
    lemma_range_token_chars(render_u32(a));
    lemma_range_token_chars(render_u32(c));
    lemma_range_token_chars(render_u32(d));
    let pair_cd = render_u32(c) + seq![','] + render_u32(d);
    let lc = render_u32(c).len() as int;
    assert forall|i: int| 0 <= i < pair_cd.len() implies #[trigger] pair_cd[i] != ' ' && pair_cd[i]
        != '@' by {
        if i < lc {
            assert(pair_cd[i] == render_u32(c)[i]);
        } else if i > lc {
            assert(pair_cd[i] == render_u32(d)[i - lc - 1]);
        }
    }
    assert(pair_cd[0] == render_u32(c)[0]);
    lemma_header_parse(render_u32(a), pair_cd, t);
    lemma_parse_range_single(a);
    lemma_parse_range_pair(c, d);
    let pair_ad = render_u32(a) + seq![','] + render_u32(d);
    let la = render_u32(a).len() as int;
    assert forall|i: int| 0 <= i < pair_ad.len() implies #[trigger] pair_ad[i] != ' ' && pair_ad[i]
        != '@' by {
        if i < la {
            assert(pair_ad[i] == render_u32(a)[i]);
        } else if i > la {
            assert(pair_ad[i] == render_u32(d)[i - la - 1]);
        }
    }
    assert(pair_ad[0] == render_u32(a)[0]);
    lemma_header_parse(pair_ad, render_u32(c), t);
    lemma_parse_range_pair(a, d);
    lemma_parse_range_single(c);
}

} // verus!
