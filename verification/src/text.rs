//! Character-level text utilities shared by all parsers: line splitting,
//! prefix tests, separator splitting, trimming and integer parsing, each with
//! a specification over `Seq<char>` and a verified executable counterpart.

use vstd::prelude::*;

verus! {

// ---------------------------------------------------------------------------
// Character classes
// ---------------------------------------------------------------------------

/// The Unicode white-space characters, the set that `char::is_whitespace`
/// recognises.
pub open spec fn is_space(c: char) -> bool {
    let u = c as u32;
    u == 0x9 || u == 0xA || u == 0xB || u == 0xC || u == 0xD || u == 0x20 || u == 0x85
        || u == 0xA0 || u == 0x1680 || (0x2000 <= u && u <= 0x200A) || u == 0x2028 || u == 0x2029
        || u == 0x202F || u == 0x205F || u == 0x3000
}

/// Executable test for `is_space`.
pub fn is_space_char(c: char) -> (r: bool)
    ensures
        r == is_space(c),
{
    let u = c as u32;
    u == 0x9 || u == 0xA || u == 0xB || u == 0xC || u == 0xD || u == 0x20 || u == 0x85
        || u == 0xA0 || u == 0x1680 || (0x2000 <= u && u <= 0x200A) || u == 0x2028 || u == 0x2029
        || u == 0x202F || u == 0x205F || u == 0x3000
}

/// An ASCII decimal digit.
pub open spec fn is_digit(c: char) -> bool {
    0x30 <= c as u32 && c as u32 <= 0x39
}

/// The numeric value of an ASCII decimal digit.
pub open spec fn digit_val(c: char) -> nat {
    (c as u32 - 0x30) as nat
}

// ---------------------------------------------------------------------------
// Conversion between `&str`, `Vec<char>` and `String`
// ---------------------------------------------------------------------------

/// The characters of `s`, collected into a vector.
pub fn chars_of(s: &str) -> (r: Vec<char>)
    ensures
        r@ == s@,
{
    let mut r: Vec<char> = Vec::new();
    for c in it: s.chars()
        invariant
            it.seq() == s@,
            r@ == it.seq().subrange(0, it.index() as int),
    {
        r.push(c);
        assert(r@ =~= it.seq().subrange(0, it.index() + 1));
    }
    assert(r@ =~= s@);
    r
}

/// Relies on std's `FromIterator<&char> for String`: collecting the
/// characters of `v` yields the string of exactly those characters, in order.
#[verifier::external_body]
pub fn string_from_chars(v: &Vec<char>) -> (r: String)
    ensures
        r@ == v@,
{
    v.iter().collect()
}

/// A copy of `cs[lo..hi]`.
pub fn subvec(cs: &Vec<char>, lo: usize, hi: usize) -> (r: Vec<char>)
    requires
        lo <= hi <= cs@.len(),
    ensures
        r@ == cs@.subrange(lo as int, hi as int),
{
    let mut r: Vec<char> = Vec::new();
    let mut i: usize = lo;
    while i < hi
        invariant
            lo <= i <= hi <= cs@.len(),
            r@ == cs@.subrange(lo as int, i as int),
        decreases hi - i,
    {
        r.push(cs[i]);
        assert(r@ =~= cs@.subrange(lo as int, i + 1));
        i = i + 1;
    }
    r
}

/// Are two character vectors equal?
pub fn eq_chars(a: &Vec<char>, b: &Vec<char>) -> (r: bool)
    ensures
        r == (a@ == b@),
{
    if a.len() != b.len() {
        proof {
            if a@ == b@ {
                assert(a@.len() == b@.len());
            }
        }
        return false;
    }
    let mut i: usize = 0;
    while i < a.len()
        invariant
            0 <= i <= a@.len(),
            a@.len() == b@.len(),
            forall|j: int| 0 <= j < i ==> a@[j] == b@[j],
        decreases a@.len() - i,
    {
        if a[i] != b[i] {
            return false;
        }
        i = i + 1;
    }
    assert(a@ =~= b@);
    true
}

// ---------------------------------------------------------------------------
// Prefixes
// ---------------------------------------------------------------------------

/// `p` occurs in `s` starting at position `pos`.
pub open spec fn has_prefix_at(s: Seq<char>, pos: int, p: Seq<char>) -> bool {
    &&& 0 <= pos
    &&& pos + p.len() <= s.len()
    &&& forall|i: int| 0 <= i < p.len() ==> s[pos + i] == p[i]
}

/// `s` begins with `p`.
pub open spec fn has_prefix(s: Seq<char>, p: Seq<char>) -> bool {
    has_prefix_at(s, 0, p)
}

/// Executable test: does `p` occur in `v` at position `from`?
pub fn has_prefix_from(v: &Vec<char>, from: usize, p: &Vec<char>) -> (r: bool)
    requires
        from <= v@.len(),
    ensures
        r == has_prefix_at(v@, from as int, p@),
{
    let n = p.len();
    if v.len() - from < n {
        return false;
    }
    let mut i: usize = 0;
    while i < n
        invariant
            0 <= i <= n,
            n == p@.len(),
            from + n <= v.len(),
            forall|j: int| 0 <= j < i ==> v@[from + j] == p@[j],
        decreases n - i,
    {
        if v[from + i] != p[i] {
            return false;
        }
        i = i + 1;
    }
    true
}

/// The position in `s` after the leading repetitions of `p` that start at
/// `pos`, as `str::trim_start_matches` removes them.
pub open spec fn reps_end(s: Seq<char>, p: Seq<char>, pos: int) -> int
    decreases s.len() - pos when p.len() >= 1
{
    if has_prefix_at(s, pos, p) {
        reps_end(s, p, pos + p.len())
    } else {
        pos
    }
}

/// `s` with every leading repetition of `p` removed.
pub open spec fn strip_reps(s: Seq<char>, p: Seq<char>) -> Seq<char> {
    s.subrange(reps_end(s, p, 0), s.len() as int)
}

pub proof fn lemma_reps_end(s: Seq<char>, p: Seq<char>, pos: int)
    requires
        p.len() >= 1,
        0 <= pos <= s.len(),
    ensures
        pos <= reps_end(s, p, pos) <= s.len(),
    decreases s.len() - pos,
{
    if has_prefix_at(s, pos, p) {
        lemma_reps_end(s, p, pos + p.len() as int);
    }
}

/// Executable removal of leading repetitions of `p`, from position `from` of
/// `v`; returns the position where they end.
pub fn strip_reps_from(v: &Vec<char>, from: usize, p: &Vec<char>) -> (r: usize)
    requires
        from <= v@.len(),
        p@.len() >= 1,
    ensures
        r == reps_end(v@, p@, from as int),
        from <= r <= v@.len(),
{
    let mut cur: usize = from;
    loop
        invariant
            from <= cur <= v@.len(),
            p@.len() >= 1,
            reps_end(v@, p@, from as int) == reps_end(v@, p@, cur as int),
        decreases v@.len() - cur,
    {
        if !has_prefix_from(v, cur, p) {
            return cur;
        }
        assert(cur + p@.len() <= v.len());
        cur = cur + p.len();
    }
}

// ---------------------------------------------------------------------------
// Searching
// ---------------------------------------------------------------------------

/// The position of the first occurrence of `c` in `s` at or after `pos`,
/// or `s.len()` when there is none.
pub open spec fn char_break(s: Seq<char>, pos: int, c: char) -> int
    decreases s.len() - pos,
{
    if pos < 0 || pos >= s.len() {
        s.len() as int
    } else if s[pos] == c {
        pos
    } else {
        char_break(s, pos + 1, c)
    }
}

pub proof fn lemma_char_break(s: Seq<char>, pos: int, c: char)
    requires
        0 <= pos <= s.len(),
    ensures
        pos <= char_break(s, pos, c) <= s.len(),
        char_break(s, pos, c) < s.len() ==> s[char_break(s, pos, c)] == c,
        forall|j: int| pos <= j < char_break(s, pos, c) ==> s[j] != c,
    decreases s.len() - pos,
{
    if pos < s.len() && s[pos] != c {
        lemma_char_break(s, pos + 1, c);
    }
}

pub proof fn lemma_char_break_unique(s: Seq<char>, pos: int, c: char, i: int)
    requires
        0 <= pos <= i < s.len(),
        s[i] == c,
        forall|j: int| pos <= j < i ==> s[j] != c,
    ensures
        char_break(s, pos, c) == i,
    decreases i - pos,
{
    if pos < i {
        lemma_char_break_unique(s, pos + 1, c, i);
    }
}

pub proof fn lemma_char_break_none(s: Seq<char>, pos: int, c: char)
    requires
        0 <= pos <= s.len(),
        forall|j: int| pos <= j < s.len() ==> s[j] != c,
    ensures
        char_break(s, pos, c) == s.len(),
    decreases s.len() - pos,
{
    if pos < s.len() {
        lemma_char_break_none(s, pos + 1, c);
    }
}

/// Executable search for the first occurrence of `c` in `cs` at or after
/// `pos`.
pub fn find_char(cs: &Vec<char>, pos: usize, c: char) -> (r: usize)
    requires
        pos <= cs@.len(),
    ensures
        r == char_break(cs@, pos as int, c),
        pos <= r <= cs@.len(),
        r < cs@.len() ==> cs@[r as int] == c,
{
    proof {
        lemma_char_break(cs@, pos as int, c);
    }
    let mut i: usize = pos;
    while i < cs.len()
        invariant
            pos <= i <= cs@.len(),
            forall|j: int| pos <= j < i ==> cs@[j] != c,
        decreases cs@.len() - i,
    {
        if cs[i] == c {
            proof {
                lemma_char_break_unique(cs@, pos as int, c, i as int);
            }
            return i;
        }
        i = i + 1;
    }
    proof {
        lemma_char_break_none(cs@, pos as int, c);
    }
    i
}

/// The position of the first occurrence of `sep` in `s` at or after `pos`,
/// or `s.len()` when there is none.
pub open spec fn sub_break(s: Seq<char>, pos: int, sep: Seq<char>) -> int
    decreases s.len() - pos,
{
    if pos < 0 || pos >= s.len() {
        s.len() as int
    } else if has_prefix_at(s, pos, sep) {
        pos
    } else {
        sub_break(s, pos + 1, sep)
    }
}

pub proof fn lemma_sub_break(s: Seq<char>, pos: int, sep: Seq<char>)
    requires
        0 <= pos <= s.len(),
    ensures
        pos <= sub_break(s, pos, sep) <= s.len(),
        sub_break(s, pos, sep) < s.len() ==> has_prefix_at(s, sub_break(s, pos, sep), sep),
        forall|j: int| pos <= j < sub_break(s, pos, sep) ==> !has_prefix_at(s, j, sep),
    decreases s.len() - pos,
{
    if pos < s.len() && !has_prefix_at(s, pos, sep) {
        lemma_sub_break(s, pos + 1, sep);
    }
}

pub proof fn lemma_sub_break_unique(s: Seq<char>, pos: int, sep: Seq<char>, i: int)
    requires
        0 <= pos <= i < s.len(),
        has_prefix_at(s, i, sep),
        forall|j: int| pos <= j < i ==> !has_prefix_at(s, j, sep),
    ensures
        sub_break(s, pos, sep) == i,
    decreases i - pos,
{
    if pos < i {
        lemma_sub_break_unique(s, pos + 1, sep, i);
    }
}

pub proof fn lemma_sub_break_none(s: Seq<char>, pos: int, sep: Seq<char>)
    requires
        0 <= pos <= s.len(),
        forall|j: int| pos <= j < s.len() ==> !has_prefix_at(s, j, sep),
    ensures
        sub_break(s, pos, sep) == s.len(),
    decreases s.len() - pos,
{
    if pos < s.len() {
        lemma_sub_break_none(s, pos + 1, sep);
    }
}

/// Executable search for the first occurrence of `sep` in `v` at or after
/// `pos`.
pub fn find_sub(v: &Vec<char>, pos: usize, sep: &Vec<char>) -> (r: usize)
    requires
        pos <= v@.len(),
    ensures
        r == sub_break(v@, pos as int, sep@),
        pos <= r <= v@.len(),
{
    proof {
        lemma_sub_break(v@, pos as int, sep@);
    }
    let mut i: usize = pos;
    while i < v.len()
        invariant
            pos <= i <= v@.len(),
            forall|j: int| pos <= j < i ==> !has_prefix_at(v@, j, sep@),
        decreases v@.len() - i,
    {
        if has_prefix_from(v, i, sep) {
            proof {
                lemma_sub_break_unique(v@, pos as int, sep@, i as int);
            }
            return i;
        }
        i = i + 1;
    }
    proof {
        lemma_sub_break_none(v@, pos as int, sep@);
    }
    i
}

// ---------------------------------------------------------------------------
// Line splitting
// ---------------------------------------------------------------------------

/// One trailing carriage return removed, as a line terminated by `\r\n`
/// keeps neither character.
pub open spec fn strip_cr(l: Seq<char>) -> Seq<char> {
    if l.len() > 0 && l[l.len() - 1] == '\r' {
        l.drop_last()
    } else {
        l
    }
}

/// The lines of `s[pos..]`: pieces split at `\n`, each piece terminated by a
/// newline losing one trailing `\r`, and a final newline producing no
/// further (empty) line.  This is what `str::lines` yields.
pub open spec fn spec_lines_from(s: Seq<char>, pos: int) -> Seq<Seq<char>>
    decreases s.len() - pos,
{
    if pos < 0 || pos >= s.len() {
        Seq::empty()
    } else {
        let e = char_break(s, pos, '\n');
        if e >= s.len() {
            seq![s.subrange(pos, s.len() as int)]
        } else {
            proof {
                lemma_char_break(s, pos, '\n');
            }
            seq![strip_cr(s.subrange(pos, e))] + spec_lines_from(s, e + 1)
        }
    }
}

/// The lines of `s`.
pub open spec fn spec_lines(s: Seq<char>) -> Seq<Seq<char>> {
    spec_lines_from(s, 0)
}

/// Splits `cs` into its lines.
pub fn split_lines(cs: &Vec<char>) -> (r: Vec<Vec<char>>)
    ensures
        r@.len() == spec_lines(cs@).len(),
        forall|i: int| 0 <= i < r@.len() ==> (#[trigger] r@[i])@ == spec_lines(cs@)[i],
{
    let mut r: Vec<Vec<char>> = Vec::new();
    let mut pos: usize = 0;
    while pos < cs.len()
        invariant
            0 <= pos <= cs@.len(),
            spec_lines(cs@) == r@.map_values(|l: Vec<char>| l@) + spec_lines_from(
                cs@,
                pos as int,
            ),
        decreases cs@.len() - pos,
    {
        let e = find_char(cs, pos, '\n');
        let ghost pre = r@.map_values(|l: Vec<char>| l@);
        if e >= cs.len() {
            // final line, not newline-terminated
            let line = subvec(cs, pos, e);
            r.push(line);
            proof {
                assert(r@.map_values(|l: Vec<char>| l@) =~= pre + seq![
                    cs@.subrange(pos as int, e as int),
                ]);
                assert(spec_lines_from(cs@, pos as int) =~= seq![
                    cs@.subrange(pos as int, cs@.len() as int),
                ]);
                assert(spec_lines_from(cs@, e as int) =~= Seq::<Seq<char>>::empty());
            }
            pos = e;
        } else {
            // a line terminated at cs[e] == '\n'; strip one trailing '\r'
            let stop: usize = if e > pos && cs[e - 1] == '\r' {
                e - 1
            } else {
                e
            };
            let line = subvec(cs, pos, stop);
            r.push(line);
            proof {
                assert(strip_cr(cs@.subrange(pos as int, e as int)) =~= cs@.subrange(
                    pos as int,
                    stop as int,
                ));
                assert(r@.map_values(|l: Vec<char>| l@) =~= pre + seq![
                    cs@.subrange(pos as int, stop as int),
                ]);
            }
            pos = e + 1;
        }
    }
    proof {
        assert(spec_lines_from(cs@, pos as int) =~= Seq::<Seq<char>>::empty());
        assert(spec_lines(cs@) =~= r@.map_values(|l: Vec<char>| l@));
        assert forall|i: int| 0 <= i < r@.len() implies (#[trigger] r@[i])@ == spec_lines(cs@)[i] by {
            assert(r@.map_values(|l: Vec<char>| l@)[i] == r@[i]@);
        }
    }
    r
}

// ---------------------------------------------------------------------------
// Splitting on separators
// ---------------------------------------------------------------------------

/// The pieces of `s[pos..]` split at every occurrence of the character `c`;
/// there is always at least one piece, and a trailing separator yields a
/// trailing empty piece, as `str::split` does.
pub open spec fn split_char_from(s: Seq<char>, c: char, pos: int) -> Seq<Seq<char>>
    decreases s.len() - pos,
{
    if pos < 0 || pos > s.len() {
        Seq::empty()
    } else {
        let e = char_break(s, pos, c);
        if e >= s.len() {
            seq![s.subrange(pos, s.len() as int)]
        } else {
            proof {
                lemma_char_break(s, pos, c);
            }
            seq![s.subrange(pos, e)] + split_char_from(s, c, e + 1)
        }
    }
}

/// The pieces of `s` split at every occurrence of `c`.
pub open spec fn split_char(s: Seq<char>, c: char) -> Seq<Seq<char>> {
    split_char_from(s, c, 0)
}

/// Splits `v` at every occurrence of the character `c`.
pub fn split_char_vec(v: &Vec<char>, c: char) -> (r: Vec<Vec<char>>)
    ensures
        r@.len() == split_char(v@, c).len(),
        r@.len() >= 1,
        forall|i: int| 0 <= i < r@.len() ==> (#[trigger] r@[i])@ == split_char(v@, c)[i],
{
    let mut r: Vec<Vec<char>> = Vec::new();
    let mut pos: usize = 0;
    loop
        invariant
            0 <= pos <= v@.len(),
            split_char(v@, c) == r@.map_values(|l: Vec<char>| l@) + split_char_from(
                v@,
                c,
                pos as int,
            ),
        decreases v@.len() - pos,
    {
        let e = find_char(v, pos, c);
        let piece = subvec(v, pos, e);
        let ghost pre = r@.map_values(|l: Vec<char>| l@);
        r.push(piece);
        proof {
            assert(r@.map_values(|l: Vec<char>| l@) =~= pre + seq![
                v@.subrange(pos as int, e as int),
            ]);
        }
        if e == v.len() {
            proof {
                assert(split_char_from(v@, c, pos as int) =~= seq![
                    v@.subrange(pos as int, v@.len() as int),
                ]);
                assert(split_char(v@, c) =~= r@.map_values(|l: Vec<char>| l@));
                assert forall|i: int| 0 <= i < r@.len() implies (#[trigger] r@[i])@ == split_char(
                    v@,
                    c,
                )[i] by {
                    assert(r@.map_values(|l: Vec<char>| l@)[i] == r@[i]@);
                }
            }
            return r;
        }
        pos = e + 1;
    }
}

/// The pieces of `s[pos..]` split at every occurrence of the non-empty
/// separator `sep`, occurrences taken leftmost and non-overlapping.
pub open spec fn split_sub_from(s: Seq<char>, sep: Seq<char>, pos: int) -> Seq<Seq<char>>
    decreases s.len() - pos when sep.len() >= 1
{
    if pos < 0 || pos > s.len() {
        Seq::empty()
    } else {
        let e = sub_break(s, pos, sep);
        if e >= s.len() {
            seq![s.subrange(pos, s.len() as int)]
        } else {
            proof {
                lemma_sub_break(s, pos, sep);
            }
            seq![s.subrange(pos, e)] + split_sub_from(s, sep, e + sep.len())
        }
    }
}

/// The pieces of `s` split at every occurrence of `sep`.
pub open spec fn split_sub(s: Seq<char>, sep: Seq<char>) -> Seq<Seq<char>> {
    split_sub_from(s, sep, 0)
}

/// Splits `v` at every occurrence of the separator `sep`.
pub fn split_sub_vec(v: &Vec<char>, sep: &Vec<char>) -> (r: Vec<Vec<char>>)
    requires
        sep@.len() >= 1,
    ensures
        r@.len() == split_sub(v@, sep@).len(),
        r@.len() >= 1,
        forall|i: int| 0 <= i < r@.len() ==> (#[trigger] r@[i])@ == split_sub(v@, sep@)[i],
{
    let mut r: Vec<Vec<char>> = Vec::new();
    let mut pos: usize = 0;
    loop
        invariant
            0 <= pos <= v@.len(),
            sep@.len() >= 1,
            split_sub(v@, sep@) == r@.map_values(|l: Vec<char>| l@) + split_sub_from(
                v@,
                sep@,
                pos as int,
            ),
        decreases v@.len() - pos,
    {
        let e = find_sub(v, pos, sep);
        let piece = subvec(v, pos, e);
        let ghost pre = r@.map_values(|l: Vec<char>| l@);
        r.push(piece);
        proof {
            assert(r@.map_values(|l: Vec<char>| l@) =~= pre + seq![
                v@.subrange(pos as int, e as int),
            ]);
        }
        if e == v.len() {
            proof {
                assert(split_sub_from(v@, sep@, pos as int) =~= seq![
                    v@.subrange(pos as int, v@.len() as int),
                ]);
                assert(split_sub(v@, sep@) =~= r@.map_values(|l: Vec<char>| l@));
                assert forall|i: int| 0 <= i < r@.len() implies (#[trigger] r@[i])@ == split_sub(
                    v@,
                    sep@,
                )[i] by {
                    assert(r@.map_values(|l: Vec<char>| l@)[i] == r@[i]@);
                }
            }
            return r;
        }
        proof {
            lemma_sub_break(v@, pos as int, sep@);
        }
        pos = e + sep.len();
    }
}

// ---------------------------------------------------------------------------
// How splitting composes
// ---------------------------------------------------------------------------

/// Searching a suffix finds the same break, shifted.
pub proof fn lemma_char_break_shift(s: Seq<char>, c: char, pos: int, q: int)
    requires
        0 <= pos <= q <= s.len(),
    ensures
        char_break(s, q, c) == pos + char_break(s.subrange(pos, s.len() as int), q - pos, c),
    decreases s.len() - q,
{
    let t = s.subrange(pos, s.len() as int);
    if q >= s.len() {
        assert(char_break(t, q - pos, c) == t.len());
    } else if s[q] == c {
        assert(t[q - pos] == c);
    } else {
        assert(t[q - pos] != c);
        lemma_char_break_shift(s, c, pos, q + 1);
    }
}

/// Splitting a suffix yields the pieces of the split from that position.
pub proof fn lemma_split_char_from_shift(s: Seq<char>, c: char, pos: int)
    requires
        0 <= pos <= s.len(),
    ensures
        split_char_from(s, c, pos) == split_char(s.subrange(pos, s.len() as int), c),
    decreases s.len() - pos,
{
    let t = s.subrange(pos, s.len() as int);
    lemma_char_break_shift(s, c, pos, pos);
    lemma_char_break(s, pos, c);
    let e = char_break(s, pos, c);
    let et = char_break(t, 0, c);
    assert(e == pos + et);
    if e >= s.len() {
        assert(s.subrange(pos, s.len() as int) =~= t.subrange(0, t.len() as int));
        assert(split_char_from(s, c, pos) =~= split_char(t, c));
    } else {
        assert(s.subrange(pos, e) =~= t.subrange(0, et));
        lemma_split_char_from_shift(s, c, e + 1);
        lemma_split_char_from_shift(t, c, et + 1);
        assert(s.subrange(e + 1, s.len() as int) =~= t.subrange(et + 1, t.len() as int));
        assert(split_char_from(s, c, pos) =~= split_char(t, c));
    }
}

/// A sequence without the separator splits into itself alone.
pub proof fn lemma_split_char_whole(s: Seq<char>, c: char)
    requires
        forall|i: int| 0 <= i < s.len() ==> s[i] != c,
    ensures
        split_char(s, c) == seq![s],
{
    lemma_char_break_none(s, 0, c);
    assert(s.subrange(0, s.len() as int) =~= s);
    assert(split_char(s, c) =~= seq![s]);
}

/// Splitting at a separator between a separator-free head and a tail yields
/// the head and then the tail's pieces.
pub proof fn lemma_split_char_concat(a: Seq<char>, b: Seq<char>, c: char)
    requires
        forall|i: int| 0 <= i < a.len() ==> a[i] != c,
    ensures
        split_char(a + seq![c] + b, c) == seq![a] + split_char(b, c),
{
    let s = a + seq![c] + b;
    assert(s[a.len() as int] == c);
    assert forall|j: int| 0 <= j < a.len() implies s[j] != c by {
        assert(s[j] == a[j]);
    }
    lemma_char_break_unique(s, 0, c, a.len() as int);
    let e = a.len() as int;
    assert(s.subrange(0, e) =~= a);
    lemma_split_char_from_shift(s, c, e + 1);
    assert(s.subrange(e + 1, s.len() as int) =~= b);
    assert(split_char(s, c) =~= seq![a] + split_char(b, c));
}

// ---------------------------------------------------------------------------
// Trimming
// ---------------------------------------------------------------------------

/// The position of the first non-white-space character at or after `pos`.
pub open spec fn trim_start_idx(s: Seq<char>, pos: int) -> int
    decreases s.len() - pos,
{
    if pos < 0 || pos >= s.len() {
        s.len() as int
    } else if is_space(s[pos]) {
        trim_start_idx(s, pos + 1)
    } else {
        pos
    }
}

/// The position after the last non-white-space character before `pos`.
pub open spec fn trim_end_idx(s: Seq<char>, pos: int) -> int
    decreases pos,
{
    if pos <= 0 || pos > s.len() {
        0
    } else if is_space(s[pos - 1]) {
        trim_end_idx(s, pos - 1)
    } else {
        pos
    }
}

/// `s` with white space removed from both ends, as `str::trim` does.
pub open spec fn spec_trim(s: Seq<char>) -> Seq<char> {
    let a = trim_start_idx(s, 0);
    let b = trim_end_idx(s, s.len() as int);
    if a <= b {
        s.subrange(a, b)
    } else {
        Seq::empty()
    }
}

pub proof fn lemma_trim_start_idx(s: Seq<char>, pos: int)
    requires
        0 <= pos <= s.len(),
    ensures
        pos <= trim_start_idx(s, pos) <= s.len(),
        trim_start_idx(s, pos) < s.len() ==> !is_space(s[trim_start_idx(s, pos)]),
    decreases s.len() - pos,
{
    if pos < s.len() && is_space(s[pos]) {
        lemma_trim_start_idx(s, pos + 1);
    }
}

pub proof fn lemma_trim_end_idx(s: Seq<char>, pos: int)
    requires
        0 <= pos <= s.len(),
    ensures
        0 <= trim_end_idx(s, pos) <= pos,
        trim_end_idx(s, pos) > 0 ==> !is_space(s[trim_end_idx(s, pos) - 1]),
    decreases pos,
{
    if pos > 0 && is_space(s[pos - 1]) {
        lemma_trim_end_idx(s, pos - 1);
    }
}

/// The bounds of `v` trimmed of white space: `v[r.0..r.1]` is `spec_trim(v@)`.
pub fn trim_bounds(v: &Vec<char>) -> (r: (usize, usize))
    ensures
        r.0 <= r.1 <= v@.len(),
        v@.subrange(r.0 as int, r.1 as int) == spec_trim(v@),
{
    let mut a: usize = 0;
    while a < v.len() && is_space_char(v[a])
        invariant
            0 <= a <= v@.len(),
            trim_start_idx(v@, 0) == trim_start_idx(v@, a as int),
        decreases v@.len() - a,
    {
        a = a + 1;
    }
    let mut b: usize = v.len();
    while b > a && is_space_char(v[b - 1])
        invariant
            a <= b <= v@.len(),
            trim_end_idx(v@, v@.len() as int) == trim_end_idx(v@, b as int),
            a == trim_start_idx(v@, 0),
        decreases b,
    {
        b = b - 1;
    }
    proof {
        lemma_trim_start_idx(v@, 0);
        lemma_trim_end_idx(v@, v@.len() as int);
        if b > a {
            // b is past a non-space character, so trimming from the right
            // stops exactly at b
            assert(trim_end_idx(v@, b as int) == b);
        } else {
            // everything from a on is white space; the trimmed sequence is
            // empty either way
            assert(b == a);
            lemma_trim_end_idx(v@, b as int);
            if trim_end_idx(v@, v@.len() as int) < a {
                assert(v@.subrange(a as int, a as int) =~= Seq::<char>::empty());
                assert(spec_trim(v@) =~= v@.subrange(a as int, a as int));
            }
        }
    }
    (a, b)
}

// ---------------------------------------------------------------------------
// Integer parsing
// ---------------------------------------------------------------------------

/// Every character of `s` is an ASCII decimal digit.
pub open spec fn all_digits(s: Seq<char>) -> bool {
    forall|i: int| 0 <= i < s.len() ==> is_digit(#[trigger] s[i])
}

/// The value of `s` read as a decimal numeral.
pub open spec fn digits_val(s: Seq<char>) -> nat
    decreases s.len(),
{
    if s.len() == 0 {
        0
    } else {
        digits_val(s.drop_last()) * 10 + digit_val(s.last())
    }
}

/// What `str::parse::<u32>` returns: an optional leading `+`, then at least
/// one digit, no other characters, and a value within range.
pub open spec fn spec_parse_u32(s: Seq<char>) -> Option<u32> {
    let ds = if s.len() > 0 && s[0] == '+' {
        s.subrange(1, s.len() as int)
    } else {
        s
    };
    if ds.len() > 0 && all_digits(ds) && digits_val(ds) <= u32::MAX {
        Some(digits_val(ds) as u32)
    } else {
        None
    }
}

/// What `str::parse::<i64>` returns: an optional leading `+` or `-`, then at
/// least one digit, no other characters, and a value within range.
pub open spec fn spec_parse_i64(s: Seq<char>) -> Option<i64> {
    if s.len() == 0 {
        None
    } else {
        let neg = s[0] == '-';
        let ds = if s[0] == '-' || s[0] == '+' {
            s.subrange(1, s.len() as int)
        } else {
            s
        };
        if ds.len() > 0 && all_digits(ds) {
            let v = digits_val(ds);
            if neg && v <= 0x8000_0000_0000_0000 {
                Some((-(v as int)) as i64)
            } else if !neg && v <= 0x7FFF_FFFF_FFFF_FFFF {
                Some(v as int as i64)
            } else {
                None
            }
        } else {
            None
        }
    }
}

/// A digit string's value only grows as more digits are read.
proof fn lemma_digits_val_prefix(s: Seq<char>, k: int)
    requires
        0 <= k <= s.len(),
    ensures
        digits_val(s.subrange(0, k)) <= digits_val(s),
    decreases s.len() - k,
{
    if k < s.len() {
        lemma_digits_val_prefix(s, k + 1);
        assert(s.subrange(0, k + 1).drop_last() =~= s.subrange(0, k));
        assert(s.subrange(0, k + 1).last() == s[k]);
        assert(digits_val(s.subrange(0, k)) <= digits_val(s.subrange(0, k + 1)));
    } else {
        assert(s.subrange(0, k) =~= s);
    }
}

/// Reads the digits of `v[from..]` as a decimal value, `None` on an empty or
/// non-digit or out-of-range numeral.  `bound` is the largest accepted value.
fn parse_digits_bounded(v: &Vec<char>, from: usize, bound: u64) -> (r: Option<u64>)
    requires
        from <= v@.len(),
    ensures
        ({
            let ds = v@.subrange(from as int, v@.len() as int);
            match r {
                Some(x) => ds.len() > 0 && all_digits(ds) && digits_val(ds) == x && x <= bound,
                None => ds.len() == 0 || !all_digits(ds) || digits_val(ds) > bound,
            }
        }),
{
    let ghost ds = v@.subrange(from as int, v@.len() as int);
    if from == v.len() {
        return None;
    }
    let mut acc: u64 = 0;
    let mut i: usize = from;
    while i < v.len()
        invariant
            from <= i <= v@.len(),
            from < v@.len(),
            ds == v@.subrange(from as int, v@.len() as int),
            acc == digits_val(ds.subrange(0, i - from)),
            acc <= bound,
            bound <= u64::MAX,
            all_digits(ds.subrange(0, i - from)),
        decreases v@.len() - i,
    {
        let c = v[i];
        let u = c as u32;
        if u < 0x30 || u > 0x39 {
            assert(!is_digit(ds[i - from]));
            return None;
        }
        let d = (u - 0x30) as u64;
        proof {
            assert(ds.subrange(0, i + 1 - from).drop_last() =~= ds.subrange(0, i - from));
            assert(ds.subrange(0, i + 1 - from).last() == ds[i - from]);
            assert(ds[i - from] == v@[i as int]);
        }
        if acc > bound / 10 {
            // the value through this digit already exceeds the bound, and
            // further digits only increase it
            proof {
                assert(acc * 10 + d > bound);
                assert(digits_val(ds.subrange(0, i + 1 - from)) > bound);
                lemma_digits_val_prefix(ds, i + 1 - from);
            }
            return None;
        }
        let t = acc * 10;
        if d > bound - t {
            proof {
                assert(digits_val(ds.subrange(0, i + 1 - from)) > bound);
                lemma_digits_val_prefix(ds, i + 1 - from);
            }
            return None;
        }
        acc = t + d;
        assert(all_digits(ds.subrange(0, i + 1 - from)));
        i = i + 1;
    }
    proof {
        assert(ds.subrange(0, i - from) =~= ds);
    }
    Some(acc)
}

/// What `str::parse::<u32>` returns on `v[from..]`.
pub fn parse_u32_from(v: &Vec<char>, from: usize) -> (r: Option<u32>)
    requires
        from <= v@.len(),
    ensures
        r == spec_parse_u32(v@.subrange(from as int, v@.len() as int)),
{
    let ghost s = v@.subrange(from as int, v@.len() as int);
    let start: usize = if from < v.len() && v[from] == '+' {
        from + 1
    } else {
        from
    };
    proof {
        if from < v@.len() && v@[from as int] == '+' {
            assert(s[0] == '+');
            assert(v@.subrange(start as int, v@.len() as int) =~= s.subrange(1, s.len() as int));
        } else {
            assert(v@.subrange(start as int, v@.len() as int) =~= s);
        }
    }
    match parse_digits_bounded(v, start, 0xFFFF_FFFF) {
        Some(x) => Some(x as u32),
        None => None,
    }
}

/// What `str::parse::<i64>` returns on `v[from..]`.
pub fn parse_i64_from(v: &Vec<char>, from: usize) -> (r: Option<i64>)
    requires
        from <= v@.len(),
    ensures
        r == spec_parse_i64(v@.subrange(from as int, v@.len() as int)),
{
    let ghost s = v@.subrange(from as int, v@.len() as int);
    if from == v.len() {
        return None;
    }
    let neg = v[from] == '-';
    let start: usize = if v[from] == '-' || v[from] == '+' {
        from + 1
    } else {
        from
    };
    proof {
        if v@[from as int] == '-' || v@[from as int] == '+' {
            assert(v@.subrange(start as int, v@.len() as int) =~= s.subrange(1, s.len() as int));
        } else {
            assert(v@.subrange(start as int, v@.len() as int) =~= s);
        }
    }
    let bound: u64 = if neg {
        0x8000_0000_0000_0000
    } else {
        0x7FFF_FFFF_FFFF_FFFF
    };
    match parse_digits_bounded(v, start, bound) {
        Some(x) => {
            if neg {
                if x == 0x8000_0000_0000_0000 {
                    Some(i64::MIN)
                } else {
                    Some(-(x as i64))
                }
            } else {
                Some(x as i64)
            }
        },
        None => None,
    }
}

} // verus!
