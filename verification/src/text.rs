//! Character-sequence primitives: conversion between `str` and `Vec<char>`,
//! line splitting as `str::lines` does it, whitespace trimming, prefix tests
//! and substring search.

use vstd::prelude::*;

verus! {

// ---------------------------------------------------------------------------
// Specifications
// ---------------------------------------------------------------------------

/// Unicode `White_Space`, the property that `char::is_whitespace` tests.
pub open spec fn is_ws(c: char) -> bool {
    ||| ('\u{9}' <= c && c <= '\u{d}')
    ||| c == ' '
    ||| c == '\u{85}'
    ||| c == '\u{a0}'
    ||| c == '\u{1680}'
    ||| ('\u{2000}' <= c && c <= '\u{200a}')
    ||| c == '\u{2028}'
    ||| c == '\u{2029}'
    ||| c == '\u{202f}'
    ||| c == '\u{205f}'
    ||| c == '\u{3000}'
}

/// Index of the first non-whitespace character at or after `i` (or `s.len()`).
pub open spec fn skip_ws(s: Seq<char>, i: int) -> int
    decreases s.len() - i,
{
    if i < 0 || i >= s.len() {
        s.len() as int
    } else if is_ws(s[i]) {
        skip_ws(s, i + 1)
    } else {
        i
    }
}

/// End of `s.subrange(0, j)` once its trailing whitespace is dropped.
pub open spec fn keep_before_ws(s: Seq<char>, j: int) -> int
    decreases j,
{
    if j <= 0 || j > s.len() {
        0
    } else if is_ws(s[j - 1]) {
        keep_before_ws(s, j - 1)
    } else {
        j
    }
}

/// `str::trim_start`.
pub open spec fn trim_start(s: Seq<char>) -> Seq<char> {
    s.subrange(skip_ws(s, 0), s.len() as int)
}

/// `str::trim_end`.
pub open spec fn trim_end(s: Seq<char>) -> Seq<char> {
    s.subrange(0, keep_before_ws(s, s.len() as int))
}

/// `str::trim`.
pub open spec fn trim(s: Seq<char>) -> Seq<char> {
    trim_end(trim_start(s))
}

/// `s` begins with `p`.
pub open spec fn starts_with(s: Seq<char>, p: Seq<char>) -> bool {
    p.len() <= s.len() && s.subrange(0, p.len() as int) == p
}

/// `s` ends with `p`.
pub open spec fn ends_with(s: Seq<char>, p: Seq<char>) -> bool {
    p.len() <= s.len() && s.subrange(s.len() - p.len(), s.len() as int) == p
}

/// `p` occurs in `s` at index `i`.
pub open spec fn occurs_at(s: Seq<char>, p: Seq<char>, i: int) -> bool {
    0 <= i && i + p.len() <= s.len() && s.subrange(i, i + p.len()) == p
}

/// The first occurrence of `p` in `s` at or after index `i`.
pub open spec fn find_from(s: Seq<char>, p: Seq<char>, i: int) -> Option<int>
    decreases s.len() + 1 - i,
{
    if i < 0 || i + p.len() > s.len() {
        None
    } else if s.subrange(i, i + p.len()) == p {
        Some(i)
    } else {
        find_from(s, p, i + 1)
    }
}

/// `str::find`: the index of the first occurrence of `p` in `s`.
pub open spec fn find(s: Seq<char>, p: Seq<char>) -> Option<int> {
    find_from(s, p, 0)
}

/// `str::trim_start_matches` with a string pattern: drop `p` from the front
/// of `s` as long as it is there.
pub open spec fn strip_all_prefixes(s: Seq<char>, p: Seq<char>) -> Seq<char>
    decreases s.len(),
{
    if p.len() > 0 && starts_with(s, p) {
        strip_all_prefixes(s.subrange(p.len() as int, s.len() as int), p)
    } else {
        s
    }
}

/// `str::trim_end_matches` with a string pattern: drop `p` from the back of
/// `s` as long as it is there.
pub open spec fn strip_all_suffixes(s: Seq<char>, p: Seq<char>) -> Seq<char>
    decreases s.len(),
{
    if p.len() > 0 && p.len() <= s.len() && s.subrange(s.len() - p.len(), s.len() as int) == p {
        strip_all_suffixes(s.subrange(0, s.len() - p.len()), p)
    } else {
        s
    }
}

/// `s.chars().take(n)`.
pub open spec fn take_chars(s: Seq<char>, n: nat) -> Seq<char> {
    if s.len() <= n {
        s
    } else {
        s.subrange(0, n as int)
    }
}

/// A line as `str::lines` yields it: a `'\r'` directly before the `'\n'`
/// that ends it is dropped.
pub open spec fn strip_cr(l: Seq<char>) -> Seq<char> {
    if l.len() > 0 && l.last() == '\r' {
        l.drop_last()
    } else {
        l
    }
}

/// The lines ended so far and the line under way, after reading `s`.
pub open spec fn split_state(s: Seq<char>) -> (Seq<Seq<char>>, Seq<char>)
    decreases s.len(),
{
    if s.len() == 0 {
        (Seq::empty(), Seq::empty())
    } else {
        let (done, cur) = split_state(s.drop_last());
        if s.last() == '\n' {
            (done.push(strip_cr(cur)), Seq::empty())
        } else {
            (done, cur.push(s.last()))
        }
    }
}

/// `str::lines`: the text split at each `'\n'` (a `'\r'` before it is
/// dropped too); an empty piece after the last `'\n'` is no line.
pub open spec fn lines(s: Seq<char>) -> Seq<Seq<char>> {
    let (done, cur) = split_state(s);
    if cur.len() == 0 {
        done
    } else {
        done.push(cur)
    }
}

/// Concatenation of pieces, in order.
pub open spec fn concat(pieces: Seq<Seq<char>>) -> Seq<char>
    decreases pieces.len(),
{
    if pieces.len() == 0 {
        Seq::empty()
    } else {
        concat(pieces.drop_last()) + pieces.last()
    }
}

/// A search that succeeds lands on an occurrence, at or after where it
/// started.
pub proof fn lemma_find_from_occurs(s: Seq<char>, p: Seq<char>, i: int)
    ensures
        find_from(s, p, i) matches Some(k) ==> i <= k && occurs_at(s, p, k),
    decreases s.len() + 1 - i,
{
    if i < 0 || i + p.len() > s.len() {
    } else if s.subrange(i, i + p.len()) == p {
    } else {
        lemma_find_from_occurs(s, p, i + 1);
    }
}

/// A search that fails passes over no occurrence.
pub proof fn lemma_find_from_none(s: Seq<char>, p: Seq<char>, i: int, j: int)
    requires
        0 <= i <= j,
        find_from(s, p, i) is None,
    ensures
        !occurs_at(s, p, j),
    decreases j - i,
{
    if i < j {
        if i + p.len() <= s.len() {
            lemma_find_from_none(s, p, i + 1, j);
        } else {
            assert(j + p.len() > s.len());
        }
    }
}

/// A text in which `p` does not occur has no part in which it occurs.
pub proof fn lemma_find_none_subrange(s: Seq<char>, p: Seq<char>, a: int, b: int)
    requires
        0 <= a <= b <= s.len(),
        find(s, p) is None,
    ensures
        find(s.subrange(a, b), p) is None,
{
    let u = s.subrange(a, b);
    lemma_find_from_occurs(u, p, 0);
    if let Some(k) = find(u, p) {
        assert(s.subrange(a + k, a + k + p.len()) =~= u.subrange(k, k + p.len()));
        lemma_find_from_none(s, p, 0, a + k);
    }
}

/// `skip_ws` stays within the text.
pub proof fn lemma_skip_ws_bounds(s: Seq<char>, i: int)
    requires
        0 <= i <= s.len(),
    ensures
        i <= skip_ws(s, i) <= s.len(),
    decreases s.len() - i,
{
    if i < s.len() && is_ws(s[i]) {
        lemma_skip_ws_bounds(s, i + 1);
    }
}

/// `keep_before_ws` stays within the text.
pub proof fn lemma_keep_before_ws_bounds(s: Seq<char>, j: int)
    requires
        0 <= j <= s.len(),
    ensures
        0 <= keep_before_ws(s, j) <= j,
    decreases j,
{
    if j > 0 && is_ws(s[j - 1]) {
        lemma_keep_before_ws_bounds(s, j - 1);
    }
}

/// A pattern absent from a line is absent from the line trimmed.
pub proof fn lemma_find_none_trim(s: Seq<char>, p: Seq<char>)
    requires
        find(s, p) is None,
    ensures
        find(trim(s), p) is None,
{
    lemma_skip_ws_bounds(s, 0);
    let t = trim_start(s);
    lemma_find_none_subrange(s, p, skip_ws(s, 0), s.len() as int);
    lemma_keep_before_ws_bounds(t, t.len() as int);
    lemma_find_none_subrange(t, p, 0, keep_before_ws(t, t.len() as int));
}

/// A line of `str::lines` holds no newline.
pub proof fn lemma_split_state_no_newline(s: Seq<char>)
    ensures
        forall|i: int, k: int|
            0 <= i < split_state(s).0.len() && 0 <= k < split_state(s).0[i].len()
                ==> #[trigger] split_state(s).0[i][k] != '\n',
        forall|k: int| 0 <= k < split_state(s).1.len() ==> #[trigger] split_state(s).1[k] != '\n',
    decreases s.len(),
{
    if s.len() > 0 {
        let t = s.drop_last();
        lemma_split_state_no_newline(t);
        let (done, cur) = split_state(t);
        if s.last() == '\n' {
            let d = done.push(strip_cr(cur));
            assert(split_state(s).0 == d);
            assert forall|i: int, k: int| 0 <= i < d.len() && 0 <= k < d[i].len() implies #[trigger] d[i][k]
                != '\n' by {
                if i < done.len() {
                    assert(done[i][k] != '\n');
                } else {
                    assert(strip_cr(cur)[k] == cur[k]);
                    assert(cur[k] != '\n');
                }
            }
        } else {
            let c = cur.push(s.last());
            assert(split_state(s).1 == c);
            assert forall|k: int| 0 <= k < c.len() implies #[trigger] c[k] != '\n' by {
                if k < cur.len() {
                    assert(cur[k] != '\n');
                }
            }
        }
    }
}

/// Number of newlines in `s`.
pub open spec fn newline_count(s: Seq<char>) -> nat
    decreases s.len(),
{
    if s.len() == 0 {
        0
    } else {
        newline_count(s.drop_last()) + if s.last() == '\n' {
            1nat
        } else {
            0nat
        }
    }
}

/// `s` holds no newline.
pub open spec fn no_newline(s: Seq<char>) -> bool {
    forall|k: int| 0 <= k < s.len() ==> #[trigger] s[k] != '\n'
}

/// Newlines of a concatenation add up.
pub proof fn lemma_newline_count_add(a: Seq<char>, b: Seq<char>)
    ensures
        newline_count(a + b) == newline_count(a) + newline_count(b),
    decreases b.len(),
{
    if b.len() == 0 {
        assert(a + b =~= a);
    } else {
        lemma_newline_count_add(a, b.drop_last());
        assert((a + b).drop_last() =~= a + b.drop_last());
    }
}

/// A text without newline counts none.
pub proof fn lemma_newline_count_none(s: Seq<char>)
    requires
        no_newline(s),
    ensures
        newline_count(s) == 0,
    decreases s.len(),
{
    if s.len() > 0 {
        assert(s.last() == s[s.len() - 1]);
        assert forall|k: int| 0 <= k < s.drop_last().len() implies #[trigger] s.drop_last()[k]
            != '\n' by {
            assert(s.drop_last()[k] == s[k]);
        }
        lemma_newline_count_none(s.drop_last());
    }
}

/// Pieces of one newline each make as many newlines as pieces.
pub proof fn lemma_newline_count_concat(ps: Seq<Seq<char>>)
    requires
        forall|i: int| 0 <= i < ps.len() ==> #[trigger] newline_count(ps[i]) == 1,
    ensures
        newline_count(concat(ps)) == ps.len(),
    decreases ps.len(),
{
    if ps.len() > 0 {
        let front = ps.drop_last();
        assert forall|i: int| 0 <= i < front.len() implies #[trigger] newline_count(front[i]) == 1 by {
            assert(front[i] == ps[i]);
        }
        lemma_newline_count_concat(front);
        lemma_newline_count_add(concat(front), ps.last());
        assert(newline_count(ps[ps.len() - 1]) == 1);
    }
}

/// No line of `str::lines` holds a newline.
pub proof fn lemma_lines_no_newline(s: Seq<char>)
    ensures
        forall|i: int| 0 <= i < lines(s).len() ==> no_newline(#[trigger] lines(s)[i]),
{
    lemma_split_state_no_newline(s);
    let (done, cur) = split_state(s);
    assert forall|i: int| 0 <= i < lines(s).len() implies no_newline(#[trigger] lines(s)[i]) by {
        if i < done.len() {
            assert(lines(s)[i] == done[i]);
            assert forall|k: int| 0 <= k < done[i].len() implies #[trigger] done[i][k] != '\n' by {
                assert(split_state(s).0[i][k] != '\n');
            }
        } else {
            assert(lines(s)[i] == cur);
        }
    }
}

/// The filtered text, or the input itself when the filter kept nothing.
pub open spec fn or_input(out: Seq<char>, input: Seq<char>) -> Seq<char> {
    if out.len() == 0 {
        input
    } else {
        out
    }
}

/// Concatenating one more piece.
pub proof fn lemma_concat_take_step(ps: Seq<Seq<char>>, i: int)
    requires
        0 <= i < ps.len(),
    ensures
        concat(ps.take(i + 1)) == concat(ps.take(i)) + ps[i],
{
    assert(ps.take(i + 1).drop_last() =~= ps.take(i));
}

/// Concatenation is empty exactly when every piece is.
pub proof fn lemma_concat_empty(ps: Seq<Seq<char>>)
    ensures
        concat(ps).len() == 0 <==> forall|i: int| 0 <= i < ps.len() ==> #[trigger] ps[i].len() == 0,
    decreases ps.len(),
{
    if ps.len() > 0 {
        lemma_concat_empty(ps.drop_last());
        if concat(ps).len() == 0 {
            assert forall|i: int| 0 <= i < ps.len() implies #[trigger] ps[i].len() == 0 by {
                if i < ps.len() - 1 {
                    assert(ps.drop_last()[i] == ps[i]);
                }
            }
        } else {
            if forall|i: int| 0 <= i < ps.len() ==> #[trigger] ps[i].len() == 0 {
                assert forall|i: int| 0 <= i < ps.drop_last().len() implies #[trigger] ps.drop_last()[i].len() == 0 by {
                    assert(ps[i].len() == 0);
                }
                assert(ps[ps.len() - 1].len() == 0);
            }
        }
    }
}

/// Concatenation of two runs of pieces is the concatenation of each.
pub proof fn lemma_concat_append(x: Seq<Seq<char>>, y: Seq<Seq<char>>)
    ensures
        concat(x + y) == concat(x) + concat(y),
    decreases y.len(),
{
    if y.len() == 0 {
        assert(x + y =~= x);
        assert(concat(x) + Seq::<char>::empty() =~= concat(x));
    } else {
        assert((x + y).drop_last() =~= x + y.drop_last());
        lemma_concat_append(x, y.drop_last());
        assert(concat(x) + concat(y.drop_last()) + y.last() =~= concat(x) + (concat(
            y.drop_last(),
        ) + y.last()));
    }
}

/// Reading `b` after a text `a` whose last line is ended starts from a clean
/// state: the lines of `b` are added after those of `a`.
proof fn lemma_split_state_append(a: Seq<char>, b: Seq<char>)
    requires
        split_state(a).1.len() == 0,
    ensures
        split_state(a + b).0 == split_state(a).0 + split_state(b).0,
        split_state(a + b).1 == split_state(b).1,
    decreases b.len(),
{
    if b.len() == 0 {
        assert(a + b =~= a);
        assert(split_state(a).0 + Seq::<Seq<char>>::empty() =~= split_state(a).0);
    } else {
        assert((a + b).drop_last() =~= a + b.drop_last());
        assert((a + b).last() == b.last());
        lemma_split_state_append(a, b.drop_last());
        let (da, ca) = split_state(a);
        let (db, cb) = split_state(b.drop_last());
        assert((da + db).push(strip_cr(cb)) =~= da + db.push(strip_cr(cb)));
    }
}

/// The lines of `a + b`, where `a` is empty or ends with a newline, are the
/// lines of `a` followed by the lines of `b`.
pub proof fn lemma_lines_append(a: Seq<char>, b: Seq<char>)
    requires
        a.len() == 0 || a.last() == '\n',
    ensures
        lines(a + b) == lines(a) + lines(b),
{
    if a.len() > 0 {
        assert(a.drop_last().push(a.last()) =~= a);
    }
    lemma_split_state_append(a, b);
    let (db, cb) = split_state(b);
    let da = split_state(a).0;
    assert((da + db).push(cb) =~= da + db.push(cb));
}

/// Reading a text without newline leaves its characters as the line under
/// way.
proof fn lemma_split_state_plain(s: Seq<char>)
    requires
        no_newline(s),
    ensures
        split_state(s).0.len() == 0,
        split_state(s).1 == s,
    decreases s.len(),
{
    if s.len() > 0 {
        assert(s.drop_last().push(s.last()) =~= s);
        lemma_split_state_plain(s.drop_last());
    }
}

/// `"\r\n"` when `crlf`, else `"\n"`.
pub open spec fn line_ending(crlf: bool) -> Seq<char> {
    if crlf {
        seq!['\r', '\n']
    } else {
        seq!['\n']
    }
}

/// Lines written one after the other, each ended by `"\r\n"` or `"\n"` as
/// `crlf` says.
pub open spec fn joined_lines(ls: Seq<Seq<char>>, crlf: Seq<bool>) -> Seq<char> {
    concat(Seq::new(ls.len(), |i: int| ls[i] + line_ending(crlf[i])))
}

/// One line and its ending give that line back.
proof fn lemma_lines_one(l: Seq<char>, crlf: bool)
    requires
        no_newline(l),
        !crlf ==> !(l.len() > 0 && l.last() == '\r'),
    ensures
        lines(l + line_ending(crlf)) == seq![l],
{
    let t = l + line_ending(crlf);
    if crlf {
        let lr = l.push('\r');
        lemma_split_state_plain(lr);
        assert(t.drop_last() =~= lr);
        assert(lr.drop_last() =~= l);
    } else {
        lemma_split_state_plain(l);
        assert(t.drop_last() =~= l);
    }
}

/// `lines` gives back each line of a text written line by line, whichever
/// of `"\n"` and `"\r\n"` ends each one (a line ended by a bare `"\n"` does
/// not itself end with `'\r'`).
pub proof fn law_lines_of_joined(ls: Seq<Seq<char>>, crlf: Seq<bool>)
    requires
        crlf.len() == ls.len(),
        forall|i: int| 0 <= i < ls.len() ==> no_newline(#[trigger] ls[i]),
        forall|i: int|
            0 <= i < ls.len() && !crlf[i] ==> !(#[trigger] ls[i].len() > 0 && ls[i].last()
                == '\r'),
    ensures
        lines(joined_lines(ls, crlf)) == ls,
    decreases ls.len(),
{
    let n = ls.len();
    if n == 0 {
        assert(joined_lines(ls, crlf) =~= Seq::<char>::empty());
        assert(lines(Seq::<char>::empty()) =~= ls);
    } else {
        let ps = Seq::new(n, |i: int| ls[i] + line_ending(crlf[i]));
        let ls0 = ls.drop_last();
        let c0 = crlf.drop_last();
        assert(ps.drop_last() =~= Seq::new(ls0.len(), |i: int| ls0[i] + line_ending(c0[i])));
        assert forall|i: int| 0 <= i < ls0.len() implies no_newline(#[trigger] ls0[i]) by {
            assert(ls0[i] == ls[i]);
        }
        assert forall|i: int|
            0 <= i < ls0.len() && !c0[i] implies !(#[trigger] ls0[i].len() > 0 && ls0[i].last()
            == '\r') by {
            assert(ls0[i] == ls[i]);
        }
        law_lines_of_joined(ls0, c0);
        let front = joined_lines(ls0, c0);
        let last = ls[n - 1] + line_ending(crlf[n - 1]);
        assert(joined_lines(ls, crlf) == front + last);
        if ls0.len() > 0 {
            let p0 = ps.drop_last();
            assert(front == concat(p0.drop_last()) + p0.last());
            assert(front.last() == p0.last().last());
        }
        lemma_lines_append(front, last);
        lemma_lines_one(ls[n - 1], crlf[n - 1]);
        assert(ls0 + seq![ls[n - 1]] =~= ls);
    }
}

/// A text that is not empty has at least one line.
pub proof fn lemma_lines_nonempty(s: Seq<char>)
    requires
        s.len() > 0,
    ensures
        lines(s).len() > 0,
{
    lemma_split_state_nonempty(s);
}

/// After reading a character, a line is either ended or under way.
proof fn lemma_split_state_nonempty(s: Seq<char>)
    requires
        s.len() > 0,
    ensures
        split_state(s).0.len() > 0 || split_state(s).1.len() > 0,
    decreases s.len(),
{
    if s.drop_last().len() > 0 {
        lemma_split_state_nonempty(s.drop_last());
    }
}

// ---------------------------------------------------------------------------
// Conversions
// ---------------------------------------------------------------------------

/// The characters of `s`, in order.
pub fn chars_of(s: &str) -> (v: Vec<char>)
    ensures
        v@ == s@,
{
    let mut v: Vec<char> = Vec::new();
    for c in it: s.chars()
        invariant
            v@ == it.seq().take(it.index() as int),
            it.seq() == s@,
    {
        v.push(c);
    }
    v
}

/// A `String` made of the characters of `v`, in order
/// (`String`'s `FromIterator<&char>`).
#[verifier::external_body]
pub(crate) fn string_of(v: &[char]) -> (s: String)
    ensures
        s@ == v@,
{
    String::from_iter(v)
}

// ---------------------------------------------------------------------------
// Executable primitives
// ---------------------------------------------------------------------------

/// `char::is_whitespace`.
pub fn is_whitespace(c: char) -> (b: bool)
    ensures
        b == is_ws(c),
{
    ('\u{9}' <= c && c <= '\u{d}') || c == ' ' || c == '\u{85}' || c == '\u{a0}'
        || c == '\u{1680}' || ('\u{2000}' <= c && c <= '\u{200a}') || c == '\u{2028}'
        || c == '\u{2029}' || c == '\u{202f}' || c == '\u{205f}' || c == '\u{3000}'
}

/// Append all of `s` to `out`.
pub fn push_all(out: &mut Vec<char>, s: &[char])
    ensures
        final(out)@ == old(out)@ + s@,
{
    let n = s.len();
    let mut i: usize = 0;
    while i < n
        invariant
            n == s@.len(),
            i <= n,
            out@ == old(out)@ + s@.subrange(0, i as int),
        decreases n - i,
    {
        out.push(s[i]);
        i = i + 1;
        assert(s@.subrange(0, i as int) == s@.subrange(0, i - 1).push(s@[i - 1]));
    }
    assert(s@.subrange(0, n as int) == s@);
}

/// The characters of `s` from index `a` up to `b`.
pub fn copy_range(s: &[char], a: usize, b: usize) -> (v: Vec<char>)
    requires
        a <= b <= s@.len(),
    ensures
        v@ == s@.subrange(a as int, b as int),
{
    let mut v: Vec<char> = Vec::new();
    let mut i: usize = a;
    while i < b
        invariant
            a <= i <= b <= s@.len(),
            v@ == s@.subrange(a as int, i as int),
        decreases b - i,
    {
        v.push(s[i]);
        i = i + 1;
        assert(s@.subrange(a as int, i as int) == s@.subrange(a as int, i - 1).push(s@[i - 1]));
    }
    v
}

/// Index of the first non-whitespace character of `s` at or after `i`.
pub fn skip_whitespace(s: &[char], i: usize) -> (k: usize)
    requires
        i <= s@.len(),
    ensures
        k == skip_ws(s@, i as int),
        i <= k <= s@.len(),
{
    let mut k = i;
    while k < s.len() && is_whitespace(s[k])
        invariant
            i <= k <= s@.len(),
            skip_ws(s@, i as int) == skip_ws(s@, k as int),
        decreases s@.len() - k,
    {
        k = k + 1;
    }
    k
}

/// End of `s.subrange(0, j)` once its trailing whitespace is dropped.
pub fn keep_before_whitespace(s: &[char], j: usize) -> (k: usize)
    requires
        j <= s@.len(),
    ensures
        k == keep_before_ws(s@, j as int),
        k <= j,
{
    let mut k = j;
    while k > 0 && is_whitespace(s[k - 1])
        invariant
            k <= j <= s@.len(),
            keep_before_ws(s@, j as int) == keep_before_ws(s@, k as int),
        decreases k,
    {
        k = k - 1;
    }
    k
}

/// `str::trim_start`.
pub fn trim_start_chars(s: &[char]) -> (v: Vec<char>)
    ensures
        v@ == trim_start(s@),
{
    let a = skip_whitespace(s, 0);
    copy_range(s, a, s.len())
}

/// `str::trim_end`.
pub fn trim_end_chars(s: &[char]) -> (v: Vec<char>)
    ensures
        v@ == trim_end(s@),
{
    let b = keep_before_whitespace(s, s.len());
    copy_range(s, 0, b)
}

/// `str::trim`.
pub fn trim_chars(s: &[char]) -> (v: Vec<char>)
    ensures
        v@ == trim(s@),
{
    let t = trim_start_chars(s);
    trim_end_chars(t.as_slice())
}

/// `p` occurs in `s` at index `i`.
pub fn matches_at(s: &[char], p: &[char], i: usize) -> (b: bool)
    ensures
        b == occurs_at(s@, p@, i as int),
{
    if i > s.len() || p.len() > s.len() - i {
        return false;
    }
    let mut k: usize = 0;
    while k < p.len()
        invariant
            i + p@.len() <= s@.len(),
            s@.len() == s.len(),
            p@.len() == p.len(),
            k <= p@.len(),
            s@.subrange(i as int, i + k) == p@.subrange(0, k as int),
        decreases p@.len() - k,
    {
        if s[i + k] != p[k] {
            assert(s@.subrange(i as int, i + p@.len())[k as int] != p@[k as int]);
            return false;
        }
        k = k + 1;
        assert(s@.subrange(i as int, i + k) == s@.subrange(i as int, i + k - 1).push(s@[i + k - 1]));
        assert(p@.subrange(0, k as int) == p@.subrange(0, k - 1).push(p@[k - 1]));
    }
    assert(p@.subrange(0, p@.len() as int) == p@);
    true
}

/// `str::starts_with`.
pub fn starts_with_chars(s: &[char], p: &[char]) -> (b: bool)
    ensures
        b == starts_with(s@, p@),
{
    matches_at(s, p, 0)
}

/// `str::find`: the index of the first occurrence of `p` in `s` at or after
/// `from`.
pub fn find_chars_from(s: &[char], p: &[char], from: usize) -> (r: Option<usize>)
    ensures
        match r {
            Some(k) => find_from(s@, p@, from as int) == Some(k as int),
            None => find_from(s@, p@, from as int) is None,
        },
        r matches Some(k) ==> from <= k && occurs_at(s@, p@, k as int),
{
    if from > s.len() {
        return None;
    }
    let mut i = from;
    while p.len() <= s.len() - i
        invariant
            from <= i <= s@.len(),
            s@.len() == s.len(),
            find_from(s@, p@, from as int) == find_from(s@, p@, i as int),
        decreases s@.len() - i,
    {
        if matches_at(s, p, i) {
            return Some(i);
        }
        if i == s.len() {
            assert(find_from(s@, p@, i + 1) is None);
            return None;
        }
        i = i + 1;
    }
    None
}

/// `str::find`: the index of the first occurrence of `p` in `s`.
pub fn find_chars(s: &[char], p: &[char]) -> (r: Option<usize>)
    ensures
        match r {
            Some(k) => find(s@, p@) == Some(k as int),
            None => find(s@, p@) is None,
        },
        r matches Some(k) ==> occurs_at(s@, p@, k as int),
{
    find_chars_from(s, p, 0)
}

/// `str::trim_start_matches` with a string pattern.
pub fn strip_all_prefixes_chars(s: &[char], p: &[char]) -> (v: Vec<char>)
    ensures
        v@ == strip_all_prefixes(s@, p@),
{
    let mut cur = copy_range(s, 0, s.len());
    assert(s@.subrange(0, s@.len() as int) =~= s@);
    if p.len() == 0 {
        return cur;
    }
    while starts_with_chars(cur.as_slice(), p)
        invariant
            p@.len() > 0,
            strip_all_prefixes(s@, p@) == strip_all_prefixes(cur@, p@),
        decreases cur@.len(),
    {
        cur = copy_range(cur.as_slice(), p.len(), cur.len());
    }
    cur
}

/// `str::trim_end_matches` with a string pattern.
pub fn strip_all_suffixes_chars(s: &[char], p: &[char]) -> (v: Vec<char>)
    ensures
        v@ == strip_all_suffixes(s@, p@),
{
    let mut cur = copy_range(s, 0, s.len());
    assert(s@.subrange(0, s@.len() as int) =~= s@);
    if p.len() == 0 {
        return cur;
    }
    while p.len() <= cur.len() && matches_at(cur.as_slice(), p, cur.len() - p.len())
        invariant
            p@.len() > 0,
            strip_all_suffixes(s@, p@) == strip_all_suffixes(cur@, p@),
        decreases cur@.len(),
    {
        cur = copy_range(cur.as_slice(), 0, cur.len() - p.len());
    }
    cur
}

/// The part of `s` before the first occurrence of `p` (all of `s` when `p`
/// does not occur): what `s.split(p).next()` yields.
pub open spec fn before_first(s: Seq<char>, p: Seq<char>) -> Seq<char> {
    match find(s, p) {
        Some(k) => s.subrange(0, k),
        None => s,
    }
}

/// `before_first` on characters.
pub fn before_first_chars(s: &[char], p: &[char]) -> (v: Vec<char>)
    ensures
        v@ == before_first(s@, p@),
{
    match find_chars(s, p) {
        Some(k) => copy_range(s, 0, k),
        None => copy_range(s, 0, s.len()),
    }
}

/// `a == b`.
pub fn equal_chars(a: &[char], b: &[char]) -> (r: bool)
    ensures
        r == (a@ == b@),
{
    if a.len() != b.len() {
        return false;
    }
    let r = matches_at(a, b, 0);
    assert(a@.subrange(0, a@.len() as int) =~= a@);
    r
}

/// `s` begins with the text `p`.
pub fn starts_with_str(s: &[char], p: &str) -> (b: bool)
    ensures
        b == starts_with(s@, p@),
{
    let pc = chars_of(p);
    starts_with_chars(s, pc.as_slice())
}

/// `s` ends with the text `p`.
pub fn ends_with_str(s: &[char], p: &str) -> (b: bool)
    ensures
        b == ends_with(s@, p@),
{
    let pc = chars_of(p);
    if pc.len() > s.len() {
        return false;
    }
    matches_at(s, pc.as_slice(), s.len() - pc.len())
}

/// `s` is the text `p`.
pub fn equals_str(s: &[char], p: &str) -> (b: bool)
    ensures
        b == (s@ == p@),
{
    let pc = chars_of(p);
    equal_chars(s, pc.as_slice())
}

/// `s.chars().take(n)`.
pub fn take_chars_exec(s: &[char], n: usize) -> (v: Vec<char>)
    ensures
        v@ == take_chars(s@, n as nat),
{
    if s.len() <= n {
        copy_range(s, 0, s.len())
    } else {
        copy_range(s, 0, n)
    }
}

/// `str::lines`.
pub fn split_lines(s: &[char]) -> (ls: Vec<Vec<char>>)
    ensures
        ls.deep_view() == lines(s@),
{
    let mut done: Vec<Vec<char>> = Vec::new();
    let mut cur: Vec<char> = Vec::new();
    let n = s.len();
    let mut i: usize = 0;
    while i < n
        invariant
            n == s@.len(),
            i <= n,
            (done.deep_view(), cur@) == split_state(s@.take(i as int)),
        decreases n - i,
    {
        let c = s[i];
        assert(s@.take(i + 1).drop_last() == s@.take(i as int));
        assert(s@.take(i + 1).last() == c);
        let ghost done0 = done.deep_view();
        let ghost cur0 = cur@;
        if c == '\n' {
            if cur.len() > 0 && cur[cur.len() - 1] == '\r' {
                cur.pop();
            }
            assert(cur@ == strip_cr(cur0));
            let line = cur;
            assert(line.deep_view() =~= line@);
            done.push(line);
            assert(done.deep_view() =~= done0.push(strip_cr(cur0)));
            cur = Vec::new();
        } else {
            cur.push(c);
            assert(done.deep_view() =~= done0);
        }
        i = i + 1;
    }
    assert(s@.take(n as int) == s@);
    let ghost done0 = done.deep_view();
    let ghost cur0 = cur@;
    if cur.len() > 0 {
        assert(cur.deep_view() =~= cur@);
        done.push(cur);
        assert(done.deep_view() =~= done0.push(cur0));
    }
    done
}

} // verus!
