//! The line filters work line by line: the output for two texts, the first
//! ending with a newline, is the output for the first followed by the output
//! for the second. No line's output depends on the lines before it.

use vstd::prelude::*;
use crate::add::{add_pieces, filter_add_spec, ADD_LINE_PATTERN};
use crate::blame::{blame_pieces, filter_blame_spec, BLAME_LINE_PATTERN};
use crate::commit::{commit_pieces, filter_commit_spec, COMMITTED_PATTERN};
use crate::diff::{diff_matches_per_line, diff_pieces, filter_diff_spec};
use crate::log::{
    cleaned_per_line, entry_report, filter_log_spec, log_scan, log_step_trimmed, LogState,
    MSG_CLOSE_PATTERN,
};
use crate::pattern::{
    captures_per_line, matches_per_line, regex_captures, regex_compiles, regex_is_match,
};
use crate::status::{filter_status_spec, status_pieces, STATUS_LINE_PATTERN};
use crate::text::{
    concat, lemma_concat_append, lemma_concat_empty, lemma_lines_append, lines, starts_with, trim,
};
use crate::update::{
    filter_update_spec, update_pieces, UPDATED_TO_PATTERN, UPDATE_ACTION_PATTERN,
};

verus! {

/// A text that is empty or whose last line is ended by a newline.
pub open spec fn ends_a_line(a: Seq<char>) -> bool {
    a.len() == 0 || a.last() == '\n'
}

/// One piece that is not empty makes the concatenation not empty.
proof fn lemma_concat_nonempty(ps: Seq<Seq<char>>, i: int)
    requires
        0 <= i < ps.len(),
        ps[i].len() > 0,
    ensures
        concat(ps).len() > 0,
{
    lemma_concat_empty(ps);
}

/// Captures per line of two runs of lines.
proof fn lemma_captures_append(p: Seq<char>, x: Seq<Seq<char>>, y: Seq<Seq<char>>)
    ensures
        captures_per_line(p, x + y) == captures_per_line(p, x) + captures_per_line(p, y),
{
    assert(captures_per_line(p, x + y) =~= captures_per_line(p, x) + captures_per_line(p, y));
}

/// Matches per line of two runs of lines.
proof fn lemma_matches_append(p: Seq<char>, x: Seq<Seq<char>>, y: Seq<Seq<char>>)
    ensures
        matches_per_line(p, x + y) == matches_per_line(p, x) + matches_per_line(p, y),
{
    assert(matches_per_line(p, x + y) =~= matches_per_line(p, x) + matches_per_line(p, y));
}

/// `svn status` output is made line by line: for texts `a` (ending with a
/// newline) and `b` that each hold a status line, the output for `a + b` is
/// the output for `a` followed by the output for `b`.
pub proof fn law_status_line_by_line(a: Seq<char>, b: Seq<char>, i: int, j: int)
    requires
        ends_a_line(a),
        0 <= i < lines(a).len(),
        regex_captures(STATUS_LINE_PATTERN@, lines(a)[i]) is Some,
        0 <= j < lines(b).len(),
        regex_captures(STATUS_LINE_PATTERN@, lines(b)[j]) is Some,
    ensures
        filter_status_spec(a + b) == filter_status_spec(a) + filter_status_spec(b),
{
    let p = STATUS_LINE_PATTERN@;
    lemma_lines_append(a, b);
    lemma_captures_append(p, lines(a), lines(b));
    let xa = status_pieces(captures_per_line(p, lines(a)));
    let xb = status_pieces(captures_per_line(p, lines(b)));
    assert(status_pieces(captures_per_line(p, lines(a)) + captures_per_line(p, lines(b))) =~= xa
        + xb);
    lemma_concat_append(xa, xb);
    lemma_concat_nonempty(xa, i);
    lemma_concat_nonempty(xb, j);
}

/// `svn update` output is made line by line: for texts `a` (ending with a
/// newline) and `b` that each hold an action or revision line, the output
/// for `a + b` is the output for `a` followed by the output for `b`.
pub proof fn law_update_line_by_line(a: Seq<char>, b: Seq<char>, i: int, j: int)
    requires
        ends_a_line(a),
        0 <= i < lines(a).len(),
        regex_captures(UPDATE_ACTION_PATTERN@, lines(a)[i]) is Some || regex_captures(
            UPDATED_TO_PATTERN@,
            lines(a)[i],
        ) is Some,
        0 <= j < lines(b).len(),
        regex_captures(UPDATE_ACTION_PATTERN@, lines(b)[j]) is Some || regex_captures(
            UPDATED_TO_PATTERN@,
            lines(b)[j],
        ) is Some,
    ensures
        filter_update_spec(a + b) == filter_update_spec(a) + filter_update_spec(b),
{
    let pa = UPDATE_ACTION_PATTERN@;
    let pu = UPDATED_TO_PATTERN@;
    lemma_lines_append(a, b);
    lemma_captures_append(pa, lines(a), lines(b));
    lemma_captures_append(pu, lines(a), lines(b));
    let xa = update_pieces(captures_per_line(pa, lines(a)), captures_per_line(pu, lines(a)));
    let xb = update_pieces(captures_per_line(pa, lines(b)), captures_per_line(pu, lines(b)));
    assert(update_pieces(
        captures_per_line(pa, lines(a)) + captures_per_line(pa, lines(b)),
        captures_per_line(pu, lines(a)) + captures_per_line(pu, lines(b)),
    ) =~= xa + xb);
    lemma_concat_append(xa, xb);
    lemma_concat_nonempty(xa, i);
    lemma_concat_nonempty(xb, j);
}

/// `svn diff` output is made line by line: for any texts `a` (empty or
/// ending with a newline) and `b`, the output for `a + b` is the output for
/// `a` followed by the output for `b`.
pub proof fn law_diff_line_by_line(a: Seq<char>, b: Seq<char>)
    requires
        ends_a_line(a),
    ensures
        filter_diff_spec(a + b) == filter_diff_spec(a) + filter_diff_spec(b),
{
    lemma_lines_append(a, b);
    let la = lines(a);
    let lb = lines(b);
    let xa = diff_pieces(la, diff_matches_per_line(la));
    let xb = diff_pieces(lb, diff_matches_per_line(lb));
    assert(diff_pieces(la + lb, diff_matches_per_line(la + lb)) =~= xa + xb);
    lemma_concat_append(xa, xb);
}

/// `svn blame` output is made line by line: for any texts `a` (empty or
/// ending with a newline) and `b`, the output for `a + b` is the output for
/// `a` followed by the output for `b`.
pub proof fn law_blame_line_by_line(a: Seq<char>, b: Seq<char>)
    requires
        ends_a_line(a),
    ensures
        filter_blame_spec(a + b) == filter_blame_spec(a) + filter_blame_spec(b),
{
    let p = BLAME_LINE_PATTERN@;
    lemma_lines_append(a, b);
    lemma_captures_append(p, lines(a), lines(b));
    let xa = blame_pieces(lines(a), captures_per_line(p, lines(a)));
    let xb = blame_pieces(lines(b), captures_per_line(p, lines(b)));
    assert(blame_pieces(
        lines(a) + lines(b),
        captures_per_line(p, lines(a)) + captures_per_line(p, lines(b)),
    ) =~= xa + xb);
    lemma_concat_append(xa, xb);
}

/// `svn add` output is made line by line: for texts `a` (ending with a
/// newline) and `b` that each hold an add line, the output for `a + b` is
/// the output for `a` followed by the output for `b`.
pub proof fn law_add_line_by_line(a: Seq<char>, b: Seq<char>, i: int, j: int)
    requires
        ends_a_line(a),
        0 <= i < lines(a).len(),
        regex_is_match(ADD_LINE_PATTERN@, lines(a)[i]),
        0 <= j < lines(b).len(),
        regex_is_match(ADD_LINE_PATTERN@, lines(b)[j]),
    ensures
        filter_add_spec(a + b) == filter_add_spec(a) + filter_add_spec(b),
{
    let p = ADD_LINE_PATTERN@;
    lemma_lines_append(a, b);
    lemma_matches_append(p, lines(a), lines(b));
    let xa = add_pieces(lines(a), matches_per_line(p, lines(a)));
    let xb = add_pieces(lines(b), matches_per_line(p, lines(b)));
    assert(add_pieces(
        lines(a) + lines(b),
        matches_per_line(p, lines(a)) + matches_per_line(p, lines(b)),
    ) =~= xa + xb);
    lemma_concat_append(xa, xb);
    lemma_concat_nonempty(xa, i);
    lemma_concat_nonempty(xb, j);
}

/// `svn commit` output is made line by line: for texts `a` (ending with a
/// newline) and `b` that each hold a line the commit regex matches, the
/// output for `a + b` is the output for `a` followed by the output for `b`.
pub proof fn law_commit_line_by_line(a: Seq<char>, b: Seq<char>, i: int, j: int)
    requires
        ends_a_line(a),
        0 <= i < lines(a).len(),
        regex_is_match(COMMITTED_PATTERN@, lines(a)[i]),
        0 <= j < lines(b).len(),
        regex_is_match(COMMITTED_PATTERN@, lines(b)[j]),
    ensures
        filter_commit_spec(a + b) == filter_commit_spec(a) + filter_commit_spec(b),
{
    let p = COMMITTED_PATTERN@;
    lemma_lines_append(a, b);
    lemma_matches_append(p, lines(a), lines(b));
    let xa = commit_pieces(lines(a), matches_per_line(p, lines(a)));
    let xb = commit_pieces(lines(b), matches_per_line(p, lines(b)));
    assert(commit_pieces(
        lines(a) + lines(b),
        matches_per_line(p, lines(a)) + matches_per_line(p, lines(b)),
    ) =~= xa + xb);
    lemma_concat_append(xa, xb);
    lemma_concat_nonempty(xa, i);
    lemma_concat_nonempty(xb, j);
}


/// A log state with its output left out.
pub open spec fn log_state_fields(s: LogState) -> LogState {
    LogState { output: Seq::empty(), ..s }
}

/// A log step only ever appends to the output, and what it appends, like the
/// rest of the state it leaves, does not depend on the output so far.
proof fn lemma_log_step_output(s: LogState, t: Seq<char>, c: Seq<char>)
    ensures
        log_step_trimmed(s, t, c).output == s.output + log_step_trimmed(
            log_state_fields(s),
            t,
            c,
        ).output,
        log_state_fields(log_step_trimmed(s, t, c)) == log_state_fields(
            log_step_trimmed(log_state_fields(s), t, c),
        ),
{
    let w = log_state_fields(s);
    assert(s.output + Seq::<char>::empty() =~= s.output);
    assert(s.output + (Seq::<char>::empty() + entry_report(w)) =~= s.output + entry_report(s));
}

/// The scan of the first `n` lines of `x + y` is the scan of the first `n`
/// lines of `x`.
proof fn lemma_log_scan_prefix(
    x: Seq<Seq<char>>,
    cx: Seq<Seq<char>>,
    y: Seq<Seq<char>>,
    cy: Seq<Seq<char>>,
    n: int,
)
    requires
        cx.len() == x.len(),
        n <= x.len(),
    ensures
        log_scan(x + y, cx + cy, n) == log_scan(x, cx, n),
    decreases n,
{
    if n > 0 {
        lemma_log_scan_prefix(x, cx, y, cy, n - 1);
        assert((x + y)[n - 1] == x[n - 1]);
        assert((cx + cy)[n - 1] == cx[n - 1]);
    }
}

/// From a line that opens a log entry on, the scan of two texts that agree
/// from there on adds the same output and reaches the same state.
proof fn lemma_log_entry_local(
    ls1: Seq<Seq<char>>,
    c1: Seq<Seq<char>>,
    k1: int,
    ls2: Seq<Seq<char>>,
    c2: Seq<Seq<char>>,
    k2: int,
    n: int,
) -> (d: Seq<char>)
    requires
        0 <= k1,
        0 <= k2,
        1 <= n,
        k1 + n <= ls1.len(),
        k1 + n <= c1.len(),
        k2 + n <= ls2.len(),
        k2 + n <= c2.len(),
        ls1.subrange(k1, k1 + n) == ls2.subrange(k2, k2 + n),
        c1.subrange(k1, k1 + n) == c2.subrange(k2, k2 + n),
        starts_with(trim(ls1[k1]), "<logentry"@),
    ensures
        log_scan(ls1, c1, k1 + n).output == log_scan(ls1, c1, k1).output + d,
        log_scan(ls2, c2, k2 + n).output == log_scan(ls2, c2, k2).output + d,
        log_state_fields(log_scan(ls1, c1, k1 + n)) == log_state_fields(log_scan(ls2, c2, k2 + n)),
    decreases n,
{
    if n == 1 {
        assert(ls1.subrange(k1, k1 + n)[0] == ls2.subrange(k2, k2 + n)[0]);
        assert(c1.subrange(k1, k1 + n)[0] == c2.subrange(k2, k2 + n)[0]);
        let s1 = log_scan(ls1, c1, k1);
        let s2 = log_scan(ls2, c2, k2);
        assert(s1.output + Seq::<char>::empty() =~= s1.output);
        assert(s2.output + Seq::<char>::empty() =~= s2.output);
        Seq::empty()
    } else {
        assert(ls1.subrange(k1, k1 + n - 1) =~= ls1.subrange(k1, k1 + n).drop_last());
        assert(ls2.subrange(k2, k2 + n - 1) =~= ls2.subrange(k2, k2 + n).drop_last());
        assert(c1.subrange(k1, k1 + n - 1) =~= c1.subrange(k1, k1 + n).drop_last());
        assert(c2.subrange(k2, k2 + n - 1) =~= c2.subrange(k2, k2 + n).drop_last());
        let d0 = lemma_log_entry_local(ls1, c1, k1, ls2, c2, k2, n - 1);
        assert(ls1.subrange(k1, k1 + n)[n - 1] == ls2.subrange(k2, k2 + n)[n - 1]);
        assert(c1.subrange(k1, k1 + n)[n - 1] == c2.subrange(k2, k2 + n)[n - 1]);
        let s1 = log_scan(ls1, c1, k1 + n - 1);
        let s2 = log_scan(ls2, c2, k2 + n - 1);
        let t = trim(ls1[k1 + n - 1]);
        let c = c1[k1 + n - 1];
        lemma_log_step_output(s1, t, c);
        lemma_log_step_output(s2, t, c);
        assert(log_state_fields(s1) == log_state_fields(s2));
        let e = log_step_trimmed(log_state_fields(s1), t, c).output;
        assert(log_scan(ls1, c1, k1).output + d0 + e =~= log_scan(ls1, c1, k1).output + (d0 + e));
        assert(log_scan(ls2, c2, k2).output + d0 + e =~= log_scan(ls2, c2, k2).output + (d0 + e));
        d0 + e
    }
}

/// Whether the log scan of `input` reports at least one entry.
pub open spec fn log_reports(input: Seq<char>) -> bool {
    log_scan(lines(input), cleaned_per_line(lines(input)), lines(input).len() as int).output.len()
        > 0
}

/// Log entries are condensed each on its own: for a text `a` (ending with a
/// newline) and a text `b` whose first line opens a log entry, each with an
/// entry reported, the output for `a + b` is the output for `a` followed by
/// the output for `b`. What an entry reports never depends on the entries
/// before it.
pub proof fn law_log_entries_independent(a: Seq<char>, b: Seq<char>)
    requires
        ends_a_line(a),
        lines(b).len() > 0,
        starts_with(trim(lines(b)[0]), "<logentry"@),
        log_reports(a),
        log_reports(b),
    ensures
        filter_log_spec(a + b) == filter_log_spec(a) + filter_log_spec(b),
{
    if regex_compiles(MSG_CLOSE_PATTERN@) {
        let la = lines(a);
        let lb = lines(b);
        let ca = cleaned_per_line(la);
        let cb = cleaned_per_line(lb);
        lemma_lines_append(a, b);
        assert(cleaned_per_line(la + lb) =~= ca + cb);
        lemma_log_scan_prefix(la, ca, lb, cb, la.len() as int);
        assert((la + lb).subrange(la.len() as int, (la + lb).len() as int) =~= lb.subrange(
            0,
            lb.len() as int,
        ));
        assert((ca + cb).subrange(la.len() as int, (la + lb).len() as int) =~= cb.subrange(
            0,
            lb.len() as int,
        ));
        assert((la + lb)[la.len() as int] == lb[0]);
        let d = lemma_log_entry_local(
            la + lb,
            ca + cb,
            la.len() as int,
            lb,
            cb,
            0,
            lb.len() as int,
        );
        assert(log_scan(lb, cb, 0).output + d =~= d);
        assert((la + lb).len() == la.len() + lb.len());
    }
}

} // verus!
