//! What each line filter makes of one line, stated over the line and what
//! the regular expressions answer on it.

use vstd::prelude::*;
use crate::add::{add_piece, add_pieces, filter_add_spec, ADD_LINE_PATTERN};
use crate::blame::{blame_piece, blame_pieces, filter_blame_spec, BLAME_LINE_PATTERN};
use crate::commit::{commit_piece, commit_pieces, filter_commit_spec, COMMITTED_PATTERN};
use crate::diff::{
    diff_matches_per_line, diff_piece, diff_pieces, filter_diff_spec, marker_path, DiffLineMatches, DIFF_MINUS_PATTERN, DIFF_PLUS_PATTERN, INDEX_HEADER_PATTERN,
    SEPARATOR_PATTERN,
};
use crate::info::{
    filter_info_spec, info_report, info_scan, info_step_trimmed, last_line, InfoState,
};
use crate::laws::{lemma_find_from_skip, law_xml_text_roundtrip};
use crate::xml::{close_tag, open_tag, xml_text};
use crate::log::{
    cleaned_per_line, entry_report, filter_log_spec, log_output, log_scan, log_step_trimmed,
    msg_haystack, LogState, MSG_CLOSE_PATTERN,
};
use crate::info::{leading_revision_attr, revision_attr};
use crate::pattern::{
    captures_per_line, matches_per_line, regex_captures, regex_compiles, regex_is_match,
    regex_replace,
};
use crate::status::{filter_status_spec, status_piece, status_pieces, STATUS_LINE_PATTERN};
use crate::text::{
    concat, ends_with, find, find_from, is_ws, keep_before_ws, lines, occurs_at, skip_ws, starts_with, strip_all_prefixes,
    strip_all_suffixes, take_chars, trim, trim_start,
};
use crate::update::{
    filter_update_spec, update_piece, update_pieces, UPDATED_TO_PATTERN, UPDATE_ACTION_PATTERN,
};

verus! {

/// One piece concatenated is that piece.
pub proof fn lemma_concat_one(x: Seq<char>)
    ensures
        concat(seq![x]) == x,
{
    assert(seq![x].drop_last() =~= Seq::<Seq<char>>::empty());
    assert(concat(Seq::<Seq<char>>::empty()) == Seq::<char>::empty());
    assert(Seq::<char>::empty() + x =~= x);
}

/// The status regex on a single line.
proof fn lemma_status_single(l: Seq<char>)
    ensures
        status_pieces(captures_per_line(STATUS_LINE_PATTERN@, seq![l])) == seq![
            status_piece(regex_captures(STATUS_LINE_PATTERN@, l)),
        ],
{
    let cs = captures_per_line(STATUS_LINE_PATTERN@, seq![l]);
    assert(cs =~= seq![regex_captures(STATUS_LINE_PATTERN@, l)]);
    assert(status_pieces(cs) =~= seq![status_piece(regex_captures(STATUS_LINE_PATTERN@, l))]);
}

/// Both update regexes on a single line.
proof fn lemma_update_single(l: Seq<char>)
    ensures
        update_pieces(
            captures_per_line(UPDATE_ACTION_PATTERN@, seq![l]),
            captures_per_line(UPDATED_TO_PATTERN@, seq![l]),
        ) == seq![
            update_piece(
                regex_captures(UPDATE_ACTION_PATTERN@, l),
                regex_captures(UPDATED_TO_PATTERN@, l),
            ),
        ],
{
    let ca = captures_per_line(UPDATE_ACTION_PATTERN@, seq![l]);
    let cu = captures_per_line(UPDATED_TO_PATTERN@, seq![l]);
    assert(ca =~= seq![regex_captures(UPDATE_ACTION_PATTERN@, l)]);
    assert(cu =~= seq![regex_captures(UPDATED_TO_PATTERN@, l)]);
    assert(update_pieces(ca, cu) =~= seq![
        update_piece(
            regex_captures(UPDATE_ACTION_PATTERN@, l),
            regex_captures(UPDATED_TO_PATTERN@, l),
        ),
    ]);
}

/// The four diff regexes' answers on one line.
pub open spec fn diff_matches_of(l: Seq<char>) -> DiffLineMatches {
    DiffLineMatches {
        index_header: regex_is_match(INDEX_HEADER_PATTERN@, l),
        separator: regex_is_match(SEPARATOR_PATTERN@, l),
        minus: regex_is_match(DIFF_MINUS_PATTERN@, l),
        plus: regex_is_match(DIFF_PLUS_PATTERN@, l),
    }
}

/// The diff regexes on a single line.
proof fn lemma_diff_single(l: Seq<char>)
    ensures
        diff_pieces(seq![l], diff_matches_per_line(seq![l])) == seq![diff_piece(l, diff_matches_of(l))],
{
    let ls = seq![l];
    assert(diff_matches_per_line(ls)[0] == diff_matches_of(l));
    assert(diff_pieces(ls, diff_matches_per_line(ls)) =~= seq![diff_piece(l, diff_matches_of(l))]);
}

/// The blame regex on a single line.
proof fn lemma_blame_single(l: Seq<char>)
    ensures
        blame_pieces(seq![l], captures_per_line(BLAME_LINE_PATTERN@, seq![l])) == seq![
            blame_piece(l, regex_captures(BLAME_LINE_PATTERN@, l)),
        ],
{
    let cs = captures_per_line(BLAME_LINE_PATTERN@, seq![l]);
    assert(cs =~= seq![regex_captures(BLAME_LINE_PATTERN@, l)]);
    assert(blame_pieces(seq![l], cs) =~= seq![blame_piece(l, regex_captures(BLAME_LINE_PATTERN@, l))]);
}

/// The commit regex on a single line.
proof fn lemma_commit_single(l: Seq<char>)
    ensures
        commit_pieces(seq![l], matches_per_line(COMMITTED_PATTERN@, seq![l])) == seq![
            commit_piece(l, regex_is_match(COMMITTED_PATTERN@, l)),
        ],
{
    let ms = matches_per_line(COMMITTED_PATTERN@, seq![l]);
    assert(ms =~= seq![regex_is_match(COMMITTED_PATTERN@, l)]);
    assert(commit_pieces(seq![l], ms) =~= seq![commit_piece(l, regex_is_match(COMMITTED_PATTERN@, l))]);
}

/// The add regex on a single line.
proof fn lemma_add_single(l: Seq<char>)
    ensures
        add_pieces(seq![l], matches_per_line(ADD_LINE_PATTERN@, seq![l])) == seq![
            add_piece(l, regex_is_match(ADD_LINE_PATTERN@, l)),
        ],
{
    let ms = matches_per_line(ADD_LINE_PATTERN@, seq![l]);
    assert(ms =~= seq![regex_is_match(ADD_LINE_PATTERN@, l)]);
    assert(add_pieces(seq![l], ms) =~= seq![add_piece(l, regex_is_match(ADD_LINE_PATTERN@, l))]);
}

/// A single character that is not whitespace trims to itself; a single
/// blank trims to nothing.
pub proof fn lemma_trim_one(c: char)
    ensures
        !is_ws(c) ==> trim(seq![c]) == seq![c],
        is_ws(c) ==> trim(seq![c]).len() == 0,
{
    let s = seq![c];
    if is_ws(c) {
        assert(skip_ws(s, 1) == 1);
        assert(skip_ws(s, 0) == 1);
    } else {
        assert(skip_ws(s, 0) == 0);
        assert(s.subrange(0, 1) =~= s);
        assert(keep_before_ws(s, 1) == 1);
    }
}

/// A status line whose two status columns `c1`, `c2` are both letters (not
/// blank) and whose path is `p` comes out as `c1 c2 ' ' p` and a newline,
/// the columns in their order.
pub proof fn law_status_both_columns(
    input: Seq<char>,
    l: Seq<char>,
    caps: Seq<Option<Seq<char>>>,
    c1: char,
    c2: char,
    p: Seq<char>,
)
    requires
        lines(input) == seq![l],
        regex_compiles(STATUS_LINE_PATTERN@),
        regex_captures(STATUS_LINE_PATTERN@, l) == Some(caps),
        caps.len() == 4,
        caps[1] == Some(seq![c1]),
        caps[2] == Some(seq![c2]),
        caps[3] == Some(p),
        !is_ws(c1),
        !is_ws(c2),
    ensures
        filter_status_spec(input) == seq![c1, c2, ' '] + p + seq!['\n'],
{
    lemma_status_single(l);
    lemma_trim_one(c1);
    lemma_trim_one(c2);
    let out = seq![c1, c2, ' '] + p + seq!['\n'];
    assert(seq![c1] + seq![c2] + seq![' '] + p + seq!['\n'] =~= out);
    lemma_concat_one(out);
}

/// A status line with one blank status column and the other a letter `c`
/// comes out as `c ' ' p` and a newline.
pub proof fn law_status_one_column(
    input: Seq<char>,
    l: Seq<char>,
    caps: Seq<Option<Seq<char>>>,
    b: char,
    c: char,
    p: Seq<char>,
    blank_first: bool,
)
    requires
        lines(input) == seq![l],
        regex_compiles(STATUS_LINE_PATTERN@),
        regex_captures(STATUS_LINE_PATTERN@, l) == Some(caps),
        caps.len() == 4,
        caps[1] == Some(if blank_first { seq![b] } else { seq![c] }),
        caps[2] == Some(if blank_first { seq![c] } else { seq![b] }),
        caps[3] == Some(p),
        is_ws(b),
        !is_ws(c),
    ensures
        filter_status_spec(input) == seq![c, ' '] + p + seq!['\n'],
{
    lemma_status_single(l);
    lemma_trim_one(b);
    lemma_trim_one(c);
    let out = seq![c, ' '] + p + seq!['\n'];
    assert(seq![c] + seq![' '] + p + seq!['\n'] =~= out);
    lemma_concat_one(out);
}

/// A line that the status regex does not recognize, alone, is handed back.
pub proof fn law_status_unrecognized_line(input: Seq<char>, l: Seq<char>)
    requires
        lines(input) == seq![l],
        regex_captures(STATUS_LINE_PATTERN@, l) is None,
    ensures
        filter_status_spec(input) == input,
{
    lemma_status_single(l);
    lemma_concat_one(Seq::<char>::empty());
}

/// An action line `X<whitespace>p` comes out as `X`, two spaces, the whole
/// captured path `p` and a newline.
pub proof fn law_update_action_line(
    input: Seq<char>,
    l: Seq<char>,
    caps: Seq<Option<Seq<char>>>,
    a: Seq<char>,
    p: Seq<char>,
)
    requires
        lines(input) == seq![l],
        regex_compiles(UPDATE_ACTION_PATTERN@),
        regex_compiles(UPDATED_TO_PATTERN@),
        regex_captures(UPDATE_ACTION_PATTERN@, l) == Some(caps),
        caps.len() == 3,
        caps[1] == Some(a),
        caps[2] == Some(p),
    ensures
        filter_update_spec(input) == a + seq![' ', ' '] + p + seq!['\n'],
{
    let out = a + seq![' ', ' '] + p + seq!['\n'];
    lemma_update_single(l);
    lemma_concat_one(out);
    if out.len() == 0 {
        assert(out[out.len() - 1] == '\n');
    }
}

/// A revision line that is no action line comes out as `Updated to r`, the
/// captured revision number and a newline.
pub proof fn law_update_revision_line(
    input: Seq<char>,
    l: Seq<char>,
    caps: Seq<Option<Seq<char>>>,
    n: Seq<char>,
)
    requires
        lines(input) == seq![l],
        regex_compiles(UPDATE_ACTION_PATTERN@),
        regex_compiles(UPDATED_TO_PATTERN@),
        regex_captures(UPDATE_ACTION_PATTERN@, l) is None,
        regex_captures(UPDATED_TO_PATTERN@, l) == Some(caps),
        caps.len() == 2,
        caps[1] == Some(n),
    ensures
        filter_update_spec(input) == "Updated to r"@ + n + seq!['\n'],
{
    let out = "Updated to r"@ + n + seq!['\n'];
    lemma_update_single(l);
    lemma_concat_one(out);
    assert(out[out.len() - 1] == '\n');
}

/// A line that none of the four diff regexes matches comes out unchanged,
/// followed by a newline.
pub proof fn law_diff_plain_line(input: Seq<char>, l: Seq<char>)
    requires
        lines(input) == seq![l],
        regex_compiles(INDEX_HEADER_PATTERN@),
        regex_compiles(SEPARATOR_PATTERN@),
        regex_compiles(DIFF_MINUS_PATTERN@),
        regex_compiles(DIFF_PLUS_PATTERN@),
        !regex_is_match(INDEX_HEADER_PATTERN@, l),
        !regex_is_match(SEPARATOR_PATTERN@, l),
        !regex_is_match(DIFF_MINUS_PATTERN@, l),
        !regex_is_match(DIFF_PLUS_PATTERN@, l),
    ensures
        filter_diff_spec(input) == l + seq!['\n'],
{
    lemma_diff_single(l);
    lemma_concat_one(l + seq!['\n']);
}

/// An `Index:` header or a separator line gives nothing.
pub proof fn law_diff_header_line(input: Seq<char>, l: Seq<char>)
    requires
        lines(input) == seq![l],
        regex_compiles(INDEX_HEADER_PATTERN@),
        regex_compiles(SEPARATOR_PATTERN@),
        regex_compiles(DIFF_MINUS_PATTERN@),
        regex_compiles(DIFF_PLUS_PATTERN@),
        regex_is_match(INDEX_HEADER_PATTERN@, l) || regex_is_match(SEPARATOR_PATTERN@, l),
    ensures
        filter_diff_spec(input).len() == 0,
{
    lemma_diff_single(l);
    lemma_concat_one(Seq::<char>::empty());
}

/// An annotated line comes out as revision, user and content separated by
/// single spaces, and a newline.
pub proof fn law_blame_annotated_line(
    input: Seq<char>,
    l: Seq<char>,
    caps: Seq<Option<Seq<char>>>,
    r: Seq<char>,
    u: Seq<char>,
    c: Seq<char>,
)
    requires
        lines(input) == seq![l],
        regex_compiles(BLAME_LINE_PATTERN@),
        regex_captures(BLAME_LINE_PATTERN@, l) == Some(caps),
        caps.len() == 4,
        caps[1] == Some(r),
        caps[2] == Some(u),
        caps[3] == Some(c),
    ensures
        filter_blame_spec(input) == r + seq![' '] + u + seq![' '] + c + seq!['\n'],
{
    lemma_blame_single(l);
    lemma_concat_one(r + seq![' '] + u + seq![' '] + c + seq!['\n']);
}

/// A line that is not an annotated line comes out unchanged, followed by a
/// newline.
pub proof fn law_blame_plain_line(input: Seq<char>, l: Seq<char>)
    requires
        lines(input) == seq![l],
        regex_compiles(BLAME_LINE_PATTERN@),
        regex_captures(BLAME_LINE_PATTERN@, l) is None,
    ensures
        filter_blame_spec(input) == l + seq!['\n'],
{
    lemma_blame_single(l);
    lemma_concat_one(l + seq!['\n']);
}

/// The line that reports the new revision comes out as it is, with a
/// newline.
pub proof fn law_commit_revision_line(input: Seq<char>, l: Seq<char>)
    requires
        lines(input) == seq![l],
        regex_compiles(COMMITTED_PATTERN@),
        regex_is_match(COMMITTED_PATTERN@, l),
    ensures
        filter_commit_spec(input) == l + seq!['\n'],
{
    lemma_commit_single(l);
    let out = l + seq!['\n'];
    lemma_concat_one(out);
    assert(out[out.len() - 1] == '\n');
}

/// What the info scan gathered from `input`.
pub open spec fn info_found(input: Seq<char>) -> InfoState {
    info_scan(lines(input))
}

/// The `URL:` line, or nothing when no URL was found.
pub open spec fn url_part(s: InfoState) -> Seq<char> {
    if s.url.len() == 0 {
        Seq::empty()
    } else {
        "URL:      "@ + s.url + seq!['\n']
    }
}

/// `" " + v`, or nothing when `v` is empty.
pub open spec fn space_then(v: Seq<char>) -> Seq<char> {
    if v.len() == 0 {
        Seq::empty()
    } else {
        seq![' '] + v
    }
}

/// The lines of `svn info` output: a URL that was found opens the output
/// as `URL:      {url}`; an entry revision that was found follows it as
/// `Revision: {rev}`, whatever the last changed revision is; a last
/// changed revision that was found closes the output as `Last:     {rev}`
/// with the author and the date after it when they were found.
pub proof fn law_info_lines(input: Seq<char>)
    ensures
        info_found(input).url.len() > 0 ==> filter_info_spec(input).subrange(
            0,
            url_part(info_found(input)).len() as int,
        ) == "URL:      "@ + info_found(input).url + seq!['\n'],
        info_found(input).revision.len() > 0 ==> exists|rest: Seq<char>|
            filter_info_spec(input) == url_part(info_found(input)) + "Revision: "@ + info_found(
                input,
            ).revision + seq!['\n'] + rest,
        info_found(input).last_changed_rev.len() > 0 ==> exists|front: Seq<char>|
            filter_info_spec(input) == front + "Last:     "@ + info_found(input).last_changed_rev
                + space_then(info_found(input).last_changed_author) + space_then(
                info_found(input).last_changed_date,
            ) + seq!['\n'],
{
    let s = info_found(input);
    let u = url_part(s);
    let r = if s.revision.len() == 0 {
        Seq::<char>::empty()
    } else {
        "Revision: "@ + s.revision + seq!['\n']
    };
    let tail = "Last:     "@ + s.last_changed_rev + space_then(s.last_changed_author) + space_then(
        s.last_changed_date,
    ) + seq!['\n'];
    let last = if s.last_changed_rev.len() == 0 {
        Seq::<char>::empty()
    } else {
        tail
    };
    let report = info_report(s);
    assert(report == u + r + last) by {
        if s.last_changed_rev.len() > 0 {
            assert(last_line(s) =~= tail);
        }
    }
    if s.url.len() > 0 || s.revision.len() > 0 || s.last_changed_rev.len() > 0 {
        assert(report.len() > 0);
        assert(filter_info_spec(input) == report);
    }
    if s.url.len() > 0 {
        assert(report.subrange(0, u.len() as int) =~= u);
    }
    if s.revision.len() > 0 {
        assert(report == u + "Revision: "@ + s.revision + seq!['\n'] + last);
    }
    if s.last_changed_rev.len() > 0 {
        assert(report =~= (u + r) + tail);
        assert(filter_info_spec(input) =~= (u + r) + "Last:     "@ + s.last_changed_rev + space_then(
            s.last_changed_author,
        ) + space_then(s.last_changed_date) + seq!['\n']);
    }
}

/// Inside an entry, once its revision is known, lines that neither open
/// nor close an entry keep it.
proof fn lemma_log_entry_keeps_rev(
    ls: Seq<Seq<char>>,
    cleaned: Seq<Seq<char>>,
    a: int,
    b: int,
    r: Seq<char>,
)
    requires
        0 <= a <= b <= ls.len(),
        log_scan(ls, cleaned, a).in_entry,
        log_scan(ls, cleaned, a).rev == r,
        r.len() > 0,
        forall|j: int|
            a <= j < b ==> !starts_with(#[trigger] trim(ls[j]), "<logentry"@) && trim(ls[j])
                != "</logentry>"@,
    ensures
        log_scan(ls, cleaned, b).in_entry,
        log_scan(ls, cleaned, b).rev == r,
    decreases b - a,
{
    if a < b {
        assert(!starts_with(trim(ls[a]), "<logentry"@) && trim(ls[a]) != "</logentry>"@);
        assert(log_scan(ls, cleaned, a + 1).in_entry && log_scan(ls, cleaned, a + 1).rev == r);
        lemma_log_entry_keeps_rev(ls, cleaned, a + 1, b, r);
    }
}

/// The report of a log entry whose `<logentry` line carries no revision
/// attribute and whose next line is `revision="v">` begins with `r`, `v`
/// and a space; whatever came before the entry plays no part.
pub proof fn law_log_revision_on_next_line(
    ls: Seq<Seq<char>>,
    cleaned: Seq<Seq<char>>,
    k: int,
    m: int,
    v: Seq<char>,
)
    requires
        0 <= k,
        k + 2 <= m < ls.len(),
        starts_with(trim(ls[k]), "<logentry"@),
        find(trim(ls[k]), "revision=\""@) is None,
        trim(ls[k + 1]) == "revision=\""@ + v + "\">"@,
        forall|j: int| 0 <= j < v.len() ==> #[trigger] v[j] != '"',
        forall|j: int|
            k + 2 <= j < m ==> !starts_with(#[trigger] trim(ls[j]), "<logentry"@) && trim(ls[j])
                != "</logentry>"@,
        trim(ls[m]) == "</logentry>"@,
    ensures
        ({
            let before = log_scan(ls, cleaned, m).output;
            let after = log_scan(ls, cleaned, m + 1).output;
            &&& before.len() + v.len() + 2 <= after.len()
            &&& after.subrange(0, (before.len() + v.len() + 2) as int) == before + seq!['r'] + v + seq![' ']
        }),
{
    reveal_strlit("<logentry");
    reveal_strlit("revision=\"");
    reveal_strlit("\">");
    reveal_strlit("\"");
    reveal_strlit("</logentry>");
    reveal_strlit("<author>");
    reveal_strlit("<date>");
    let t0 = trim(ls[k]);
    let s1 = log_scan(ls, cleaned, k + 1);
    assert(s1 == log_step_trimmed(log_scan(ls, cleaned, k), t0, cleaned[k]));
    assert(revision_attr(t0) is None);
    assert(s1.in_entry && s1.rev.len() == 0);
    let t1 = trim(ls[k + 1]);
    assert(t1[0] == 'r');
    assert(!starts_with(t1, "<logentry"@)) by {
        if starts_with(t1, "<logentry"@) {
            assert(t1.subrange(0, 9)[0] == '<');
        }
    }
    assert(t1.subrange(0, 10) =~= "revision=\""@);
    let rest = t1.subrange(10, t1.len() as int);
    assert(rest =~= v + "\">"@);
    assert forall|j: int| 0 <= j < v.len() implies !#[trigger] occurs_at(rest, "\""@, j) by {
        assert(rest.subrange(j, j + 1)[0] == v[j]);
    }
    assert(rest.subrange(v.len() as int, (v.len() + 1) as int) =~= "\""@);
    lemma_find_from_skip(rest, "\""@, 0, v.len() as int);
    assert(find(rest, "\""@) == Some(v.len() as int));
    assert(rest.subrange(0, v.len() as int) =~= v);
    assert(leading_revision_attr(t1) == Some(v));
    let s2 = log_scan(ls, cleaned, k + 2);
    assert(s2 == log_step_trimmed(s1, t1, cleaned[k + 1]));
    assert(s2.in_entry && s2.rev == seq!['r'] + v);
    lemma_log_entry_keeps_rev(ls, cleaned, k + 2, m, seq!['r'] + v);
    let sm = log_scan(ls, cleaned, m);
    let tm = trim(ls[m]);
    assert(!starts_with(tm, "<logentry"@)) by {
        if starts_with(tm, "<logentry"@) {
            assert(tm.subrange(0, 9)[1] == 'l');
        }
    }
    assert(!starts_with(tm, "<author>"@)) by {
        if starts_with(tm, "<author>"@) {
            assert(tm.subrange(0, 8)[1] == 'a');
        }
    }
    assert(!starts_with(tm, "<date>"@)) by {
        if starts_with(tm, "<date>"@) {
            assert(tm.subrange(0, 6)[1] == 'd');
        }
    }
    let after = log_scan(ls, cleaned, m + 1);
    assert(after == log_step_trimmed(sm, tm, cleaned[m]));
    assert(after.output == sm.output + entry_report(sm));
    assert(after.output.subrange(0, (sm.output.len() + v.len() + 2) as int) =~= sm.output + seq!['r'] + v
        + seq![' ']);
}

/// The report of a log entry opened by `<logentry revision="v">` begins with
/// `r`, `v` and a space; whatever came before the entry plays no part.
pub proof fn law_log_revision_on_entry_line(
    ls: Seq<Seq<char>>,
    cleaned: Seq<Seq<char>>,
    k: int,
    m: int,
    v: Seq<char>,
)
    requires
        0 <= k,
        k + 1 <= m < ls.len(),
        trim(ls[k]) == "<logentry revision=\""@ + v + "\">"@,
        forall|j: int| 0 <= j < v.len() ==> #[trigger] v[j] != '"',
        forall|j: int|
            k + 1 <= j < m ==> !starts_with(#[trigger] trim(ls[j]), "<logentry"@) && trim(ls[j])
                != "</logentry>"@,
        trim(ls[m]) == "</logentry>"@,
    ensures
        ({
            let before = log_scan(ls, cleaned, m).output;
            let after = log_scan(ls, cleaned, m + 1).output;
            &&& before.len() + v.len() + 2 <= after.len()
            &&& after.subrange(0, (before.len() + v.len() + 2) as int) == before + seq!['r'] + v
                + seq![' ']
        }),
{
    reveal_strlit("<logentry");
    reveal_strlit("<logentry revision=\"");
    reveal_strlit("revision=\"");
    reveal_strlit("\">");
    reveal_strlit("\"");
    reveal_strlit("</logentry>");
    reveal_strlit("<author>");
    reveal_strlit("<date>");
    let t0 = trim(ls[k]);
    let attr = "revision=\""@;
    assert(t0.subrange(0, 9) =~= "<logentry"@);
    assert forall|j: int| 0 <= j < 10 implies !#[trigger] occurs_at(t0, attr, j) by {
        if occurs_at(t0, attr, j) {
            assert(t0.subrange(j, j + 10)[0] == 'r');
            assert(t0.subrange(j, j + 10)[1] == 'e');
            if j == 7 {
                assert(t0[8] == 'y');
            } else {
                assert(t0[j] != 'r');
            }
        }
    }
    assert(t0.subrange(10, 20) =~= attr);
    lemma_find_from_skip(t0, attr, 0, 10);
    assert(find(t0, attr) == Some(10int));
    let rest = t0.subrange(20, t0.len() as int);
    assert(rest =~= v + "\">"@);
    assert forall|j: int| 0 <= j < v.len() implies !#[trigger] occurs_at(rest, "\""@, j) by {
        assert(rest.subrange(j, j + 1)[0] == v[j]);
    }
    assert(rest.subrange(v.len() as int, (v.len() + 1) as int) =~= "\""@);
    lemma_find_from_skip(rest, "\""@, 0, v.len() as int);
    assert(find(rest, "\""@) == Some(v.len() as int));
    assert(rest.subrange(0, v.len() as int) =~= v);
    assert(revision_attr(t0) == Some(v));
    let s1 = log_scan(ls, cleaned, k + 1);
    assert(s1 == log_step_trimmed(log_scan(ls, cleaned, k), t0, cleaned[k]));
    assert(s1.in_entry && s1.rev == seq!['r'] + v);
    lemma_log_entry_keeps_rev(ls, cleaned, k + 1, m, seq!['r'] + v);
    let sm = log_scan(ls, cleaned, m);
    let tm = trim(ls[m]);
    assert(!starts_with(tm, "<logentry"@)) by {
        if starts_with(tm, "<logentry"@) {
            assert(tm.subrange(0, 9)[1] == 'l');
        }
    }
    assert(!starts_with(tm, "<author>"@)) by {
        if starts_with(tm, "<author>"@) {
            assert(tm.subrange(0, 8)[1] == 'a');
        }
    }
    assert(!starts_with(tm, "<date>"@)) by {
        if starts_with(tm, "<date>"@) {
            assert(tm.subrange(0, 6)[1] == 'd');
        }
    }
    let after = log_scan(ls, cleaned, m + 1);
    assert(after == log_step_trimmed(sm, tm, cleaned[m]));
    assert(after.output == sm.output + entry_report(sm));
    assert(after.output.subrange(0, (sm.output.len() + v.len() + 2) as int) =~= sm.output + seq![
        'r',
    ] + v + seq![' ']);
}

/// `skip_ws` passes over a whitespace prefix.
proof fn lemma_skip_ws_prefix(w: Seq<char>, p: Seq<char>, i: int)
    requires
        0 <= i <= w.len(),
        forall|j: int| 0 <= j < w.len() ==> is_ws(#[trigger] w[j]),
        p.len() > 0,
        !is_ws(p[0]),
    ensures
        skip_ws(w + p, i) == w.len(),
    decreases w.len() - i,
{
    if i < w.len() {
        assert((w + p)[i] == w[i]);
        lemma_skip_ws_prefix(w, p, i + 1);
    } else {
        assert((w + p)[i] == p[0]);
    }
}

/// Whitespace before a text that begins and ends with non-whitespace trims
/// away, and the text stays.
pub proof fn lemma_trim_ws_prefix(w: Seq<char>, p: Seq<char>)
    requires
        forall|j: int| 0 <= j < w.len() ==> is_ws(#[trigger] w[j]),
        p.len() > 0,
        !is_ws(p[0]),
        !is_ws(p.last()),
    ensures
        trim(w + p) == p,
{
    lemma_skip_ws_prefix(w, p, 0);
    let t = (w + p).subrange(w.len() as int, (w + p).len() as int);
    assert(t =~= p);
    assert(keep_before_ws(p, p.len() as int) == p.len());
    assert(p.subrange(0, p.len() as int) =~= p);
}

/// An add line `x<whitespace>p` (status letter `x`, path `p` that is not
/// annotated) comes out as `x`, two spaces, the whole path and a newline.
pub proof fn law_add_line(input: Seq<char>, l: Seq<char>, x: char, w: Seq<char>, p: Seq<char>)
    requires
        lines(input) == seq![l],
        regex_compiles(ADD_LINE_PATTERN@),
        regex_is_match(ADD_LINE_PATTERN@, l),
        l == seq![x] + w + p,
        !is_ws(x),
        forall|j: int| 0 <= j < w.len() ==> is_ws(#[trigger] w[j]),
        p.len() > 0,
        !is_ws(p[0]),
        !is_ws(p.last()),
        !starts_with(p, "(bin)"@),
    ensures
        filter_add_spec(input) == seq![x, ' ', ' '] + p + seq!['\n'],
{
    lemma_add_single(l);
    assert(skip_ws(l, 0) == 0);
    assert(trim_start(l) =~= l);
    assert(l.subrange(1, l.len() as int) =~= w + p);
    lemma_trim_ws_prefix(w, p);
    assert(take_chars(l, 1) =~= seq![x]);
    let out = seq![x, ' ', ' '] + p + seq!['\n'];
    assert(seq![x] + seq![' ', ' '] + p + seq!['\n'] =~= out);
    lemma_concat_one(out);
}

/// An add line for a binary file, `x<whitespace>(bin)<whitespace>q`, comes
/// out as `x`, two spaces, the path `q` and a newline.
pub proof fn law_add_binary_line(
    input: Seq<char>,
    l: Seq<char>,
    x: char,
    w: Seq<char>,
    w2: Seq<char>,
    q: Seq<char>,
)
    requires
        lines(input) == seq![l],
        regex_compiles(ADD_LINE_PATTERN@),
        regex_is_match(ADD_LINE_PATTERN@, l),
        l == seq![x] + w + "(bin)"@ + w2 + q,
        !is_ws(x),
        forall|j: int| 0 <= j < w.len() ==> is_ws(#[trigger] w[j]),
        forall|j: int| 0 <= j < w2.len() ==> is_ws(#[trigger] w2[j]),
        q.len() > 0,
        !is_ws(q[0]),
        !is_ws(q.last()),
    ensures
        filter_add_spec(input) == seq![x, ' ', ' '] + q + seq!['\n'],
{
    reveal_strlit("(bin)");
    lemma_add_single(l);
    assert(skip_ws(l, 0) == 0);
    assert(trim_start(l) =~= l);
    let p = "(bin)"@ + w2 + q;
    assert(l.subrange(1, l.len() as int) =~= w + p);
    assert(p[0] == '(');
    assert(p.last() == q.last());
    lemma_trim_ws_prefix(w, p);
    assert(p.subrange(0, 5) =~= "(bin)"@);
    assert(p.subrange(5, p.len() as int) =~= w2 + q);
    lemma_trim_ws_prefix(w2, q);
    assert(take_chars(l, 1) =~= seq![x]);
    let out = seq![x, ' ', ' '] + q + seq!['\n'];
    assert(seq![x] + seq![' ', ' '] + q + seq!['\n'] =~= out);
    lemma_concat_one(out);
}

/// A file marker line `{marker}{p}  ({x}` is reduced to `p`.
proof fn lemma_marker_path(marker: Seq<char>, p: Seq<char>, x: Seq<char>)
    requires
        marker == "--- "@ || marker == "+++ "@,
        p.len() > 0,
        p[0] != marker[0],
        forall|j: int| 0 <= j < p.len() ==> #[trigger] p[j] != '(',
        !is_ws(p.last()),
    ensures
        marker_path(marker + p + "  ("@ + x, marker) == p,
{
    reveal_strlit("--- ");
    reveal_strlit("+++ ");
    reveal_strlit("  (");
    let l = marker + p + "  ("@ + x;
    let r = p + "  ("@ + x;
    assert(marker.len() == 4);
    assert(l.subrange(0, 4) =~= marker);
    assert(l.subrange(4, l.len() as int) =~= r);
    assert(!starts_with(r, marker)) by {
        if starts_with(r, marker) {
            assert(r.subrange(0, 4)[0] == r[0]);
        }
    }
    assert(strip_all_prefixes(r, marker) == r);
    assert(strip_all_prefixes(l, marker) == r);
    let sep = "  ("@;
    assert forall|j: int| 0 <= j < p.len() implies !#[trigger] occurs_at(r, sep, j) by {
        if occurs_at(r, sep, j) {
            assert(r.subrange(j, j + 3)[2] == '(');
            assert(r[j + 2] == '(');
            if j + 2 < p.len() {
                assert(r[j + 2] == p[j + 2]);
            } else {
                assert(r[j + 2] == ' ');
            }
        }
    }
    assert(r.subrange(p.len() as int, (p.len() + 3) as int) =~= sep);
    lemma_find_from_skip(r, sep, 0, p.len() as int);
    assert(find(r, sep) == Some(p.len() as int));
    assert(r.subrange(0, p.len() as int) =~= p);
    assert(keep_before_ws(p, p.len() as int) == p.len());
    assert(p.subrange(0, p.len() as int) =~= p);
}

/// A `--- {p}  ({x}` marker line comes out as `--- {p}` and a newline.
pub proof fn law_diff_minus_line(input: Seq<char>, p: Seq<char>, x: Seq<char>)
    requires
        lines(input) == seq!["--- "@ + p + "  ("@ + x],
        regex_compiles(INDEX_HEADER_PATTERN@),
        regex_compiles(SEPARATOR_PATTERN@),
        regex_compiles(DIFF_MINUS_PATTERN@),
        regex_compiles(DIFF_PLUS_PATTERN@),
        !regex_is_match(INDEX_HEADER_PATTERN@, "--- "@ + p + "  ("@ + x),
        !regex_is_match(SEPARATOR_PATTERN@, "--- "@ + p + "  ("@ + x),
        regex_is_match(DIFF_MINUS_PATTERN@, "--- "@ + p + "  ("@ + x),
        p.len() > 0,
        p[0] != '-',
        forall|j: int| 0 <= j < p.len() ==> #[trigger] p[j] != '(',
        !is_ws(p.last()),
    ensures
        filter_diff_spec(input) == "--- "@ + p + seq!['\n'],
{
    reveal_strlit("--- ");
    let l = "--- "@ + p + "  ("@ + x;
    lemma_diff_single(l);
    lemma_marker_path("--- "@, p, x);
    lemma_concat_one("--- "@ + p + seq!['\n']);
}

/// A `+++ {p}  ({x}` marker line comes out as `+++ {p}` and a newline.
pub proof fn law_diff_plus_line(input: Seq<char>, p: Seq<char>, x: Seq<char>)
    requires
        lines(input) == seq!["+++ "@ + p + "  ("@ + x],
        regex_compiles(INDEX_HEADER_PATTERN@),
        regex_compiles(SEPARATOR_PATTERN@),
        regex_compiles(DIFF_MINUS_PATTERN@),
        regex_compiles(DIFF_PLUS_PATTERN@),
        !regex_is_match(INDEX_HEADER_PATTERN@, "+++ "@ + p + "  ("@ + x),
        !regex_is_match(SEPARATOR_PATTERN@, "+++ "@ + p + "  ("@ + x),
        !regex_is_match(DIFF_MINUS_PATTERN@, "+++ "@ + p + "  ("@ + x),
        regex_is_match(DIFF_PLUS_PATTERN@, "+++ "@ + p + "  ("@ + x),
        p.len() > 0,
        p[0] != '+',
        forall|j: int| 0 <= j < p.len() ==> #[trigger] p[j] != '(',
        !is_ws(p.last()),
    ensures
        filter_diff_spec(input) == "+++ "@ + p + seq!['\n'],
{
    reveal_strlit("+++ ");
    let l = "+++ "@ + p + "  ("@ + x;
    lemma_diff_single(l);
    lemma_marker_path("+++ "@, p, x);
    lemma_concat_one("+++ "@ + p + seq!['\n']);
}

/// A text that does not have `p`'s character at some index of `p` does
/// not begin with `p`.
proof fn lemma_not_prefix(t: Seq<char>, p: Seq<char>, i: int)
    requires
        0 <= i < p.len(),
        i < t.len() ==> t[i] != p[i],
    ensures
        !starts_with(t, p),
{
    if starts_with(t, p) {
        assert(t.subrange(0, p.len() as int)[i] == t[i]);
    }
}

/// A text without `<`.
pub open spec fn no_lt(s: Seq<char>) -> bool {
    forall|j: int| 0 <= j < s.len() ==> #[trigger] s[j] != '<'
}

/// `t`, already without surrounding whitespace, trims to itself.
proof fn lemma_trimmed(t: Seq<char>)
    requires
        t.len() > 0,
        !is_ws(t[0]),
        !is_ws(t.last()),
    ensures
        trim(t) == t,
{
    lemma_trim_ws_prefix(Seq::empty(), t);
    assert(Seq::<char>::empty() + t =~= t);
}

/// Reading `<logentry revision="v">`.
proof fn lemma_step_entry_open(s: LogState, v: Seq<char>, c: Seq<char>)
    requires
        forall|j: int| 0 <= j < v.len() ==> #[trigger] v[j] != '"',
    ensures
        ({
            let r = log_step_trimmed(s, "<logentry revision=\""@ + v + "\">"@, c);
            &&& r.in_entry
            &&& r.rev == seq!['r'] + v
            &&& r.output == s.output
            &&& r.first_msg is None
            &&& !r.in_msg
            &&& r.author.len() == 0
            &&& r.date.len() == 0
        }),
{
    reveal_strlit("<logentry");
    reveal_strlit("<logentry revision=\"");
    reveal_strlit("revision=\"");
    reveal_strlit("\">");
    reveal_strlit("\"");
    let l0 = "<logentry revision=\""@ + v + "\">"@;
    let attr = "revision=\""@;
    assert forall|j: int| 0 <= j < 10 implies !#[trigger] occurs_at(l0, attr, j) by {
        if occurs_at(l0, attr, j) {
            assert(l0.subrange(j, j + 10)[0] == 'r');
            assert(l0.subrange(j, j + 10)[1] == 'e');
            if j == 7 {
                assert(l0[8] == 'y');
            } else {
                assert(l0[j] != 'r');
            }
        }
    }
    assert(l0.subrange(10, 20) =~= attr);
    lemma_find_from_skip(l0, attr, 0, 10);
    let rest = l0.subrange(20, l0.len() as int);
    assert(rest =~= v + "\">"@);
    assert forall|j: int| 0 <= j < v.len() implies !#[trigger] occurs_at(rest, "\""@, j) by {
        assert(rest.subrange(j, j + 1)[0] == v[j]);
    }
    assert(rest.subrange(v.len() as int, (v.len() + 1) as int) =~= "\""@);
    lemma_find_from_skip(rest, "\""@, 0, v.len() as int);
    assert(rest.subrange(0, v.len() as int) =~= v);
    assert(revision_attr(l0) == Some(v));
    assert(l0.subrange(0, 9) =~= "<logentry"@);
}

/// Reading `<author>a</author>` inside an entry whose revision is known.
proof fn lemma_step_author(s: LogState, a: Seq<char>, c: Seq<char>)
    requires
        s.in_entry,
        s.rev.len() > 0,
        no_lt(a),
    ensures
        log_step_trimmed(s, "<author>"@ + a + "</author>"@, c) == (LogState { author: trim(a), ..s }),
{
    reveal_strlit("<logentry");
    reveal_strlit("<author>");
    reveal_strlit("</author>");
    reveal_strlit("author");
    let l1 = "<author>"@ + a + "</author>"@;
    lemma_not_prefix(l1, "<logentry"@, 1);
    assert(l1.subrange(0, 8) =~= "<author>"@);
    assert(open_tag("author"@) =~= "<author>"@);
    assert(close_tag("author"@) =~= "</author>"@);
    law_xml_text_roundtrip("author"@, a);
}

/// Reading `<date>d</date>` inside an entry whose revision is known.
proof fn lemma_step_date(s: LogState, d: Seq<char>, c: Seq<char>)
    requires
        s.in_entry,
        s.rev.len() > 0,
        no_lt(d),
    ensures
        log_step_trimmed(s, "<date>"@ + d + "</date>"@, c) == (LogState {
            date: take_chars(d, 10),
            ..s
        }),
{
    reveal_strlit("<logentry");
    reveal_strlit("<author>");
    reveal_strlit("<date>");
    reveal_strlit("</date>");
    let l2 = "<date>"@ + d + "</date>"@;
    lemma_not_prefix(l2, "<logentry"@, 1);
    lemma_not_prefix(l2, "<author>"@, 1);
    assert(l2.subrange(0, 6) =~= "<date>"@);
    let after_open = l2.subrange(6, l2.len() as int);
    assert(after_open =~= d + "</date>"@);
    lemma_not_prefix(after_open, "<date>"@, if d.len() > 0 { 0 } else { 1 });
    assert(strip_all_prefixes(after_open, "<date>"@) == after_open);
    assert(strip_all_prefixes(l2, "<date>"@) == after_open);
    assert(after_open.subrange(d.len() as int, after_open.len() as int) =~= "</date>"@);
    assert(after_open.subrange(0, d.len() as int) =~= d);
    assert(!(7 <= d.len() && d.subrange(d.len() - 7, d.len() as int) == "</date>"@)) by {
        if 7 <= d.len() && d.subrange(d.len() - 7, d.len() as int) == "</date>"@ {
            assert(d.subrange(d.len() - 7, d.len() as int)[0] == d[d.len() - 7]);
        }
    }
    assert(strip_all_suffixes(d, "</date>"@) == d);
    assert(strip_all_suffixes(after_open, "</date>"@) == d);
}

/// Reading `<msg>m</msg>` inside an entry whose revision is known, before
/// any message line.
proof fn lemma_step_msg(s: LogState, m: Seq<char>, c: Seq<char>)
    requires
        s.in_entry,
        s.rev.len() > 0,
        s.first_msg is None,
        no_lt(m),
    ensures
        log_step_trimmed(s, "<msg>"@ + m + "</msg>"@, c) == (LogState {
            first_msg: Some(trim(m)),
            in_msg: false,
            ..s
        }),
{
    reveal_strlit("<logentry");
    reveal_strlit("<author>");
    reveal_strlit("<date>");
    reveal_strlit("</logentry>");
    reveal_strlit("<msg>");
    reveal_strlit("</msg>");
    reveal_strlit("<msg");
    reveal_strlit("msg");
    let l3 = "<msg>"@ + m + "</msg>"@;
    lemma_not_prefix(l3, "<logentry"@, 1);
    lemma_not_prefix(l3, "<author>"@, 1);
    lemma_not_prefix(l3, "<date>"@, 1);
    assert(l3 != "</logentry>"@) by {
        assert(l3[1] == 'm');
    }
    assert(l3.subrange(0, 4) =~= "<msg"@);
    assert(open_tag("msg"@) =~= "<msg>"@);
    assert(close_tag("msg"@) =~= "</msg>"@);
    law_xml_text_roundtrip("msg"@, m);
}

/// Reading `</logentry>` inside an entry whose revision is known reports it.
proof fn lemma_step_close(s: LogState, c: Seq<char>)
    requires
        s.in_entry,
        s.rev.len() > 0,
    ensures
        log_step_trimmed(s, "</logentry>"@, c).output == s.output + entry_report(s),
{
    reveal_strlit("<logentry");
    reveal_strlit("<author>");
    reveal_strlit("<date>");
    reveal_strlit("</logentry>");
    let l4 = "</logentry>"@;
    lemma_not_prefix(l4, "<logentry"@, 1);
    lemma_not_prefix(l4, "<author>"@, 1);
    lemma_not_prefix(l4, "<date>"@, 1);
}

/// A complete log entry, one element per line,
///
/// ```text
/// <logentry revision="v">
/// <author>a</author>
/// <date>d</date>
/// <msg>m</msg>
/// </logentry>
/// ```
///
/// is reported as `r{v} {a} {d} {m}`, with `a` and `m` trimmed and only the
/// first ten characters of `d`.
pub proof fn law_log_entry(
    input: Seq<char>,
    v: Seq<char>,
    a: Seq<char>,
    d: Seq<char>,
    m: Seq<char>,
)
    requires
        lines(input) == seq![
            "<logentry revision=\""@ + v + "\">"@,
            "<author>"@ + a + "</author>"@,
            "<date>"@ + d + "</date>"@,
            "<msg>"@ + m + "</msg>"@,
            "</logentry>"@,
        ],
        regex_compiles(MSG_CLOSE_PATTERN@),
        forall|j: int| 0 <= j < v.len() ==> #[trigger] v[j] != '"',
        no_lt(a),
        no_lt(d),
        no_lt(m),
    ensures
        filter_log_spec(input) == seq!['r'] + v + seq![' '] + trim(a) + seq![' '] + take_chars(d, 10)
            + seq![' '] + trim(m) + seq!['\n'],
{
    reveal_strlit("<logentry revision=\"");
    reveal_strlit("\">");
    reveal_strlit("<author>");
    reveal_strlit("</author>");
    reveal_strlit("<date>");
    reveal_strlit("</date>");
    reveal_strlit("<msg>");
    reveal_strlit("</msg>");
    reveal_strlit("</logentry>");
    let ls = lines(input);
    let cleaned = cleaned_per_line(ls);
    lemma_trimmed(ls[0]);
    lemma_trimmed(ls[1]);
    lemma_trimmed(ls[2]);
    lemma_trimmed(ls[3]);
    lemma_trimmed(ls[4]);
    let s0 = log_scan(ls, cleaned, 0);
    lemma_step_entry_open(s0, v, cleaned[0]);
    let s1 = log_scan(ls, cleaned, 1);
    assert(s1 == log_step_trimmed(s0, ls[0], cleaned[0]));
    lemma_step_author(s1, a, cleaned[1]);
    let s2 = log_scan(ls, cleaned, 2);
    assert(s2 == log_step_trimmed(s1, ls[1], cleaned[1]));
    lemma_step_date(s2, d, cleaned[2]);
    let s3 = log_scan(ls, cleaned, 3);
    assert(s3 == log_step_trimmed(s2, ls[2], cleaned[2]));
    lemma_step_msg(s3, m, cleaned[3]);
    let s4 = log_scan(ls, cleaned, 4);
    assert(s4 == log_step_trimmed(s3, ls[3], cleaned[3]));
    lemma_step_close(s4, cleaned[4]);
    let s5 = log_scan(ls, cleaned, 5);
    assert(s5 == log_step_trimmed(s4, ls[4], cleaned[4]));
    assert(s0.output.len() == 0);
    let out = seq!['r'] + v + seq![' '] + trim(a) + seq![' '] + take_chars(d, 10) + seq![' '] + trim(
        m,
    ) + seq!['\n'];
    assert(s5.output =~= out);
    assert(log_output(input, cleaned) == out);
}

/// In `<e1>x</e1>` (neither `e1` nor `x` holding `<`) there is no element
/// `e2` whose name starts otherwise than `e1`'s.
proof fn lemma_other_element_absent(e1: Seq<char>, x: Seq<char>, e2: Seq<char>)
    requires
        no_lt(e1),
        no_lt(x),
        e1.len() > 0,
        e2.len() > 0,
        e2[0] != e1[0],
        e2[0] != '/',
    ensures
        xml_text(open_tag(e1) + x + close_tag(e1), e2) is None,
{
    let t = open_tag(e1) + x + close_tag(e1);
    let o = open_tag(e2);
    let k = open_tag(e1).len() + x.len();
    assert forall|j: int| 0 <= j implies !#[trigger] occurs_at(t, o, j) by {
        if occurs_at(t, o, j) {
            assert(t.subrange(j, j + o.len())[0] == t[j]);
            assert(t.subrange(j, j + o.len())[1] == t[j + 1]);
            assert(t[j] == '<');
            assert(t[j + 1] == e2[0]);
            if j == 0 {
                assert(t[1] == e1[0]);
            } else if j < open_tag(e1).len() {
                assert(t[j] == e1[j - 1] || t[j] == '>');
            } else if j < k {
                assert(t[j] == x[j - open_tag(e1).len()]);
            } else if j == k {
                assert(t[j + 1] == '/');
            } else {
                assert(t[j] == close_tag(e1)[j - k]);
                assert(close_tag(e1)[j - k] == '/' || close_tag(e1)[j - k] == '>' || close_tag(
                    e1,
                )[j - k] == e1[j - k - 2]);
            }
        }
    }
    lemma_find_none_of_absent(t, o, 0);
}

/// A pattern that occurs nowhere is not found.
proof fn lemma_find_none_of_absent(s: Seq<char>, p: Seq<char>, i: int)
    requires
        0 <= i,
        forall|j: int| 0 <= j ==> !#[trigger] occurs_at(s, p, j),
    ensures
        find_from(s, p, i) is None,
    decreases s.len() + 1 - i,
{
    if i + p.len() <= s.len() {
        assert(!occurs_at(s, p, i));
        lemma_find_none_of_absent(s, p, i + 1);
    }
}

/// The value of `revision="..."` after a tag name of `n` characters without
/// `r`.
proof fn lemma_tag_revision(head: Seq<char>, v: Seq<char>)
    requires
        forall|j: int|
            0 <= j < head.len() && #[trigger] head[j] == 'r' ==> j + 1 < head.len() && head[j + 1]
                != 'e',
        forall|j: int| 0 <= j < v.len() ==> #[trigger] v[j] != '"',
    ensures
        revision_attr(head + "revision=\""@ + v + "\">"@) == Some(v),
{
    reveal_strlit("revision=\"");
    reveal_strlit("\">");
    reveal_strlit("\"");
    let t = head + "revision=\""@ + v + "\">"@;
    let attr = "revision=\""@;
    let n = head.len() as int;
    assert forall|j: int| 0 <= j < n implies !#[trigger] occurs_at(t, attr, j) by {
        if occurs_at(t, attr, j) {
            assert(t.subrange(j, j + 10)[0] == t[j]);
            assert(t.subrange(j, j + 10)[1] == t[j + 1]);
            assert(t[j] == head[j]);
            assert(head[j] == 'r');
            assert(t[j + 1] == head[j + 1]);
        }
    }
    assert(t.subrange(n, n + 10) =~= attr);
    lemma_find_from_skip(t, attr, 0, n);
    let rest = t.subrange(n + 10, t.len() as int);
    assert(rest =~= v + "\">"@);
    assert forall|j: int| 0 <= j < v.len() implies !#[trigger] occurs_at(rest, "\""@, j) by {
        assert(rest.subrange(j, j + 1)[0] == v[j]);
    }
    assert(rest.subrange(v.len() as int, (v.len() + 1) as int) =~= "\""@);
    lemma_find_from_skip(rest, "\""@, 0, v.len() as int);
    assert(rest.subrange(0, v.len() as int) =~= v);
}

/// The info scan reads one more line.
proof fn lemma_info_scan_step(ls: Seq<Seq<char>>, n: int)
    requires
        0 <= n < ls.len(),
        trim(ls[n]) == ls[n],
    ensures
        info_scan(ls.take(n + 1)) == info_step_trimmed(info_scan(ls.take(n)), ls[n]),
{
    assert(ls.take(n + 1).drop_last() =~= ls.take(n));
    assert(ls.take(n + 1).last() == ls[n]);
}

/// Reading `<entry revision="r">`.
proof fn lemma_info_open_entry(s: InfoState, r: Seq<char>)
    requires
        forall|j: int| 0 <= j < r.len() ==> #[trigger] r[j] != '"',
    ensures
        info_step_trimmed(s, "<entry "@ + "revision=\""@ + r + "\">"@) == (InfoState {
            in_entry: true,
            revision: r,
            ..s
        }),
{
    reveal_strlit("<entry ");
    reveal_strlit("<entry");
    lemma_tag_revision("<entry "@, r);
    let t = "<entry "@ + "revision=\""@ + r + "\">"@;
    assert(t.subrange(0, 6) =~= "<entry"@);
}

/// Reading `<url>u</url>` inside an entry whose revision is known.
proof fn lemma_info_url(s: InfoState, u: Seq<char>)
    requires
        s.in_entry,
        !s.in_commit,
        s.revision.len() > 0,
        no_lt(u),
    ensures
        info_step_trimmed(s, "<url>"@ + u + "</url>"@) == (InfoState { url: trim(u), ..s }),
{
    reveal_strlit("<url>");
    reveal_strlit("</url>");
    reveal_strlit("url");
    reveal_strlit("<entry");
    reveal_strlit("</entry>");
    reveal_strlit("<commit");
    reveal_strlit("</commit>");
    let t = "<url>"@ + u + "</url>"@;
    lemma_not_prefix(t, "<entry"@, 1);
    lemma_not_prefix(t, "<commit"@, 1);
    assert(t != "</entry>"@) by {
        assert(t[1] == 'u');
    }
    assert(t != "</commit>"@) by {
        assert(t[1] == 'u');
    }
    assert(open_tag("url"@) =~= "<url>"@);
    assert(close_tag("url"@) =~= "</url>"@);
    law_xml_text_roundtrip("url"@, u);
}

/// Reading `<commit revision="c">` inside an entry whose revision is known.
proof fn lemma_info_open_commit(s: InfoState, c: Seq<char>)
    requires
        s.in_entry,
        !s.in_commit,
        s.revision.len() > 0,
        forall|j: int| 0 <= j < c.len() ==> #[trigger] c[j] != '"',
    ensures
        info_step_trimmed(s, "<commit "@ + "revision=\""@ + c + "\">"@) == (InfoState {
            in_commit: true,
            last_changed_rev: c,
            ..s
        }),
{
    reveal_strlit("<commit ");
    reveal_strlit("<commit");
    reveal_strlit("<entry");
    reveal_strlit("</entry>");
    lemma_tag_revision("<commit "@, c);
    let t = "<commit "@ + "revision=\""@ + c + "\">"@;
    lemma_not_prefix(t, "<entry"@, 1);
    assert(t != "</entry>"@) by {
        assert(t[1] == 'c');
    }
    assert(t.subrange(0, 7) =~= "<commit"@);
}

/// What an element line `<e>x</e>` (`e` neither `entry` nor `commit`) does
/// inside a commit whose revision is known: it is read as commit content.
proof fn lemma_info_commit_content(s: InfoState, e: Seq<char>, x: Seq<char>)
    requires
        s.in_entry,
        s.in_commit,
        s.revision.len() > 0,
        s.last_changed_rev.len() > 0,
        e.len() > 0,
        e[0] != 'e' && e[0] != 'c' && e[0] != '/',
        no_lt(e),
    ensures
        info_step_trimmed(s, open_tag(e) + x + close_tag(e)) == (InfoState {
            last_changed_author: match xml_text(open_tag(e) + x + close_tag(e), "author"@) {
                Some(a) => a,
                None => s.last_changed_author,
            },
            last_changed_date: match xml_text(open_tag(e) + x + close_tag(e), "date"@) {
                Some(d) => take_chars(d, 10),
                None => s.last_changed_date,
            },
            ..s
        }),
{
    reveal_strlit("<entry");
    reveal_strlit("</entry>");
    reveal_strlit("<commit");
    reveal_strlit("</commit>");
    let t = open_tag(e) + x + close_tag(e);
    assert(t[1] == e[0]);
    lemma_not_prefix(t, "<entry"@, 1);
    lemma_not_prefix(t, "<commit"@, 1);
    assert(t != "</entry>"@) by {
        assert(t[1] != '/');
    }
    assert(t != "</commit>"@) by {
        assert(t[1] != '/');
    }
}

/// Reading `</commit>` inside an entry whose revision is known.
proof fn lemma_info_close_commit(s: InfoState)
    requires
        s.in_entry,
        s.revision.len() > 0,
        s.last_changed_rev.len() > 0,
    ensures
        info_step_trimmed(s, "</commit>"@) == (InfoState { in_commit: false, ..s }),
{
    reveal_strlit("<entry");
    reveal_strlit("</entry>");
    reveal_strlit("<commit");
    reveal_strlit("</commit>");
    let t = "</commit>"@;
    lemma_not_prefix(t, "<entry"@, 1);
    lemma_not_prefix(t, "<commit"@, 1);
    assert(t != "</entry>"@) by {
        assert(t[2] == 'c');
    }
}

/// Reading `</entry>`.
proof fn lemma_info_close_entry(s: InfoState)
    ensures
        info_step_trimmed(s, "</entry>"@) == (InfoState { in_entry: false, in_commit: false, ..s }),
{
    reveal_strlit("<entry");
    reveal_strlit("</entry>");
    lemma_not_prefix("</entry>"@, "<entry"@, 1);
}

/// A complete `svn info --xml` entry, one element per line,
///
/// ```text
/// <entry revision="r">
/// <url>u</url>
/// <commit revision="c">
/// <author>a</author>
/// <date>d</date>
/// </commit>
/// </entry>
/// ```
///
/// is reported as `URL:      {u}`, `Revision: {r}` and
/// `Last:     {c} {a} {d}` (texts trimmed, the date cut to ten characters).
pub proof fn law_info_entry(
    input: Seq<char>,
    r: Seq<char>,
    u: Seq<char>,
    c: Seq<char>,
    a: Seq<char>,
    d: Seq<char>,
)
    requires
        lines(input) == seq![
            "<entry "@ + "revision=\""@ + r + "\">"@,
            "<url>"@ + u + "</url>"@,
            "<commit "@ + "revision=\""@ + c + "\">"@,
            "<author>"@ + a + "</author>"@,
            "<date>"@ + d + "</date>"@,
            "</commit>"@,
            "</entry>"@,
        ],
        r.len() > 0,
        c.len() > 0,
        trim(u).len() > 0,
        trim(a).len() > 0,
        trim(d).len() > 0,
        forall|j: int| 0 <= j < r.len() ==> #[trigger] r[j] != '"',
        forall|j: int| 0 <= j < c.len() ==> #[trigger] c[j] != '"',
        no_lt(u),
        no_lt(a),
        no_lt(d),
    ensures
        filter_info_spec(input) == "URL:      "@ + trim(u) + seq!['\n'] + "Revision: "@ + r + seq![
            '\n',
        ] + "Last:     "@ + c + seq![' '] + trim(a) + seq![' '] + take_chars(trim(d), 10) + seq![
            '\n',
        ],
{
    reveal_strlit("<entry ");
    reveal_strlit("<commit ");
    reveal_strlit("revision=\"");
    reveal_strlit("\">");
    reveal_strlit("<url>");
    reveal_strlit("</url>");
    reveal_strlit("<author>");
    reveal_strlit("</author>");
    reveal_strlit("author");
    reveal_strlit("<date>");
    reveal_strlit("</date>");
    reveal_strlit("date");
    reveal_strlit("</commit>");
    reveal_strlit("</entry>");
    let ls = lines(input);
    lemma_trimmed(ls[0]);
    lemma_trimmed(ls[1]);
    lemma_trimmed(ls[2]);
    lemma_trimmed(ls[3]);
    lemma_trimmed(ls[4]);
    lemma_trimmed(ls[5]);
    lemma_trimmed(ls[6]);
    let s0 = info_scan(ls.take(0));
    assert(ls.take(0) =~= Seq::<Seq<char>>::empty());
    lemma_info_scan_step(ls, 0);
    lemma_info_scan_step(ls, 1);
    lemma_info_scan_step(ls, 2);
    lemma_info_scan_step(ls, 3);
    lemma_info_scan_step(ls, 4);
    lemma_info_scan_step(ls, 5);
    lemma_info_scan_step(ls, 6);
    lemma_info_open_entry(s0, r);
    let s1 = info_scan(ls.take(1));
    lemma_info_url(s1, u);
    let s2 = info_scan(ls.take(2));
    lemma_info_open_commit(s2, c);
    let s3 = info_scan(ls.take(3));
    assert("<author>"@ + a + "</author>"@ == open_tag("author"@) + a + close_tag("author"@));
    lemma_info_commit_content(s3, "author"@, a);
    law_xml_text_roundtrip("author"@, a);
    lemma_other_element_absent("author"@, a, "date"@);
    let s4 = info_scan(ls.take(4));
    assert(s4.last_changed_author == trim(a));
    assert("<date>"@ + d + "</date>"@ == open_tag("date"@) + d + close_tag("date"@));
    lemma_info_commit_content(s4, "date"@, d);
    law_xml_text_roundtrip("date"@, d);
    lemma_other_element_absent("date"@, d, "author"@);
    let s5 = info_scan(ls.take(5));
    assert(s5.last_changed_date == take_chars(trim(d), 10));
    lemma_info_close_commit(s5);
    let s6 = info_scan(ls.take(6));
    lemma_info_close_entry(s6);
    let s7 = info_scan(ls.take(7));
    assert(ls.take(7) =~= ls);
    assert(s7.url == trim(u) && s7.revision == r && s7.last_changed_rev == c);
    assert(s7.last_changed_author == trim(a) && s7.last_changed_date == take_chars(trim(d), 10));
    assert(take_chars(trim(d), 10).len() > 0);
    let out = "URL:      "@ + trim(u) + seq!['\n'] + "Revision: "@ + r + seq!['\n'] + "Last:     "@
        + c + seq![' '] + trim(a) + seq![' '] + take_chars(trim(d), 10) + seq!['\n'];
    assert(last_line(s7) =~= "Last:     "@ + c + seq![' '] + trim(a) + seq![' '] + take_chars(
        trim(d),
        10,
    ) + seq!['\n']);
    assert(info_report(s7) =~= out);
}

/// Reading a text line that is no tag, outside the message, inside an
/// entry whose revision is known: nothing changes.
proof fn lemma_step_text_outside_msg(s: LogState, t: Seq<char>, c: Seq<char>)
    requires
        s.in_entry,
        !s.in_msg,
        s.rev.len() > 0,
        t.len() > 0,
        t[0] != '<',
    ensures
        log_step_trimmed(s, t, c) == s,
{
    reveal_strlit("<logentry");
    reveal_strlit("<author>");
    reveal_strlit("<date>");
    reveal_strlit("</logentry>");
    reveal_strlit("<msg");
    reveal_strlit("</msg>");
    reveal_strlit("<");
    lemma_not_prefix(t, "<logentry"@, 0);
    lemma_not_prefix(t, "<author>"@, 0);
    lemma_not_prefix(t, "<date>"@, 0);
    lemma_not_prefix(t, "<msg"@, 0);
    lemma_not_prefix(t, "<"@, 0);
    assert(t != "</logentry>"@) by {
        assert("</logentry>"@[0] == '<');
    }
    assert(t != "</msg>"@) by {
        assert("</msg>"@[0] == '<');
    }
}

/// `<msg>m` (no `<` in `m`) holds no whole message element, has its `>`
/// right after `<msg`, and does not end with `</msg>`.
proof fn lemma_open_msg_line(m: Seq<char>)
    requires
        no_lt(m),
        m.len() > 0,
    ensures
        xml_text("<msg>"@ + m, "msg"@) is None,
        find("<msg>"@ + m, ">"@) == Some(4int),
        !ends_with("<msg>"@ + m, "</msg>"@),
        starts_with("<msg>"@ + m, "<msg"@),
{
    reveal_strlit("<msg>");
    reveal_strlit("</msg>");
    reveal_strlit("<msg");
    reveal_strlit(">");
    reveal_strlit("msg");
    let t = "<msg>"@ + m;
    assert(t.subrange(0, 4) =~= "<msg"@);
    // no closing tag after the opening one
    assert(open_tag("msg"@) =~= "<msg>"@);
    assert(close_tag("msg"@) =~= "</msg>"@);
    assert(t.subrange(0, 5) =~= "<msg>"@);
    assert(find(t, "<msg>"@) == Some(0int));
    let rest = t.subrange(5, t.len() as int);
    assert(rest =~= m);
    assert forall|j: int| 0 <= j implies !#[trigger] occurs_at(rest, "</msg>"@, j) by {
        if occurs_at(rest, "</msg>"@, j) {
            assert(rest.subrange(j, j + 6)[0] == rest[j]);
        }
    }
    lemma_find_none_of_absent(rest, "</msg>"@, 0);
    // the first `>` closes `<msg>`
    assert forall|j: int| 0 <= j < 4 implies !#[trigger] occurs_at(t, ">"@, j) by {
        if occurs_at(t, ">"@, j) {
            assert(t.subrange(j, j + 1)[0] == t[j]);
        }
    }
    assert(t.subrange(4, 5) =~= ">"@);
    lemma_find_from_skip(t, ">"@, 0, 4);
    // `</msg>` would need a `<` six characters before the end
    if ends_with(t, "</msg>"@) {
        let w = t.len() - 6;
        assert(t.subrange(w, t.len() as int)[0] == t[w]);
        assert(t.subrange(w, t.len() as int)[1] == t[w + 1]);
        if w >= 5 {
            assert(t[w] == m[w - 5]);
        } else if w == 0 {
            assert(t[1] == 'm');
        } else {
            assert(t[w] != '<');
        }
    }
}

/// A log entry with a text line outside the message (such as the attribute
/// line of a `<path>` in `svn log -v`) and a message over two lines,
///
/// ```text
/// <logentry revision="v">
/// t
/// <msg>m1
/// m2</msg>
/// </logentry>
/// ```
///
/// is reported with the message's first line, `m1` once the closing-tag
/// regex has been applied and trimmed: never with `t`, never with `m2`.
pub proof fn law_log_message_first_line(
    input: Seq<char>,
    v: Seq<char>,
    t: Seq<char>,
    m1: Seq<char>,
    m2: Seq<char>,
)
    requires
        lines(input) == seq![
            "<logentry revision=\""@ + v + "\">"@,
            t,
            "<msg>"@ + m1,
            m2 + "</msg>"@,
            "</logentry>"@,
        ],
        regex_compiles(MSG_CLOSE_PATTERN@),
        forall|j: int| 0 <= j < v.len() ==> #[trigger] v[j] != '"',
        t.len() > 0,
        t[0] != '<',
        !is_ws(t[0]),
        !is_ws(t.last()),
        m1.len() > 0,
        no_lt(m1),
        !is_ws(m1.last()),
        m2.len() > 0,
        m2[0] != '<',
        !is_ws(m2[0]),
    ensures
        filter_log_spec(input) == seq!['r'] + v + seq![' ', ' ', ' '] + trim(
            regex_replace(MSG_CLOSE_PATTERN@, m1, ""@),
        ) + seq!['\n'],
{
    reveal_strlit("<logentry revision=\"");
    reveal_strlit("\">");
    reveal_strlit("<msg>");
    reveal_strlit("</msg>");
    reveal_strlit("</logentry>");
    reveal_strlit("<logentry");
    reveal_strlit("<author>");
    reveal_strlit("<date>");
    reveal_strlit("<msg");
    reveal_strlit("<");
    let ls = lines(input);
    let cleaned = cleaned_per_line(ls);
    lemma_trimmed(ls[0]);
    lemma_trimmed(ls[1]);
    lemma_trimmed(ls[2]);
    lemma_trimmed(ls[3]);
    lemma_trimmed(ls[4]);
    lemma_open_msg_line(m1);
    let l2 = "<msg>"@ + m1;
    assert(l2.subrange(5, l2.len() as int) =~= m1);
    assert(msg_haystack(l2) == Some(m1));
    assert(cleaned[2] == regex_replace(MSG_CLOSE_PATTERN@, m1, ""@));
    let s0 = log_scan(ls, cleaned, 0);
    lemma_step_entry_open(s0, v, cleaned[0]);
    let s1 = log_scan(ls, cleaned, 1);
    assert(s1 == log_step_trimmed(s0, ls[0], cleaned[0]));
    lemma_step_text_outside_msg(s1, t, cleaned[1]);
    let s2 = log_scan(ls, cleaned, 2);
    assert(s2 == log_step_trimmed(s1, ls[1], cleaned[1]));
    assert(s2 == s1);
    // the `<msg>m1` line opens the message and gives its first line
    lemma_not_prefix(l2, "<logentry"@, 1);
    lemma_not_prefix(l2, "<author>"@, 1);
    lemma_not_prefix(l2, "<date>"@, 1);
    assert(l2 != "</logentry>"@) by {
        assert(l2[1] == 'm');
    }
    let s3 = log_scan(ls, cleaned, 3);
    assert(s3 == log_step_trimmed(s2, ls[2], cleaned[2]));
    let first = trim(regex_replace(MSG_CLOSE_PATTERN@, m1, ""@));
    assert(s3.first_msg == Some(first) && s3.in_msg && s3.in_entry && s3.rev == s1.rev);
    // the second message line keeps the first one
    let l3 = m2 + "</msg>"@;
    lemma_not_prefix(l3, "<logentry"@, 0);
    lemma_not_prefix(l3, "<author>"@, 0);
    lemma_not_prefix(l3, "<date>"@, 0);
    lemma_not_prefix(l3, "<msg"@, 0);
    lemma_not_prefix(l3, "<"@, 0);
    assert(l3 != "</logentry>"@) by {
        assert(l3[0] == m2[0]);
    }
    assert(l3 != "</msg>"@) by {
        assert(l3[0] == m2[0]);
    }
    let s4 = log_scan(ls, cleaned, 4);
    assert(s4 == log_step_trimmed(s3, ls[3], cleaned[3]));
    assert(s4.first_msg == Some(first) && s4.in_entry && s4.rev == s1.rev);
    assert(s4.author.len() == 0 && s4.date.len() == 0);
    lemma_step_close(s4, cleaned[4]);
    let s5 = log_scan(ls, cleaned, 5);
    assert(s5 == log_step_trimmed(s4, ls[4], cleaned[4]));
    assert(s0.output.len() == 0);
    let out = seq!['r'] + v + seq![' ', ' ', ' '] + first + seq!['\n'];
    assert(entry_report(s4) =~= out);
    assert(s5.output =~= out);
    assert(log_output(input, cleaned) == out);
}

} // verus!
