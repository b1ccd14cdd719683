//! Properties of the filters as a whole.

use vstd::prelude::*;
use crate::add::{add_pieces, filter_add_spec, ADD_LINE_PATTERN};
use crate::blame::{blame_pieces, filter_blame_spec, BLAME_LINE_PATTERN};
use crate::commands::without;
use crate::commit::{commit_pieces, filter_commit_spec, COMMITTED_PATTERN};
use crate::info::{
    filter_info_spec, info_report, info_scan, leading_revision_attr, revision_attr, InfoState,
};
use crate::log::{cleaned_per_line, entry_report, filter_log_spec, log_output, log_scan};
use crate::pattern::{
    captures_per_line, matches_per_line, regex_captures, regex_compiles, regex_is_match,
};
use crate::status::{filter_status_spec, status_pieces, STATUS_LINE_PATTERN};
use crate::text::{
    concat, find, find_from, lemma_concat_empty, lemma_find_none_trim, lemma_lines_nonempty, lines, lemma_split_state_no_newline,
    occurs_at, split_state, starts_with, take_chars, trim,
};
use crate::update::{filter_update_spec, update_pieces, UPDATED_TO_PATTERN, UPDATE_ACTION_PATTERN};
use crate::xml::{close_tag, open_tag, xml_text};

verus! {

/// Output is never swallowed: every filter but the diff filter answers a
/// non-empty input with a non-empty output (the line filters fall back to
/// the raw input when they keep nothing; blame keeps every line).
pub proof fn law_nonempty_output(input: Seq<char>)
    requires
        input.len() > 0,
    ensures
        filter_status_spec(input).len() > 0,
        filter_log_spec(input).len() > 0,
        filter_info_spec(input).len() > 0,
        filter_blame_spec(input).len() > 0,
        filter_add_spec(input).len() > 0,
        filter_commit_spec(input).len() > 0,
        filter_update_spec(input).len() > 0,
{
    let ls = lines(input);
    lemma_lines_nonempty(input);
    let ps = blame_pieces(ls, captures_per_line(BLAME_LINE_PATTERN@, ls));
    assert(ps[0].len() > 0);
    lemma_concat_empty(ps);
}

/// When the status regex recognizes no line, the status filter hands the
/// input back unchanged.
pub proof fn law_status_passthrough(input: Seq<char>)
    requires
        forall|i: int|
            0 <= i < lines(input).len() ==> #[trigger] regex_captures(
                STATUS_LINE_PATTERN@,
                lines(input)[i],
            ) is None,
    ensures
        filter_status_spec(input) == input,
{
    let ps = status_pieces(captures_per_line(STATUS_LINE_PATTERN@, lines(input)));
    assert forall|i: int| 0 <= i < ps.len() implies #[trigger] ps[i].len() == 0 by {
        assert(regex_captures(STATUS_LINE_PATTERN@, lines(input)[i]) is None);
    }
    lemma_concat_empty(ps);
}

/// When the add regex matches no line, the add filter hands the input back
/// unchanged.
pub proof fn law_add_passthrough(input: Seq<char>)
    requires
        forall|i: int|
            0 <= i < lines(input).len() ==> !#[trigger] regex_is_match(
                ADD_LINE_PATTERN@,
                lines(input)[i],
            ),
    ensures
        filter_add_spec(input) == input,
{
    let ps = add_pieces(lines(input), matches_per_line(ADD_LINE_PATTERN@, lines(input)));
    assert forall|i: int| 0 <= i < ps.len() implies #[trigger] ps[i].len() == 0 by {
        assert(!regex_is_match(ADD_LINE_PATTERN@, lines(input)[i]));
    }
    lemma_concat_empty(ps);
}

/// When no line reports a committed revision, the commit filter hands the
/// input back unchanged.
pub proof fn law_commit_passthrough(input: Seq<char>)
    requires
        forall|i: int|
            0 <= i < lines(input).len() ==> !#[trigger] regex_is_match(
                COMMITTED_PATTERN@,
                lines(input)[i],
            ),
    ensures
        filter_commit_spec(input) == input,
{
    let ps = commit_pieces(lines(input), matches_per_line(COMMITTED_PATTERN@, lines(input)));
    assert forall|i: int| 0 <= i < ps.len() implies #[trigger] ps[i].len() == 0 by {
        assert(!regex_is_match(COMMITTED_PATTERN@, lines(input)[i]));
    }
    lemma_concat_empty(ps);
}

/// When no line is an action line or a revision line, the update filter
/// hands the input back unchanged.
pub proof fn law_update_passthrough(input: Seq<char>)
    requires
        forall|i: int|
            0 <= i < lines(input).len() ==> #[trigger] regex_captures(
                UPDATE_ACTION_PATTERN@,
                lines(input)[i],
            ) is None && regex_captures(UPDATED_TO_PATTERN@, lines(input)[i]) is None,
    ensures
        filter_update_spec(input) == input,
{
    let ps = update_pieces(
        captures_per_line(UPDATE_ACTION_PATTERN@, lines(input)),
        captures_per_line(UPDATED_TO_PATTERN@, lines(input)),
    );
    assert forall|i: int| 0 <= i < ps.len() implies #[trigger] ps[i].len() == 0 by {
        assert(regex_captures(UPDATE_ACTION_PATTERN@, lines(input)[i]) is None);
    }
    lemma_concat_empty(ps);
}

/// Without a line that closes an entry, or without any `revision="`
/// attribute, nothing is reported.
proof fn lemma_log_scan_quiet(ls: Seq<Seq<char>>, cleaned: Seq<Seq<char>>, n: int)
    requires
        0 <= n <= ls.len(),
        (forall|i: int| 0 <= i < ls.len() ==> #[trigger] trim(ls[i]) != "</logentry>"@) || (forall|
            i: int,
        |
            0 <= i < ls.len() ==> find(#[trigger] trim(ls[i]), "revision=\""@) is None),
    ensures
        log_scan(ls, cleaned, n).output.len() == 0,
        (forall|i: int| 0 <= i < ls.len() ==> find(#[trigger] trim(ls[i]), "revision=\""@) is None)
            ==> log_scan(ls, cleaned, n).rev.len() == 0,
    decreases n,
{
    if n > 0 {
        lemma_log_scan_quiet(ls, cleaned, n - 1);
        let t = trim(ls[n - 1]);
        assert(t == trim(ls[n - 1]));
        if forall|i: int| 0 <= i < ls.len() ==> find(#[trigger] trim(ls[i]), "revision=\""@) is None {
            assert(find(t, "revision=\""@) is None);
            if starts_with(t, "revision=\""@) {
                assert(find_from(t, "revision=\""@, 0) == Some(0int));
            }
        } else {
            assert(t != "</logentry>"@);
        }
    }
}

/// A text with no complete log entry (no line closing an entry, or no
/// `revision="` attribute anywhere, such as partial XML cut short by an
/// error) passes through the log filter unchanged.
pub proof fn law_log_passthrough(input: Seq<char>)
    requires
        (forall|i: int|
            0 <= i < lines(input).len() ==> #[trigger] trim(lines(input)[i]) != "</logentry>"@) || (
        forall|i: int|
            0 <= i < lines(input).len() ==> find(#[trigger] lines(input)[i], "revision=\""@) is None),
    ensures
        filter_log_spec(input) == input,
{
    let ls = lines(input);
    let cleaned = cleaned_per_line(ls);
    if !(forall|i: int| 0 <= i < ls.len() ==> #[trigger] trim(ls[i]) != "</logentry>"@) {
        assert forall|i: int| 0 <= i < ls.len() implies find(
            #[trigger] trim(ls[i]),
            "revision=\""@,
        ) is None by {
            assert(find(ls[i], "revision=\""@) is None);
            lemma_find_none_trim(ls[i], "revision=\""@);
        }
    }
    lemma_log_scan_quiet(ls, cleaned, ls.len() as int);
    assert(log_output(input, cleaned) == input);
}

/// Without `<url>` and `revision="` nothing is gathered.
proof fn lemma_info_scan_quiet(ls: Seq<Seq<char>>)
    requires
        forall|i: int|
            0 <= i < ls.len() ==> find(#[trigger] trim(ls[i]), "<url>"@) is None && find(
                trim(ls[i]),
                "revision=\""@,
            ) is None,
    ensures
        ({
            let s: InfoState = info_scan(ls);
            &&& s.url.len() == 0
            &&& s.revision.len() == 0
            &&& s.last_changed_rev.len() == 0
        }),
    decreases ls.len(),
{
    if ls.len() > 0 {
        let front = ls.drop_last();
        assert forall|i: int| 0 <= i < front.len() implies find(#[trigger] trim(front[i]), "<url>"@)
            is None && find(trim(front[i]), "revision=\""@) is None by {
            assert(front[i] == ls[i]);
            assert(find(trim(ls[i]), "<url>"@) is None);
        }
        lemma_info_scan_quiet(front);
        let t = trim(ls[ls.len() - 1]);
        assert(find(t, "<url>"@) is None && find(t, "revision=\""@) is None);
        if starts_with(t, "revision=\""@) {
            assert(find_from(t, "revision=\""@, 0) == Some(0int));
        }
        reveal_strlit("url");
        reveal_strlit("<url>");
        assert(open_tag("url"@) =~= "<url>"@);
    }
}

/// A text with neither a `<url>` nor a `revision="` attribute (such as an
/// error report) passes through the info filter unchanged.
pub proof fn law_info_passthrough(input: Seq<char>)
    requires
        forall|i: int|
            0 <= i < lines(input).len() ==> find(#[trigger] lines(input)[i], "<url>"@) is None
                && find(lines(input)[i], "revision=\""@) is None,
    ensures
        filter_info_spec(input) == input,
{
    let ls = lines(input);
    assert forall|i: int| 0 <= i < ls.len() implies find(#[trigger] trim(ls[i]), "<url>"@) is None
        && find(trim(ls[i]), "revision=\""@) is None by {
        assert(find(ls[i], "<url>"@) is None);
        lemma_find_none_trim(ls[i], "<url>"@);
        lemma_find_none_trim(ls[i], "revision=\""@);
    }
    lemma_info_scan_quiet(ls);
}

/// One reported log entry: `{rev} {author} {date} {message}` and a
/// newline.
pub open spec fn entry_line(rev: Seq<char>, author: Seq<char>, date: Seq<char>, msg: Seq<char>) -> Seq<
    char,
> {
    rev + seq![' '] + author + seq![' '] + date + seq![' '] + msg + seq!['\n']
}

/// `l` reports one log entry: its revision begins with `r`, its date is at
/// most ten characters.
pub open spec fn is_entry_line(l: Seq<char>) -> bool {
    exists|rev: Seq<char>, author: Seq<char>, date: Seq<char>, msg: Seq<char>|
        #[trigger] entry_line(rev, author, date, msg) == l && rev.len() > 0 && rev[0] == 'r'
            && date.len() <= 10
}

/// The output of the log scan so far is a run of entry lines.
proof fn lemma_log_output_entries(ls: Seq<Seq<char>>, cleaned: Seq<Seq<char>>, n: int)
    requires
        0 <= n <= ls.len(),
    ensures
        log_scan(ls, cleaned, n).date.len() <= 10,
        log_scan(ls, cleaned, n).rev.len() > 0 ==> log_scan(ls, cleaned, n).rev[0] == 'r',
        exists|rs: Seq<Seq<char>>|
            log_scan(ls, cleaned, n).output == concat(rs) && forall|k: int|
                0 <= k < rs.len() ==> is_entry_line(#[trigger] rs[k]),
    decreases n,
{
    if n == 0 {
        let rs: Seq<Seq<char>> = Seq::empty();
        assert(log_scan(ls, cleaned, n).output == concat(rs));
    } else {
        lemma_log_output_entries(ls, cleaned, n - 1);
        let s0 = log_scan(ls, cleaned, n - 1);
        let s = log_scan(ls, cleaned, n);
        let rs0 = choose|rs: Seq<Seq<char>>|
            s0.output == concat(rs) && forall|k: int|
                0 <= k < rs.len() ==> is_entry_line(#[trigger] rs[k]);
        if s.output == s0.output {
            assert(s.output == concat(rs0));
        } else {
            let m = match s0.first_msg {
                Some(x) => x,
                None => Seq::empty(),
            };
            assert(s.output == s0.output + entry_report(s0));
            assert(entry_report(s0) == entry_line(s0.rev, s0.author, s0.date, m));
            assert(is_entry_line(entry_report(s0)));
            let rs = rs0.push(entry_report(s0));
            assert(rs.drop_last() =~= rs0);
            assert forall|k: int| 0 <= k < rs.len() implies is_entry_line(#[trigger] rs[k]) by {
                if k < rs0.len() {
                    assert(rs[k] == rs0[k]);
                }
            }
            assert(s.output == concat(rs));
        }
    }
}

/// The shape of `svn log` output: either the input itself, or a run of
/// entry lines `{rev} {author} {date} {message}`, each revision beginning
/// with `r` and each date at most ten characters.
pub proof fn law_log_report_shape(input: Seq<char>)
    ensures
        filter_log_spec(input) == input || exists|rs: Seq<Seq<char>>|
            filter_log_spec(input) == concat(rs) && forall|k: int|
                0 <= k < rs.len() ==> is_entry_line(#[trigger] rs[k]),
{
    let ls = lines(input);
    lemma_log_output_entries(ls, cleaned_per_line(ls), ls.len() as int);
}

/// The first ten characters of the `<date>` element of `t`.
pub open spec fn date_value(t: Seq<char>) -> Option<Seq<char>> {
    match xml_text(t, "date"@) {
        Some(d) => Some(take_chars(d, 10)),
        None => None,
    }
}

/// Line `i` of `ls`, read inside an entry and outside its commit, holds
/// `<url>v</url>`.
pub open spec fn url_at(ls: Seq<Seq<char>>, i: int, v: Seq<char>) -> bool {
    let s = info_scan(ls.take(i));
    s.in_entry && !s.in_commit && xml_text(trim(ls[i]), "url"@) == Some(v)
}

/// Line `i` of `ls`, read inside a commit, holds `<author>v</author>`.
pub open spec fn author_at(ls: Seq<Seq<char>>, i: int, v: Seq<char>) -> bool {
    info_scan(ls.take(i)).in_commit && xml_text(trim(ls[i]), "author"@) == Some(v)
}

/// Line `i` of `ls`, read inside a commit, holds a `<date>` whose first ten
/// characters are `v`.
pub open spec fn date_at(ls: Seq<Seq<char>>, i: int, v: Seq<char>) -> bool {
    info_scan(ls.take(i)).in_commit && date_value(trim(ls[i])) == Some(v)
}

/// Line `i` of `ls` is an `<entry` line with `revision="v"`, or a
/// `revision="v"` line read inside an entry.
pub open spec fn entry_revision_at(ls: Seq<Seq<char>>, i: int, v: Seq<char>) -> bool {
    let t = trim(ls[i]);
    ||| starts_with(t, "<entry"@) && revision_attr(t) == Some(v)
    ||| info_scan(ls.take(i)).in_entry && leading_revision_attr(t) == Some(v)
}

/// Line `i` of `ls` is a `<commit` line with `revision="v"`, or a
/// `revision="v"` line read inside a commit.
pub open spec fn commit_revision_at(ls: Seq<Seq<char>>, i: int, v: Seq<char>) -> bool {
    let t = trim(ls[i]);
    ||| starts_with(t, "<commit"@) && revision_attr(t) == Some(v)
    ||| info_scan(ls.take(i)).in_commit && leading_revision_attr(t) == Some(v)
}

/// Where each value gathered by the info scan comes from.
pub open spec fn info_values_from(s: InfoState, ls: Seq<Seq<char>>) -> bool {
    &&& s.last_changed_date.len() <= 10
    &&& s.url.len() > 0 ==> exists|i: int| 0 <= i < ls.len() && #[trigger] url_at(ls, i, s.url)
    &&& s.last_changed_author.len() > 0 ==> exists|i: int|
        0 <= i < ls.len() && #[trigger] author_at(ls, i, s.last_changed_author)
    &&& s.last_changed_date.len() > 0 ==> exists|i: int|
        0 <= i < ls.len() && #[trigger] date_at(ls, i, s.last_changed_date)
    &&& s.revision.len() > 0 ==> exists|i: int|
        0 <= i < ls.len() && #[trigger] entry_revision_at(ls, i, s.revision)
    &&& s.last_changed_rev.len() > 0 ==> exists|i: int|
        0 <= i < ls.len() && #[trigger] commit_revision_at(ls, i, s.last_changed_rev)
}

/// What holds of a line of the front of `ls` holds of it in `ls`.
proof fn lemma_info_at_front(ls: Seq<Seq<char>>, i: int)
    requires
        0 <= i < ls.len() - 1,
    ensures
        ls.take(i) == ls.drop_last().take(i),
        ls[i] == ls.drop_last()[i],
{
    assert(ls.take(i) =~= ls.drop_last().take(i));
}

proof fn lemma_info_values_from(ls: Seq<Seq<char>>)
    ensures
        info_values_from(info_scan(ls), ls),
    decreases ls.len(),
{
    if ls.len() > 0 {
        let front = ls.drop_last();
        lemma_info_values_from(front);
        let s0 = info_scan(front);
        let s = info_scan(ls);
        let n = ls.len() - 1;
        let t = trim(ls[n]);
        assert(ls.take(n) =~= front);
        assert(ls[n] == ls.last());
        if s.url.len() > 0 {
            if s.url == s0.url {
                let i = choose|i: int| 0 <= i < front.len() && #[trigger] url_at(front, i, s0.url);
                lemma_info_at_front(ls, i);
                assert(url_at(ls, i, s.url));
            } else {
                assert(url_at(ls, n, s.url));
            }
        }
        if s.last_changed_author.len() > 0 {
            if s.last_changed_author == s0.last_changed_author {
                let i = choose|i: int|
                    0 <= i < front.len() && #[trigger] author_at(front, i, s0.last_changed_author);
                lemma_info_at_front(ls, i);
                assert(author_at(ls, i, s.last_changed_author));
            } else {
                assert(author_at(ls, n, s.last_changed_author));
            }
        }
        if s.last_changed_date.len() > 0 {
            if s.last_changed_date == s0.last_changed_date {
                let i = choose|i: int|
                    0 <= i < front.len() && #[trigger] date_at(front, i, s0.last_changed_date);
                lemma_info_at_front(ls, i);
                assert(date_at(ls, i, s.last_changed_date));
            } else {
                assert(date_at(ls, n, s.last_changed_date));
            }
        }
        if s.revision.len() > 0 {
            if s.revision == s0.revision {
                let i = choose|i: int|
                    0 <= i < front.len() && #[trigger] entry_revision_at(front, i, s0.revision);
                lemma_info_at_front(ls, i);
                assert(entry_revision_at(ls, i, s.revision));
            } else {
                assert(entry_revision_at(ls, n, s.revision));
            }
        }
        if s.last_changed_rev.len() > 0 {
            if s.last_changed_rev == s0.last_changed_rev {
                let i = choose|i: int|
                    0 <= i < front.len() && #[trigger] commit_revision_at(front, i, s0.last_changed_rev);
                lemma_info_at_front(ls, i);
                assert(commit_revision_at(ls, i, s.last_changed_rev));
            } else {
                assert(commit_revision_at(ls, n, s.last_changed_rev));
            }
        }
    }
}

/// The shape of `svn info` output: either the input itself, or the report
/// lines (`URL:`, `Revision:`, `Last:`, each only when found, in that
/// order) of values that each come from the right place in the input: the
/// URL from a `<url>` read inside an entry and outside its commit, the
/// revision from the entry's `revision="..."` attribute, the last changed
/// revision from the commit's, the author from an `<author>` read inside a
/// commit and the date from the first ten characters of a `<date>` read
/// inside a commit.
pub proof fn law_info_report_shape(input: Seq<char>)
    ensures
        filter_info_spec(input) == input || filter_info_spec(input) == info_report(
            info_scan(lines(input)),
        ),
        info_values_from(info_scan(lines(input)), lines(input)),
{
    lemma_info_values_from(lines(input));
}

/// The user's `--xml` is never passed on twice: what `without` keeps holds
/// no `x`.
pub proof fn law_without_drops_all(args: Seq<Seq<char>>, x: Seq<char>)
    ensures
        forall|i: int| 0 <= i < without(args, x).len() ==> #[trigger] without(args, x)[i] != x,
    decreases args.len(),
{
    if args.len() > 0 {
        law_without_drops_all(args.drop_last(), x);
        let w = without(args.drop_last(), x);
        if args.last() != x {
            assert forall|i: int| 0 <= i < w.push(args.last()).len() implies #[trigger] w.push(
                args.last(),
            )[i] != x by {
                if i < w.len() {
                    assert(w[i] != x);
                }
            }
        }
    }
}

/// A search finds nothing over a stretch where the pattern does not occur.
pub proof fn lemma_find_from_skip(s: Seq<char>, p: Seq<char>, i: int, k: int)
    requires
        0 <= i <= k,
        k + p.len() <= s.len(),
        forall|j: int| i <= j < k ==> !#[trigger] occurs_at(s, p, j),
    ensures
        find_from(s, p, i) == find_from(s, p, k),
    decreases k - i,
{
    if i < k {
        assert(!occurs_at(s, p, i));
        lemma_find_from_skip(s, p, i + 1, k);
    }
}

/// What is written as `<e>v</e>` reads back as `v` trimmed, provided `v`
/// holds no `<`.
pub proof fn law_xml_text_roundtrip(element: Seq<char>, v: Seq<char>)
    requires
        forall|i: int| 0 <= i < v.len() ==> #[trigger] v[i] != '<',
    ensures
        xml_text(open_tag(element) + v + close_tag(element), element) == Some(trim(v)),
{
    let o = open_tag(element);
    let c = close_tag(element);
    let line = o + v + c;
    assert(line.subrange(0, o.len() as int) =~= o);
    assert(find(line, o) == Some(0int));
    let rest = line.subrange(o.len() as int, line.len() as int);
    assert(rest =~= v + c);
    assert forall|j: int| 0 <= j < v.len() implies !#[trigger] occurs_at(rest, c, j) by {
        assert(rest.subrange(j, j + c.len())[0] == v[j]);
        assert(c[0] == '<');
    }
    assert(rest.subrange(v.len() as int, (v.len() + c.len()) as int) =~= c);
    lemma_find_from_skip(rest, c, 0, v.len() as int);
    assert(find(rest, c) == Some(v.len() as int));
    assert(rest.subrange(0, v.len() as int) =~= v);
}

// ---------------------------------------------------------------------------
// Filtering commit output twice
// ---------------------------------------------------------------------------

/// The lines among `ls` that the regex built from `pattern` matches, in
/// order.
pub open spec fn matching_lines(pattern: Seq<char>, ls: Seq<Seq<char>>) -> Seq<Seq<char>>
    decreases ls.len(),
{
    if ls.len() == 0 {
        Seq::empty()
    } else if regex_is_match(pattern, ls.last()) {
        matching_lines(pattern, ls.drop_last()).push(ls.last())
    } else {
        matching_lines(pattern, ls.drop_last())
    }
}

/// Each line followed by a newline.
pub open spec fn newline_terminated(ls: Seq<Seq<char>>) -> Seq<Seq<char>> {
    ls.map_values(|l: Seq<char>| l + seq!['\n'])
}

/// `l` holds no newline and does not end in a carriage return.
pub open spec fn plain_line(l: Seq<char>) -> bool {
    &&& forall|k: int| 0 <= k < l.len() ==> #[trigger] l[k] != '\n'
    &&& !(l.len() > 0 && l.last() == '\r')
}

/// The commit output is the matching lines, each with a newline.
proof fn lemma_commit_concat(ls: Seq<Seq<char>>)
    ensures
        concat(commit_pieces(ls, matches_per_line(COMMITTED_PATTERN@, ls))) == concat(
            newline_terminated(matching_lines(COMMITTED_PATTERN@, ls)),
        ),
    decreases ls.len(),
{
    if ls.len() > 0 {
        let p = COMMITTED_PATTERN@;
        let front = ls.drop_last();
        lemma_commit_concat(front);
        assert(matches_per_line(p, front) =~= matches_per_line(p, ls).drop_last());
        assert(commit_pieces(ls, matches_per_line(p, ls)).drop_last() =~= commit_pieces(
            front,
            matches_per_line(p, front),
        ));
        let k = matching_lines(p, front);
        if regex_is_match(p, ls.last()) {
            assert(newline_terminated(k.push(ls.last())).drop_last() =~= newline_terminated(k));
        } else {
            assert(concat(newline_terminated(k)) + Seq::<char>::empty() =~= concat(
                newline_terminated(k),
            ));
        }
    }
}

/// Reading text without a newline extends the line under way.
proof fn lemma_split_state_append(s: Seq<char>, t: Seq<char>)
    requires
        forall|k: int| 0 <= k < t.len() ==> #[trigger] t[k] != '\n',
    ensures
        split_state(s + t).0 == split_state(s).0,
        split_state(s + t).1 == split_state(s).1 + t,
    decreases t.len(),
{
    if t.len() > 0 {
        lemma_split_state_append(s, t.drop_last());
        assert((s + t).drop_last() =~= s + t.drop_last());
        assert((s + t).last() == t.last());
        assert(split_state(s).1 + t.drop_last() + seq![t.last()] =~= split_state(s).1 + t);
    } else {
        assert(s + t =~= s);
        assert(split_state(s).1 + t =~= split_state(s).1);
    }
}

/// Plain lines joined with newlines split back into the same lines.
proof fn lemma_split_newline_terminated(ls: Seq<Seq<char>>)
    requires
        forall|i: int| 0 <= i < ls.len() ==> #[trigger] plain_line(ls[i]),
    ensures
        split_state(concat(newline_terminated(ls))) == (ls, Seq::<char>::empty()),
    decreases ls.len(),
{
    if ls.len() > 0 {
        let front = ls.drop_last();
        assert forall|i: int| 0 <= i < front.len() implies #[trigger] plain_line(front[i]) by {
            assert(plain_line(ls[i]));
        }
        lemma_split_newline_terminated(front);
        assert(newline_terminated(ls).drop_last() =~= newline_terminated(front));
        let c = concat(newline_terminated(front));
        let l = ls.last();
        assert(plain_line(ls[ls.len() - 1]));
        lemma_split_state_append(c, l);
        assert(c + l =~= (c + (l + seq!['\n'])).drop_last());
        assert(concat(newline_terminated(ls)) == c + (l + seq!['\n']));
        assert(Seq::<char>::empty() + l =~= l);
        assert(front.push(l) =~= ls);
    } else {
        assert(concat(newline_terminated(ls)) =~= Seq::<char>::empty());
    }
}

/// `l` is one of `ls` and the regex built from `pattern` matches it.
pub open spec fn matching_line_of(pattern: Seq<char>, ls: Seq<Seq<char>>, l: Seq<char>) -> bool {
    exists|i: int| 0 <= i < ls.len() && #[trigger] ls[i] == l && regex_is_match(pattern, l)
}

/// The matching lines are among the lines and match.
proof fn lemma_matching_lines_from(pattern: Seq<char>, ls: Seq<Seq<char>>)
    ensures
        forall|j: int|
            0 <= j < matching_lines(pattern, ls).len() ==> matching_line_of(
                pattern,
                ls,
                #[trigger] matching_lines(pattern, ls)[j],
            ),
    decreases ls.len(),
{
    if ls.len() > 0 {
        let front = ls.drop_last();
        lemma_matching_lines_from(pattern, front);
        let k = matching_lines(pattern, ls);
        let kf = matching_lines(pattern, front);
        assert forall|j: int| 0 <= j < k.len() implies matching_line_of(pattern, ls, #[trigger] k[j]) by {
            if j < kf.len() {
                assert(k[j] == kf[j]);
                assert(matching_line_of(pattern, front, kf[j]));
                let i = choose|i: int|
                    0 <= i < front.len() && #[trigger] front[i] == kf[j] && regex_is_match(
                        pattern,
                        kf[j],
                    );
                assert(ls[i] == front[i]);
            } else {
                assert(regex_is_match(pattern, ls.last()));
                assert(k == kf.push(ls.last()));
                assert(ls[ls.len() - 1] == k[j]);
            }
        }
    }
}

/// Lines that all match are kept whole.
proof fn lemma_matching_lines_all(pattern: Seq<char>, ls: Seq<Seq<char>>)
    requires
        forall|i: int| 0 <= i < ls.len() ==> #[trigger] regex_is_match(pattern, ls[i]),
    ensures
        matching_lines(pattern, ls) == ls,
    decreases ls.len(),
{
    if ls.len() > 0 {
        let front = ls.drop_last();
        assert forall|i: int| 0 <= i < front.len() implies #[trigger] regex_is_match(
            pattern,
            front[i],
        ) by {
            assert(regex_is_match(pattern, ls[i]));
        }
        lemma_matching_lines_all(pattern, front);
        assert(regex_is_match(pattern, ls[ls.len() - 1]));
        assert(front.push(ls.last()) =~= ls);
    }
}

/// Filtering `svn commit` output twice gives what filtering it once gives,
/// unless a line that the commit regex matches ends in a carriage return
/// (possible only for a last line without a newline).
pub proof fn law_commit_idempotent(input: Seq<char>)
    requires
        forall|i: int|
            0 <= i < lines(input).len() && #[trigger] regex_is_match(
                COMMITTED_PATTERN@,
                lines(input)[i],
            ) ==> !(lines(input)[i].len() > 0 && lines(input)[i].last() == '\r'),
    ensures
        filter_commit_spec(filter_commit_spec(input)) == filter_commit_spec(input),
{
    let p = COMMITTED_PATTERN@;
    if regex_compiles(p) {
        let ls = lines(input);
        let k = matching_lines(p, ls);
        lemma_commit_concat(ls);
        let c = concat(newline_terminated(k));
        if c.len() > 0 {
            lemma_split_state_no_newline(input);
            lemma_matching_lines_from(p, ls);
            assert forall|j: int| 0 <= j < k.len() implies #[trigger] plain_line(k[j]) by {
                assert(matching_line_of(p, ls, k[j]));
                let i = choose|i: int|
                    0 <= i < ls.len() && #[trigger] ls[i] == k[j] && regex_is_match(p, k[j]);
                let (done, cur) = split_state(input);
                if cur.len() == 0 {
                    assert(ls[i] == done[i]);
                } else if i < done.len() {
                    assert(ls[i] == done[i]);
                } else {
                    assert(ls[i] == cur);
                }
                assert forall|m: int| 0 <= m < k[j].len() implies #[trigger] k[j][m] != '\n' by {
                    if cur.len() == 0 || i < done.len() {
                        assert(done[i][m] != '\n');
                    } else {
                        assert(cur[m] != '\n');
                    }
                }
            }
            lemma_split_newline_terminated(k);
            assert(lines(c) == k);
            lemma_matching_lines_from(p, ls);
            assert forall|j: int| 0 <= j < k.len() implies #[trigger] regex_is_match(p, k[j]) by {
                assert(matching_line_of(p, ls, k[j]));
            }
            lemma_matching_lines_all(p, k);
            lemma_commit_concat(k);
        }
    }
}

} // verus!
