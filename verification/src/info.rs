//! `svn info --xml`: URL, revision and last change.

use vstd::prelude::*;
use crate::text::{
    chars_of, copy_range, equals_str, find, find_chars, lines, or_input, push_all, split_lines,
    starts_with, starts_with_str, string_of, take_chars, take_chars_exec, trim, trim_chars,
};
use crate::xml::{xml_text, xml_text_chars};

verus! {

/// What `filter_info` has gathered so far.
pub struct InfoState {
    pub url: Seq<char>,
    pub revision: Seq<char>,
    pub last_changed_rev: Seq<char>,
    pub last_changed_author: Seq<char>,
    pub last_changed_date: Seq<char>,
    pub in_entry: bool,
    pub in_commit: bool,
}

/// Nothing gathered yet.
pub open spec fn info_start() -> InfoState {
    InfoState {
        url: Seq::empty(),
        revision: Seq::empty(),
        last_changed_rev: Seq::empty(),
        last_changed_author: Seq::empty(),
        last_changed_date: Seq::empty(),
        in_entry: false,
        in_commit: false,
    }
}

/// The text up to the first `"` of `rest`, if it has one.
pub open spec fn quoted_prefix(rest: Seq<char>) -> Option<Seq<char>> {
    match find(rest, "\""@) {
        Some(end) => Some(rest.subrange(0, end)),
        None => None,
    }
}

/// The value of the first `revision="..."` attribute of `t`.
pub open spec fn revision_attr(t: Seq<char>) -> Option<Seq<char>> {
    match find(t, "revision=\""@) {
        Some(start) => quoted_prefix(t.subrange(start + "revision=\""@.len(), t.len() as int)),
        None => None,
    }
}

/// The value of a `revision="..."` attribute that opens `t`.
pub open spec fn leading_revision_attr(t: Seq<char>) -> Option<Seq<char>> {
    quoted_prefix(t.subrange("revision=\""@.len() as int, t.len() as int))
}

/// `old` replaced by `v` when there is one.
pub open spec fn or_keep(v: Option<Seq<char>>, old: Seq<char>) -> Seq<char> {
    match v {
        Some(x) => x,
        None => old,
    }
}

/// One line of `svn info --xml`, trimmed, read into the state.
pub open spec fn info_step_trimmed(s: InfoState, t: Seq<char>) -> InfoState {
    if starts_with(t, "<entry"@) {
        InfoState { in_entry: true, revision: or_keep(revision_attr(t), s.revision), ..s }
    } else if t == "</entry>"@ {
        InfoState { in_entry: false, in_commit: false, ..s }
    } else if s.in_entry && s.revision.len() == 0 && starts_with(t, "revision=\""@) {
        InfoState { revision: or_keep(leading_revision_attr(t), s.revision), ..s }
    } else if starts_with(t, "<commit"@) {
        InfoState {
            in_commit: true,
            last_changed_rev: or_keep(revision_attr(t), s.last_changed_rev),
            ..s
        }
    } else if s.in_commit && s.last_changed_rev.len() == 0 && starts_with(t, "revision=\""@) {
        InfoState { last_changed_rev: or_keep(leading_revision_attr(t), s.last_changed_rev), ..s }
    } else if t == "</commit>"@ {
        InfoState { in_commit: false, ..s }
    } else if s.in_commit {
        InfoState {
            last_changed_author: or_keep(xml_text(t, "author"@), s.last_changed_author),
            last_changed_date: match xml_text(t, "date"@) {
                Some(d) => take_chars(d, 10),
                None => s.last_changed_date,
            },
            ..s
        }
    } else if s.in_entry {
        InfoState { url: or_keep(xml_text(t, "url"@), s.url), ..s }
    } else {
        s
    }
}

/// One line read into the state.
pub open spec fn info_step(s: InfoState, line: Seq<char>) -> InfoState {
    info_step_trimmed(s, trim(line))
}

/// The state after reading all of `ls`.
pub open spec fn info_scan(ls: Seq<Seq<char>>) -> InfoState
    decreases ls.len(),
{
    if ls.len() == 0 {
        info_start()
    } else {
        info_step(info_scan(ls.drop_last()), ls.last())
    }
}

/// `" " + v`, or nothing when `v` is empty.
pub open spec fn spaced(v: Seq<char>) -> Seq<char> {
    if v.len() == 0 {
        Seq::empty()
    } else {
        seq![' '] + v
    }
}

/// `{label}{value}\n`, or nothing when `value` is empty.
pub open spec fn labelled_line(label: Seq<char>, value: Seq<char>) -> Seq<char> {
    if value.len() == 0 {
        Seq::empty()
    } else {
        label + value + seq!['\n']
    }
}

/// The `Last:` line: last changed revision, then author and date when known.
pub open spec fn last_line(s: InfoState) -> Seq<char> {
    labelled_line(
        "Last:     "@,
        s.last_changed_rev + spaced(s.last_changed_author) + spaced(s.last_changed_date),
    )
}

/// The report: a `URL:` line, a `Revision:` line and a `Last:` line (last
/// changed revision, author, date), each only when its value was found.
pub open spec fn info_report(s: InfoState) -> Seq<char> {
    labelled_line("URL:      "@, s.url) + labelled_line("Revision: "@, s.revision) + (
    if s.last_changed_rev.len() == 0 {
        Seq::empty()
    } else {
        last_line(s)
    })
}

/// `filter_info` as a whole: the report, or the input itself when there is
/// nothing to report.
pub open spec fn filter_info_spec(input: Seq<char>) -> Seq<char> {
    or_input(info_report(info_scan(lines(input))), input)
}

struct InfoScan {
    url: Vec<char>,
    revision: Vec<char>,
    last_changed_rev: Vec<char>,
    last_changed_author: Vec<char>,
    last_changed_date: Vec<char>,
    in_entry: bool,
    in_commit: bool,
}

impl InfoScan {
    spec fn state(&self) -> InfoState {
        InfoState {
            url: self.url@,
            revision: self.revision@,
            last_changed_rev: self.last_changed_rev@,
            last_changed_author: self.last_changed_author@,
            last_changed_date: self.last_changed_date@,
            in_entry: self.in_entry,
            in_commit: self.in_commit,
        }
    }
}

/// `quoted_prefix` on characters.
fn quoted_prefix_chars(rest: &[char]) -> (r: Option<Vec<char>>)
    ensures
        r.deep_view() == quoted_prefix(rest@),
{
    let q = chars_of("\"");
    match find_chars(rest, q.as_slice()) {
        Some(end) => {
            let v = copy_range(rest, 0, end);
            assert(v.deep_view() =~= v@);
            Some(v)
        },
        None => None,
    }
}

/// `revision_attr` on characters.
fn revision_attr_chars(t: &[char]) -> (r: Option<Vec<char>>)
    ensures
        r.deep_view() == revision_attr(t@),
{
    let attr = chars_of("revision=\"");
    match find_chars(t, attr.as_slice()) {
        Some(start) => {
            assert(t@.len() == t.len());
            let rest = copy_range(t, start + attr.len(), t.len());
            quoted_prefix_chars(rest.as_slice())
        },
        None => None,
    }
}

/// `leading_revision_attr` on characters, for a `t` that starts with the
/// attribute.
fn leading_revision_attr_chars(t: &[char]) -> (r: Option<Vec<char>>)
    requires
        starts_with(t@, "revision=\""@),
    ensures
        r.deep_view() == leading_revision_attr(t@),
{
    let attr = chars_of("revision=\"");
    let rest = copy_range(t, attr.len(), t.len());
    quoted_prefix_chars(rest.as_slice())
}

fn set_if_some(target: &mut Vec<char>, v: Option<Vec<char>>)
    ensures
        final(target)@ == or_keep(v.deep_view(), old(target)@),
{
    match v {
        Some(x) => {
            assert(x.deep_view() =~= x@);
            *target = x;
        },
        None => {},
    }
}

fn info_step_exec(st: &mut InfoScan, line: &[char])
    ensures
        final(st).state() == info_step(old(st).state(), line@),
{
    let t = trim_chars(line);
    let t = t.as_slice();
    if starts_with_str(t, "<entry") {
        st.in_entry = true;
        let r = revision_attr_chars(t);
        set_if_some(&mut st.revision, r);
    } else if equals_str(t, "</entry>") {
        st.in_entry = false;
        st.in_commit = false;
    } else if st.in_entry && st.revision.len() == 0 && starts_with_str(t, "revision=\"") {
        let r = leading_revision_attr_chars(t);
        set_if_some(&mut st.revision, r);
    } else if starts_with_str(t, "<commit") {
        st.in_commit = true;
        let r = revision_attr_chars(t);
        set_if_some(&mut st.last_changed_rev, r);
    } else if st.in_commit && st.last_changed_rev.len() == 0 && starts_with_str(t, "revision=\"") {
        let r = leading_revision_attr_chars(t);
        set_if_some(&mut st.last_changed_rev, r);
    } else if equals_str(t, "</commit>") {
        st.in_commit = false;
    } else if st.in_commit {
        let author = chars_of("author");
        let a = xml_text_chars(t, author.as_slice());
        set_if_some(&mut st.last_changed_author, a);
        let date = chars_of("date");
        match xml_text_chars(t, date.as_slice()) {
            Some(d) => {
                assert(d.deep_view() =~= d@);
                st.last_changed_date = take_chars_exec(d.as_slice(), 10);
            },
            None => {},
        }
    } else if st.in_entry {
        let url = chars_of("url");
        let u = xml_text_chars(t, url.as_slice());
        set_if_some(&mut st.url, u);
    }
}

fn push_str(out: &mut Vec<char>, s: &str)
    ensures
        final(out)@ == old(out)@ + s@,
{
    let c = chars_of(s);
    push_all(out, c.as_slice());
}

fn labelled_line_exec(label: &str, value: &[char]) -> (v: Vec<char>)
    ensures
        v@ == labelled_line(label@, value@),
{
    let mut out: Vec<char> = Vec::new();
    if value.len() > 0 {
        push_str(&mut out, label);
        push_all(&mut out, value);
        out.push('\n');
    }
    out
}

fn spaced_exec(out: &mut Vec<char>, value: &[char])
    ensures
        final(out)@ == old(out)@ + spaced(value@),
{
    if value.len() > 0 {
        let ghost o = out@;
        out.push(' ');
        push_all(out, value);
        assert(out@ =~= o + spaced(value@));
    } else {
        assert(old(out)@ + spaced(value@) =~= old(out)@);
    }
}

fn info_report_exec(st: &InfoScan) -> (v: Vec<char>)
    ensures
        v@ == info_report(st.state()),
{
    let mut out = labelled_line_exec("URL:      ", st.url.as_slice());
    let r = labelled_line_exec("Revision: ", st.revision.as_slice());
    push_all(&mut out, r.as_slice());
    if st.last_changed_rev.len() > 0 {
        let mut value: Vec<char> = Vec::new();
        push_all(&mut value, st.last_changed_rev.as_slice());
        spaced_exec(&mut value, st.last_changed_author.as_slice());
        spaced_exec(&mut value, st.last_changed_date.as_slice());
        let l = labelled_line_exec("Last:     ", value.as_slice());
        push_all(&mut out, l.as_slice());
    } else {
        assert(out@ =~= out@ + Seq::<char>::empty());
    }
    out
}

/// Compact `svn info` from --xml: URL, Revision, Last Changed; the input
/// itself when none of them is found.
pub fn filter_info(input: &str) -> (out: String)
    ensures
        out@ == filter_info_spec(input@),
{
    let all = chars_of(input);
    let ls = split_lines(all.as_slice());
    let mut st = InfoScan {
        url: Vec::new(),
        revision: Vec::new(),
        last_changed_rev: Vec::new(),
        last_changed_author: Vec::new(),
        last_changed_date: Vec::new(),
        in_entry: false,
        in_commit: false,
    };
    let n = ls.len();
    for i in 0..n
        invariant
            n == ls.len(),
            st.state() == info_scan(ls.deep_view().take(i as int)),
    {
        assert(ls.deep_view()[i as int] =~= ls[i as int]@);
        assert(ls.deep_view().take(i + 1).drop_last() =~= ls.deep_view().take(i as int));
        info_step_exec(&mut st, ls[i].as_slice());
    }
    assert(ls.deep_view().take(n as int) =~= ls.deep_view());
    let mut out = info_report_exec(&st);
    if out.len() == 0 {
        out = all;
    }
    string_of(out.as_slice())
}

} // verus!
