//! `svn log --xml`: one line per log entry, `r{rev} {author} {date} {first
//! line of the message}`.

use vstd::prelude::*;
use crate::info::{leading_revision_attr, revision_attr};
use crate::pattern::{compile_pattern, pattern_replace, regex_compiles, regex_replace};
use crate::text::{
    chars_of, copy_range, ends_with, ends_with_str, equals_str, find, find_chars, lines, or_input, push_all, split_lines,
    starts_with, starts_with_str, string_of, strip_all_prefixes, strip_all_prefixes_chars,
    strip_all_suffixes, strip_all_suffixes_chars, take_chars, take_chars_exec, trim, trim_chars,
};
use crate::xml::{xml_text, xml_text_chars};

verus! {

/// A closing `</msg>` tag at the end of a line, with any whitespace after it.
pub const MSG_CLOSE_PATTERN: &'static str = "</msg>\\s*$";

/// What `filter_log` has gathered so far.
pub struct LogState {
    pub output: Seq<char>,
    pub in_entry: bool,
    pub in_msg: bool,
    pub rev: Seq<char>,
    pub author: Seq<char>,
    pub date: Seq<char>,
    pub first_msg: Option<Seq<char>>,
}

/// Nothing gathered yet.
pub open spec fn log_start() -> LogState {
    LogState {
        output: Seq::empty(),
        in_entry: false,
        in_msg: false,
        rev: Seq::empty(),
        author: Seq::empty(),
        date: Seq::empty(),
        first_msg: None,
    }
}

/// For a trimmed line, the text from which a message line is taken (after
/// the closing `</msg>` regex has been applied to it): the text after the
/// first `>` of a `<msg` line that does not hold a whole `<msg>...</msg>`,
/// or a line that is no tag at all.
pub open spec fn msg_haystack(t: Seq<char>) -> Option<Seq<char>> {
    if starts_with(t, "<msg"@) {
        if xml_text(t, "msg"@) is Some {
            None
        } else {
            match find(t, ">"@) {
                Some(a) => Some(t.subrange(a + 1, t.len() as int)),
                None => None,
            }
        }
    } else if !starts_with(t, "<"@) {
        Some(t)
    } else {
        None
    }
}

/// The message lines kept: only the first one is ever reported.
pub open spec fn with_msg_line(first: Option<Seq<char>>, line: Seq<char>) -> Option<Seq<char>> {
    match first {
        Some(f) => Some(f),
        None => Some(line),
    }
}

/// `r` followed by the attribute value, or nothing.
pub open spec fn rev_label(v: Option<Seq<char>>) -> Seq<char> {
    match v {
        Some(x) => seq!['r'] + x,
        None => Seq::empty(),
    }
}

/// The line reported for a finished entry.
pub open spec fn entry_report(s: LogState) -> Seq<char> {
    s.rev + seq![' '] + s.author + seq![' '] + s.date + seq![' '] + match s.first_msg {
        Some(m) => m,
        None => Seq::empty(),
    } + seq!['\n']
}

/// A trimmed line inside an entry read into the state; `cleaned` is the
/// line's `msg_haystack` with the closing-tag regex applied.
///
/// Message text is only taken from the `<msg` line itself and, while the
/// message is open (a `<msg` line without its closing tag, up to a `</msg>`
/// line or a line ending in `</msg>`), from the text lines after it; other
/// text lines of the entry (such as the attribute lines of `<path>` in
/// `svn log -v`) are not message text. Only the first message line is kept.
pub open spec fn log_entry_step(s: LogState, t: Seq<char>, cleaned: Seq<char>) -> LogState {
    if s.rev.len() == 0 && starts_with(t, "revision=\""@) {
        match leading_revision_attr(t) {
            Some(v) => LogState { rev: seq!['r'] + v, ..s },
            None => s,
        }
    } else if starts_with(t, "<author>"@) {
        LogState {
            author: match xml_text(t, "author"@) {
                Some(a) => a,
                None => Seq::empty(),
            },
            ..s
        }
    } else if starts_with(t, "<date>"@) {
        LogState {
            date: take_chars(strip_all_suffixes(strip_all_prefixes(t, "<date>"@), "</date>"@), 10),
            ..s
        }
    } else if t == "</logentry>"@ {
        LogState {
            in_entry: false,
            in_msg: false,
            output: if s.rev.len() == 0 {
                s.output
            } else {
                s.output + entry_report(s)
            },
            ..s
        }
    } else if starts_with(t, "<msg"@) {
        match xml_text(t, "msg"@) {
            Some(m) => LogState { first_msg: with_msg_line(s.first_msg, m), in_msg: false, ..s },
            None => match find(t, ">"@) {
                Some(_) => LogState {
                    first_msg: with_msg_line(s.first_msg, trim(cleaned)),
                    in_msg: !ends_with(t, "</msg>"@),
                    ..s
                },
                None => s,
            },
        }
    } else if t == "</msg>"@ {
        LogState { in_msg: false, ..s }
    } else if !starts_with(t, "<"@) {
        if !s.in_msg {
            s
        } else if trim(cleaned).len() == 0 {
            LogState { in_msg: !ends_with(t, "</msg>"@), ..s }
        } else {
            LogState {
                first_msg: with_msg_line(s.first_msg, trim(cleaned)),
                in_msg: !ends_with(t, "</msg>"@),
                ..s
            }
        }
    } else {
        s
    }
}

/// A trimmed line read into the state.
pub open spec fn log_step_trimmed(s: LogState, t: Seq<char>, cleaned: Seq<char>) -> LogState {
    if starts_with(t, "<logentry"@) {
        LogState {
            in_entry: true,
            in_msg: false,
            rev: rev_label(revision_attr(t)),
            author: Seq::empty(),
            date: Seq::empty(),
            first_msg: None,
            ..s
        }
    } else if s.in_entry {
        log_entry_step(s, t, cleaned)
    } else {
        s
    }
}

/// The state after reading the first `n` of `ls`, with `cleaned` as above
/// for each line.
pub open spec fn log_scan(ls: Seq<Seq<char>>, cleaned: Seq<Seq<char>>, n: int) -> LogState
    decreases n,
{
    if n <= 0 {
        log_start()
    } else {
        log_step_trimmed(log_scan(ls, cleaned, n - 1), trim(ls[n - 1]), cleaned[n - 1])
    }
}

/// The filtered output given the cleaned message text of each line; the
/// input itself when no entry was reported.
pub open spec fn log_output(input: Seq<char>, cleaned: Seq<Seq<char>>) -> Seq<char> {
    or_input(log_scan(lines(input), cleaned, lines(input).len() as int).output, input)
}

/// What the closing-tag regex makes of each line's `msg_haystack` (nothing
/// for a line without one).
pub open spec fn cleaned_per_line(ls: Seq<Seq<char>>) -> Seq<Seq<char>> {
    ls.map_values(
        |l: Seq<char>|
            match msg_haystack(trim(l)) {
                Some(h) => regex_replace(MSG_CLOSE_PATTERN@, h, ""@),
                None => Seq::empty(),
            },
    )
}

/// `filter_log` as a whole.
pub open spec fn filter_log_spec(input: Seq<char>) -> Seq<char> {
    if regex_compiles(MSG_CLOSE_PATTERN@) {
        log_output(input, cleaned_per_line(lines(input)))
    } else {
        input
    }
}

struct LogScan {
    output: Vec<char>,
    in_entry: bool,
    in_msg: bool,
    rev: Vec<char>,
    author: Vec<char>,
    date: Vec<char>,
    first_msg: Option<Vec<char>>,
}

impl LogScan {
    spec fn state(&self) -> LogState {
        LogState {
            output: self.output@,
            in_entry: self.in_entry,
            in_msg: self.in_msg,
            rev: self.rev@,
            author: self.author@,
            date: self.date@,
            first_msg: self.first_msg.deep_view(),
        }
    }
}

fn add_msg_line(st: &mut LogScan, line: Vec<char>)
    ensures
        final(st).state() == (LogState {
            first_msg: with_msg_line(old(st).state().first_msg, line@),
            ..old(st).state()
        }),
{
    if st.first_msg.is_none() {
        assert(Some(line).deep_view() == Some(line@));
        st.first_msg = Some(line);
    }
}

fn leading_rev_label(t: &[char]) -> (r: Option<Vec<char>>)
    requires
        starts_with(t@, "revision=\""@),
    ensures
        match r {
            Some(v) => leading_revision_attr(t@) matches Some(x) && v@ == seq!['r'] + x,
            None => leading_revision_attr(t@) is None,
        },
{
    let attr = chars_of("revision=\"");
    let rest = copy_range(t, attr.len(), t.len());
    let q = chars_of("\"");
    match find_chars(rest.as_slice(), q.as_slice()) {
        Some(end) => {
            let mut v: Vec<char> = Vec::new();
            v.push('r');
            let x = copy_range(rest.as_slice(), 0, end);
            push_all(&mut v, x.as_slice());
            Some(v)
        },
        None => None,
    }
}

fn rev_label_exec(t: &[char]) -> (v: Vec<char>)
    ensures
        v@ == rev_label(revision_attr(t@)),
{
    let attr = chars_of("revision=\"");
    match find_chars(t, attr.as_slice()) {
        Some(start) => {
            assert(t@.len() == t.len());
            let rest = copy_range(t, start + attr.len(), t.len());
            let q = chars_of("\"");
            match find_chars(rest.as_slice(), q.as_slice()) {
                Some(end) => {
                    let mut v: Vec<char> = Vec::new();
                    v.push('r');
                    let x = copy_range(rest.as_slice(), 0, end);
                    push_all(&mut v, x.as_slice());
                    v
                },
                None => Vec::new(),
            }
        },
        None => Vec::new(),
    }
}

fn report_entry(st: &mut LogScan)
    ensures
        final(st).state() == (LogState {
            output: old(st).state().output + entry_report(old(st).state()),
            ..old(st).state()
        }),
{
    let ghost s = st.state();
    let mut line: Vec<char> = Vec::new();
    push_all(&mut line, st.rev.as_slice());
    line.push(' ');
    push_all(&mut line, st.author.as_slice());
    line.push(' ');
    push_all(&mut line, st.date.as_slice());
    line.push(' ');
    match &st.first_msg {
        Some(m) => push_all(&mut line, m.as_slice()),
        None => {},
    }
    line.push('\n');
    assert(line@ =~= entry_report(s));
    push_all(&mut st.output, line.as_slice());
}

fn log_entry_step_exec(st: &mut LogScan, t: &[char], cleaned: &[char])
    ensures
        final(st).state() == log_entry_step(old(st).state(), t@, cleaned@),
{
    if st.rev.len() == 0 && starts_with_str(t, "revision=\"") {
        match leading_rev_label(t) {
            Some(v) => {
                st.rev = v;
            },
            None => {},
        }
    } else if starts_with_str(t, "<author>") {
        let author = chars_of("author");
        match xml_text_chars(t, author.as_slice()) {
            Some(a) => {
                assert(a.deep_view() =~= a@);
                st.author = a;
            },
            None => {
                st.author = Vec::new();
            },
        }
    } else if starts_with_str(t, "<date>") {
        let open = chars_of("<date>");
        let close = chars_of("</date>");
        let content = strip_all_prefixes_chars(t, open.as_slice());
        let content = strip_all_suffixes_chars(content.as_slice(), close.as_slice());
        st.date = take_chars_exec(content.as_slice(), 10);
    } else if equals_str(t, "</logentry>") {
        if st.rev.len() > 0 {
            report_entry(st);
        }
        st.in_entry = false;
        st.in_msg = false;
    } else if starts_with_str(t, "<msg") {
        let msg = chars_of("msg");
        match xml_text_chars(t, msg.as_slice()) {
            Some(m) => {
                assert(m.deep_view() =~= m@);
                add_msg_line(st, m);
                st.in_msg = false;
            },
            None => {
                let gt = chars_of(">");
                match find_chars(t, gt.as_slice()) {
                    Some(_) => {
                        let c = trim_chars(cleaned);
                        add_msg_line(st, c);
                        st.in_msg = !ends_with_str(t, "</msg>");
                    },
                    None => {},
                }
            },
        }
    } else if equals_str(t, "</msg>") {
        st.in_msg = false;
    } else if !starts_with_str(t, "<") {
        if st.in_msg {
            let c = trim_chars(cleaned);
            if c.len() > 0 {
                add_msg_line(st, c);
            }
            st.in_msg = !ends_with_str(t, "</msg>");
        }
    }
}

fn log_step_exec(st: &mut LogScan, t: &[char], cleaned: &[char])
    ensures
        final(st).state() == log_step_trimmed(old(st).state(), t@, cleaned@),
{
    if starts_with_str(t, "<logentry") {
        st.in_entry = true;
        st.in_msg = false;
        st.rev = rev_label_exec(t);
        st.author = Vec::new();
        st.date = Vec::new();
        st.first_msg = None;
    } else if st.in_entry {
        log_entry_step_exec(st, t, cleaned);
    }
}

/// `msg_haystack` on characters.
fn msg_haystack_chars(t: &[char]) -> (r: Option<Vec<char>>)
    ensures
        r.deep_view() == msg_haystack(t@),
{
    if starts_with_str(t, "<msg") {
        let msg = chars_of("msg");
        if xml_text_chars(t, msg.as_slice()).is_some() {
            None
        } else {
            let gt = chars_of(">");
            match find_chars(t, gt.as_slice()) {
                Some(a) => {
                    proof {
                        reveal_strlit(">");
                    }
                    assert(t@.len() == t.len());
                    let v = copy_range(t, a + 1, t.len());
                    assert(v.deep_view() =~= v@);
                    Some(v)
                },
                None => None,
            }
        }
    } else if !starts_with_str(t, "<") {
        let v = copy_range(t, 0, t.len());
        assert(t@.subrange(0, t@.len() as int) =~= t@);
        assert(v.deep_view() =~= v@);
        Some(v)
    } else {
        None
    }
}

/// The log output for `input` given, for each of its lines, what the
/// closing-tag regex made of the line's `msg_haystack` (any text for a line
/// without one).
pub fn render_log(input: &str, cleaned: &Vec<String>) -> (out: String)
    requires
        cleaned@.len() == lines(input@).len(),
    ensures
        out@ == log_output(input@, cleaned.deep_view()),
{
    let all = chars_of(input);
    let ls = split_lines(all.as_slice());
    let mut st = LogScan {
        output: Vec::new(),
        in_entry: false,
        in_msg: false,
        rev: Vec::new(),
        author: Vec::new(),
        date: Vec::new(),
        first_msg: None,
    };
    let n = ls.len();
    for i in 0..n
        invariant
            n == ls.len(),
            n == cleaned@.len(),
            ls.deep_view() == lines(input@),
            st.state() == log_scan(ls.deep_view(), cleaned.deep_view(), i as int),
    {
        assert(ls.deep_view()[i as int] =~= ls[i as int]@);
        let t = trim_chars(ls[i].as_slice());
        let c = chars_of(cleaned[i].as_str());
        log_step_exec(&mut st, t.as_slice(), c.as_slice());
    }
    let mut out = st.output;
    if out.len() == 0 {
        out = all;
    }
    string_of(out.as_slice())
}

/// Compact `svn log` output from --xml: `r{rev} {author} {date}
/// {first-line}` per entry; the input itself when no entry is found.
pub fn filter_log(input: &str) -> (out: String)
    ensures
        out@ == filter_log_spec(input@),
{
    let all = chars_of(input);
    let p = match compile_pattern(MSG_CLOSE_PATTERN) {
        Some(p) => p,
        None => {
            return string_of(all.as_slice());
        },
    };
    let ls = split_lines(all.as_slice());
    let ghost expected = cleaned_per_line(ls.deep_view());
    let mut cleaned: Vec<String> = Vec::new();
    let n = ls.len();
    for i in 0..n
        invariant
            n == ls.len(),
            p@ == MSG_CLOSE_PATTERN@,
            expected == cleaned_per_line(ls.deep_view()),
            cleaned.deep_view() =~= expected.take(i as int),
    {
        assert(ls.deep_view()[i as int] =~= ls[i as int]@);
        let t = trim_chars(ls[i].as_slice());
        let c = match msg_haystack_chars(t.as_slice()) {
            Some(h) => {
                assert(h.deep_view() =~= h@);
                let hs = string_of(h.as_slice());
                pattern_replace(&p, hs.as_str(), "")
            },
            None => String::new(),
        };
        assert(c@ == expected[i as int]);
        let ghost c0 = cleaned.deep_view();
        cleaned.push(c);
        assert(cleaned.deep_view() =~= c0.push(c@));
    }
    assert(expected.take(n as int) =~= expected);
    assert(cleaned@.len() == cleaned.deep_view().len());
    render_log(input, &cleaned)
}

} // verus!
