//! `svn diff`: drop the `Index:` and `===` headers, shorten the file
//! markers to their path.

use vstd::prelude::*;
use crate::pattern::{compile_pattern, matches_of_lines, matches_per_line, regex_compiles};
use crate::text::{
    before_first, before_first_chars, chars_of, concat, lemma_concat_take_step, lines, push_all,
    split_lines, string_of, strip_all_prefixes, strip_all_prefixes_chars, trim_end,
    trim_end_chars,
};

verus! {

/// `Index: path`.
pub const INDEX_HEADER_PATTERN: &'static str = "^Index:.*$";

/// A line of 67 or more `=`.
pub const SEPARATOR_PATTERN: &'static str = "^={67,}$";

/// `--- path    (revision X)`.
pub const DIFF_MINUS_PATTERN: &'static str = "^---\\s.+\\s+\\(.*\\)$";

/// `+++ path    (working copy)`.
pub const DIFF_PLUS_PATTERN: &'static str = "^\\+\\+\\+\\s.+\\s+\\(.*\\)$";

/// Which of the four diff regexes matched one line.
#[derive(Clone, Copy)]
pub struct DiffLineMatches {
    pub index_header: bool,
    pub separator: bool,
    pub minus: bool,
    pub plus: bool,
}

/// A file marker line reduced to its path: every leading `marker` removed,
/// then everything from the first `"  ("` on, then trailing whitespace.
pub open spec fn marker_path(line: Seq<char>, marker: Seq<char>) -> Seq<char> {
    trim_end(before_first(strip_all_prefixes(line, marker), "  ("@))
}

/// The output for one line: nothing for a header or separator, the marker
/// and the path for a file marker line, otherwise the line as it is; a
/// newline after each line kept.
pub open spec fn diff_piece(line: Seq<char>, m: DiffLineMatches) -> Seq<char> {
    if m.index_header || m.separator {
        Seq::empty()
    } else if m.minus {
        "--- "@ + marker_path(line, "--- "@) + seq!['\n']
    } else if m.plus {
        "+++ "@ + marker_path(line, "+++ "@) + seq!['\n']
    } else {
        line + seq!['\n']
    }
}

/// The pieces of all lines, in order.
pub open spec fn diff_pieces(ls: Seq<Seq<char>>, ms: Seq<DiffLineMatches>) -> Seq<Seq<char>> {
    Seq::new(ls.len(), |i: int| diff_piece(ls[i], ms[i]))
}

/// The filtered output given the matches of each line.
pub open spec fn diff_output(input: Seq<char>, ms: Seq<DiffLineMatches>) -> Seq<char> {
    concat(diff_pieces(lines(input), ms))
}

/// The four regexes' answers for each line.
pub open spec fn diff_matches_per_line(ls: Seq<Seq<char>>) -> Seq<DiffLineMatches> {
    Seq::new(
        ls.len(),
        |i: int|
            DiffLineMatches {
                index_header: matches_per_line(INDEX_HEADER_PATTERN@, ls)[i],
                separator: matches_per_line(SEPARATOR_PATTERN@, ls)[i],
                minus: matches_per_line(DIFF_MINUS_PATTERN@, ls)[i],
                plus: matches_per_line(DIFF_PLUS_PATTERN@, ls)[i],
            },
    )
}

/// `filter_diff` as a whole.
pub open spec fn filter_diff_spec(input: Seq<char>) -> Seq<char> {
    if regex_compiles(INDEX_HEADER_PATTERN@) && regex_compiles(SEPARATOR_PATTERN@)
        && regex_compiles(DIFF_MINUS_PATTERN@) && regex_compiles(DIFF_PLUS_PATTERN@) {
        diff_output(input, diff_matches_per_line(lines(input)))
    } else {
        input
    }
}

fn marker_line_chars(line: &[char], marker: &str) -> (v: Vec<char>)
    ensures
        v@ == marker@ + marker_path(line@, marker@) + seq!['\n'],
{
    let m = chars_of(marker);
    let stripped = strip_all_prefixes_chars(line, m.as_slice());
    let sep = chars_of("  (");
    let head = before_first_chars(stripped.as_slice(), sep.as_slice());
    let plain = trim_end_chars(head.as_slice());
    let mut v = m;
    push_all(&mut v, plain.as_slice());
    v.push('\n');
    v
}

fn diff_piece_chars(line: &[char], m: DiffLineMatches) -> (v: Vec<char>)
    ensures
        v@ == diff_piece(line@, m),
{
    if m.index_header || m.separator {
        Vec::new()
    } else if m.minus {
        marker_line_chars(line, "--- ")
    } else if m.plus {
        marker_line_chars(line, "+++ ")
    } else {
        let mut v: Vec<char> = Vec::new();
        push_all(&mut v, line);
        v.push('\n');
        v
    }
}

/// The diff output for `input` given the four regexes' answers on each of
/// its lines.
pub fn render_diff(input: &str, ms: &Vec<DiffLineMatches>) -> (out: String)
    requires
        ms@.len() == lines(input@).len(),
    ensures
        out@ == diff_output(input@, ms@),
{
    let all = chars_of(input);
    let ls = split_lines(all.as_slice());
    let ghost ps = diff_pieces(ls.deep_view(), ms@);
    let mut out: Vec<char> = Vec::new();
    let n = ls.len();
    for i in 0..n
        invariant
            n == ls.len(),
            n == ms@.len(),
            ps == diff_pieces(ls.deep_view(), ms@),
            out@ == concat(ps.take(i as int)),
    {
        proof {
            lemma_concat_take_step(ps, i as int);
        }
        assert(ls.deep_view()[i as int] =~= ls[i as int]@);
        let piece = diff_piece_chars(ls[i].as_slice(), ms[i]);
        push_all(&mut out, piece.as_slice());
    }
    assert(ps.take(n as int) =~= ps);
    string_of(out.as_slice())
}

/// Clean `svn diff` output: strip Index:/=== headers, compact revision
/// markers; every other line passes as it is.
pub fn filter_diff(input: &str) -> (out: String)
    ensures
        out@ == filter_diff_spec(input@),
{
    let all = chars_of(input);
    let pi = compile_pattern(INDEX_HEADER_PATTERN);
    let ps = compile_pattern(SEPARATOR_PATTERN);
    let pm = compile_pattern(DIFF_MINUS_PATTERN);
    let pp = compile_pattern(DIFF_PLUS_PATTERN);
    match (pi, ps, pm, pp) {
        (Some(pi), Some(ps), Some(pm), Some(pp)) => {
            let ls = split_lines(all.as_slice());
            let index_header = matches_of_lines(&pi, &ls);
            let separator = matches_of_lines(&ps, &ls);
            let minus = matches_of_lines(&pm, &ls);
            let plus = matches_of_lines(&pp, &ls);
            let ghost expected = diff_matches_per_line(ls.deep_view());
            let mut ms: Vec<DiffLineMatches> = Vec::new();
            let n = ls.len();
            for i in 0..n
                invariant
                    n == ls.len(),
                    index_header@ == matches_per_line(INDEX_HEADER_PATTERN@, ls.deep_view()),
                    separator@ == matches_per_line(SEPARATOR_PATTERN@, ls.deep_view()),
                    minus@ == matches_per_line(DIFF_MINUS_PATTERN@, ls.deep_view()),
                    plus@ == matches_per_line(DIFF_PLUS_PATTERN@, ls.deep_view()),
                    expected == diff_matches_per_line(ls.deep_view()),
                    ms@ =~= expected.take(i as int),
            {
                ms.push(
                    DiffLineMatches {
                        index_header: index_header[i],
                        separator: separator[i],
                        minus: minus[i],
                        plus: plus[i],
                    },
                );
            }
            assert(expected.take(n as int) =~= expected);
            render_diff(input, &ms)
        },
        _ => string_of(all.as_slice()),
    }
}

} // verus!
