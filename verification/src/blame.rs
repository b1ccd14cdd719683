//! `svn blame`: `{rev} {user} {content}` per annotated line.

use vstd::prelude::*;
use crate::pattern::{
    captures_of_lines, captures_per_line, compile_pattern, group_chars, group_text,
    groups_within, regex_compiles,
};
use crate::text::{
    chars_of, concat, lemma_concat_take_step, lemma_lines_no_newline, lemma_newline_count_add,
    lemma_newline_count_concat, lemma_newline_count_none, lines, newline_count, no_newline,
    push_all, split_lines, string_of,
};

verus! {

/// An annotated line: revision (or `-`), user (or `-`), content.
pub const BLAME_LINE_PATTERN: &'static str = "^\\s*(\\d+|-)\\s+(\\S+|-)\\s+(.+)$";

/// The output for one line: revision, user and content separated by single
/// spaces when the blame regex matched it, otherwise the line as it is; a
/// newline after either.
pub open spec fn blame_piece(line: Seq<char>, caps: Option<Seq<Option<Seq<char>>>>) -> Seq<char> {
    match caps {
        Some(c) => group_text(c, 1) + seq![' '] + group_text(c, 2) + seq![' '] + group_text(c, 3)
            + seq!['\n'],
        None => line + seq!['\n'],
    }
}

/// The pieces of all lines, in order.
pub open spec fn blame_pieces(ls: Seq<Seq<char>>, caps: Seq<Option<Seq<Option<Seq<char>>>>>) -> Seq<
    Seq<char>,
> {
    Seq::new(ls.len(), |i: int| blame_piece(ls[i], caps[i]))
}

/// The filtered output given the captures of each line.
pub open spec fn blame_output(input: Seq<char>, caps: Seq<Option<Seq<Option<Seq<char>>>>>) -> Seq<
    char,
> {
    concat(blame_pieces(lines(input), caps))
}

/// A line without newline gives exactly one output line.
pub proof fn lemma_blame_piece_one_line(line: Seq<char>, caps: Option<Seq<Option<Seq<char>>>>)
    requires
        no_newline(line),
        groups_within(caps, line),
    ensures
        newline_count(blame_piece(line, caps)) == 1,
{
    match caps {
        Some(c) => {
            assert forall|i: int| 1 <= i <= 3 implies no_newline(#[trigger] group_text(c, i)) by {
                if 0 <= i < c.len() && c[i] is Some {
                    let (a, b) = choose|a: int, b: int|
                        0 <= a <= b <= line.len() && line.subrange(a, b) == c[i]->0;
                    assert forall|k: int| 0 <= k < group_text(c, i).len() implies #[trigger] group_text(
                        c,
                        i,
                    )[k] != '\n' by {
                        assert(group_text(c, i)[k] == line[a + k]);
                    }
                }
            }
            let g1 = group_text(c, 1);
            let g2 = group_text(c, 2);
            let g3 = group_text(c, 3);
            lemma_newline_count_none(g1);
            lemma_newline_count_none(g2);
            lemma_newline_count_none(g3);
            lemma_newline_count_add(g1, seq![' ']);
            lemma_newline_count_add(g1 + seq![' '], g2);
            lemma_newline_count_add(g1 + seq![' '] + g2, seq![' ']);
            lemma_newline_count_add(g1 + seq![' '] + g2 + seq![' '], g3);
            lemma_newline_count_add(g1 + seq![' '] + g2 + seq![' '] + g3, seq!['\n']);
            assert(newline_count(seq![' ']) == 0) by {
                assert(seq![' '].drop_last() =~= Seq::<char>::empty());
                assert(newline_count(Seq::<char>::empty()) == 0);
            }
            assert(newline_count(seq!['\n']) == 1) by {
                assert(seq!['\n'].drop_last() =~= Seq::<char>::empty());
                assert(newline_count(Seq::<char>::empty()) == 0);
            }
        },
        None => {
            lemma_newline_count_none(line);
            lemma_newline_count_add(line, seq!['\n']);
            assert(newline_count(seq!['\n']) == 1) by {
                assert(seq!['\n'].drop_last() =~= Seq::<char>::empty());
                assert(newline_count(Seq::<char>::empty()) == 0);
            }
        },
    }
}

/// `filter_blame` as a whole.
pub open spec fn filter_blame_spec(input: Seq<char>) -> Seq<char> {
    if regex_compiles(BLAME_LINE_PATTERN@) {
        blame_output(input, captures_per_line(BLAME_LINE_PATTERN@, lines(input)))
    } else {
        input
    }
}

fn blame_piece_chars(line: &[char], caps: &Option<Vec<Option<String>>>) -> (v: Vec<char>)
    ensures
        v@ == blame_piece(line@, caps.deep_view()),
{
    match caps {
        Some(c) => {
            let mut v = group_chars(c, 1);
            v.push(' ');
            let user = group_chars(c, 2);
            push_all(&mut v, user.as_slice());
            v.push(' ');
            let content = group_chars(c, 3);
            push_all(&mut v, content.as_slice());
            v.push('\n');
            v
        },
        None => {
            let mut v: Vec<char> = Vec::new();
            push_all(&mut v, line);
            v.push('\n');
            v
        },
    }
}

/// The blame output for `input` given the captures of the blame regex on
/// each of its lines.
pub fn render_blame(input: &str, caps: &Vec<Option<Vec<Option<String>>>>) -> (out: String)
    requires
        caps@.len() == lines(input@).len(),
    ensures
        out@ == blame_output(input@, caps.deep_view()),
{
    let all = chars_of(input);
    let ls = split_lines(all.as_slice());
    let ghost ps = blame_pieces(ls.deep_view(), caps.deep_view());
    let mut out: Vec<char> = Vec::new();
    let n = ls.len();
    for i in 0..n
        invariant
            n == ls.len(),
            n == caps@.len(),
            ps == blame_pieces(ls.deep_view(), caps.deep_view()),
            out@ == concat(ps.take(i as int)),
    {
        proof {
            lemma_concat_take_step(ps, i as int);
        }
        assert(ls.deep_view()[i as int] =~= ls[i as int]@);
        let piece = blame_piece_chars(ls[i].as_slice(), &caps[i]);
        push_all(&mut out, piece.as_slice());
    }
    assert(ps.take(n as int) =~= ps);
    string_of(out.as_slice())
}

/// Compact `svn blame`: strip leading whitespace, normalize columns; lines
/// that are not annotated lines pass as they are. Every line of the input
/// gives exactly one line of output.
pub fn filter_blame(input: &str) -> (out: String)
    ensures
        out@ == filter_blame_spec(input@),
        regex_compiles(BLAME_LINE_PATTERN@) ==> newline_count(out@) == lines(input@).len(),
{
    let p = match compile_pattern(BLAME_LINE_PATTERN) {
        Some(p) => p,
        None => {
            let all = chars_of(input);
            return string_of(all.as_slice());
        },
    };
    let all = chars_of(input);
    let ls = split_lines(all.as_slice());
    let caps = captures_of_lines(&p, &ls);
    assert(caps@.len() == caps.deep_view().len());
    proof {
        let ls_v = lines(input@);
        let ps = blame_pieces(ls_v, caps.deep_view());
        lemma_lines_no_newline(input@);
        assert forall|i: int| 0 <= i < ps.len() implies #[trigger] newline_count(ps[i]) == 1 by {
            assert(groups_within(caps.deep_view()[i], ls.deep_view()[i]));
            assert(no_newline(ls_v[i]));
            lemma_blame_piece_one_line(ls_v[i], caps.deep_view()[i]);
        }
        lemma_newline_count_concat(ps);
    }
    render_blame(input, &caps)
}

} // verus!
