//! `svn commit`: keep only the "Committed revision N." line.

use vstd::prelude::*;
use crate::laws::{law_commit_idempotent, law_commit_passthrough};
use crate::pattern::{
    any_true, compile_pattern, matches_of_lines, matches_per_line, regex_compiles, regex_is_match,
};
use crate::text::{
    chars_of, concat, lemma_concat_take_step, lines, or_input, push_all, split_lines, string_of,
};

verus! {

/// The line that reports the new revision.
pub const COMMITTED_PATTERN: &'static str = "^Committed revision \\d+\\.$";

/// The output for one line: the line and a newline when it matched,
/// nothing otherwise.
pub open spec fn commit_piece(line: Seq<char>, matched: bool) -> Seq<char> {
    if matched {
        line + seq!['\n']
    } else {
        Seq::empty()
    }
}

/// The pieces of all lines, in order.
pub open spec fn commit_pieces(ls: Seq<Seq<char>>, matched: Seq<bool>) -> Seq<Seq<char>> {
    Seq::new(ls.len(), |i: int| commit_piece(ls[i], matched[i]))
}

/// The filtered output given which lines matched; the input itself when
/// none did.
pub open spec fn commit_output(input: Seq<char>, matched: Seq<bool>) -> Seq<char> {
    or_input(concat(commit_pieces(lines(input), matched)), input)
}

/// `filter_commit` as a whole.
pub open spec fn filter_commit_spec(input: Seq<char>) -> Seq<char> {
    if regex_compiles(COMMITTED_PATTERN@) {
        commit_output(input, matches_per_line(COMMITTED_PATTERN@, lines(input)))
    } else {
        input
    }
}

/// The commit output for `input` given, for each of its lines, whether the
/// commit regex matched it.
pub fn render_commit(input: &str, matched: &Vec<bool>) -> (out: String)
    requires
        matched@.len() == lines(input@).len(),
    ensures
        out@ == commit_output(input@, matched@),
{
    let all = chars_of(input);
    let ls = split_lines(all.as_slice());
    let ghost ps = commit_pieces(ls.deep_view(), matched@);
    let mut out: Vec<char> = Vec::new();
    let n = ls.len();
    for i in 0..n
        invariant
            n == ls.len(),
            n == matched@.len(),
            ps == commit_pieces(ls.deep_view(), matched@),
            out@ == concat(ps.take(i as int)),
    {
        proof {
            lemma_concat_take_step(ps, i as int);
        }
        assert(ls.deep_view()[i as int] =~= ls[i as int]@);
        if matched[i] {
            push_all(&mut out, ls[i].as_slice());
            out.push('\n');
        }
        assert(out@ =~= concat(ps.take(i + 1)));
    }
    assert(ps.take(n as int) =~= ps);
    if out.len() == 0 {
        out = all;
    }
    string_of(out.as_slice())
}

/// Whether the commit regex matches some line of `input`. When it does
/// not, `filter_commit` hands the input back unchanged.
pub fn commit_recognizes_any(input: &str) -> (b: bool)
    ensures
        b <==> regex_compiles(COMMITTED_PATTERN@) && exists|i: int|
            0 <= i < lines(input@).len() && #[trigger] regex_is_match(COMMITTED_PATTERN@, lines(input@)[i]),
        !b ==> filter_commit_spec(input@) == input@,
{
    let p = match compile_pattern(COMMITTED_PATTERN) {
        Some(p) => p,
        None => return false,
    };
    let all = chars_of(input);
    let ls = split_lines(all.as_slice());
    let matched = matches_of_lines(&p, &ls);
    let b = any_true(&matched);
    proof {
        let lv = lines(input@);
        if b {
            let i = choose|i: int| 0 <= i < matched@.len() && #[trigger] matched@[i];
            assert(regex_is_match(COMMITTED_PATTERN@, lv[i]));
        } else {
            assert forall|i: int| 0 <= i < lv.len() implies !#[trigger] regex_is_match(COMMITTED_PATTERN@, lv[i]) by {
                assert(!matched@[i]);
            }
            law_commit_passthrough(input@);
        }
    }
    b
}

/// Whether filtering `input` twice is sure to give what filtering it once
/// gives. It is, unless a line that the commit regex matches ends in a
/// carriage return (only a last line without a newline can).
pub fn commit_refiltering_stable(input: &str) -> (b: bool)
    ensures
        regex_compiles(COMMITTED_PATTERN@) ==> (b <==> forall|i: int|
            0 <= i < lines(input@).len() && #[trigger] regex_is_match(
                COMMITTED_PATTERN@,
                lines(input@)[i],
            ) ==> !(lines(input@)[i].len() > 0 && lines(input@)[i].last() == '\r')),
        b ==> filter_commit_spec(filter_commit_spec(input@)) == filter_commit_spec(input@),
{
    let p = match compile_pattern(COMMITTED_PATTERN) {
        Some(p) => p,
        None => return true,
    };
    let all = chars_of(input);
    let ls = split_lines(all.as_slice());
    let matched = matches_of_lines(&p, &ls);
    let n = ls.len();
    let mut i: usize = 0;
    while i < n
        invariant
            n == ls.len(),
            n == matched@.len(),
            ls.deep_view() == lines(input@),
            matched@ == matches_per_line(COMMITTED_PATTERN@, ls.deep_view()),
            i <= n,
            forall|j: int|
                0 <= j < i && #[trigger] regex_is_match(COMMITTED_PATTERN@, lines(input@)[j]) ==> !(
                lines(input@)[j].len() > 0 && lines(input@)[j].last() == '\r'),
        decreases n - i,
    {
        assert(ls.deep_view()[i as int] =~= ls[i as int]@);
        assert(matched@[i as int] == regex_is_match(COMMITTED_PATTERN@, lines(input@)[i as int]));
        let l = &ls[i];
        if matched[i] && l.len() > 0 && l[l.len() - 1] == '\r' {
            return false;
        }
        i = i + 1;
    }
    proof {
        law_commit_idempotent(input@);
    }
    true
}

/// Compact `svn commit`: only "Committed revision N."; the input itself
/// when there is no such line.
pub fn filter_commit(input: &str) -> (out: String)
    ensures
        out@ == filter_commit_spec(input@),
{
    let p = match compile_pattern(COMMITTED_PATTERN) {
        Some(p) => p,
        None => {
            let all = chars_of(input);
            return string_of(all.as_slice());
        },
    };
    let all = chars_of(input);
    let ls = split_lines(all.as_slice());
    let matched = matches_of_lines(&p, &ls);
    render_commit(input, &matched)
}

} // verus!
