//! `svn add`: `{status}  {path}` for each added path.

use vstd::prelude::*;
use crate::laws::law_add_passthrough;
use crate::pattern::{
    any_true, compile_pattern, matches_of_lines, matches_per_line, regex_compiles, regex_is_match,
};
use crate::text::{
    chars_of, concat, copy_range, lemma_concat_take_step, lines, or_input,
    push_all, split_lines, starts_with, starts_with_chars, string_of, take_chars, trim, trim_chars,
    trim_start, trim_start_chars,
};

verus! {

/// A line of `svn add` output: a status letter, whitespace, the path.
pub const ADD_LINE_PATTERN: &'static str = "^[AaLL]\\s+(.+)$";

/// A path without the `(bin)` annotation that `svn add` puts before a
/// binary file, and the whitespace after it; any other path as it is.
pub open spec fn without_annotation(p: Seq<char>) -> Seq<char> {
    if starts_with(p, "(bin)"@) {
        trim(p.subrange("(bin)"@.len() as int, p.len() as int))
    } else {
        p
    }
}

/// The output for one line: for a matching line, its first character after
/// leading whitespace (the status), two spaces, the rest trimmed and without
/// a `(bin)` annotation (the path) and a newline; nothing for any other line.
pub open spec fn add_piece(line: Seq<char>, matched: bool) -> Seq<char> {
    if matched {
        let t = trim_start(line);
        let path = if t.len() > 0 {
            without_annotation(trim(t.subrange(1, t.len() as int)))
        } else {
            Seq::empty()
        };
        take_chars(t, 1) + seq![' ', ' '] + path + seq!['\n']
    } else {
        Seq::empty()
    }
}

/// The pieces of all lines, in order.
pub open spec fn add_pieces(ls: Seq<Seq<char>>, matched: Seq<bool>) -> Seq<Seq<char>> {
    Seq::new(ls.len(), |i: int| add_piece(ls[i], matched[i]))
}

/// The filtered output given which lines matched; the input itself when
/// none did.
pub open spec fn add_output(input: Seq<char>, matched: Seq<bool>) -> Seq<char> {
    or_input(concat(add_pieces(lines(input), matched)), input)
}

/// `filter_add` as a whole.
pub open spec fn filter_add_spec(input: Seq<char>) -> Seq<char> {
    if regex_compiles(ADD_LINE_PATTERN@) {
        add_output(input, matches_per_line(ADD_LINE_PATTERN@, lines(input)))
    } else {
        input
    }
}

fn without_annotation_chars(p: &[char]) -> (v: Vec<char>)
    ensures
        v@ == without_annotation(p@),
{
    let bin = chars_of("(bin)");
    if starts_with_chars(p, bin.as_slice()) {
        let rest = copy_range(p, bin.len(), p.len());
        trim_chars(rest.as_slice())
    } else {
        assert(p@.subrange(0, p@.len() as int) =~= p@);
        copy_range(p, 0, p.len())
    }
}

fn add_piece_chars(line: &[char], matched: bool) -> (v: Vec<char>)
    ensures
        v@ == add_piece(line@, matched),
{
    if !matched {
        return Vec::new();
    }
    let t = trim_start_chars(line);
    let mut v: Vec<char> = Vec::new();
    if t.len() > 0 {
        v.push(t[0]);
        v.push(' ');
        v.push(' ');
        let rest = copy_range(t.as_slice(), 1, t.len());
        let path = trim_chars(rest.as_slice());
        let path = without_annotation_chars(path.as_slice());
        push_all(&mut v, path.as_slice());
        assert(take_chars(t@, 1) =~= seq![t@[0]]);
    } else {
        v.push(' ');
        v.push(' ');
        assert(take_chars(t@, 1) =~= Seq::<char>::empty());
    }
    v.push('\n');
    v
}

/// The add output for `input` given, for each of its lines, whether the add
/// regex matched it.
pub fn render_add(input: &str, matched: &Vec<bool>) -> (out: String)
    requires
        matched@.len() == lines(input@).len(),
    ensures
        out@ == add_output(input@, matched@),
{
    let all = chars_of(input);
    let ls = split_lines(all.as_slice());
    let ghost ps = add_pieces(ls.deep_view(), matched@);
    let mut out: Vec<char> = Vec::new();
    let n = ls.len();
    for i in 0..n
        invariant
            n == ls.len(),
            n == matched@.len(),
            ps == add_pieces(ls.deep_view(), matched@),
            out@ == concat(ps.take(i as int)),
    {
        proof {
            lemma_concat_take_step(ps, i as int);
        }
        assert(ls.deep_view()[i as int] =~= ls[i as int]@);
        let piece = add_piece_chars(ls[i].as_slice(), matched[i]);
        push_all(&mut out, piece.as_slice());
    }
    assert(ps.take(n as int) =~= ps);
    if out.len() == 0 {
        out = all;
    }
    string_of(out.as_slice())
}

/// Whether the add regex matches some line of `input`. When it does
/// not, `filter_add` hands the input back unchanged.
pub fn add_recognizes_any(input: &str) -> (b: bool)
    ensures
        b <==> regex_compiles(ADD_LINE_PATTERN@) && exists|i: int|
            0 <= i < lines(input@).len() && #[trigger] regex_is_match(ADD_LINE_PATTERN@, lines(input@)[i]),
        !b ==> filter_add_spec(input@) == input@,
{
    let p = match compile_pattern(ADD_LINE_PATTERN) {
        Some(p) => p,
        None => return false,
    };
    let all = chars_of(input);
    let ls = split_lines(all.as_slice());
    let matched = matches_of_lines(&p, &ls);
    let b = any_true(&matched);
    proof {
        let lv = lines(input@);
        if b {
            let i = choose|i: int| 0 <= i < matched@.len() && #[trigger] matched@[i];
            assert(regex_is_match(ADD_LINE_PATTERN@, lv[i]));
        } else {
            assert forall|i: int| 0 <= i < lv.len() implies !#[trigger] regex_is_match(ADD_LINE_PATTERN@, lv[i]) by {
                assert(!matched@[i]);
            }
            law_add_passthrough(input@);
        }
    }
    b
}

/// Compact `svn add`: `{status}  {path}` per added path; the input itself
/// when no line is an add line.
pub fn filter_add(input: &str) -> (out: String)
    ensures
        out@ == filter_add_spec(input@),
{
    let p = match compile_pattern(ADD_LINE_PATTERN) {
        Some(p) => p,
        None => {
            let all = chars_of(input);
            return string_of(all.as_slice());
        },
    };
    let all = chars_of(input);
    let ls = split_lines(all.as_slice());
    let matched = matches_of_lines(&p, &ls);
    render_add(input, &matched)
}

} // verus!
