//! `svn status`: keep the status columns and the path of each status line.

use vstd::prelude::*;
use crate::laws::law_status_passthrough;
use crate::pattern::{
    any_captured, captures_of_lines, captures_per_line, compile_pattern, group_chars, group_text,
    regex_captures, regex_compiles,
};
use crate::text::{
    chars_of, concat, lemma_concat_take_step, lines, or_input, push_all, split_lines, string_of,
    trim, trim_chars,
};

verus! {

/// A status line: repository status column, working-copy status column,
/// whitespace, path.
pub const STATUS_LINE_PATTERN: &'static str = "^([ MADRCX?!~])([ MADCRX?!~])\\s+(.+)$";

/// The output for one line, given what the status regex captured in it:
/// nothing for a line that does not match, otherwise the non-blank status
/// columns run together, a space, the path and a newline.
pub open spec fn status_piece(caps: Option<Seq<Option<Seq<char>>>>) -> Seq<char> {
    match caps {
        None => Seq::empty(),
        Some(c) => {
            let first = trim(group_text(c, 1));
            let second = trim(group_text(c, 2));
            let status = if first.len() == 0 {
                second
            } else if second.len() == 0 {
                first
            } else {
                first + second
            };
            status + seq![' '] + group_text(c, 3) + seq!['\n']
        },
    }
}

/// The pieces of all lines, in order.
pub open spec fn status_pieces(caps: Seq<Option<Seq<Option<Seq<char>>>>>) -> Seq<Seq<char>> {
    caps.map_values(|c: Option<Seq<Option<Seq<char>>>>| status_piece(c))
}

/// The filtered output given the captures of each line; the input itself
/// when no line matched.
pub open spec fn status_output(input: Seq<char>, caps: Seq<Option<Seq<Option<Seq<char>>>>>) -> Seq<
    char,
> {
    or_input(concat(status_pieces(caps)), input)
}

/// `filter_status` as a whole: the status regex is run on every line of the
/// input.
pub open spec fn filter_status_spec(input: Seq<char>) -> Seq<char> {
    if regex_compiles(STATUS_LINE_PATTERN@) {
        status_output(input, captures_per_line(STATUS_LINE_PATTERN@, lines(input)))
    } else {
        input
    }
}

fn status_piece_chars(caps: &Option<Vec<Option<String>>>) -> (v: Vec<char>)
    ensures
        v@ == status_piece(caps.deep_view()),
{
    match caps {
        None => Vec::new(),
        Some(c) => {
            let g1 = group_chars(c, 1);
            let g2 = group_chars(c, 2);
            let path = group_chars(c, 3);
            let first = trim_chars(g1.as_slice());
            let second = trim_chars(g2.as_slice());
            let mut v = if first.len() == 0 {
                second
            } else if second.len() == 0 {
                first
            } else {
                let mut both = first;
                push_all(&mut both, second.as_slice());
                both
            };
            v.push(' ');
            push_all(&mut v, path.as_slice());
            v.push('\n');
            v
        },
    }
}

/// The status output for `input` given the captures of the status regex on
/// each of its lines.
pub fn render_status(input: &str, caps: &Vec<Option<Vec<Option<String>>>>) -> (out: String)
    ensures
        out@ == status_output(input@, caps.deep_view()),
{
    let ghost ps = status_pieces(caps.deep_view());
    let mut out: Vec<char> = Vec::new();
    let n = caps.len();
    for i in 0..n
        invariant
            n == caps.len(),
            ps == status_pieces(caps.deep_view()),
            out@ == concat(ps.take(i as int)),
    {
        let piece = status_piece_chars(&caps[i]);
        proof {
            lemma_concat_take_step(ps, i as int);
        }
        push_all(&mut out, piece.as_slice());
    }
    assert(ps.take(n as int) =~= ps);
    if out.len() == 0 {
        out = chars_of(input);
    }
    string_of(out.as_slice())
}

/// Whether the status regex recognizes some line of `input`. When it does
/// not, `filter_status` hands the input back unchanged.
pub fn status_recognizes_any(input: &str) -> (b: bool)
    ensures
        b <==> regex_compiles(STATUS_LINE_PATTERN@) && exists|i: int|
            0 <= i < lines(input@).len() && #[trigger] regex_captures(
                STATUS_LINE_PATTERN@,
                lines(input@)[i],
            ) is Some,
        !b ==> filter_status_spec(input@) == input@,
{
    let p = match compile_pattern(STATUS_LINE_PATTERN) {
        Some(p) => p,
        None => return false,
    };
    let all = chars_of(input);
    let ls = split_lines(all.as_slice());
    let caps = captures_of_lines(&p, &ls);
    let b = any_captured(&caps);
    proof {
        let lv = lines(input@);
        if b {
            let i = choose|i: int| 0 <= i < caps.deep_view().len() && #[trigger] caps.deep_view()[i] is Some;
            assert(regex_captures(STATUS_LINE_PATTERN@, lv[i]) is Some);
        } else {
            assert forall|i: int| 0 <= i < lv.len() implies #[trigger] regex_captures(
                STATUS_LINE_PATTERN@,
                lv[i],
            ) is None by {
                assert(caps.deep_view()[i] is None);
            }
            law_status_passthrough(input@);
        }
    }
    b
}

/// Condense `svn status` output: normalize whitespace, strip leading spaces.
/// Lines without a recognized status column are silently dropped; when no
/// line is recognized the input is handed back as it is.
pub fn filter_status(input: &str) -> (out: String)
    ensures
        out@ == filter_status_spec(input@),
{
    let p = match compile_pattern(STATUS_LINE_PATTERN) {
        Some(p) => p,
        None => {
            let all = chars_of(input);
            return string_of(all.as_slice());
        },
    };
    let all = chars_of(input);
    let ls = split_lines(all.as_slice());
    let caps = captures_of_lines(&p, &ls);
    render_status(input, &caps)
}

} // verus!
