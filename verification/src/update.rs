//! `svn update`: `{action}  {path}` per changed path and `Updated to r{N}`.

use vstd::prelude::*;
use crate::laws::law_update_passthrough;
use crate::pattern::{
    any_captured, captures_of_lines, captures_per_line, compile_pattern, group_chars, group_text,
    regex_captures, regex_compiles,
};
use crate::text::{
    chars_of, concat, lemma_concat_take_step, lines, or_input, push_all, split_lines, string_of,
};

verus! {

/// A path line: action letter, whitespace, path.
pub const UPDATE_ACTION_PATTERN: &'static str = "^([AUDGCE])\\s+(.+)$";

/// The closing line, in either of the forms `svn update` writes it.
pub const UPDATED_TO_PATTERN: &'static str = "(?:Updated to|At) revision (\\d+)";

/// The output for one line, given what the action regex and the revision
/// regex captured in it: `{action}  {path}` for an action line, otherwise
/// `Updated to r{N}` for a revision line, otherwise nothing.
pub open spec fn update_piece(
    action: Option<Seq<Option<Seq<char>>>>,
    updated: Option<Seq<Option<Seq<char>>>>,
) -> Seq<char> {
    match action {
        Some(c) => group_text(c, 1) + seq![' ', ' '] + group_text(c, 2) + seq!['\n'],
        None => match updated {
            Some(c) => "Updated to r"@ + group_text(c, 1) + seq!['\n'],
            None => Seq::empty(),
        },
    }
}

/// The pieces of all lines, in order.
pub open spec fn update_pieces(
    action: Seq<Option<Seq<Option<Seq<char>>>>>,
    updated: Seq<Option<Seq<Option<Seq<char>>>>>,
) -> Seq<Seq<char>> {
    Seq::new(action.len(), |i: int| update_piece(action[i], updated[i]))
}

/// The filtered output given the captures of both regexes on each line; the
/// input itself when no line matched either.
pub open spec fn update_output(
    input: Seq<char>,
    action: Seq<Option<Seq<Option<Seq<char>>>>>,
    updated: Seq<Option<Seq<Option<Seq<char>>>>>,
) -> Seq<char> {
    or_input(concat(update_pieces(action, updated)), input)
}

/// `filter_update` as a whole.
pub open spec fn filter_update_spec(input: Seq<char>) -> Seq<char> {
    if regex_compiles(UPDATE_ACTION_PATTERN@) && regex_compiles(UPDATED_TO_PATTERN@) {
        update_output(
            input,
            captures_per_line(UPDATE_ACTION_PATTERN@, lines(input)),
            captures_per_line(UPDATED_TO_PATTERN@, lines(input)),
        )
    } else {
        input
    }
}

fn update_piece_chars(
    action: &Option<Vec<Option<String>>>,
    updated: &Option<Vec<Option<String>>>,
) -> (v: Vec<char>)
    ensures
        v@ == update_piece(action.deep_view(), updated.deep_view()),
{
    match action {
        Some(c) => {
            let mut v = group_chars(c, 1);
            v.push(' ');
            v.push(' ');
            let path = group_chars(c, 2);
            push_all(&mut v, path.as_slice());
            v.push('\n');
            v
        },
        None => match updated {
            Some(c) => {
                let mut v = chars_of("Updated to r");
                let rev = group_chars(c, 1);
                push_all(&mut v, rev.as_slice());
                v.push('\n');
                v
            },
            None => Vec::new(),
        },
    }
}

/// The update output for `input` given the captures of the action regex and
/// of the revision regex on each of its lines.
pub fn render_update(
    input: &str,
    action: &Vec<Option<Vec<Option<String>>>>,
    updated: &Vec<Option<Vec<Option<String>>>>,
) -> (out: String)
    requires
        action@.len() == updated@.len(),
    ensures
        out@ == update_output(input@, action.deep_view(), updated.deep_view()),
{
    let ghost ps = update_pieces(action.deep_view(), updated.deep_view());
    let mut out: Vec<char> = Vec::new();
    let n = action.len();
    for i in 0..n
        invariant
            n == action@.len(),
            n == updated@.len(),
            ps == update_pieces(action.deep_view(), updated.deep_view()),
            out@ == concat(ps.take(i as int)),
    {
        proof {
            lemma_concat_take_step(ps, i as int);
        }
        let piece = update_piece_chars(&action[i], &updated[i]);
        push_all(&mut out, piece.as_slice());
    }
    assert(ps.take(n as int) =~= ps);
    if out.len() == 0 {
        out = chars_of(input);
    }
    string_of(out.as_slice())
}

/// Whether some line of `input` is an action line or a revision line. When
/// none is, `filter_update` hands the input back unchanged.
pub fn update_recognizes_any(input: &str) -> (b: bool)
    ensures
        b <==> regex_compiles(UPDATE_ACTION_PATTERN@) && regex_compiles(UPDATED_TO_PATTERN@)
            && exists|i: int|
            0 <= i < lines(input@).len() && (#[trigger] regex_captures(
                UPDATE_ACTION_PATTERN@,
                lines(input@)[i],
            ) is Some || regex_captures(UPDATED_TO_PATTERN@, lines(input@)[i]) is Some),
        !b ==> filter_update_spec(input@) == input@,
{
    let pa = compile_pattern(UPDATE_ACTION_PATTERN);
    let pu = compile_pattern(UPDATED_TO_PATTERN);
    match (pa, pu) {
        (Some(pa), Some(pu)) => {
            let all = chars_of(input);
            let ls = split_lines(all.as_slice());
            let action = captures_of_lines(&pa, &ls);
            let updated = captures_of_lines(&pu, &ls);
            let ba = any_captured(&action);
            let bu = any_captured(&updated);
            let b = ba || bu;
            proof {
                let lv = lines(input@);
                if ba {
                    let i = choose|i: int|
                        0 <= i < action.deep_view().len() && #[trigger] action.deep_view()[i] is Some;
                    assert(regex_captures(UPDATE_ACTION_PATTERN@, lv[i]) is Some);
                } else if bu {
                    let i = choose|i: int|
                        0 <= i < updated.deep_view().len() && #[trigger] updated.deep_view()[i] is Some;
                    assert(regex_captures(UPDATE_ACTION_PATTERN@, lv[i]) is Some || regex_captures(
                        UPDATED_TO_PATTERN@,
                        lv[i],
                    ) is Some);
                } else {
                    assert forall|i: int| 0 <= i < lv.len() implies #[trigger] regex_captures(
                        UPDATE_ACTION_PATTERN@,
                        lv[i],
                    ) is None && regex_captures(UPDATED_TO_PATTERN@, lv[i]) is None by {
                        assert(action.deep_view()[i] is None);
                        assert(updated.deep_view()[i] is None);
                    }
                    law_update_passthrough(input@);
                }
            }
            b
        },
        _ => false,
    }
}

/// Compact `svn update`: `{A/U/D} path` + `Updated to r{N}`; the input
/// itself when no line is either.
pub fn filter_update(input: &str) -> (out: String)
    ensures
        out@ == filter_update_spec(input@),
{
    let pa = compile_pattern(UPDATE_ACTION_PATTERN);
    let pu = compile_pattern(UPDATED_TO_PATTERN);
    let all = chars_of(input);
    match (pa, pu) {
        (Some(pa), Some(pu)) => {
            let ls = split_lines(all.as_slice());
            let action = captures_of_lines(&pa, &ls);
            let updated = captures_of_lines(&pu, &ls);
            assert(action@.len() == action.deep_view().len());
            assert(updated@.len() == updated.deep_view().len());
            render_update(input, &action, &updated)
        },
        _ => string_of(all.as_slice()),
    }
}

} // verus!
