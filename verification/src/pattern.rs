//! Regular expressions, compiled and run by the `regex` crate.
//!
//! What a regular expression matches is `regex`'s own business: the items
//! below give each of its results a name (a function of the pattern and the
//! haystack alone) and promise nothing more of it than that name. A
//! `Pattern` is only ever made by `compile_pattern`, from its source text,
//! and its view is that text.

use vstd::prelude::*;
use crate::text::string_of;

verus! {

#[verifier::external_type_specification]
#[verifier::external_body]
pub struct ExRegex(regex::Regex);

/// Whether `regex::Regex::new` accepts `pattern` (with the default size
/// limits) and builds a regex from it.
pub uninterp spec fn regex_compiles(pattern: Seq<char>) -> bool;

/// What `regex::Regex::is_match` answers for `haystack` under the regex
/// built from `pattern`.
pub uninterp spec fn regex_is_match(pattern: Seq<char>, haystack: Seq<char>) -> bool;

/// What `regex::Regex::captures` finds in `haystack` under the regex built
/// from `pattern`: `None` without a match, otherwise the text of each group
/// in order (group 0 being the whole match), `None` for a group that took
/// no part in it.
pub uninterp spec fn regex_captures(pattern: Seq<char>, haystack: Seq<char>) -> Option<
    Seq<Option<Seq<char>>>,
>;

/// What `regex::Regex::replace` makes of `haystack` under the regex built
/// from `pattern`, with `replacement` as the replacement text.
pub uninterp spec fn regex_replace(
    pattern: Seq<char>,
    haystack: Seq<char>,
    replacement: Seq<char>,
) -> Seq<char>;

/// A compiled regular expression together with its source text.
pub(crate) struct Pattern {
    re: regex::Regex,
    source: String,
}

impl View for Pattern {
    type V = Seq<char>;

    closed spec fn view(&self) -> Seq<char> {
        self.source@
    }
}

/// `regex::Regex::new`: `Some` exactly when `regex` accepts the pattern; the
/// pattern kept is `source`.
#[verifier::external_body]
pub(crate) fn compile_pattern(source: &str) -> (r: Option<Pattern>)
    ensures
        r is Some <==> regex_compiles(source@),
        r matches Some(p) ==> p@ == source@,
{
    match regex::Regex::new(source) {
        Ok(re) => Some(Pattern { re, source: source.to_string() }),
        Err(_) => None,
    }
}

/// `regex::Regex::is_match`.
#[verifier::external_body]
pub(crate) fn pattern_is_match(p: &Pattern, haystack: &str) -> (b: bool)
    ensures
        b == regex_is_match(p@, haystack@),
{
    p.re.is_match(haystack)
}

/// `g` is a stretch of `s`.
pub open spec fn is_part_of(g: Seq<char>, s: Seq<char>) -> bool {
    exists|a: int, b: int| 0 <= a <= b <= s.len() && s.subrange(a, b) == g
}

/// Every group that took part in the match is a stretch of the haystack.
pub open spec fn groups_within(caps: Option<Seq<Option<Seq<char>>>>, haystack: Seq<char>) -> bool {
    caps matches Some(c) ==> forall|i: int|
        0 <= i < c.len() && #[trigger] c[i] is Some ==> is_part_of(c[i]->0, haystack)
}

/// `regex::Regex::captures`, each group's text copied into a `String`. Each
/// group's text is the part of the haystack that it matched
/// (`Match::as_str`).
#[verifier::external_body]
pub(crate) fn pattern_captures(p: &Pattern, haystack: &str) -> (r: Option<Vec<Option<String>>>)
    ensures
        r.deep_view() == regex_captures(p@, haystack@),
        groups_within(r.deep_view(), haystack@),
{
    p.re.captures(haystack).map(
        |caps| caps.iter().map(|m| m.map(|m| m.as_str().to_string())).collect(),
    )
}

/// `regex::Regex::replace` with a replacement text (in which `$` group
/// references are expanded, as `regex` does for a `&str` replacement).
#[verifier::external_body]
pub(crate) fn pattern_replace(p: &Pattern, haystack: &str, replacement: &str) -> (r: String)
    ensures
        r@ == regex_replace(p@, haystack@, replacement@),
{
    p.re.replace(haystack, replacement).into_owned()
}

// ---------------------------------------------------------------------------
// Reading captured groups
// ---------------------------------------------------------------------------

/// The text of group `i`; a group that is absent or took no part in the
/// match reads as empty.
pub open spec fn group_text(caps: Seq<Option<Seq<char>>>, i: int) -> Seq<char> {
    if 0 <= i < caps.len() && caps[i] is Some {
        caps[i]->0
    } else {
        Seq::empty()
    }
}

/// The characters of group `i` of `caps` (see `group_text`).
pub fn group_chars(caps: &Vec<Option<String>>, i: usize) -> (v: Vec<char>)
    ensures
        v@ == group_text(caps.deep_view(), i as int),
{
    if i < caps.len() {
        match &caps[i] {
            Some(t) => {
                let v = crate::text::chars_of(t.as_str());
                v
            },
            None => Vec::new(),
        }
    } else {
        Vec::new()
    }
}

// ---------------------------------------------------------------------------
// One regex over every line
// ---------------------------------------------------------------------------

/// `regex_captures` of `pattern` on each line.
pub open spec fn captures_per_line(pattern: Seq<char>, ls: Seq<Seq<char>>) -> Seq<
    Option<Seq<Option<Seq<char>>>>,
> {
    ls.map_values(|l: Seq<char>| regex_captures(pattern, l))
}

/// `regex_is_match` of `pattern` on each line.
pub open spec fn matches_per_line(pattern: Seq<char>, ls: Seq<Seq<char>>) -> Seq<bool> {
    ls.map_values(|l: Seq<char>| regex_is_match(pattern, l))
}

/// Whether any of the captures found a match.
pub fn any_captured(caps: &Vec<Option<Vec<Option<String>>>>) -> (b: bool)
    ensures
        b <==> exists|i: int| 0 <= i < caps.deep_view().len() && #[trigger] caps.deep_view()[i] is Some,
{
    let n = caps.len();
    let mut i: usize = 0;
    while i < n
        invariant
            n == caps@.len(),
            n == caps.deep_view().len(),
            i <= n,
            forall|j: int| 0 <= j < i ==> #[trigger] caps.deep_view()[j] is None,
        decreases n - i,
    {
        if caps[i].is_some() {
            assert(caps.deep_view()[i as int] is Some);
            return true;
        }
        assert(caps.deep_view()[i as int] is None);
        i = i + 1;
    }
    false
}

/// Whether any of the answers is yes.
pub fn any_true(v: &Vec<bool>) -> (b: bool)
    ensures
        b <==> exists|i: int| 0 <= i < v@.len() && #[trigger] v@[i],
{
    let n = v.len();
    let mut i: usize = 0;
    while i < n
        invariant
            n == v@.len(),
            i <= n,
            forall|j: int| 0 <= j < i ==> !#[trigger] v@[j],
        decreases n - i,
    {
        if v[i] {
            return true;
        }
        i = i + 1;
    }
    false
}

/// The captures of `p` on each of `ls`, in order.
pub(crate) fn captures_of_lines(p: &Pattern, ls: &Vec<Vec<char>>) -> (r: Vec<
    Option<Vec<Option<String>>>,
>)
    ensures
        r.deep_view() == captures_per_line(p@, ls.deep_view()),
        forall|i: int|
            0 <= i < ls.len() ==> groups_within(#[trigger] r.deep_view()[i], ls.deep_view()[i]),
{
    let mut r: Vec<Option<Vec<Option<String>>>> = Vec::new();
    let n = ls.len();
    for i in 0..n
        invariant
            n == ls.len(),
            r.deep_view() =~= captures_per_line(p@, ls.deep_view().take(i as int)),
            forall|j: int|
                0 <= j < i ==> groups_within(#[trigger] r.deep_view()[j], ls.deep_view()[j]),
    {
        let ghost r0 = r.deep_view();
        let s = string_of(ls[i].as_slice());
        assert(ls.deep_view()[i as int] =~= ls[i as int]@);
        let c = pattern_captures(p, s.as_str());
        r.push(c);
        assert(r.deep_view() =~= r0.push(c.deep_view()));
        assert(ls.deep_view().take(i + 1) =~= ls.deep_view().take(i as int).push(ls[i as int]@));
    }
    assert(ls.deep_view().take(n as int) =~= ls.deep_view());
    r
}

/// Whether `p` matches each of `ls`, in order.
pub(crate) fn matches_of_lines(p: &Pattern, ls: &Vec<Vec<char>>) -> (r: Vec<bool>)
    ensures
        r@ == matches_per_line(p@, ls.deep_view()),
{
    let mut r: Vec<bool> = Vec::new();
    let n = ls.len();
    for i in 0..n
        invariant
            n == ls.len(),
            r@ =~= matches_per_line(p@, ls.deep_view().take(i as int)),
    {
        let s = string_of(ls[i].as_slice());
        assert(ls.deep_view()[i as int] =~= ls[i as int]@);
        let b = pattern_is_match(p, s.as_str());
        r.push(b);
        assert(ls.deep_view().take(i + 1) =~= ls.deep_view().take(i as int).push(ls[i as int]@));
    }
    assert(ls.deep_view().take(n as int) =~= ls.deep_view());
    r
}

} // verus!
