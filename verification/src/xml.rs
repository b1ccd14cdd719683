//! Text of a simple XML element written on one line.

use vstd::prelude::*;
use crate::text::{chars_of, copy_range, find, find_chars, push_all, string_of, trim, trim_chars};

verus! {

/// `<element>`.
pub open spec fn open_tag(element: Seq<char>) -> Seq<char> {
    seq!['<'] + element + seq!['>']
}

/// `</element>`.
pub open spec fn close_tag(element: Seq<char>) -> Seq<char> {
    seq!['<', '/'] + element + seq!['>']
}

/// The trimmed text between the first `<element>` of `line` and the first
/// `</element>` after it; `None` when either tag is missing.
pub open spec fn xml_text(line: Seq<char>, element: Seq<char>) -> Option<Seq<char>> {
    match find(line, open_tag(element)) {
        Some(start) => {
            let value_start = start + open_tag(element).len();
            let rest = line.subrange(value_start, line.len() as int);
            match find(rest, close_tag(element)) {
                Some(end) => Some(trim(rest.subrange(0, end))),
                None => None,
            }
        },
        None => None,
    }
}

/// `xml_text` on characters.
pub fn xml_text_chars(line: &[char], element: &[char]) -> (r: Option<Vec<char>>)
    ensures
        r.deep_view() == xml_text(line@, element@),
{
    let mut open: Vec<char> = Vec::new();
    open.push('<');
    push_all(&mut open, element);
    open.push('>');
    let mut close: Vec<char> = Vec::new();
    close.push('<');
    close.push('/');
    push_all(&mut close, element);
    close.push('>');
    assert(open@ =~= open_tag(element@));
    assert(close@ =~= close_tag(element@));
    match find_chars(line, open.as_slice()) {
        Some(start) => {
            assert(line@.len() == line.len());
            let value_start = start + open.len();
            let rest = copy_range(line, value_start, line.len());
            match find_chars(rest.as_slice(), close.as_slice()) {
                Some(end) => {
                    let inner = copy_range(rest.as_slice(), 0, end);
                    let v = trim_chars(inner.as_slice());
                    assert(v.deep_view() =~= v@);
                    Some(v)
                },
                None => None,
            }
        },
        None => None,
    }
}

/// Given a trimmed XML line like `<url>https://...</url>`, the text of the
/// element named `element`, trimmed; `None` when the line has no
/// `<element>` or no `</element>` after it.
pub fn extract_xml_text(line: &str, element: &str) -> (r: Option<String>)
    ensures
        r.deep_view() == xml_text(line@, element@),
{
    let l = chars_of(line);
    let e = chars_of(element);
    match xml_text_chars(l.as_slice(), e.as_slice()) {
        Some(v) => Some(string_of(v.as_slice())),
        None => None,
    }
}

} // verus!
