//! The platform tag that a line of a layout tree may carry.
//!
//! A line such as `foo.exe [target_platform=windows-msvc,windows-gnu]`
//! names the platforms on which its entry exists. The tag is found with a
//! regular expression; what the expression matches is stated here over the
//! characters of the line.

use vstd::prelude::*;

verus! {

/// The characters with which a platform tag opens.
pub open spec fn tag_open() -> Seq<char> {
    seq![
        '[', 't', 'a', 'r', 'g', 'e', 't', '_', 'p', 'l', 'a', 't', 'f', 'o', 'r', 'm', '=',
    ]
}

/// The characters of which the list of platforms in a tag is made: small
/// letters, the comma and the hyphen.
pub open spec fn is_list_char(c: char) -> bool {
    ('a' <= c && c <= 'z') || c == ',' || c == '-'
}

/// The length of the longest run of list characters that starts at `from`.
pub open spec fn run_len(s: Seq<char>, from: int) -> nat
    decreases s.len() - from,
{
    if 0 <= from < s.len() && is_list_char(s[from]) {
        1 + run_len(s, from + 1)
    } else {
        0
    }
}

/// The list of platforms of the tag that starts at `i`, if one starts
/// there: the opening, a run of one or more list characters, and a closing
/// bracket right after the run.
pub open spec fn tag_at(line: Seq<char>, i: int) -> Option<Seq<char>> {
    let start = i + tag_open().len();
    let n = run_len(line, start);
    if 0 <= i && start + n < line.len() && line.subrange(i, start) == tag_open() && n >= 1
        && line[start + n] == ']' {
        Some(line.subrange(start, start + n))
    } else {
        None
    }
}

/// The list of platforms of the first tag that starts at `from` or later.
pub open spec fn first_tag(line: Seq<char>, from: int) -> Option<Seq<char>>
    decreases line.len() - from,
{
    if from < 0 || from >= line.len() {
        None
    } else {
        match tag_at(line, from) {
            Some(list) => Some(list),
            None => first_tag(line, from + 1),
        }
    }
}

/// The list of platforms of the leftmost tag of the line.
pub open spec fn platform_list(line: Seq<char>) -> Option<Seq<char>> {
    first_tag(line, 0)
}

/// The regular expression of a platform tag: the opening, a group of one
/// or more list characters, and the closing bracket.
pub open spec fn tag_pattern() -> Seq<char> {
    seq!['\\', '['] + tag_open().skip(1) + seq![
        '(', '[', 'a', '-', 'z', ',', '-', ']', '+', ')', '\\', ']',
    ]
}

/// What the first group of the regular expression `pattern` holds at the
/// leftmost match in `line`, found by `regex::Regex::new` and
/// `regex::Regex::captures`.
///
/// Believed without proof, of the expression of a platform tag, which is
/// the only one that is handed in: that it compiles, that the search
/// reports the leftmost place at which it matches and no match where there
/// is none, and that its group holds the run of list characters between
/// the opening and the closing bracket.
#[verifier::external_body]
pub(crate) fn capture_group(pattern: &str, line: &str) -> (r: Option<String>)
    requires
        pattern@ == tag_pattern(),
    ensures
        match r {
            Some(list) => platform_list(line@) == Some(list@),
            None => platform_list(line@) is None,
        },
{
    match regex::Regex::new(pattern).unwrap().captures(line) {
        Some(found) => Some(found[1].to_string()),
        None => None,
    }
}

} // verus!
