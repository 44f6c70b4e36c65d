//! Matching an expected text against an actual one, line by line.
//!
//! Both texts are normalized first: backslashes become slashes, and every
//! line ending becomes a line feed. In a line of the expected text `[..]`
//! stands for any run of characters. The expected lines match when they
//! are found, one after the other, somewhere among the actual lines.

use vstd::prelude::*;
use vstd::slice::slice_subrange;
use crate::layout_line::{line_spans, lines_of, Span};
use crate::text::{chars_eq, chars_of};

verus! {

/// The text with every backslash turned into a slash.
pub open spec fn slashes(s: Seq<char>) -> Seq<char> {
    s.map_values(
        |c: char|
            if c == '\\' {
                '/'
            } else {
                c
            },
    )
}

/// The text with every line ending turned into a line feed: a carriage
/// return becomes a line feed, and a line feed right behind a carriage
/// return is dropped. `after_cr` says whether a carriage return went
/// before the text.
pub open spec fn line_feeds(s: Seq<char>, after_cr: bool) -> Seq<char>
    decreases s.len(),
{
    if s.len() == 0 {
        Seq::empty()
    } else if s[0] == '\n' && after_cr {
        line_feeds(s.drop_first(), false)
    } else if s[0] == '\r' {
        seq!['\n'] + line_feeds(s.drop_first(), true)
    } else {
        seq![s[0]] + line_feeds(s.drop_first(), false)
    }
}

/// The text as it is compared.
pub open spec fn normalized(s: Seq<char>) -> Seq<char> {
    line_feeds(slashes(s), false)
}

/// The text with its path separators made the same, by
/// `snapbox::filter::normalize_paths`.
///
/// Believed without proof: that the result is the text with each backslash
/// replaced by a slash and every other character kept.
#[verifier::external_body]
fn normalize_paths(s: &str) -> (r: String)
    ensures
        r@ == slashes(s@),
{
    snapbox::filter::normalize_paths(s)
}

/// The text with its line endings made the same, by
/// `snapbox::filter::normalize_lines`.
///
/// Believed without proof: that each carriage return comes out as a line
/// feed, that a line feed right behind a carriage return is dropped, and
/// that every other character is kept.
#[verifier::external_body]
fn normalize_lines(s: &str) -> (r: String)
    ensures
        r@ == line_feeds(s@, false),
{
    snapbox::filter::normalize_lines(s)
}

/// A set of redactions of `snapbox`: placeholders, each with the values
/// that it stands for.
#[verifier::external_type_specification]
#[verifier::external_body]
pub struct ExRedactions(snapbox::Redactions);

/// The placeholders that a set of redactions holds.
pub uninterp spec fn placeholders(redactions: snapbox::Redactions) -> Set<Seq<char>>;

/// A set of redactions that holds none, by `snapbox::Redactions::new`.
///
/// Believed without proof: that the new set holds no placeholder.
#[verifier::external_body]
pub(crate) fn no_redactions() -> (r: snapbox::Redactions)
    ensures
        placeholders(r) == Set::<Seq<char>>::empty(),
{
    snapbox::Redactions::new()
}

/// The text that `snapbox::Redactions::redact` makes of `text` under the
/// given redactions.
pub uninterp spec fn redacted_text(redactions: snapbox::Redactions, text: Seq<char>) -> Seq<char>;

/// The text that `snapbox::Redactions::clear_unused` makes of `text` under
/// the given redactions.
pub uninterp spec fn cleared_text(redactions: snapbox::Redactions, text: Seq<char>) -> Seq<char>;

/// The text with placeholders in the place of the values that they stand
/// for, by `snapbox::Redactions::redact`.
///
/// Believed without proof: that the result depends on the redactions and
/// the text alone, and that a set of redactions that holds no placeholder
/// gives the text back as it is.
#[verifier::external_body]
pub(crate) fn redact(redactions: &snapbox::Redactions, text: &str) -> (r: String)
    ensures
        r@ == redacted_text(*redactions, text@),
        placeholders(*redactions) == Set::<Seq<char>>::empty() ==> r@ == text@,
{
    redactions.redact(text)
}

/// The expected text without the placeholders that stand for nothing, by
/// `snapbox::Redactions::clear_unused`.
///
/// Believed without proof: that the result depends on the redactions and
/// the text alone, and that a set of redactions that holds no placeholder
/// gives the text back as it is.
#[verifier::external_body]
pub(crate) fn clear_unused(redactions: &snapbox::Redactions, text: &str) -> (r: String)
    ensures
        r@ == cleared_text(*redactions, text@),
        placeholders(*redactions) == Set::<Seq<char>>::empty() ==> r@ == text@,
{
    redactions.clear_unused(text).into_owned()
}

/// The wildcard of an expected line.
pub open spec fn dots() -> Seq<char> {
    seq!['[', '.', '.', ']']
}

/// The place of the first occurrence of `pat` in `text` at `from` or
/// later, or -1 where there is none. The empty pattern occurs everywhere.
pub open spec fn first_occurrence(text: Seq<char>, pat: Seq<char>, from: int) -> int
    decreases text.len() - from,
{
    if from < 0 || from + pat.len() > text.len() {
        -1
    } else if text.subrange(from, from + pat.len()) == pat {
        from
    } else if from >= text.len() {
        -1
    } else {
        first_occurrence(text, pat, from + 1)
    }
}

/// Whether `text` matches a pattern with wildcards.
///
/// The pattern is cut at its wildcards into parts. Each part is looked for
/// behind the place where the part before it was found, and taken at its
/// first occurrence; the first part (`first`) has to stand at the start of
/// the text, and the last part at its end, unless the last part is empty.
pub open spec fn wild_match(pattern: Seq<char>, text: Seq<char>, first: bool) -> bool
    decreases pattern.len(),
{
    let k = first_occurrence(pattern, dots(), 0);
    let part = if 0 <= k <= pattern.len() {
        pattern.take(k)
    } else {
        pattern
    };
    let j = first_occurrence(text, part, 0);
    if j < 0 || (first && j != 0) || j + part.len() > text.len() {
        false
    } else if 0 <= k && k + 4 <= pattern.len() {
        wild_match(pattern.skip(k + 4), text.skip(j + part.len()), false)
    } else {
        j + part.len() == text.len() || (!first && part.len() == 0)
    }
}

/// Whether an actual line matches an expected one: through its wildcards
/// where the expected line has any, and else by being the same.
pub open spec fn line_matches(expected: Seq<char>, actual: Seq<char>) -> bool {
    if first_occurrence(expected, dots(), 0) >= 0 {
        wild_match(expected, actual, true)
    } else {
        expected == actual
    }
}

/// Whether the expected lines match the actual lines from place `i` on.
pub open spec fn window_matches(e: Seq<Seq<char>>, a: Seq<Seq<char>>, i: int) -> bool {
    forall|j: int| 0 <= j < e.len() ==> line_matches(#[trigger] e[j], a[i + j])
}

/// Whether the lines of `expected` are found, one after the other,
/// somewhere among the lines of `actual`. An expected text without lines
/// is found nowhere.
pub open spec fn contains_lines(expected: Seq<char>, actual: Seq<char>) -> bool {
    let e = lines_of(normalized(expected));
    let a = lines_of(normalized(actual));
    e.len() > 0 && exists|i: int| 0 <= i && i + e.len() <= a.len() && window_matches(e, a, i)
}

/// The place of the first occurrence of `pat` in `text`.
pub fn find_first(text: &[char], pat: &[char]) -> (r: Option<usize>)
    ensures
        match r {
            Some(i) => first_occurrence(text@, pat@, 0) == i && i + pat@.len() <= text@.len(),
            None => first_occurrence(text@, pat@, 0) == -1,
        },
{
    if pat.len() > text.len() {
        return None;
    }
    let mut i: usize = 0;
    while i <= text.len() - pat.len()
        invariant
            pat.len() <= text.len(),
            first_occurrence(text@, pat@, 0) == first_occurrence(text@, pat@, i as int),
            i <= text@.len() - pat@.len() + 1,
        decreases text@.len() - pat@.len() + 1 - i,
    {
        let here = slice_subrange(text, i, i + pat.len());
        if chars_eq(here, pat) {
            return Some(i);
        }
        assert(pat@.len() > 0) by {
            if pat@.len() == 0 {
                assert(here@ =~= pat@);
            }
        }
        i += 1;
    }
    None
}

/// Whether `text` matches the pattern `pattern` with wildcards.
pub fn matches_wild(pattern: &[char], text: &[char]) -> (r: bool)
    ensures
        r == wild_match(pattern@, text@, true),
{
    let wildcard: [char; 4] = ['[', '.', '.', ']'];
    assert(wildcard@ =~= dots());
    let mut p: &[char] = pattern;
    let mut t: &[char] = text;
    let mut first = true;
    loop
        invariant
            wildcard@ == dots(),
            wildcard@.len() == 4,
            wild_match(pattern@, text@, true) == wild_match(p@, t@, first),
        decreases p@.len(),
    {
        let k = find_first(p, wildcard.as_slice());
        let part = match k {
            Some(k) => slice_subrange(p, 0, k),
            None => p,
        };
        let j = match find_first(t, part) {
            None => {
                return false;
            },
            Some(j) => j,
        };
        assert(j + part.len() <= t.len());
        if first && j != 0 {
            return false;
        }
        match k {
            Some(k) => {
                assert(k + 4 <= p.len());
                assert(p@.skip(k + 4) =~= p@.subrange(k + 4, p@.len() as int));
                assert(t@.skip(j + part@.len()) =~= t@.subrange(
                    j + part@.len(),
                    t@.len() as int,
                ));
                p = slice_subrange(p, k + 4, p.len());
                t = slice_subrange(t, j + part.len(), t.len());
                first = false;
            },
            None => {
                return j + part.len() == t.len() || (!first && part.len() == 0);
            },
        }
    }
}

/// Whether the actual line matches the expected one.
pub fn matches_line(expected: &[char], actual: &[char]) -> (r: bool)
    ensures
        r == line_matches(expected@, actual@),
{
    let wildcard: [char; 4] = ['[', '.', '.', ']'];
    assert(wildcard@ =~= dots());
    match find_first(expected, wildcard.as_slice()) {
        Some(_) => matches_wild(expected, actual),
        None => chars_eq(expected, actual),
    }
}

/// Whether the lines of `expected` are found, one after the other,
/// somewhere among the lines of `actual`, after both were normalized.
pub fn match_contains(expected: &str, actual: &str) -> (r: bool)
    ensures
        r == contains_lines(expected@, actual@),
{
    let none = no_redactions();
    let expected_text = clear_unused(
        &none,
        normalize_lines(normalize_paths(expected).as_str()).as_str(),
    );
    let actual_text = redact(&none, normalize_lines(normalize_paths(actual).as_str()).as_str());
    let e_chars = chars_of(expected_text.as_str());
    let a_chars = chars_of(actual_text.as_str());
    assert(e_chars@.subrange(0, e_chars@.len() as int) =~= e_chars@);
    assert(a_chars@.subrange(0, a_chars@.len() as int) =~= a_chars@);
    let e = line_spans(&e_chars, Span { from: 0, to: e_chars.len() });
    let a = line_spans(&a_chars, Span { from: 0, to: a_chars.len() });
    let ghost e_lines = lines_of(normalized(expected@));
    let ghost a_lines = lines_of(normalized(actual@));
    if e.len() == 0 || e.len() > a.len() {
        return false;
    }
    let mut i: usize = 0;
    while i <= a.len() - e.len()
        invariant
            0 < e@.len() <= a@.len(),
            i <= a@.len() - e@.len() + 1,
            e_lines == lines_of(e_chars@),
            a_lines == lines_of(a_chars@),
            e_lines == lines_of(normalized(expected@)),
            a_lines == lines_of(normalized(actual@)),
            e@.len() == e_lines.len(),
            a@.len() == a_lines.len(),
            forall|j: int|
                0 <= j < e@.len() ==> (#[trigger] e@[j]).from <= e@[j].to <= e_chars.len()
                    && e_chars@.subrange(e@[j].from as int, e@[j].to as int) == e_lines[j],
            forall|j: int|
                0 <= j < a@.len() ==> (#[trigger] a@[j]).from <= a@[j].to <= a_chars.len()
                    && a_chars@.subrange(a@[j].from as int, a@[j].to as int) == a_lines[j],
            forall|w: int| 0 <= w < i ==> !window_matches(e_lines, a_lines, w),
        decreases a@.len() - e@.len() + 1 - i,
    {
        let mut j: usize = 0;
        let mut same = true;
        while j < e.len() && same
            invariant
                0 < e.len() <= a.len(),
                i <= a.len() - e.len(),
                j <= e@.len(),
                e@.len() == e_lines.len(),
                a@.len() == a_lines.len(),
                forall|x: int|
                    0 <= x < e@.len() ==> (#[trigger] e@[x]).from <= e@[x].to <= e_chars.len()
                        && e_chars@.subrange(e@[x].from as int, e@[x].to as int) == e_lines[x],
                forall|x: int|
                    0 <= x < a@.len() ==> (#[trigger] a@[x]).from <= a@[x].to <= a_chars.len()
                        && a_chars@.subrange(a@[x].from as int, a@[x].to as int) == a_lines[x],
                same ==> forall|x: int|
                    0 <= x < j ==> line_matches(#[trigger] e_lines[x], a_lines[i + x]),
                !same ==> !window_matches(e_lines, a_lines, i as int),
            decreases e@.len() - j + if same { 1int } else { 0int },
        {
            assert(i + j < a@.len());
            let es = e[j];
            let xs = a[i + j];
            let pattern = slice_subrange(e_chars.as_slice(), es.from, es.to);
            let line = slice_subrange(a_chars.as_slice(), xs.from, xs.to);
            if matches_line(pattern, line) {
                j += 1;
            } else {
                assert(!line_matches(e_lines[j as int], a_lines[i + j]));
                same = false;
            }
        }
        if same {
            assert(window_matches(e_lines, a_lines, i as int));
            return true;
        }
        i += 1;
    }
    assert forall|w: int| 0 <= w && w + e_lines.len() <= a_lines.len() implies !window_matches(
        e_lines,
        a_lines,
        w,
    ) by {}
    false
}

} // verus!
