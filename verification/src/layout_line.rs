//! The lines of a layout tree in text form.
//!
//! A tree is written as the `tree` command prints one: the root on the
//! first line, and below it one line for each entry, indented by four
//! characters for each level and opened by a branch (`├── ` or `└── `).
//! An entry may carry a platform tag that says where it exists.

use vstd::pervasive::unreached;
use vstd::prelude::*;
use crate::pattern::{capture_group, platform_list, tag_pattern};
use crate::text::chars_of;

verus! {

/// The operating system for which a tree is read.
#[derive(Clone, Copy, Debug, PartialEq, Eq, Structural)]
pub enum TargetOs {
    Windows,
    Linux,
    Macos,
    Other,
}

/// The tool chain environment for which a tree is read.
#[derive(Clone, Copy, Debug, PartialEq, Eq, Structural)]
pub enum TargetEnv {
    Msvc,
    Gnu,
    Other,
}

/// The platform for which a tree is read.
#[derive(Clone, Copy, Debug, PartialEq, Eq, Structural)]
pub struct Platform {
    pub os: TargetOs,
    pub env: TargetEnv,
}

/// Why a text is no layout tree.
#[derive(Clone, Copy, Debug, PartialEq, Eq, Structural)]
pub enum LayoutError {
    /// The text holds nothing but white space.
    Empty,
    /// After the branch of a line no name follows, or one that starts with
    /// a character outside ASCII.
    MalformedLine,
    /// A platform tag names a platform that is not known.
    UnsupportedTarget,
}

/// A stretch of a text, from one character index up to another.
#[derive(Clone, Copy, Debug, PartialEq, Eq, Structural)]
pub struct Span {
    pub from: usize,
    pub to: usize,
}

/// What a line says: how deep its entry lies, where its name stands in the
/// line, and whether the entry exists on the platform at hand.
#[derive(Clone, Copy, Debug, PartialEq, Eq, Structural)]
pub struct LineInfo {
    pub level: usize,
    pub name: Span,
    pub active: bool,
}

/// What a line says, with the name written out.
pub struct LineView {
    pub level: nat,
    pub name: Seq<char>,
    pub active: bool,
}

/// White space, as Unicode defines it.
pub open spec fn is_space(c: char) -> bool {
    ('\u{9}' <= c && c <= '\u{d}') || c == ' ' || c == '\u{85}' || c == '\u{a0}' || c
        == '\u{1680}' || ('\u{2000}' <= c && c <= '\u{200a}') || c == '\u{2028}' || c
        == '\u{2029}' || c == '\u{202f}' || c == '\u{205f}' || c == '\u{3000}'
}

/// The text without the white space at its two ends.
pub open spec fn trimmed(s: Seq<char>) -> Seq<char>
    decreases s.len(),
{
    if s.len() > 0 && is_space(s[0]) {
        trimmed(s.drop_first())
    } else if s.len() > 0 && is_space(s.last()) {
        trimmed(s.drop_last())
    } else {
        s
    }
}

/// The index of the first `c` at `from` or later, or the length of the
/// text where there is none.
pub open spec fn find_char(s: Seq<char>, c: char, from: int) -> int
    decreases s.len() - from,
{
    if from < 0 || from >= s.len() {
        s.len() as int
    } else if s[from] == c {
        from
    } else {
        find_char(s, c, from + 1)
    }
}

/// The first `c` is found at `from` or later, and not beyond the end.
pub proof fn lemma_find_char(s: Seq<char>, c: char, from: int)
    requires
        0 <= from <= s.len(),
    ensures
        from <= find_char(s, c, from) <= s.len(),
        find_char(s, c, from) < s.len() ==> s[find_char(s, c, from)] == c,
        forall|i: int| from <= i < find_char(s, c, from) ==> s[i] != c,
    decreases s.len() - from,
{
    if from < s.len() && s[from] != c {
        lemma_find_char(s, c, from + 1);
    }
}

/// The line without the carriage return that ended it, if one did.
pub open spec fn strip_cr(line: Seq<char>) -> Seq<char> {
    if line.len() > 0 && line.last() == '\r' {
        line.drop_last()
    } else {
        line
    }
}

/// The lines of a text. A line ends with a line feed, or with a carriage
/// return and a line feed; the last line need not end at all.
pub open spec fn lines_of(s: Seq<char>) -> Seq<Seq<char>>
    decreases s.len(),
{
    if s.len() == 0 {
        Seq::empty()
    } else {
        let n = find_char(s, '\n', 0);
        if n < 0 || n >= s.len() {
            seq![s]
        } else {
            seq![strip_cr(s.take(n))] + lines_of(s.skip(n + 1))
        }
    }
}

/// The horizontal stroke with which a branch ends.
pub open spec fn stroke() -> char {
    '\u{2500}'
}

/// Whether a branch ends at `v`: a stroke with a space after it.
pub open spec fn is_branch_end(line: Seq<char>, v: int) -> bool {
    0 <= v && v + 1 < line.len() && line[v] == stroke() && line[v + 1] == ' '
}

/// The index of the last branch end before `n`, or -1 where there is none.
pub open spec fn last_branch_end(line: Seq<char>, n: int) -> int
    decreases n,
{
    if n <= 0 {
        -1
    } else if is_branch_end(line, n - 1) {
        n - 1
    } else {
        last_branch_end(line, n - 1)
    }
}

/// The index of the first character at `from` or later that is no space.
pub open spec fn skip_spaces(line: Seq<char>, from: int) -> int
    decreases line.len() - from,
{
    if 0 <= from < line.len() && line[from] == ' ' {
        skip_spaces(line, from + 1)
    } else {
        from
    }
}

/// Where the name of the entry starts: at the start of a line without a
/// branch, and else at the first character after the last branch and the
/// spaces behind it, which has to be there and to be ASCII.
pub open spec fn name_start(line: Seq<char>) -> Option<int> {
    let v = last_branch_end(line, line.len() as int);
    if v < 0 {
        Some(0)
    } else {
        let i = skip_spaces(line, v + 1);
        if i < line.len() && line[i] <= '\u{7f}' {
            Some(i)
        } else {
            None
        }
    }
}

/// Whether the platform is the one that a tag names; `None` for a name
/// that is not known.
pub open spec fn names_platform(name: Seq<char>, p: Platform) -> Option<bool> {
    if name == seq!['w', 'i', 'n', 'd', 'o', 'w', 's'] {
        Some(p.os == TargetOs::Windows)
    } else if name == seq!['w', 'i', 'n', 'd', 'o', 'w', 's', '-', 'm', 's', 'v', 'c'] {
        Some(p.os == TargetOs::Windows && p.env == TargetEnv::Msvc)
    } else if name == seq!['w', 'i', 'n', 'd', 'o', 'w', 's', '-', 'g', 'n', 'u'] {
        Some(p.os == TargetOs::Windows && p.env == TargetEnv::Gnu)
    } else if name == seq!['l', 'i', 'n', 'u', 'x'] {
        Some(p.os == TargetOs::Linux)
    } else if name == seq!['m', 'a', 'c', 'o', 's'] {
        Some(p.os == TargetOs::Macos)
    } else {
        None
    }
}

/// Whether the list of a tag, read from `from` on, holds the platform. The
/// names of the list stand between commas and are taken in order: the
/// first that holds the platform decides, and a name that is not known
/// before it makes the list unreadable (`None`).
pub open spec fn list_holds(list: Seq<char>, from: int, p: Platform) -> Option<bool>
    decreases list.len() - from,
{
    if from < 0 || from > list.len() {
        None
    } else {
        let n = find_char(list, ',', from);
        match names_platform(list.subrange(from, n), p) {
            None => None,
            Some(true) => Some(true),
            Some(false) => if from <= n && n < list.len() {
                list_holds(list, n + 1, p)
            } else {
                Some(false)
            },
        }
    }
}

/// What a line says, or why it cannot be read. An entry without a tag
/// exists everywhere.
pub open spec fn line_view(line: Seq<char>, p: Platform) -> Result<LineView, LayoutError> {
    match name_start(line) {
        None => Err(LayoutError::MalformedLine),
        Some(start) => {
            let active = match platform_list(line) {
                None => Some(true),
                Some(list) => list_holds(list, 0, p),
            };
            match active {
                None => Err(LayoutError::UnsupportedTarget),
                Some(a) => Ok(
                    LineView {
                        level: (start / 4) as nat,
                        name: line.subrange(start, find_char(line, ' ', start)),
                        active: a,
                    },
                ),
            }
        },
    }
}

/// Whether the character is white space.
pub fn space_char(c: char) -> (r: bool)
    ensures
        r == is_space(c),
{
    ('\u{9}' <= c && c <= '\u{d}') || c == ' ' || c == '\u{85}' || c == '\u{a0}' || c
        == '\u{1680}' || ('\u{2000}' <= c && c <= '\u{200a}') || c == '\u{2028}' || c
        == '\u{2029}' || c == '\u{202f}' || c == '\u{205f}' || c == '\u{3000}'
}

/// The stretch of the text that is left when the white space at its two
/// ends is taken away.
pub fn trim_span(text: &Vec<char>) -> (span: Span)
    ensures
        span.from <= span.to <= text.len(),
        text@.subrange(span.from as int, span.to as int) == trimmed(text@),
{
    let mut a: usize = 0;
    let mut b: usize = text.len();
    assert(text@.subrange(0, b as int) =~= text@);
    while a < b && space_char(text[a])
        invariant
            a <= b == text.len(),
            trimmed(text@) == trimmed(text@.subrange(a as int, b as int)),
        decreases b - a,
    {
        assert(text@.subrange(a as int, b as int).drop_first() =~= text@.subrange(
            a + 1,
            b as int,
        ));
        a += 1;
    }
    while a < b && space_char(text[b - 1])
        invariant
            a <= b <= text.len(),
            a < b ==> !is_space(text@[a as int]),
            trimmed(text@) == trimmed(text@.subrange(a as int, b as int)),
        decreases b - a,
    {
        assert(text@.subrange(a as int, b as int).drop_last() =~= text@.subrange(
            a as int,
            b - 1,
        ));
        assert(text@.subrange(a as int, b as int)[0] == text@[a as int]);
        b -= 1;
    }
    proof {
        let rest = text@.subrange(a as int, b as int);
        if a < b {
            assert(rest[0] == text@[a as int]);
            assert(rest.last() == text@[b - 1]);
        }
    }
    Span { from: a, to: b }
}

/// The index of the first `c` at `from` or later in the stretch `span` of
/// the text, or the end of the stretch where there is none.
pub fn find_in(text: &Vec<char>, c: char, span: Span, from: usize) -> (n: usize)
    requires
        span.from <= from <= span.to <= text.len(),
    ensures
        from <= n <= span.to,
        n - span.from == find_char(
            text@.subrange(span.from as int, span.to as int),
            c,
            from - span.from,
        ),
{
    let ghost part = text@.subrange(span.from as int, span.to as int);
    let mut n: usize = from;
    while n < span.to && text[n] != c
        invariant
            span.from <= from <= n <= span.to <= text.len(),
            part == text@.subrange(span.from as int, span.to as int),
            find_char(part, c, from - span.from) == find_char(part, c, n - span.from),
        decreases span.to - n,
    {
        assert(part[n - span.from] == text@[n as int]);
        n += 1;
    }
    proof {
        if n < span.to {
            assert(part[n - span.from] == text@[n as int]);
        }
    }
    n
}

/// The stretches of the lines of the stretch `span` of the text.
pub fn line_spans(text: &Vec<char>, span: Span) -> (spans: Vec<Span>)
    requires
        span.from <= span.to <= text.len(),
    ensures
        spans@.len() == lines_of(text@.subrange(span.from as int, span.to as int)).len(),
        forall|i: int|
            0 <= i < spans@.len() ==> span.from <= (#[trigger] spans@[i]).from <= spans@[i].to
                <= span.to && text@.subrange(spans@[i].from as int, spans@[i].to as int)
                == lines_of(text@.subrange(span.from as int, span.to as int))[i],
{
    let ghost all = lines_of(text@.subrange(span.from as int, span.to as int));
    let mut spans: Vec<Span> = Vec::new();
    let mut pos: usize = span.from;
    let mut open = span.from < span.to;
    assert(Seq::<Seq<char>>::empty() + all =~= all);
    while open
        invariant
            span.from <= pos <= span.to <= text.len(),
            open ==> pos < span.to,
            all == lines_of(text@.subrange(span.from as int, span.to as int)),
            spans@.len() <= all.len(),
            all =~= all.take(spans@.len() as int) + if open {
                lines_of(text@.subrange(pos as int, span.to as int))
            } else {
                Seq::empty()
            },
            forall|i: int|
                0 <= i < spans@.len() ==> span.from <= (#[trigger] spans@[i]).from <= spans@[i].to
                    <= span.to && text@.subrange(spans@[i].from as int, spans@[i].to as int)
                    == all[i],
        decreases span.to - pos + if open { 1int } else { 0int },
    {
        let ghost rest = text@.subrange(pos as int, span.to as int);
        let ghost done = spans@.len() as int;
        let n = find_in(text, '\n', Span { from: pos, to: span.to }, pos);
        assert(rest.len() > 0);
        if n >= span.to {
            spans.push(Span { from: pos, to: span.to });
            assert(lines_of(rest) =~= seq![rest]);
            assert(all[done] == rest);
            open = false;
        } else {
            let end = if n > pos && text[n - 1] == '\r' {
                (n - 1) as usize
            } else {
                n
            };
            spans.push(Span { from: pos, to: end });
            proof {
                let first = rest.take(n - pos);
                assert(first =~= text@.subrange(pos as int, n as int));
                if first.len() > 0 {
                    assert(first.last() == text@[n - 1]);
                }
                assert(strip_cr(first) =~= text@.subrange(pos as int, end as int));
                assert(rest.skip(n - pos + 1) =~= text@.subrange(n + 1, span.to as int));
                assert(all[done] == strip_cr(first));
            }
            pos = n + 1;
            open = pos < span.to;
            proof {
                if !open {
                    assert(text@.subrange(pos as int, span.to as int).len() == 0);
                }
                assert(all.take(done) + lines_of(rest) =~= all.take(done + 1) + lines_of(
                    text@.subrange(pos as int, span.to as int),
                ));
            }
        }
    }
    spans
}

/// Whether the stretch `span` of the text holds the characters of `word`.
fn span_is(text: &Vec<char>, span: Span, word: &str) -> (r: bool)
    requires
        span.from <= span.to <= text.len(),
    ensures
        r == (text@.subrange(span.from as int, span.to as int) == word@),
{
    let w = chars_of(word);
    if w.len() != span.to - span.from {
        return false;
    }
    let ghost part = text@.subrange(span.from as int, span.to as int);
    let mut i: usize = 0;
    while i < w.len()
        invariant
            i <= w.len() == span.to - span.from,
            span.to <= text.len(),
            part == text@.subrange(span.from as int, span.to as int),
            w@ == word@,
            forall|j: int| 0 <= j < i ==> part[j] == w@[j],
        decreases w.len() - i,
    {
        assert(part[i as int] == text@[span.from + i]);
        if text[span.from + i] != w[i] {
            return false;
        }
        i += 1;
    }
    assert(part =~= w@);
    true
}

/// Whether the platform is the one that the stretch `span` of the list
/// names; `None` for a name that is not known.
fn platform_named(list: &Vec<char>, span: Span, p: Platform) -> (r: Option<bool>)
    requires
        span.from <= span.to <= list.len(),
    ensures
        r == names_platform(list@.subrange(span.from as int, span.to as int), p),
{
    proof {
        reveal_strlit("windows");
        reveal_strlit("windows-msvc");
        reveal_strlit("windows-gnu");
        reveal_strlit("linux");
        reveal_strlit("macos");
        assert("windows"@ =~= seq!['w', 'i', 'n', 'd', 'o', 'w', 's']);
        assert("windows-msvc"@ =~= seq![
            'w', 'i', 'n', 'd', 'o', 'w', 's', '-', 'm', 's', 'v', 'c',
        ]);
        assert("windows-gnu"@ =~= seq!['w', 'i', 'n', 'd', 'o', 'w', 's', '-', 'g', 'n', 'u']);
        assert("linux"@ =~= seq!['l', 'i', 'n', 'u', 'x']);
        assert("macos"@ =~= seq!['m', 'a', 'c', 'o', 's']);
    }
    let windows = match p.os {
        TargetOs::Windows => true,
        _ => false,
    };
    if span_is(list, span, "windows") {
        Some(windows)
    } else if span_is(list, span, "windows-msvc") {
        Some(
            windows && match p.env {
                TargetEnv::Msvc => true,
                _ => false,
            },
        )
    } else if span_is(list, span, "windows-gnu") {
        Some(
            windows && match p.env {
                TargetEnv::Gnu => true,
                _ => false,
            },
        )
    } else if span_is(list, span, "linux") {
        Some(
            match p.os {
                TargetOs::Linux => true,
                _ => false,
            },
        )
    } else if span_is(list, span, "macos") {
        Some(
            match p.os {
                TargetOs::Macos => true,
                _ => false,
            },
        )
    } else {
        None
    }
}

/// Whether the list of a platform tag holds the platform; `None` where a
/// name that is not known is met before one that holds it.
pub fn holds_platform(list: &Vec<char>, p: Platform) -> (r: Option<bool>)
    ensures
        r == list_holds(list@, 0, p),
{
    let whole = Span { from: 0, to: list.len() };
    let mut from: usize = 0;
    assert(list@.subrange(0, list.len() as int) =~= list@);
    loop
        invariant
            from <= list.len(),
            whole == (Span { from: 0, to: list.len() }),
            list@.subrange(0, list.len() as int) == list@,
            list_holds(list@, 0, p) == list_holds(list@, from as int, p),
        decreases list.len() - from,
    {
        let n = find_in(list, ',', whole, from);
        match platform_named(list, Span { from, to: n }, p) {
            None => {
                return None;
            },
            Some(true) => {
                return Some(true);
            },
            Some(false) => {
                if n < list.len() {
                    from = n + 1;
                } else {
                    return Some(false);
                }
            },
        }
    }
}

/// Reads the line that stands in the stretch `span` of the text, or says
/// why it cannot be read. `source` is the text as a string.
pub fn read_line(text: &Vec<char>, source: &str, span: Span, p: Platform) -> (r: Result<
    LineInfo,
    LayoutError,
>)
    requires
        text@ == source@,
        span.from <= span.to <= text.len(),
    ensures
        r matches Ok(info) ==> info.level < usize::MAX,
        match line_view(text@.subrange(span.from as int, span.to as int), p) {
            Err(e) => r == Err::<LineInfo, LayoutError>(e),
            Ok(v) => r matches Ok(info) && info.level == v.level && info.active == v.active
                && span.from <= info.name.from <= info.name.to <= span.to && text@.subrange(
                info.name.from as int,
                info.name.to as int,
            ) == v.name,
        },
{
    let ghost line = text@.subrange(span.from as int, span.to as int);
    // The last branch end, as the index behind it.
    let mut n: usize = span.to;
    let mut found = false;
    while n > span.from && !found
        invariant
            span.from <= n <= span.to <= text.len(),
            line == text@.subrange(span.from as int, span.to as int),
            found ==> n > span.from && is_branch_end(line, n - 1 - span.from),
            last_branch_end(line, line.len() as int) == last_branch_end(line, n - span.from),
        decreases n - span.from + if found { 0int } else { 1int },
    {
        let here = n < span.to && text[n - 1] == '\u{2500}' && text[n] == ' ';
        proof {
            assert(line[n - 1 - span.from] == text@[n - 1]);
            if n < span.to {
                assert(line[n - span.from] == text@[n as int]);
            }
        }
        if here {
            found = true;
        } else {
            n -= 1;
        }
    }
    proof {
        if found {
            assert(last_branch_end(line, n - span.from) == n - 1 - span.from);
        } else {
            assert(last_branch_end(line, 0) == -1);
        }
    }
    let start: usize = if !found {
        span.from
    } else {
        let mut i: usize = n;
        while i < span.to && text[i] == ' '
            invariant
                span.from < n <= i <= span.to <= text.len(),
                line == text@.subrange(span.from as int, span.to as int),
                skip_spaces(line, n - span.from) == skip_spaces(line, i - span.from),
            decreases span.to - i,
        {
            assert(line[i - span.from] == text@[i as int]);
            i += 1;
        }
        proof {
            if i < span.to {
                assert(line[i - span.from] == text@[i as int]);
            }
            assert(skip_spaces(line, i - span.from) == i - span.from);
        }
        if i >= span.to || text[i] > '\u{7f}' {
            return Err(LayoutError::MalformedLine);
        }
        i
    };
    assert(name_start(line) == Some(start - span.from));
    let end = find_in(text, ' ', span, start);
    let tagged_line = source.substring_char(span.from, span.to);
    proof {
        reveal_strlit("\\[target_platform=([a-z,-]+)\\]");
        assert("\\[target_platform=([a-z,-]+)\\]"@ =~= tag_pattern());
    }
    let active = match capture_group("\\[target_platform=([a-z,-]+)\\]", tagged_line) {
        None => true,
        Some(list) => {
            let items = chars_of(list.as_str());
            match holds_platform(&items, p) {
                None => {
                    return Err(LayoutError::UnsupportedTarget);
                },
                Some(a) => a,
            }
        },
    };
    assert(text@.subrange(start as int, end as int) =~= line.subrange(
        start - span.from,
        end - span.from,
    ));
    Ok(LineInfo { level: (start - span.from) / 4, name: Span { from: start, to: end }, active })
}

/// What the line in the stretch `span` of the text says: the level of its
/// entry, where the name stands, and whether the entry exists on the
/// platform. The line has to be one that can be read: with a name behind
/// its branch, and with no platform in its tag that is not known.
pub fn get_line_info(text: &Vec<char>, source: &str, span: Span, p: Platform) -> (info: LineInfo)
    requires
        text@ == source@,
        span.from <= span.to <= text.len(),
        line_view(text@.subrange(span.from as int, span.to as int), p) is Ok,
    ensures
        info.level < usize::MAX,
        span.from <= info.name.from <= info.name.to <= span.to,
        ({
            let v = line_view(text@.subrange(span.from as int, span.to as int), p).unwrap();
            &&& info.level == v.level
            &&& info.active == v.active
            &&& text@.subrange(info.name.from as int, info.name.to as int) == v.name
        }),
{
    match read_line(text, source, span, p) {
        Ok(info) => info,
        Err(_) => unreached(),
    }
}

} // verus!
