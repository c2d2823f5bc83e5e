//! Markdown handling: whether documentation text is blank, and the shift of
//! heading levels in embedded Markdown, which pulldown-cmark parses and
//! pulldown-cmark-to-cmark writes back.

use vstd::prelude::*;
use pulldown_cmark::{Event, HeadingLevel, Parser, Tag, TagEnd};

verus! {

/// Whether `c` is white space in Unicode's sense, as `char::is_whitespace` tells it.
pub open spec fn white_space(c: char) -> bool {
    ||| ('\u{9}' <= c && c <= '\u{d}')
    ||| c == ' '
    ||| c == '\u{85}'
    ||| c == '\u{a0}'
    ||| c == '\u{1680}'
    ||| ('\u{2000}' <= c && c <= '\u{200a}')
    ||| c == '\u{2028}'
    ||| c == '\u{2029}'
    ||| c == '\u{202f}'
    ||| c == '\u{205f}'
    ||| c == '\u{3000}'
}

/// Whether `c` is white space: see `white_space`.
pub fn is_white_space(c: char) -> (res: bool)
    ensures
        res == white_space(c),
{
    ('\u{9}' <= c && c <= '\u{d}') || c == ' ' || c == '\u{85}' || c == '\u{a0}' || c == '\u{1680}' || (
    '\u{2000}' <= c && c <= '\u{200a}') || c == '\u{2028}' || c == '\u{2029}' || c == '\u{202f}' || c
        == '\u{205f}' || c == '\u{3000}'
}

/// Whether the text has a character that is not white space, that is, whether it
/// is not empty once trimmed.
pub open spec fn not_blank(s: Seq<char>) -> bool {
    exists|i: int| 0 <= i < s.len() && !white_space(#[trigger] s[i])
}

/// Whether the text is not empty once trimmed: see `not_blank`.
pub fn is_not_blank(s: &str) -> (res: bool)
    ensures
        res == not_blank(s@),
{
    let cs = crate::text::chars_of(s);
    let n = cs.len();
    for i in 0..n
        invariant
            n == cs@.len(),
            cs@ == s@,
            forall|j: int| 0 <= j < i ==> white_space(#[trigger] s@[j]),
    {
        if !is_white_space(cs[i]) {
            assert(!white_space(s@[i as int]));
            return true;
        }
    }
    false
}

/// The text without the white space at its start and end.
pub open spec fn trimmed(s: Seq<char>, i: int, j: int) -> bool {
    &&& 0 <= i <= j <= s.len()
    &&& forall|q: int| 0 <= q < i ==> white_space(#[trigger] s[q])
    &&& forall|q: int| j <= q < s.len() ==> white_space(#[trigger] s[q])
    &&& i < j ==> !white_space(s[i]) && !white_space(s[j - 1])
}

/// The text without white space at its start and end, as `str::trim` gives it.
pub fn trim_white_space(s: &str) -> (res: String)
    ensures
        exists|i: int, j: int| trimmed(s@, i, j) && res@ == s@.subrange(i, j),
{
    let cs = crate::text::chars_of(s);
    let n = cs.len();
    let mut i: usize = 0;
    while i < n && is_white_space(cs[i])
        invariant
            n == cs@.len(),
            cs@ == s@,
            i <= n,
            forall|q: int| 0 <= q < i ==> white_space(#[trigger] s@[q]),
        decreases n - i,
    {
        i = i + 1;
    }
    let mut j: usize = n;
    while j > i && is_white_space(cs[j - 1])
        invariant
            n == cs@.len(),
            cs@ == s@,
            i <= j <= n,
            forall|q: int| j <= q < n ==> white_space(#[trigger] s@[q]),
        decreases j,
    {
        j = j - 1;
    }
    let mut out: Vec<char> = Vec::new();
    for k in i..j
        invariant
            cs@ == s@,
            i <= j <= n,
            n == cs@.len(),
            out@ == s@.subrange(i as int, k as int),
    {
        out.push(cs[k]);
        assert(s@.subrange(i as int, k + 1) =~= s@.subrange(i as int, k as int).push(s@[k as int]));
    }
    assert(trimmed(s@, i as int, j as int));
    crate::text::string_of(&out)
}

/// Moving a heading down never raises it and never takes it past level six; under
/// the top (base zero) it stays where it was.
pub proof fn law_shift_bounds(level: int, base: int)
    requires
        1 <= level <= 6,
        base >= 0,
    ensures
        level <= shifted_level(level, base) <= 6,
        shifted_level(level, 0) == level,
        base <= 6 - level ==> shifted_level(level, base) == level + base,
{
}

/// Trimming keeps what is between the first and the last character that is not
/// white space: blank text trims to nothing, other text to text that starts and
/// ends with a character that is not white space.
pub proof fn law_trim_ends(s: Seq<char>, i: int, j: int)
    requires
        trimmed(s, i, j),
    ensures
        s.subrange(i, j).len() == 0 <==> !not_blank(s),
        s.subrange(i, j).len() > 0 ==> !white_space(s.subrange(i, j)[0]) && !white_space(s.subrange(i, j).last()),
{
    if i == j {
        assert forall|q: int| 0 <= q < s.len() implies white_space(#[trigger] s[q]) by {
            if q < i {
            } else {
            }
        }
    } else {
        assert(!white_space(s[i]));
    }
}

/// Whether an item has documentation that is not blank.
pub open spec fn has_docs_spec(docs: Option<String>) -> bool {
    match docs {
        Some(d) => not_blank(d@),
        None => false,
    }
}

/// Whether an item has documentation that is not blank: see `has_docs_spec`.
pub fn has_docs(item: &crate::model::Item) -> (res: bool)
    ensures
        res == has_docs_spec(item.docs),
{
    match &item.docs {
        Some(d) => is_not_blank(d.as_str()),
        None => false,
    }
}

/// The level of a heading nested under a section of level `base`: the two added,
/// at most six.
pub open spec fn shifted_level(level: int, base: int) -> int {
    if level + base < 6 {
        level + base
    } else {
        6
    }
}

/// The new level of a heading of level `level` (one to six) under a section of level
/// `base`: see `shifted_level`.
pub fn shift_heading_level(level: u8, base: usize) -> (res: u8)
    requires
        1 <= level <= 6,
    ensures
        res == shifted_level(level as int, base as int),
        1 <= res <= 6,
{
    if base < 6 && (level as usize) + base < 6 {
        (level as usize + base) as u8
    } else {
        6
    }
}

#[verifier::external_type_specification]
#[verifier::external_body]
pub struct ExEvent<'a>(Event<'a>);

/// What the heading shift reads of a Markdown event: the start or end of a heading
/// with its level, or anything else.
#[derive(Debug, Clone, Copy, PartialEq, Eq, Structural)]
pub enum HeadingMark {
    Start(u8),
    End(u8),
    Other,
}

/// The heading marks of the events that `pulldown_cmark::Parser::new` gives for the
/// text, with default options, in order.
pub uninterp spec fn parsed_marks(text: Seq<char>) -> Seq<HeadingMark>;

/// The Markdown that `pulldown_cmark_to_cmark::cmark` writes for the events parsed
/// from `text`, with the levels of their headings set as `marks` says; `None` where
/// the writer refuses them.
pub uninterp spec fn rendered(text: Seq<char>, marks: Seq<HeadingMark>) -> Option<Seq<char>>;

/// Whether every heading level among the marks is one to six.
pub open spec fn marks_valid(ms: Seq<HeadingMark>) -> bool {
    forall|q: int| 0 <= q < ms.len() ==> match #[trigger] ms[q] {
        HeadingMark::Start(l) => 1 <= l <= 6,
        HeadingMark::End(l) => 1 <= l <= 6,
        HeadingMark::Other => true,
    }
}

/// A mark with its heading level set to `level`; any other mark unchanged.
pub open spec fn relabeled(m: HeadingMark, level: u8) -> HeadingMark {
    match m {
        HeadingMark::Start(_) => HeadingMark::Start(level),
        HeadingMark::End(_) => HeadingMark::End(level),
        HeadingMark::Other => HeadingMark::Other,
    }
}

/// A mark with its heading moved under a section of level `base`: see `shifted_level`.
pub open spec fn shifted_mark(m: HeadingMark, base: int) -> HeadingMark {
    match m {
        HeadingMark::Start(l) => HeadingMark::Start(shifted_level(l as int, base) as u8),
        HeadingMark::End(l) => HeadingMark::End(shifted_level(l as int, base) as u8),
        HeadingMark::Other => HeadingMark::Other,
    }
}

/// Each mark moved under a section of level `base`.
pub open spec fn shifted_marks(ms: Seq<HeadingMark>, base: int) -> Seq<HeadingMark> {
    ms.map_values(|m: HeadingMark| shifted_mark(m, base))
}

/// Moving headings under a section keeps them headings of level one to six, keeps
/// every other event, and never lowers a level; a base of zero changes nothing.
pub proof fn law_shift_keeps_levels_valid(ms: Seq<HeadingMark>, base: int)
    requires
        marks_valid(ms),
        base >= 0,
    ensures
        marks_valid(shifted_marks(ms, base)),
        shifted_marks(ms, base).len() == ms.len(),
        forall|q: int| 0 <= q < ms.len() ==> match (#[trigger] ms[q], shifted_marks(ms, base)[q]) {
            (HeadingMark::Start(a), HeadingMark::Start(b)) => a <= b,
            (HeadingMark::End(a), HeadingMark::End(b)) => a <= b,
            (HeadingMark::Other, HeadingMark::Other) => true,
            _ => false,
        },
        base == 0 ==> shifted_marks(ms, base) == ms,
{
    let sm = shifted_marks(ms, base);
    assert forall|q: int| 0 <= q < sm.len() implies match #[trigger] sm[q] {
        HeadingMark::Start(l) => 1 <= l <= 6,
        HeadingMark::End(l) => 1 <= l <= 6,
        HeadingMark::Other => true,
    } by {
        assert(sm[q] == shifted_mark(ms[q], base));
    }
    if base == 0 {
        assert forall|q: int| 0 <= q < ms.len() implies sm[q] == ms[q] by {
            assert(sm[q] == shifted_mark(ms[q], base));
        }
        assert(sm =~= ms);
    }
}

/// Markdown text parsed into pulldown-cmark events, with the heading mark of each.
/// Only `parse_markdown` makes one and only `set_heading_level` changes an event, so
/// the events are always those parsed from `source` with the heading levels that
/// `marks` gives.
pub struct ParsedMarkdown {
    source: String,
    events: Vec<Event<'static>>,
    marks: Vec<HeadingMark>,
}

impl ParsedMarkdown {
    /// The text the events were parsed from.
    pub closed spec fn source_text(&self) -> Seq<char> {
        self.source@
    }

    /// The heading mark of each event, in order.
    pub closed spec fn mark_seq(&self) -> Seq<HeadingMark> {
        self.marks@
    }

    /// The number of events.
    pub fn len(&self) -> (res: usize)
        ensures
            res == self.mark_seq().len(),
    {
        self.marks.len()
    }

    /// The heading mark of the `i`-th event.
    pub fn mark(&self, i: usize) -> (res: HeadingMark)
        requires
            i < self.mark_seq().len(),
        ensures
            res == self.mark_seq()[i as int],
    {
        self.marks[i]
    }
}

/// Parses the text with `pulldown_cmark::Parser::new` (default options), keeping each
/// event (made `'static` by `into_static`) with its heading mark, as
/// `pulldown_cmark::HeadingLevel` numbers the level; the marks are named by
/// `parsed_marks`.
#[verifier::external_body]
pub fn parse_markdown(markdown: &str) -> (res: ParsedMarkdown)
    ensures
        res.source_text() == markdown@,
        res.mark_seq() == parsed_marks(markdown@),
        marks_valid(res.mark_seq()),
{
    let events: Vec<Event<'static>> = Parser::new(markdown).map(|e| e.into_static()).collect();
    let marks: Vec<HeadingMark> = events.iter().map(|e| match e {
        Event::Start(Tag::Heading { level, .. }) => HeadingMark::Start(*level as u8),
        Event::End(TagEnd::Heading(level)) => HeadingMark::End(*level as u8),
        _ => HeadingMark::Other,
    }).collect();
    ParsedMarkdown { source: markdown.to_string(), events, marks }
}

/// Sets the level of the `i`-th event, where it starts or ends a heading, to `level`
/// (one to six), its other parts kept, as a `pulldown_cmark::HeadingLevel`; any other
/// event is unchanged.
#[verifier::external_body]
fn set_heading_level(md: &mut ParsedMarkdown, i: usize, level: u8)
    requires
        i < old(md).mark_seq().len(),
        1 <= level <= 6,
    ensures
        final(md).source_text() == old(md).source_text(),
        final(md).mark_seq() == old(md).mark_seq().update(i as int, relabeled(old(md).mark_seq()[i as int], level)),
{
    let new_level = HeadingLevel::try_from(level as usize).unwrap_or(HeadingLevel::H6);
    let event = std::mem::replace(&mut md.events[i], Event::Rule);
    md.events[i] = match event {
        Event::Start(Tag::Heading { id, classes, attrs, .. }) => Event::Start(Tag::Heading { level: new_level, id, classes, attrs }),
        Event::End(TagEnd::Heading(_)) => Event::End(TagEnd::Heading(new_level)),
        other => other,
    };
    md.marks[i] = match md.marks[i] {
        HeadingMark::Start(_) => HeadingMark::Start(level),
        HeadingMark::End(_) => HeadingMark::End(level),
        HeadingMark::Other => HeadingMark::Other,
    };
}

/// The Markdown text that `pulldown_cmark_to_cmark::cmark` writes for the events, with
/// empty options; `None` where it refuses them. Named by `rendered`.
#[verifier::external_body]
fn render_markdown(md: &ParsedMarkdown) -> (res: Option<String>)
    ensures
        match rendered(md.source_text(), md.mark_seq()) {
            Some(t) => res is Some && res->Some_0@ == t,
            None => res is None,
        },
{
    let mut out = String::new();
    match pulldown_cmark_to_cmark::cmark(md.events.iter(), &mut out, pulldown_cmark::Options::empty()) {
        Ok(_) => Some(out),
        Err(_) => None,
    }
}

/// Moves each heading of the parsed text under a section of level `base`: a heading
/// of level `l` gets level `shifted_level(l, base)`; other events are kept.
pub fn shift_headings(md: &mut ParsedMarkdown, base: usize)
    requires
        marks_valid(old(md).mark_seq()),
    ensures
        final(md).source_text() == old(md).source_text(),
        final(md).mark_seq() == shifted_marks(old(md).mark_seq(), base as int),
{
    let ghost m0 = md.mark_seq();
    let n = md.len();
    for i in 0..n
        invariant
            n == m0.len(),
            md.source_text() == old(md).source_text(),
            m0 == old(md).mark_seq(),
            md.mark_seq().len() == n,
            forall|q: int| 0 <= q < i ==> #[trigger] md.mark_seq()[q] == shifted_mark(m0[q], base as int),
            forall|q: int| i <= q < n ==> #[trigger] md.mark_seq()[q] == m0[q],
            marks_valid(m0),
    {
        match md.mark(i) {
            HeadingMark::Start(l) => {
                let nl = shift_heading_level(l, base);
                set_heading_level(md, i, nl);
            },
            HeadingMark::End(l) => {
                let nl = shift_heading_level(l, base);
                set_heading_level(md, i, nl);
            },
            HeadingMark::Other => {},
        }
    }
    assert(md.mark_seq() =~= shifted_marks(m0, base as int));
}

/// Markdown with each heading moved down under a section of level `base_level`: a
/// heading of level `l` becomes one of level `shifted_level(l, base_level)`, other
/// events are kept; the text is parsed and written back by pulldown-cmark. `None`
/// where the writer refuses the events.
pub fn adjust_markdown_headers(markdown: &str, base_level: usize) -> (res: Option<String>)
    ensures
        match rendered(markdown@, shifted_marks(parsed_marks(markdown@), base_level as int)) {
            Some(t) => res is Some && res->Some_0@ == t,
            None => res is None,
        },
{
    let mut md = parse_markdown(markdown);
    shift_headings(&mut md, base_level);
    render_markdown(&md)
}

} // verus!
