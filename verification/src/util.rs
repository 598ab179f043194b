//! Splitting a marked-up line into stretches of text and their styles.

use vstd::prelude::*;
use vstd::string::*;
use crate::glitch::glitch_text;
use crate::markup::{attribute_markup, name_is, Attribute, Line};
use crate::order::{picked, position_order, sorted_by_position};
use crate::style::{joined_text, StyleSpec, StyledSegment, StyledText};

verus! {

/// The mathematical value of a span: a stretch of a line's text, the style it
/// is shown in, and whether it is shown glitched.
pub struct Span {
    pub text: Seq<char>,
    pub style: StyleSpec,
    pub glitch: bool,
}

impl Span {
    /// Unmarked text.
    pub open spec fn plain(text: Seq<char>) -> Span {
        Span { text, style: StyleSpec::plain(), glitch: false }
    }
}

/// A stretch of a line's text with the style that the markup gives it. Where
/// `glitch` is set, the text is still the line's own: the glitched form takes
/// its place when the span becomes a segment.
#[derive(Clone, Debug, PartialEq, Eq)]
pub struct StyledSpan {
    pub text: String,
    pub style: StyleSpec,
    pub glitch: bool,
}

impl View for StyledSpan {
    type V = Span;

    open spec fn view(&self) -> Span {
        Span { text: self.text@, style: self.style, glitch: self.glitch }
    }
}

impl DeepView for StyledSpan {
    type V = Span;

    open spec fn deep_view(&self) -> Span {
        self@
    }
}

/// `value` held between `low` and `high`.
pub open spec fn clamped(value: int, low: int, high: int) -> int {
    if value < low {
        low
    } else if value > high {
        high
    } else {
        value
    }
}

impl Attribute {
    /// Where the attribute's text starts in a text of `len` characters of which
    /// the first `cursor` are spoken for: at its position, but not inside what
    /// came before and not past the end.
    pub open spec fn start(&self, cursor: int, len: int) -> int {
        clamped(self.position as int, cursor, len)
    }

    /// Where the attribute's text ends: `length` characters after its
    /// position, but not before its start and not past the end.
    pub open spec fn end(&self, cursor: int, len: int) -> int {
        clamped(self.position + self.length, self.start(cursor, len), len)
    }

    /// The span that the attribute makes of the text it covers. The attribute
    /// that names the speaker makes none.
    pub open spec fn shown(&self, covered: Seq<char>) -> Seq<Span> {
        if self.is_character() {
            Seq::empty()
        } else {
            seq![Span { text: covered, style: self.markup().style, glitch: self.markup().glitch }]
        }
    }
}

/// The unmarked text between two attributes, if there is any.
pub open spec fn gap(text: Seq<char>, from: int, to: int) -> Seq<Span> {
    if from < to {
        seq![Span::plain(text.subrange(from, to))]
    } else {
        Seq::empty()
    }
}

/// The spans of `text` from `cursor` on, under attributes that are read in
/// the order given: before each attribute the unmarked text that precedes it,
/// then the attribute's own text, and after the last one the rest.
pub open spec fn spans_from(text: Seq<char>, attributes: Seq<Attribute>, cursor: int) -> Seq<Span>
    decreases attributes.len(),
{
    if attributes.len() == 0 {
        gap(text, cursor, text.len() as int)
    } else {
        let first = attributes.first();
        let start = first.start(cursor, text.len() as int);
        let end = first.end(cursor, text.len() as int);
        gap(text, cursor, start) + first.shown(text.subrange(start, end)) + spans_from(
            text,
            attributes.drop_first(),
            end,
        )
    }
}

impl Line {
    /// The spans of the line. A line without attributes is one unmarked span;
    /// otherwise the attributes are read by rising position.
    pub open spec fn spans(&self) -> Seq<Span> {
        if self.attributes@.len() == 0 {
            seq![Span::plain(self.text@)]
        } else {
            spans_from(self.text@, sorted_by_position(self.attributes@), 0)
        }
    }
}

/// Whether `segments` show `spans`: one segment for each span, in its style,
/// and with its text unless the span is glitched.
pub open spec fn shows(segments: Seq<StyledText>, spans: Seq<Span>) -> bool {
    &&& segments.len() == spans.len()
    &&& forall|i: int| 0 <= i < spans.len() ==> (#[trigger] segments[i]).style == spans[i].style
    &&& forall|i: int|
        0 <= i < spans.len() && !spans[i].glitch ==> (#[trigger] segments[i]).text == spans[i].text
}

/// The characters `from..to` of `text` as a string of their own.
pub fn substring(text: &String, from: usize, to: usize) -> (part: String)
    requires
        from <= to <= text@.len(),
    ensures
        part@ == text@.subrange(from as int, to as int),
{
    text.as_str().substring_char(from, to).to_owned()
}

/// Where an attribute's text starts and ends in a text of `len` characters of
/// which the first `cursor` are spoken for.
pub fn attribute_range(attribute: &Attribute, cursor: usize, len: usize) -> (range: (usize, usize))
    requires
        cursor <= len,
    ensures
        range.0 == attribute.start(cursor as int, len as int),
        range.1 == attribute.end(cursor as int, len as int),
        cursor <= range.0 <= range.1 <= len,
{
    let start = if attribute.position < cursor {
        cursor
    } else if attribute.position > len {
        len
    } else {
        attribute.position
    };
    let end = match attribute.position.checked_add(attribute.length) {
        None => len,
        Some(stop) => if stop < start {
            start
        } else if stop > len {
            len
        } else {
            stop
        },
    };
    (start, end)
}

/// The spans of a line, with the text that the line itself holds.
pub fn line_spans(line: &Line) -> (spans: Vec<StyledSpan>)
    ensures
        spans.deep_view() == line.spans(),
{
    let mut spans: Vec<StyledSpan> = Vec::new();
    if line.attributes.len() == 0 {
        spans.push(StyledSpan { text: line.text.clone(), style: StyleSpec::new(), glitch: false });
        proof {
            assert(spans.deep_view() =~= line.spans());
        }
        return spans;
    }
    let len = line.text.as_str().unicode_len();
    let order = position_order(&line.attributes);
    let ghost sorted = sorted_by_position(line.attributes@);
    let mut cursor: usize = 0;
    let mut next: usize = 0;
    proof {
        assert(sorted.skip(0) =~= sorted);
        assert(spans.deep_view() =~= Seq::<Span>::empty());
        assert(Seq::<Span>::empty() + spans_from(line.text@, sorted, 0) =~= spans_from(
            line.text@,
            sorted,
            0,
        ));
    }
    while next < order.len()
        invariant
            len == line.text@.len(),
            cursor <= len,
            next <= order@.len(),
            order@.len() == line.attributes@.len(),
            forall|k: int| 0 <= k < order@.len() ==> order@[k] < line.attributes@.len(),
            sorted == picked(line.attributes@, order@),
            spans.deep_view() + spans_from(line.text@, sorted.skip(next as int), cursor as int)
                == spans_from(line.text@, sorted, 0),
        decreases order.len() - next,
    {
        let attribute = &line.attributes[order[next]];
        let (start, end) = attribute_range(attribute, cursor, len);
        let ghost before = spans.deep_view();
        let ghost rest = spans_from(line.text@, sorted.skip(next + 1), end as int);
        proof {
            assert(sorted.skip(next as int).first() == *attribute);
            assert(sorted.skip(next as int).drop_first() =~= sorted.skip(next + 1));
        }
        if cursor < start {
            spans.push(
                StyledSpan {
                    text: substring(&line.text, cursor, start),
                    style: StyleSpec::new(),
                    glitch: false,
                },
            );
        }
        let ghost middle = spans.deep_view();
        proof {
            assert(middle =~= before + gap(line.text@, cursor as int, start as int));
        }
        if !name_is(&attribute.name, "character") {
            let markup = attribute_markup(attribute);
            spans.push(
                StyledSpan {
                    text: substring(&line.text, start, end),
                    style: markup.style,
                    glitch: markup.glitch,
                },
            );
        }
        proof {
            let covered = line.text@.subrange(start as int, end as int);
            assert(spans.deep_view() =~= middle + attribute.shown(covered));
            assert(spans.deep_view() + rest =~= before + (gap(
                line.text@,
                cursor as int,
                start as int,
            ) + attribute.shown(covered) + rest));
        }
        cursor = end;
        next += 1;
    }
    if cursor < len {
        spans.push(
            StyledSpan {
                text: substring(&line.text, cursor, len),
                style: StyleSpec::new(),
                glitch: false,
            },
        );
    }
    proof {
        assert(sorted.skip(next as int) =~= Seq::<Attribute>::empty());
        assert(spans.deep_view() =~= spans_from(line.text@, sorted, 0));
    }
    spans
}

/// Splits a marked-up line into segments of text and their styles.
///
/// There is one segment for each span of the line, in the span's style. A
/// span that is not glitched gives its own text; a glitched one gives
/// whatever the glitch effect made of its text.
pub fn style_line(line: &Line) -> (segments: Vec<StyledSegment>)
    ensures
        shows(segments.deep_view(), line.spans()),
{
    let spans = line_spans(line);
    let mut segments: Vec<StyledSegment> = Vec::new();
    let mut next: usize = 0;
    while next < spans.len()
        invariant
            next <= spans@.len(),
            shows(segments.deep_view(), spans.deep_view().take(next as int)),
        decreases spans.len() - next,
    {
        let span = &spans[next];
        let text = if span.glitch {
            glitch_text(span.text.as_str())
        } else {
            span.text.clone()
        };
        let ghost before = segments.deep_view();
        segments.push(StyledSegment { text, style: span.style });
        proof {
            let after = segments.deep_view();
            assert(after =~= before.push(after[next as int]));
            assert forall|i: int| 0 <= i < next + 1 implies (#[trigger] after[i]).style
                == spans.deep_view()[i].style by {
                if i < next {
                    assert(after[i] == before[i]);
                }
            }
            assert forall|i: int|
                0 <= i < next + 1 && !spans.deep_view()[i].glitch implies (#[trigger] after[i]).text
                == spans.deep_view()[i].text by {
                if i < next {
                    assert(after[i] == before[i]);
                }
            }
        }
        next += 1;
    }
    proof {
        assert(spans.deep_view().take(next as int) =~= spans.deep_view());
    }
    segments
}

/// An attribute that lies within the text, and behind the text that is spoken
/// for, covers its own range: `length` characters from `position` on.
pub proof fn lemma_own_range(attribute: Attribute, cursor: int, len: int)
    requires
        0 <= cursor <= attribute.position,
        attribute.position + attribute.length <= len,
    ensures
        attribute.start(cursor, len) == attribute.position,
        attribute.end(cursor, len) == attribute.position + attribute.length,
{
}

/// The texts of the spans, one after the other.
pub open spec fn joined(spans: Seq<Span>) -> Seq<char> {
    spans.map_values(|span: Span| span.text).flatten()
}

/// Joining two runs of spans joins their texts.
pub proof fn lemma_joined_add(front: Seq<Span>, back: Seq<Span>)
    ensures
        joined(front + back) == joined(front) + joined(back),
{
    let text = |span: Span| span.text;
    assert((front + back).map_values(text) =~= front.map_values(text) + back.map_values(text));
    vstd::seq_lib::lemma_flatten_concat(front.map_values(text), back.map_values(text));
}

/// The text of a gap is the text between its ends.
pub proof fn lemma_joined_gap(text: Seq<char>, from: int, to: int)
    requires
        0 <= from <= to <= text.len(),
    ensures
        joined(gap(text, from, to)) == text.subrange(from, to),
{
    let pick = |span: Span| span.text;
    if from < to {
        let only = seq![text.subrange(from, to)];
        assert(gap(text, from, to).map_values(pick) =~= only);
        only.lemma_flatten_one_element();
        assert(only.first() == text.subrange(from, to));
    } else {
        assert(gap(text, from, to).map_values(pick) =~= Seq::<Seq<char>>::empty());
        assert(text.subrange(from, to) =~= Seq::<char>::empty());
    }
}

/// From a cursor on, the spans hold the rest of the text except what the
/// attributes that name the speaker cover: here, with no such attribute, all
/// of it.
pub proof fn lemma_spans_from_cover(text: Seq<char>, attributes: Seq<Attribute>, cursor: int)
    requires
        0 <= cursor <= text.len(),
        forall|i: int| 0 <= i < attributes.len() ==> !attributes[i].is_character(),
    ensures
        joined(spans_from(text, attributes, cursor)) == text.subrange(cursor, text.len() as int),
    decreases attributes.len(),
{
    let len = text.len() as int;
    if attributes.len() == 0 {
        lemma_joined_gap(text, cursor, len);
    } else {
        let first = attributes.first();
        let start = first.start(cursor, len);
        let end = first.end(cursor, len);
        let before = gap(text, cursor, start);
        let covered = first.shown(text.subrange(start, end));
        let rest = spans_from(text, attributes.drop_first(), end);
        assert forall|i: int| 0 <= i < attributes.drop_first().len() implies !attributes.drop_first()[i].is_character() by {
            assert(attributes.drop_first()[i] == attributes[i + 1]);
        }
        lemma_spans_from_cover(text, attributes.drop_first(), end);
        lemma_joined_gap(text, cursor, start);
        lemma_joined_add(before + covered, rest);
        lemma_joined_add(before, covered);
        let pick = |span: Span| span.text;
        let only = seq![text.subrange(start, end)];
        assert(covered.map_values(pick) =~= only);
        only.lemma_flatten_one_element();
        assert(only.first() == text.subrange(start, end));
        assert(text.subrange(cursor, start) + text.subrange(start, end) + text.subrange(end, len)
            =~= text.subrange(cursor, len));
    }
}

/// No span is glitched unless an attribute asks for it.
pub proof fn lemma_spans_from_unglitched(text: Seq<char>, attributes: Seq<Attribute>, cursor: int)
    requires
        forall|i: int| 0 <= i < attributes.len() ==> !attributes[i].markup().glitch,
    ensures
        forall|k: int|
            0 <= k < spans_from(text, attributes, cursor).len() ==> !spans_from(
                text,
                attributes,
                cursor,
            )[k].glitch,
    decreases attributes.len(),
{
    if attributes.len() > 0 {
        let first = attributes.first();
        let end = first.end(cursor, text.len() as int);
        assert forall|i: int| 0 <= i < attributes.drop_first().len() implies !attributes.drop_first()[i].markup().glitch by {
            assert(attributes.drop_first()[i] == attributes[i + 1]);
        }
        lemma_spans_from_unglitched(text, attributes.drop_first(), end);
    }
}

/// Segments that show unglitched spans hold the spans' text.
pub proof fn lemma_shown_text(segments: Seq<StyledText>, spans: Seq<Span>)
    requires
        shows(segments, spans),
        forall|k: int| 0 <= k < spans.len() ==> !spans[k].glitch,
    ensures
        joined_text(segments) == joined(spans),
{
    assert(segments.map_values(|piece: StyledText| piece.text) =~= spans.map_values(
        |span: Span| span.text,
    ));
}

/// Nothing is lost: where no attribute of a line names the speaker and none
/// asks for the glitch effect, the texts of the segments that show the line,
/// joined in order, are the line's text. The attributes need not be in order
/// and may overlap.
pub proof fn lemma_segments_cover_text(line: Line, segments: Seq<StyledText>)
    requires
        shows(segments, line.spans()),
        forall|i: int|
            0 <= i < line.attributes@.len() ==> !line.attributes@[i].is_character()
                && !line.attributes@[i].markup().glitch,
    ensures
        joined_text(segments) == line.text@,
{
    let text = line.text@;
    if line.attributes@.len() == 0 {
        let only = seq![text];
        assert(line.spans().map_values(|span: Span| span.text) =~= only);
        only.lemma_flatten_one_element();
        assert(only.first() == text);
    } else {
        let sorted = sorted_by_position(line.attributes@);
        assert forall|k: int| 0 <= k < sorted.len() implies !sorted[k].is_character()
            && !sorted[k].markup().glitch by {
            crate::order::lemma_sorted_from_input(line.attributes@, k);
        }
        lemma_spans_from_cover(text, sorted, 0);
        lemma_spans_from_unglitched(text, sorted, 0);
        assert(text.subrange(0, text.len() as int) =~= text);
    }
    lemma_shown_text(segments, line.spans());
}

/// The speaker's name is left out: where the only attribute of a line names
/// the speaker and lies within the text, the texts of the segments that show
/// the line, joined in order, are the line's text without the characters that
/// the attribute covers.
pub proof fn lemma_character_left_out(line: Line, segments: Seq<StyledText>)
    requires
        shows(segments, line.spans()),
        line.attributes@.len() == 1,
        line.attributes@[0].is_character(),
        line.attributes@[0].position + line.attributes@[0].length <= line.text@.len(),
    ensures
        joined_text(segments) == line.text@.subrange(0, line.attributes@[0].position as int)
            + line.text@.subrange(
            line.attributes@[0].position + line.attributes@[0].length,
            line.text@.len() as int,
        ),
{
    let text = line.text@;
    let len = text.len() as int;
    let only = line.attributes@[0];
    let from = only.position as int;
    let to = only.position + only.length;
    assert(line.attributes@ =~= seq![only]);
    assert(crate::order::ordered_by_position(line.attributes@));
    crate::order::lemma_sorted_keeps_ordered(line.attributes@);
    assert(seq![only].drop_first() =~= Seq::<Attribute>::empty());
    reveal_with_fuel(spans_from, 2);
    let before = gap(text, 0, from);
    let after = gap(text, to, len);
    assert(line.spans() =~= before + after);
    lemma_joined_add(before, after);
    lemma_joined_gap(text, 0, from);
    lemma_joined_gap(text, to, len);
    lemma_shown_text(segments, line.spans());
}

} // verus!
