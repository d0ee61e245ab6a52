//! Cutting coloured spans into lines at the newlines that they hold.

use vstd::prelude::*;
use vstd::slice::slice_subrange;
use crate::events::{
    event_spans_in_range,
    events_text,
    lemma_resolved_keeps_spans,
    resolved,
    spans_in_range,
    ColoredSpan,
    HighlightEvent,
};
use crate::palette::Color;

verus! {

/// The byte that ends a line.
pub const NEWLINE: u8 = 10u8;

/// A run of source text in one colour: the bytes `start..end` of the source.
/// It refers to the text and holds none of it.
#[derive(Clone, Copy, Debug, PartialEq, Eq, Structural)]
pub struct Segment {
    pub color: Color,
    pub start: usize,
    pub end: usize,
}

impl Segment {
    /// The bytes of the source that the segment stands for.
    pub open spec fn text_of(self, src: Seq<u8>) -> Seq<u8> {
        src.subrange(self.start as int, self.end as int)
    }

    /// The segment's text, or `None` if it does not lie inside `src`.
    pub fn text<'a>(&self, src: &'a [u8]) -> (t: Option<&'a [u8]>)
        ensures
            t.is_some() == (self.start <= self.end && self.end <= src@.len()),
            t.is_some() ==> t.unwrap()@ == self.text_of(src@),
    {
        if self.start <= self.end && self.end <= src.len() {
            Some(slice_subrange(src, self.start, self.end))
        } else {
            None
        }
    }
}

/// The place of the first newline in `start..end`, or `end` without one.
pub open spec fn find_newline(src: Seq<u8>, start: int, end: int) -> int
    decreases end - start,
{
    if start >= end {
        end
    } else if src[start] == 10u8 {
        start
    } else {
        find_newline(src, start + 1, end)
    }
}

/// Appends a segment to the last line.
pub open spec fn push_to_last(lines: Seq<Seq<Segment>>, seg: Segment) -> Seq<Seq<Segment>> {
    lines.drop_last().push(lines.last().push(seg))
}

/// The lines after the text `start..end` in `color` has been added: the
/// part before the first newline goes to the last line, each later part
/// starts a line of its own.
pub open spec fn extend_lines(
    lines: Seq<Seq<Segment>>,
    src: Seq<u8>,
    color: Color,
    start: usize,
    end: usize,
) -> Seq<Seq<Segment>>
    decreases end - start,
{
    let nl = find_newline(src, start as int, end as int);
    if start <= nl < end {
        extend_lines(
            push_to_last(lines, Segment { color, start, end: nl as usize }).push(seq![]),
            src,
            color,
            (nl + 1) as usize,
            end,
        )
    } else {
        push_to_last(lines, Segment { color, start, end })
    }
}

/// The lines that a sequence of spans makes. With no span there is one
/// empty line.
pub open spec fn lines_of(src: Seq<u8>, spans: Seq<ColoredSpan>) -> Seq<Seq<Segment>>
    decreases spans.len(),
{
    if spans.len() == 0 {
        seq![seq![]]
    } else {
        let last = spans.last();
        extend_lines(lines_of(src, spans.drop_last()), src, last.color, last.start, last.end)
    }
}

/// Every segment of the line lies inside a text of `src_len` bytes.
pub open spec fn line_in_range(line: Seq<Segment>, src_len: nat) -> bool {
    forall|k: int|
        0 <= k < line.len() ==> (#[trigger] line[k]).start <= line[k].end && line[k].end
            <= src_len
}

/// Every segment of every line lies inside a text of `src_len` bytes.
pub open spec fn lines_in_range(lines: Seq<Seq<Segment>>, src_len: nat) -> bool {
    forall|l: int| 0 <= l < lines.len() ==> line_in_range(#[trigger] lines[l], src_len)
}

/// The lines of a vector of vectors, as sequences.
pub open spec fn lines_view(lines: Seq<Vec<Segment>>) -> Seq<Seq<Segment>> {
    Seq::new(lines.len(), |i: int| lines[i]@)
}

/// The text of all spans, one after the other.
pub open spec fn spans_text(src: Seq<u8>, spans: Seq<ColoredSpan>) -> Seq<u8>
    decreases spans.len(),
{
    if spans.len() == 0 {
        seq![]
    } else {
        spans_text(src, spans.drop_last()) + src.subrange(
            spans.last().start as int,
            spans.last().end as int,
        )
    }
}

/// The text of one line: that of its segments, one after the other.
pub open spec fn line_text(src: Seq<u8>, line: Seq<Segment>) -> Seq<u8>
    decreases line.len(),
{
    if line.len() == 0 {
        seq![]
    } else {
        line_text(src, line.drop_last()) + line.last().text_of(src)
    }
}

/// The text of the lines with a newline between each two.
pub open spec fn joined_text(src: Seq<u8>, lines: Seq<Seq<Segment>>) -> Seq<u8>
    decreases lines.len(),
{
    if lines.len() == 0 {
        seq![]
    } else if lines.len() == 1 {
        line_text(src, lines[0])
    } else {
        joined_text(src, lines.drop_last()) + seq![10u8] + line_text(src, lines.last())
    }
}

/// Where `find_newline` points there is a newline, and none before it.
pub proof fn lemma_find_newline(src: Seq<u8>, start: int, end: int)
    requires
        0 <= start <= end <= src.len(),
    ensures
        start <= find_newline(src, start, end) <= end,
        find_newline(src, start, end) < end ==> src[find_newline(src, start, end)] == 10u8,
        forall|k: int| start <= k < find_newline(src, start, end) ==> src[k] != 10u8,
    decreases end - start,
{
    if start < end && src[start] != 10u8 {
        lemma_find_newline(src, start + 1, end);
    }
}

proof fn lemma_push_to_last_text(src: Seq<u8>, lines: Seq<Seq<Segment>>, seg: Segment)
    requires
        lines.len() >= 1,
    ensures
        push_to_last(lines, seg).len() == lines.len(),
        joined_text(src, push_to_last(lines, seg)) == joined_text(src, lines) + seg.text_of(src),
{
    let pushed = push_to_last(lines, seg);
    let grown = lines.last().push(seg);
    assert(grown.drop_last() =~= lines.last());
    assert(line_text(src, grown) == line_text(src, lines.last()) + seg.text_of(src));
    assert(pushed.last() == grown);
    if lines.len() == 1 {
        assert(pushed[0] == grown);
        assert(lines[0] == lines.last());
    } else {
        assert(pushed.drop_last() =~= lines.drop_last());
        assert(joined_text(src, pushed) =~= joined_text(src, lines) + seg.text_of(src));
    }
}

/// Adding a stretch of text to the lines adds exactly that text.
pub proof fn lemma_extend_lines_text(
    lines: Seq<Seq<Segment>>,
    src: Seq<u8>,
    color: Color,
    start: usize,
    end: usize,
)
    requires
        lines.len() >= 1,
        start <= end <= src.len(),
    ensures
        extend_lines(lines, src, color, start, end).len() >= 1,
        joined_text(src, extend_lines(lines, src, color, start, end)) == joined_text(src, lines)
            + src.subrange(start as int, end as int),
    decreases end - start,
{
    lemma_find_newline(src, start as int, end as int);
    let nl = find_newline(src, start as int, end as int);
    if nl < end {
        let seg = Segment { color, start, end: nl as usize };
        let with = push_to_last(lines, seg);
        lemma_push_to_last_text(src, lines, seg);
        let opened = with.push(seq![]);
        assert(opened.drop_last() =~= with);
        assert(line_text(src, opened.last()) =~= Seq::<u8>::empty());
        assert(joined_text(src, opened) =~= joined_text(src, with) + seq![10u8]);
        lemma_extend_lines_text(opened, src, color, (nl + 1) as usize, end);
        assert(src.subrange(start as int, end as int) =~= src.subrange(start as int, nl)
            + seq![10u8] + src.subrange(nl + 1, end as int));
        assert(joined_text(src, extend_lines(lines, src, color, start, end)) =~= joined_text(
            src,
            lines,
        ) + src.subrange(start as int, end as int));
    } else {
        lemma_push_to_last_text(src, lines, Segment { color, start, end });
    }
}

/// The lines hold the text of the spans: joining them with newlines gives
/// back what the spans spell, byte for byte.
pub proof fn lemma_lines_preserve_text(src: Seq<u8>, spans: Seq<ColoredSpan>)
    requires
        spans_in_range(spans, src.len()),
    ensures
        lines_of(src, spans).len() >= 1,
        joined_text(src, lines_of(src, spans)) == spans_text(src, spans),
    decreases spans.len(),
{
    if spans.len() == 0 {
        assert(line_text(src, seq![]) =~= Seq::<u8>::empty());
        assert(joined_text(src, seq![seq![]]) =~= Seq::<u8>::empty());
    } else {
        let init = spans.drop_last();
        let last = spans.last();
        assert(spans_in_range(init, src.len())) by {
            assert forall|k: int| 0 <= k < init.len() implies (#[trigger] init[k]).start
                <= init[k].end && init[k].end <= src.len() by {
                assert(init[k] == spans[k]);
            }
        }
        lemma_lines_preserve_text(src, init);
        lemma_extend_lines_text(lines_of(src, init), src, last.color, last.start, last.end);
    }
}

/// The resolved spans spell what the stream's spans spell.
pub proof fn lemma_resolved_text(src: Seq<u8>, events: Seq<HighlightEvent>, formats: Seq<Color>)
    ensures
        spans_text(src, resolved(events, formats)) == events_text(src, events),
    decreases events.len(),
{
    if events.len() > 0 {
        let init = events.drop_last();
        lemma_resolved_text(src, init, formats);
        match events.last() {
            HighlightEvent::Span { start, end } => {
                let spans = resolved(events, formats);
                assert(spans.drop_last() =~= resolved(init, formats));
            },
            _ => {
                assert(events_text(src, events) =~= events_text(src, init));
            },
        }
    }
}

/// The lines made of a stream hold the text that the stream's spans spell,
/// whatever the categories: joining them with newlines gives it back byte
/// for byte.
pub proof fn lemma_stream_text_preserved(
    src: Seq<u8>,
    events: Seq<HighlightEvent>,
    formats: Seq<Color>,
)
    requires
        event_spans_in_range(events, src.len()),
    ensures
        joined_text(src, lines_of(src, resolved(events, formats))) == events_text(src, events),
{
    lemma_resolved_keeps_spans(events, formats, src.len());
    lemma_resolved_text(src, events, formats);
    lemma_lines_preserve_text(src, resolved(events, formats));
}

/// The segment's text holds no newline.
pub open spec fn newline_free(src: Seq<u8>, seg: Segment) -> bool {
    forall|p: int| seg.start <= p < seg.end ==> src[p] != 10u8
}

/// No segment of the line holds a newline.
pub open spec fn line_newline_free(src: Seq<u8>, line: Seq<Segment>) -> bool {
    forall|k: int| 0 <= k < line.len() ==> newline_free(src, #[trigger] line[k])
}

/// No segment of any line holds a newline.
pub open spec fn lines_newline_free(src: Seq<u8>, lines: Seq<Seq<Segment>>) -> bool {
    forall|l: int| 0 <= l < lines.len() ==> line_newline_free(src, #[trigger] lines[l])
}

proof fn lemma_extend_newline_free(
    lines: Seq<Seq<Segment>>,
    src: Seq<u8>,
    color: Color,
    start: usize,
    end: usize,
)
    requires
        lines.len() >= 1,
        lines_newline_free(src, lines),
        start <= end <= src.len(),
    ensures
        lines_newline_free(src, extend_lines(lines, src, color, start, end)),
    decreases end - start,
{
    lemma_find_newline(src, start as int, end as int);
    let nl = find_newline(src, start as int, end as int);
    let seg = Segment { color, start, end: nl as usize };
    let with = push_to_last(lines, seg);
    assert(newline_free(src, seg));
    assert forall|l: int| 0 <= l < with.len() implies line_newline_free(
        src,
        #[trigger] with[l],
    ) by {
        if l < lines.len() - 1 {
            assert(with[l] == lines[l]);
        } else {
            assert(line_newline_free(src, lines[lines.len() - 1]));
            assert forall|k: int| 0 <= k < with[l].len() implies newline_free(
                src,
                #[trigger] with[l][k],
            ) by {
                if k < lines.last().len() {
                    assert(with[l][k] == lines.last()[k]);
                }
            }
        }
    }
    if nl < end {
        let opened = with.push(seq![]);
        assert forall|l: int| 0 <= l < opened.len() implies line_newline_free(
            src,
            #[trigger] opened[l],
        ) by {
            if l < with.len() {
                assert(opened[l] == with[l]);
            }
        }
        lemma_extend_newline_free(opened, src, color, (nl + 1) as usize, end);
    }
}

/// Newlines separate lines and are part of none: no segment of the lines
/// made of the spans holds one.
pub proof fn lemma_lines_newline_free(src: Seq<u8>, spans: Seq<ColoredSpan>)
    requires
        spans_in_range(spans, src.len()),
    ensures
        lines_newline_free(src, lines_of(src, spans)),
    decreases spans.len(),
{
    if spans.len() > 0 {
        let init = spans.drop_last();
        let last = spans.last();
        assert(spans_in_range(init, src.len())) by {
            assert forall|k: int| 0 <= k < init.len() implies (#[trigger] init[k]).start
                <= init[k].end && init[k].end <= src.len() by {
                assert(init[k] == spans[k]);
            }
        }
        lemma_lines_newline_free(src, init);
        lemma_lines_preserve_text(src, init);
        lemma_extend_newline_free(lines_of(src, init), src, last.color, last.start, last.end);
    }
}

/// Cuts the spans into lines. A span's text up to its first newline goes to
/// the current line; each part after a newline starts a new line, an empty
/// part too. No segment holds a newline.
pub fn split_lines(src: &[u8], spans: &Vec<ColoredSpan>) -> (lines: Vec<Vec<Segment>>)
    requires
        spans_in_range(spans@, src@.len()),
    ensures
        lines_view(lines@) == lines_of(src@, spans@),
        lines_in_range(lines_view(lines@), src@.len()),
        lines_newline_free(src@, lines_view(lines@)),
        joined_text(src@, lines_view(lines@)) == spans_text(src@, spans@),
        lines@.len() >= 1,
{
    let mut lines: Vec<Vec<Segment>> = Vec::new();
    let mut current: Vec<Segment> = Vec::new();
    let mut i: usize = 0;
    assert(lines_view(lines@).push(current@) =~= seq![seq![]]);
    while i < spans.len()
        invariant
            0 <= i <= spans@.len(),
            spans_in_range(spans@, src@.len()),
            lines_view(lines@).push(current@) == lines_of(src@, spans@.take(i as int)),
            lines_in_range(lines_view(lines@), src@.len()),
            line_in_range(current@, src@.len()),
        decreases spans@.len() - i,
    {
        let span = spans[i];
        let ghost target = lines_of(src@, spans@.take(i + 1));
        assert(spans@.take(i + 1).drop_last() =~= spans@.take(i as int));
        assert(spans@.take(i + 1).last() == span);
        let mut seg_start: usize = span.start;
        let mut pos: usize = span.start;
        while pos < span.end
            invariant
                span.start <= seg_start <= pos <= span.end <= src@.len(),
                find_newline(src@, seg_start as int, span.end as int) == find_newline(
                    src@,
                    pos as int,
                    span.end as int,
                ),
                target == extend_lines(
                    lines_view(lines@).push(current@),
                    src@,
                    span.color,
                    seg_start,
                    span.end,
                ),
                lines_in_range(lines_view(lines@), src@.len()),
                line_in_range(current@, src@.len()),
            decreases span.end - pos,
        {
            if src[pos] == NEWLINE {
                let ghost before = lines_view(lines@).push(current@);
                let seg = Segment { color: span.color, start: seg_start, end: pos };
                let ghost closed = lines_view(lines@);
                current.push(seg);
                let ghost full = current@;
                lines.push(current);
                current = Vec::new();
                assert forall|l: int| 0 <= l < lines@.len() implies line_in_range(
                    #[trigger] lines_view(lines@)[l],
                    src@.len(),
                ) by {
                    if l < closed.len() {
                        assert(lines_view(lines@)[l] == closed[l]);
                    } else {
                        assert(lines_view(lines@)[l] == full);
                    }
                }
                assert(lines_view(lines@).push(current@) =~= push_to_last(before, seg).push(
                    seq![],
                ));
                seg_start = pos + 1;
            }
            pos = pos + 1;
        }
        let ghost before = lines_view(lines@).push(current@);
        let seg = Segment { color: span.color, start: seg_start, end: span.end };
        current.push(seg);
        assert(lines_view(lines@).push(current@) =~= push_to_last(before, seg));
        i = i + 1;
    }
    assert(spans@.take(i as int) =~= spans@);
    let ghost before = lines_view(lines@).push(current@);
    let ghost closed = lines_view(lines@);
    let ghost full = current@;
    lines.push(current);
    assert(lines_view(lines@) =~= before);
    assert forall|l: int| 0 <= l < lines@.len() implies line_in_range(
        #[trigger] lines_view(lines@)[l],
        src@.len(),
    ) by {
        if l < closed.len() {
            assert(lines_view(lines@)[l] == closed[l]);
        } else {
            assert(lines_view(lines@)[l] == full);
        }
    }
    proof {
        lemma_lines_preserve_text(src@, spans@);
        lemma_lines_newline_free(src@, spans@);
    }
    lines
}

/// The text of one line: that of its segments, one after the other.
pub fn line_bytes(src: &[u8], line: &Vec<Segment>) -> (text: Vec<u8>)
    requires
        line_in_range(line@, src@.len()),
    ensures
        text@ == line_text(src@, line@),
{
    let mut text: Vec<u8> = Vec::new();
    let mut k: usize = 0;
    while k < line.len()
        invariant
            0 <= k <= line@.len(),
            line_in_range(line@, src@.len()),
            text@ == line_text(src@, line@.take(k as int)),
        decreases line@.len() - k,
    {
        let seg = line[k];
        assert(line@.take(k + 1).drop_last() =~= line@.take(k as int));
        assert(line@.take(k + 1).last() == seg);
        let ghost before = text@;
        let mut pos: usize = seg.start;
        assert(text@ =~= before + src@.subrange(seg.start as int, pos as int));
        while pos < seg.end
            invariant
                seg.start <= pos <= seg.end <= src@.len(),
                text@ == before + src@.subrange(seg.start as int, pos as int),
            decreases seg.end - pos,
        {
            text.push(src[pos]);
            pos = pos + 1;
            assert(text@ =~= before + src@.subrange(seg.start as int, pos as int));
        }
        k = k + 1;
    }
    assert(line@.take(k as int) =~= line@);
    text
}

} // verus!
