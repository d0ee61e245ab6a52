//! Highlight events and the resolution of the active colour of each span.

use vstd::prelude::*;
use crate::error::RenderError;
use crate::palette::Color;
use crate::stack::ColorStack;

verus! {

/// One step of a highlighter's output over a source text.
#[derive(Clone, Copy, Debug, PartialEq, Eq, Structural)]
pub enum HighlightEvent {
    /// A category opens; the number is its place in the colour table.
    Enter(usize),
    /// The bytes `start..end` of the source text come next.
    Span { start: usize, end: usize },
    /// The innermost open category closes.
    Exit,
}

/// A text span together with the colour that was active when it came.
#[derive(Clone, Copy, Debug, PartialEq, Eq, Structural)]
pub struct ColoredSpan {
    pub color: Color,
    pub start: usize,
    pub end: usize,
}

/// What resolving a whole stream yields.
pub struct Resolution {
    /// The spans in stream order, each with its colour.
    pub spans: Vec<ColoredSpan>,
    /// The colour that is active after the last event.
    pub final_color: Color,
    /// How many categories are still open after the last event.
    pub open_categories: usize,
}

/// The colour stack after the given events, bottom first. An exit with no
/// category open leaves the stack as it is.
pub open spec fn stack_after(events: Seq<HighlightEvent>, formats: Seq<Color>) -> Seq<Color>
    decreases events.len(),
{
    if events.len() == 0 {
        seq![Color::Reset]
    } else {
        let prev = stack_after(events.drop_last(), formats);
        match events.last() {
            HighlightEvent::Enter(id) => prev.push(formats[id as int]),
            HighlightEvent::Exit => if prev.len() > 1 {
                prev.drop_last()
            } else {
                prev
            },
            HighlightEvent::Span { .. } => prev,
        }
    }
}

/// What is wrong with the event at place `i`, if anything.
pub open spec fn event_error(
    events: Seq<HighlightEvent>,
    formats: Seq<Color>,
    src_len: nat,
    i: int,
) -> Option<RenderError> {
    match events[i] {
        HighlightEvent::Enter(id) => if id < formats.len() {
            None
        } else {
            Some(RenderError::UnknownCategory)
        },
        HighlightEvent::Exit => if stack_after(events.take(i), formats).len() > 1 {
            None
        } else {
            Some(RenderError::StackUnderflow)
        },
        HighlightEvent::Span { start, end } => if start <= end && end <= src_len {
            None
        } else {
            Some(RenderError::SpanOutOfRange)
        },
    }
}

/// Every event of the stream is in order.
pub open spec fn stream_ok(events: Seq<HighlightEvent>, formats: Seq<Color>, src_len: nat) -> bool {
    forall|i: int| 0 <= i < events.len() ==> event_error(events, formats, src_len, i) is None
}

/// `e` is what is wrong with the first event that is out of order.
pub open spec fn first_error(
    events: Seq<HighlightEvent>,
    formats: Seq<Color>,
    src_len: nat,
    e: RenderError,
) -> bool {
    exists|i: int|
        {
            &&& 0 <= i < events.len()
            &&& event_error(events, formats, src_len, i) == Some(e)
            &&& forall|j: int| 0 <= j < i ==> event_error(events, formats, src_len, j) is None
        }
}

/// The spans of the stream, each with the top of the stack at its place.
pub open spec fn resolved(events: Seq<HighlightEvent>, formats: Seq<Color>) -> Seq<ColoredSpan>
    decreases events.len(),
{
    if events.len() == 0 {
        seq![]
    } else {
        let prev = resolved(events.drop_last(), formats);
        match events.last() {
            HighlightEvent::Span { start, end } => prev.push(
                ColoredSpan { color: stack_after(events.drop_last(), formats).last(), start, end },
            ),
            _ => prev,
        }
    }
}

/// The text that the stream's spans spell, one after the other.
pub open spec fn events_text(src: Seq<u8>, events: Seq<HighlightEvent>) -> Seq<u8>
    decreases events.len(),
{
    if events.len() == 0 {
        seq![]
    } else {
        events_text(src, events.drop_last()) + match events.last() {
            HighlightEvent::Span { start, end } => src.subrange(start as int, end as int),
            _ => seq![],
        }
    }
}

/// Every span event of the stream lies inside a text of `src_len` bytes.
pub open spec fn event_spans_in_range(events: Seq<HighlightEvent>, src_len: nat) -> bool {
    forall|i: int|
        0 <= i < events.len() ==> match #[trigger] events[i] {
            HighlightEvent::Span { start, end } => start <= end && end <= src_len,
            _ => true,
        }
}

/// Every span lies inside a text of `src_len` bytes.
pub open spec fn spans_in_range(spans: Seq<ColoredSpan>, src_len: nat) -> bool {
    forall|k: int|
        0 <= k < spans.len() ==> (#[trigger] spans[k]).start <= spans[k].end && spans[k].end
            <= src_len
}

/// Enters minus exits.
pub open spec fn depth(events: Seq<HighlightEvent>) -> int
    decreases events.len(),
{
    if events.len() == 0 {
        0
    } else {
        depth(events.drop_last()) + match events.last() {
            HighlightEvent::Enter(_) => 1int,
            HighlightEvent::Exit => -1int,
            HighlightEvent::Span { .. } => 0int,
        }
    }
}

/// No prefix of the stream closes more categories than it has opened.
pub open spec fn never_negative(events: Seq<HighlightEvent>) -> bool {
    forall|i: int| 0 <= i <= events.len() ==> depth(#[trigger] events.take(i)) >= 0
}

/// Properly nested: as many exits as enters, and none too early.
pub open spec fn well_nested(events: Seq<HighlightEvent>) -> bool {
    depth(events) == 0 && never_negative(events)
}

/// While no exit comes too early, the stack is one deeper than the nesting
/// and rests on the default colour.
pub proof fn lemma_stack_tracks_depth(events: Seq<HighlightEvent>, formats: Seq<Color>)
    requires
        never_negative(events),
    ensures
        stack_after(events, formats).len() == depth(events) + 1,
        stack_after(events, formats)[0] == Color::Reset,
    decreases events.len(),
{
    if events.len() > 0 {
        let init = events.drop_last();
        assert forall|i: int| 0 <= i <= init.len() implies depth(#[trigger] init.take(i))
            >= 0 by {
            assert(init.take(i) =~= events.take(i));
        }
        lemma_stack_tracks_depth(init, formats);
        assert(events.take(events.len() as int) =~= events);
        assert(init =~= events.take(events.len() - 1));
    }
}

/// A properly nested stream never underflows the stack and leaves it
/// holding the default colour alone.
pub proof fn lemma_well_nested_returns_to_reset(
    events: Seq<HighlightEvent>,
    formats: Seq<Color>,
)
    requires
        well_nested(events),
    ensures
        forall|i: int|
            0 <= i < events.len() && events[i] == HighlightEvent::Exit ==> (#[trigger] stack_after(
                events.take(i),
                formats,
            )).len() > 1,
        stack_after(events, formats) == seq![Color::Reset],
{
    lemma_stack_tracks_depth(events, formats);
    assert(stack_after(events, formats) =~= seq![Color::Reset]);
    assert forall|i: int| 0 <= i < events.len() && events[i] == HighlightEvent::Exit implies (
    #[trigger] stack_after(events.take(i), formats)).len() > 1 by {
        let pre = events.take(i);
        assert forall|j: int| 0 <= j <= pre.len() implies depth(#[trigger] pre.take(j)) >= 0 by {
            assert(pre.take(j) =~= events.take(j));
        }
        lemma_stack_tracks_depth(pre, formats);
        let upto = events.take(i + 1);
        assert(upto.drop_last() =~= pre);
        assert(upto.last() == events[i]);
        assert(depth(upto) == depth(pre) - 1);
    }
}

/// Resolving neither adds nor drops a span: the resolved spans are those of
/// the stream, in order.
pub proof fn lemma_resolved_keeps_spans(
    events: Seq<HighlightEvent>,
    formats: Seq<Color>,
    src_len: nat,
)
    requires
        event_spans_in_range(events, src_len),
    ensures
        spans_in_range(resolved(events, formats), src_len),
    decreases events.len(),
{
    if events.len() > 0 {
        let init = events.drop_last();
        assert forall|i: int| 0 <= i < init.len() implies match #[trigger] init[i] {
            HighlightEvent::Span { start, end } => start <= end && end <= src_len,
            _ => true,
        } by {
            assert(init[i] == events[i]);
        }
        lemma_resolved_keeps_spans(init, formats, src_len);
        assert(events.last() == events[events.len() - 1]);
    }
}

/// Walks the stream once and gives each span the colour on top of the
/// stack at its place. The first event that is out of order ends the walk
/// with its error.
pub fn resolve(events: &Vec<HighlightEvent>, formats: &Vec<Color>, src_len: usize) -> (r: Result<
    Resolution,
    RenderError,
>)
    ensures
        match r {
            Ok(res) => {
                &&& stream_ok(events@, formats@, src_len as nat)
                &&& res.spans@ == resolved(events@, formats@)
                &&& spans_in_range(res.spans@, src_len as nat)
                &&& res.final_color == stack_after(events@, formats@).last()
                &&& res.open_categories == stack_after(events@, formats@).len() - 1
            },
            Err(e) => first_error(events@, formats@, src_len as nat, e),
        },
{
    let mut stack = ColorStack::new();
    let mut spans: Vec<ColoredSpan> = Vec::new();
    let mut open: usize = 0;
    let mut i: usize = 0;
    while i < events.len()
        invariant
            0 <= i <= events@.len(),
            stack.wf(),
            stack@ == stack_after(events@.take(i as int), formats@),
            spans@ == resolved(events@.take(i as int), formats@),
            spans_in_range(spans@, src_len as nat),
            open == stack@.len() - 1,
            open <= i,
            forall|j: int| 0 <= j < i ==> event_error(events@, formats@, src_len as nat, j) is None,
        decreases events@.len() - i,
    {
        let ghost before = events@.take(i as int);
        let ghost after = events@.take(i + 1);
        assert(after.drop_last() =~= before);
        assert(after.last() == events@[i as int]);
        match events[i] {
            HighlightEvent::Enter(id) => {
                if id >= formats.len() {
                    assert(event_error(events@, formats@, src_len as nat, i as int) == Some(
                        RenderError::UnknownCategory,
                    ));
                    return Err(RenderError::UnknownCategory);
                }
                stack.push(formats[id]);
                open = open + 1;
            },
            HighlightEvent::Exit => {
                if stack.pop().is_none() {
                    assert(event_error(events@, formats@, src_len as nat, i as int) == Some(
                        RenderError::StackUnderflow,
                    ));
                    return Err(RenderError::StackUnderflow);
                }
                open = open - 1;
            },
            HighlightEvent::Span { start, end } => {
                if start > end || end > src_len {
                    assert(event_error(events@, formats@, src_len as nat, i as int) == Some(
                        RenderError::SpanOutOfRange,
                    ));
                    return Err(RenderError::SpanOutOfRange);
                }
                spans.push(ColoredSpan { color: stack.top(), start, end });
            },
        }
        i = i + 1;
    }
    assert(events@.take(i as int) =~= events@);
    Ok(Resolution { spans, final_color: stack.top(), open_categories: open })
}

} // verus!
