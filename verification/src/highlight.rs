//! From source text to coloured lines: running the highlighter, resolving
//! its events and cutting the result into lines.

use vstd::prelude::*;
use tree_sitter::Language;
use tree_sitter_highlight::HighlightConfiguration;
use crate::ansi::{all_fit, bytes_view, chunks_of, format_chunks, serialized_lines};
use crate::error::RenderError;
use crate::events::{
    events_text,
    first_error,
    resolve,
    resolved,
    stack_after,
    stream_ok,
    ColoredSpan,
    HighlightEvent,
};
use crate::lines::{
    joined_text,
    lemma_resolved_text,
    lines_in_range,
    lines_newline_free,
    lines_of,
    lines_view,
    split_lines,
    Segment,
};
use crate::palette::Color;

verus! {

/// `tree_sitter_highlight::HighlightConfiguration`: a grammar with its
/// highlight queries, carried as an opaque value.
#[verifier::external_type_specification]
#[verifier::external_body]
pub struct ExHighlightConfiguration(HighlightConfiguration);

/// `tree_sitter_highlight::Error`: why the highlighter failed. Nothing is
/// read of it.
#[verifier::external_type_specification]
#[verifier::external_body]
pub struct ExHighlightError(tree_sitter_highlight::Error);

/// `tree_sitter::Language`: a grammar, carried as an opaque value.
#[verifier::external_type_specification]
#[verifier::external_body]
pub struct ExLanguage(Language);

/// Replaces whatever error a result holds by a given one.
pub trait ErrAs<E> {
    type Err;

    fn err_as(self, err: E) -> Self::Err;
}

impl<T, E, U> ErrAs<U> for Result<T, E> {
    type Err = Result<T, U>;

    fn err_as(self, err: U) -> (r: Result<T, U>)
        ensures
            match self {
                Ok(v) => r == Ok::<T, U>(v),
                Err(_) => r == Err::<T, U>(err),
            },
    {
        match self {
            Ok(ok) => Ok(ok),
            Err(_) => Err(err),
        }
    }
}

/// How a language's text is highlighted.
pub enum HighlightType {
    /// By a tree-sitter grammar with its highlight queries.
    TreeSitter(HighlightConfiguration),
    /// Not at all: the whole text in the default colour.
    Plaintext,
}

/// What is known of one language: how to highlight it, the colour of each
/// highlight category, and the grammar for parsing, if there is one.
pub struct LanguageConfig {
    pub highlight: HighlightType,
    pub formats: Vec<Color>,
    pub language: Option<Language>,
}

/// The events that the highlighter yields for a text under a
/// configuration, or `None` where it fails.
pub uninterp spec fn highlighted(config: HighlightConfiguration, code: Seq<u8>) -> Option<
    Seq<HighlightEvent>,
>;

/// `Highlighter::highlight` on a fresh highlighter, without cancellation
/// and without injected languages: the events in order, each converted to
/// the library's own type, or the first error. Run like this, the answer
/// depends on the configuration and the bytes alone, and is given a name.
#[verifier::external_body]
fn run_highlighter(config: &HighlightConfiguration, code: &[u8]) -> (r: Result<
    Vec<HighlightEvent>,
    tree_sitter_highlight::Error,
>)
    ensures
        match r {
            Ok(events) => highlighted(*config, code@) == Some(events@),
            Err(_) => highlighted(*config, code@) is None,
        },
{
    let mut highlighter = tree_sitter_highlight::Highlighter::new();
    let mut events = Vec::new();
    for event in highlighter.highlight(config, code, None, |_| None)? {
        events.push(match event? {
            tree_sitter_highlight::HighlightEvent::HighlightStart(h) => HighlightEvent::Enter(h.0),
            tree_sitter_highlight::HighlightEvent::Source { start, end } => HighlightEvent::Span { start, end },
            tree_sitter_highlight::HighlightEvent::HighlightEnd => HighlightEvent::Exit,
        });
    }
    Ok(events)
}

impl LanguageConfig {
    /// The configuration of plain text.
    pub fn plaintext() -> (config: LanguageConfig)
        ensures
            config.highlight is Plaintext,
            config.formats@ == Seq::<Color>::empty(),
            config.language is None,
    {
        LanguageConfig { highlight: HighlightType::Plaintext, formats: Vec::new(), language: None }
    }
}

/// The events of plain text: one span over all of it.
pub open spec fn plain_events(len: usize) -> Seq<HighlightEvent> {
    seq![HighlightEvent::Span { start: 0, end: len }]
}

/// The highlighter's answer for a text: for plain text one span over all
/// of it, otherwise what the highlighter yields, `None` where it fails.
pub open spec fn answer_of(config: &LanguageConfig, code: Seq<u8>) -> Option<
    Seq<HighlightEvent>,
> {
    match config.highlight {
        HighlightType::TreeSitter(h) => highlighted(h, code),
        HighlightType::Plaintext => Some(plain_events(code.len() as usize)),
    }
}

/// The lines of plain text: the text cut at its newlines, all in the
/// default colour.
pub open spec fn plain_lines(code: Seq<u8>) -> Seq<Seq<Segment>> {
    lines_of(code, seq![ColoredSpan { color: Color::Reset, start: 0, end: code.len() as usize }])
}

/// Whether `r` is what is made of a highlighter's answer, `None` standing
/// for its failure: the lines of the resolved events, or the error of the
/// first event that is out of order.
pub open spec fn lines_made(
    code: Seq<u8>,
    formats: Seq<Color>,
    answer: Option<Seq<HighlightEvent>>,
    r: Result<Vec<Vec<Segment>>, RenderError>,
) -> bool {
    match answer {
        None => r == Err::<Vec<Vec<Segment>>, RenderError>(RenderError::HighlighterFault),
        Some(events) => match r {
            Ok(lines) => {
                &&& stream_ok(events, formats, code.len())
                &&& lines_view(lines@) == lines_of(code, resolved(events, formats))
            },
            Err(e) => first_error(events, formats, code.len(), e),
        },
    }
}

/// Whether `r` is what is made of a highlighter's answer on the way to
/// chunks: the chunks of the written-out lines, or the first error on the
/// way.
pub open spec fn chunks_made(
    code: Seq<u8>,
    formats: Seq<Color>,
    answer: Option<Seq<HighlightEvent>>,
    r: Result<Vec<Vec<u8>>, RenderError>,
) -> bool {
    match answer {
        None => r == Err::<Vec<Vec<u8>>, RenderError>(RenderError::HighlighterFault),
        Some(events) => {
            let written = serialized_lines(code, lines_of(code, resolved(events, formats)));
            if !stream_ok(events, formats, code.len()) {
                r.is_err() && first_error(events, formats, code.len(), r.unwrap_err())
            } else if all_fit(written) {
                r.is_ok() && bytes_view(r.unwrap()@) == chunks_of(written)
            } else {
                r == Err::<Vec<Vec<u8>>, RenderError>(RenderError::LineTooLong)
            }
        },
    }
}

/// The highlight events of a text. Plain text is one span; otherwise the
/// highlighter is asked, and its failure is reported as such.
pub fn highlight_events(config: &LanguageConfig, code: &[u8]) -> (r: Result<
    Vec<HighlightEvent>,
    RenderError,
>)
    ensures
        match r {
            Ok(events) => answer_of(config, code@) == Some(events@),
            Err(e) => answer_of(config, code@) is None && e == RenderError::HighlighterFault,
        },
{
    match &config.highlight {
        HighlightType::TreeSitter(highlight) => run_highlighter(highlight, code).err_as(
            RenderError::HighlighterFault,
        ),
        HighlightType::Plaintext => {
            let mut events: Vec<HighlightEvent> = Vec::new();
            events.push(HighlightEvent::Span { start: 0, end: code.len() });
            assert(events@ =~= plain_events(code.len()));
            Ok(events)
        },
    }
}

/// Resolves the events against the colour table and cuts the coloured spans
/// into lines. The first event that is out of order gives its error.
pub fn lines_from_events(code: &[u8], events: &Vec<HighlightEvent>, formats: &Vec<Color>) -> (r:
    Result<Vec<Vec<Segment>>, RenderError>)
    ensures
        lines_made(code@, formats@, Some(events@), r),
        r.is_ok() == stream_ok(events@, formats@, code@.len()),
        r.is_ok() ==> lines_in_range(lines_view(r.unwrap()@), code@.len()),
        r.is_ok() ==> lines_newline_free(code@, lines_view(r.unwrap()@)),
        r.is_ok() ==> joined_text(code@, lines_view(r.unwrap()@)) == events_text(code@, events@),
        r.is_ok() ==> r.unwrap()@.len() >= 1,
{
    match resolve(events, formats, code.len()) {
        Ok(resolution) => {
            proof {
                lemma_resolved_text(code@, events@, formats@);
            }
            Ok(split_lines(code, &resolution.spans))
        },
        Err(e) => {
            assert(!stream_ok(events@, formats@, code@.len()));
            Err(e)
        },
    }
}

/// Packs the lines made of a highlighter's events into chunks.
pub fn chunks_from_events(code: &[u8], events: &Vec<HighlightEvent>, formats: &Vec<Color>) -> (r:
    Result<Vec<Vec<u8>>, RenderError>)
    ensures
        chunks_made(code@, formats@, Some(events@), r),
        r.is_ok() ==> r.unwrap()@.len() >= 1,
        r.is_ok() ==> forall|j: int|
            0 <= j < r.unwrap()@.len() ==> (#[trigger] r.unwrap()@[j])@.len() <= 2000,
{
    match lines_from_events(code, events, formats) {
        Ok(lines) => format_chunks(code, &lines),
        Err(e) => Err(e),
    }
}

proof fn lemma_plain_resolves(len: usize, formats: Seq<Color>)
    ensures
        resolved(plain_events(len), formats) == seq![
            ColoredSpan { color: Color::Reset, start: 0, end: len },
        ],
        stream_ok(plain_events(len), formats, len as nat),
{
    let events = plain_events(len);
    assert(events.drop_last() =~= Seq::<HighlightEvent>::empty());
    reveal_with_fuel(resolved, 2);
    reveal_with_fuel(stack_after, 2);
    assert(resolved(events, formats) =~= seq![
        ColoredSpan { color: Color::Reset, start: 0, end: len },
    ]);
}

/// The coloured lines of a text: what `lines_from_events` makes of the
/// highlighter's answer, and the highlighter's failure where it fails.
/// Plain text always succeeds.
pub fn highlight_lines(config: &LanguageConfig, code: &[u8]) -> (r: Result<
    Vec<Vec<Segment>>,
    RenderError,
>)
    ensures
        lines_made(code@, config.formats@, answer_of(config, code@), r),
        config.highlight is Plaintext ==> r.is_ok() && lines_view(r.unwrap()@) == plain_lines(
            code@,
        ),
        r.is_ok() ==> lines_in_range(lines_view(r.unwrap()@), code@.len()),
        r.is_ok() ==> lines_newline_free(code@, lines_view(r.unwrap()@)),
        r.is_ok() ==> r.unwrap()@.len() >= 1,
{
    proof {
        lemma_plain_resolves(code.len(), config.formats@);
    }
    match highlight_events(config, code) {
        Ok(events) => lines_from_events(code, &events, &config.formats),
        Err(e) => Err(e),
    }
}

/// The text with its colour codes, packed into chunks that each fit into
/// one message: what `chunks_from_events` makes of the highlighter's
/// answer, and the highlighter's failure where it fails. Plain text fails
/// only on a line that is too long.
pub fn syntax_highlight(config: &LanguageConfig, code: &[u8]) -> (r: Result<
    Vec<Vec<u8>>,
    RenderError,
>)
    ensures
        chunks_made(code@, config.formats@, answer_of(config, code@), r),
        r.is_ok() ==> r.unwrap()@.len() >= 1,
        r.is_ok() ==> forall|j: int|
            0 <= j < r.unwrap()@.len() ==> (#[trigger] r.unwrap()@[j])@.len() <= 2000,
        config.highlight is Plaintext ==> r.is_ok() == all_fit(
            serialized_lines(code@, plain_lines(code@)),
        ),
        config.highlight is Plaintext && r.is_ok() ==> bytes_view(r.unwrap()@) == chunks_of(
            serialized_lines(code@, plain_lines(code@)),
        ),
        config.highlight is Plaintext && r.is_err() ==> r == Err::<Vec<Vec<u8>>, RenderError>(
            RenderError::LineTooLong,
        ),
{
    proof {
        lemma_plain_resolves(code.len(), config.formats@);
    }
    match highlight_events(config, code) {
        Ok(events) => chunks_from_events(code, &events, &config.formats),
        Err(e) => Err(e),
    }
}

} // verus!
