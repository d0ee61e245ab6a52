//! Serialising lines with terminal colour codes and packing them into
//! chunks that each fit into one message.

use vstd::prelude::*;
use crate::error::RenderError;
use crate::lines::{
    find_newline,
    line_in_range,
    line_text,
    lines_in_range,
    lines_view,
    Segment,
};
use crate::palette::Color;

verus! {

/// The most bytes that one chunk may hold, both markers included.
pub const CHUNK_LIMIT: usize = 2000;

/// The longest serialised line that fits into a chunk alone: the limit less
/// the opening marker, the line's newline and the closing marker.
pub const LINE_LIMIT: usize = 1988;

/// The newline that ends each line inside a chunk.
pub const NEWLINE_BYTE: u8 = 10u8;

/// The opening marker of a chunk: three backticks, `ansi`, a newline.
pub open spec fn prologue() -> Seq<u8> {
    seq![96u8, 96u8, 96u8, 97u8, 110u8, 115u8, 105u8, 10u8]
}

/// The closing marker of a chunk: three backticks.
pub open spec fn epilogue() -> Seq<u8> {
    seq![96u8, 96u8, 96u8]
}

/// A chunk: the lines' bytes between the two markers.
pub open spec fn wrap(body: Seq<u8>) -> Seq<u8> {
    prologue() + body + epilogue()
}

/// What is between the markers of a chunk.
pub open spec fn body_of(chunk: Seq<u8>) -> Seq<u8> {
    chunk.subrange(8, chunk.len() - 3)
}

/// The segments of a line, each with the control sequence of its colour in
/// front of its text.
pub open spec fn colored_text(src: Seq<u8>, line: Seq<Segment>) -> Seq<u8>
    decreases line.len(),
{
    if line.len() == 0 {
        seq![]
    } else {
        colored_text(src, line.drop_last()) + line.last().color.ansi_code() + line.last().text_of(
            src,
        )
    }
}

/// A line as it is written out: its coloured segments, and at the end the
/// control sequence of the default colour, so that no colour is carried
/// over to what follows.
pub open spec fn serialized(src: Seq<u8>, line: Seq<Segment>) -> Seq<u8> {
    colored_text(src, line) + Color::Reset.ansi_code()
}

/// Each line written out.
pub open spec fn serialized_lines(src: Seq<u8>, lines: Seq<Seq<Segment>>) -> Seq<Seq<u8>> {
    Seq::new(lines.len(), |i: int| serialized(src, lines[i]))
}

/// The byte strings of a vector of vectors, as sequences.
pub open spec fn bytes_view(v: Seq<Vec<u8>>) -> Seq<Seq<u8>> {
    Seq::new(v.len(), |i: int| v[i]@)
}

/// A line fits if a chunk can hold it alone.
pub open spec fn line_fits(line: Seq<u8>) -> bool {
    line.len() <= 1988
}

/// Every line fits.
pub open spec fn all_fit(lines: Seq<Seq<u8>>) -> bool {
    forall|k: int| 0 <= k < lines.len() ==> line_fits(#[trigger] lines[k])
}

/// The chunks made of the lines from place `i` on, `pending` being what the
/// open chunk has gathered so far. A line goes to the open chunk if the
/// chunk stays within the limit; otherwise the open chunk is closed first.
pub open spec fn chunks_from(lines: Seq<Seq<u8>>, i: int, pending: Seq<u8>) -> Seq<Seq<u8>>
    decreases lines.len() - i,
{
    if i >= lines.len() {
        if pending.len() > 0 {
            seq![wrap(pending)]
        } else {
            seq![]
        }
    } else if pending.len() > 0 && 8 + pending.len() + lines[i].len() + 4 > 2000 {
        seq![wrap(pending)] + chunks_from(lines, i + 1, lines[i].push(10u8))
    } else {
        chunks_from(lines, i + 1, pending + lines[i].push(10u8))
    }
}

/// The chunks made of all the lines.
pub open spec fn chunks_of(lines: Seq<Seq<u8>>) -> Seq<Seq<u8>> {
    chunks_from(lines, 0, seq![])
}

/// The lines from place `i` on, each followed by a newline.
pub open spec fn lines_with_newlines(lines: Seq<Seq<u8>>, i: int) -> Seq<u8>
    decreases lines.len() - i,
{
    if i >= lines.len() {
        seq![]
    } else {
        lines[i].push(10u8) + lines_with_newlines(lines, i + 1)
    }
}

/// The bodies of the chunks, one after the other.
pub open spec fn bodies(chunks: Seq<Seq<u8>>) -> Seq<u8>
    decreases chunks.len(),
{
    if chunks.len() == 0 {
        seq![]
    } else {
        body_of(chunks[0]) + bodies(chunks.skip(1))
    }
}

/// Unwrapping a wrapped body gives the body back.
pub proof fn lemma_body_of_wrap(body: Seq<u8>)
    ensures
        body_of(wrap(body)) == body,
        wrap(body).len() == body.len() + 11,
{
    assert(prologue().len() == 8);
    assert(epilogue().len() == 3);
    assert(body_of(wrap(body)) =~= body);
}

proof fn lemma_chunks_from_within_limit(lines: Seq<Seq<u8>>, i: int, pending: Seq<u8>)
    requires
        0 <= i <= lines.len(),
        forall|k: int| 0 <= k < lines.len() ==> line_fits(#[trigger] lines[k]),
        pending.len() + 11 <= 2000,
    ensures
        forall|j: int|
            0 <= j < chunks_from(lines, i, pending).len() ==> (#[trigger] chunks_from(
                lines,
                i,
                pending,
            )[j]).len() <= 2000,
    decreases lines.len() - i,
{
    lemma_body_of_wrap(pending);
    let res = chunks_from(lines, i, pending);
    if i < lines.len() {
        assert(line_fits(lines[i]));
        if pending.len() > 0 && 8 + pending.len() + lines[i].len() + 4 > 2000 {
            let rest = chunks_from(lines, i + 1, lines[i].push(10u8));
            lemma_chunks_from_within_limit(lines, i + 1, lines[i].push(10u8));
            assert forall|j: int| 0 <= j < res.len() implies (#[trigger] res[j]).len() <= 2000 by {
                if j == 0 {
                    assert(res[0] == wrap(pending));
                } else {
                    assert(res[j] == rest[j - 1]);
                }
            }
        } else {
            let next = chunks_from(lines, i + 1, pending + lines[i].push(10u8));
            lemma_chunks_from_within_limit(lines, i + 1, pending + lines[i].push(10u8));
            assert(res == next);
            assert forall|j: int| 0 <= j < res.len() implies (#[trigger] res[j]).len() <= 2000 by {
                assert(res[j] == next[j]);
            }
        }
    } else {
        assert forall|j: int| 0 <= j < res.len() implies (#[trigger] res[j]).len() <= 2000 by {
            assert(res[0] == wrap(pending));
        }
    }
    assert forall|j: int| 0 <= j < res.len() implies (#[trigger] res[j]).len() <= 2000 by {}
}

/// Where every line fits, no chunk is longer than the limit.
pub proof fn lemma_chunks_within_limit(lines: Seq<Seq<u8>>)
    requires
        all_fit(lines),
    ensures
        forall|j: int|
            0 <= j < chunks_of(lines).len() ==> (#[trigger] chunks_of(lines)[j]).len() <= 2000,
{
    lemma_chunks_from_within_limit(lines, 0, seq![]);
}

proof fn lemma_chunks_from_bodies(lines: Seq<Seq<u8>>, i: int, pending: Seq<u8>)
    requires
        0 <= i <= lines.len(),
    ensures
        bodies(chunks_from(lines, i, pending)) == pending + lines_with_newlines(lines, i),
    decreases lines.len() - i,
{
    lemma_body_of_wrap(pending);
    let empty = Seq::<Seq<u8>>::empty();
    assert(bodies(empty) =~= Seq::<u8>::empty());
    if i >= lines.len() {
        if pending.len() > 0 {
            assert(seq![wrap(pending)].skip(1) =~= empty);
            assert(bodies(seq![wrap(pending)]) =~= pending);
        }
        assert(bodies(chunks_from(lines, i, pending)) =~= pending + lines_with_newlines(lines, i));
    } else if pending.len() > 0 && 8 + pending.len() + lines[i].len() + 4 > 2000 {
        let rest = chunks_from(lines, i + 1, lines[i].push(10u8));
        lemma_chunks_from_bodies(lines, i + 1, lines[i].push(10u8));
        let all = seq![wrap(pending)] + rest;
        assert(all.skip(1) =~= rest);
        assert(all[0] == wrap(pending));
        assert(bodies(all) =~= pending + lines_with_newlines(lines, i));
    } else {
        lemma_chunks_from_bodies(lines, i + 1, pending + lines[i].push(10u8));
        assert(bodies(chunks_from(lines, i, pending)) =~= pending + lines_with_newlines(lines, i));
    }
}

/// The chunks hold the lines and nothing else: their bodies, one after the
/// other, are the lines in order, each followed by its newline.
pub proof fn lemma_chunks_keep_lines(lines: Seq<Seq<u8>>)
    ensures
        bodies(chunks_of(lines)) == lines_with_newlines(lines, 0),
{
    lemma_chunks_from_bodies(lines, 0, seq![]);
    assert(Seq::<u8>::empty() + lines_with_newlines(lines, 0) =~= lines_with_newlines(lines, 0));
}

/// The lines from place `a` up to place `b`, each followed by a newline.
pub open spec fn run_text(lines: Seq<Seq<u8>>, a: int, b: int) -> Seq<u8>
    decreases b - a,
{
    if a >= b {
        seq![]
    } else {
        run_text(lines, a, b - 1) + lines[b - 1].push(10u8)
    }
}

/// The chunk's body is a run of whole lines.
pub open spec fn holds_whole_lines(lines: Seq<Seq<u8>>, chunk: Seq<u8>, from: int) -> bool {
    exists|p: int, q: int|
        from <= p <= q <= lines.len() && body_of(chunk) == #[trigger] run_text(lines, p, q)
}

proof fn lemma_chunks_from_whole_lines(lines: Seq<Seq<u8>>, a: int, i: int, pending: Seq<u8>)
    requires
        0 <= a <= i <= lines.len(),
        pending == run_text(lines, a, i),
    ensures
        forall|j: int|
            0 <= j < chunks_from(lines, i, pending).len() ==> holds_whole_lines(
                lines,
                #[trigger] chunks_from(lines, i, pending)[j],
                a,
            ),
    decreases lines.len() - i,
{
    lemma_body_of_wrap(pending);
    let res = chunks_from(lines, i, pending);
    if i >= lines.len() {
        assert forall|j: int| 0 <= j < res.len() implies holds_whole_lines(
            lines,
            #[trigger] res[j],
            a,
        ) by {
            assert(res[0] == wrap(pending));
            assert(body_of(res[j]) == run_text(lines, a, i));
        }
    } else if pending.len() > 0 && 8 + pending.len() + lines[i].len() + 4 > 2000 {
        let alone = lines[i].push(10u8);
        assert(run_text(lines, i, i) =~= Seq::<u8>::empty());
        assert(run_text(lines, i, i + 1) =~= alone);
        let rest = chunks_from(lines, i + 1, alone);
        lemma_chunks_from_whole_lines(lines, i, i + 1, alone);
        assert forall|j: int| 0 <= j < res.len() implies holds_whole_lines(
            lines,
            #[trigger] res[j],
            a,
        ) by {
            if j == 0 {
                assert(res[0] == wrap(pending));
                assert(body_of(res[j]) == run_text(lines, a, i));
            } else {
                assert(res[j] == rest[j - 1]);
                assert(holds_whole_lines(lines, rest[j - 1], i));
                let (p, q) = choose|p: int, q: int|
                    i <= p <= q <= lines.len() && body_of(rest[j - 1]) == #[trigger] run_text(
                        lines,
                        p,
                        q,
                    );
                assert(a <= p <= q <= lines.len() && body_of(res[j]) == run_text(lines, p, q));
            }
        }
    } else {
        let more = pending + lines[i].push(10u8);
        assert(run_text(lines, a, i + 1) =~= more);
        let next = chunks_from(lines, i + 1, more);
        lemma_chunks_from_whole_lines(lines, a, i + 1, more);
        assert(res == next);
        assert forall|j: int| 0 <= j < res.len() implies holds_whole_lines(
            lines,
            #[trigger] res[j],
            a,
        ) by {
            assert(res[j] == next[j]);
        }
    }
    assert forall|j: int| 0 <= j < res.len() implies holds_whole_lines(lines, #[trigger] res[j], a) by {}
}

/// No line is cut in two: the body of every chunk is a run of whole lines,
/// each with its newline.
pub proof fn lemma_chunks_hold_whole_lines(lines: Seq<Seq<u8>>)
    ensures
        forall|j: int|
            0 <= j < chunks_of(lines).len() ==> holds_whole_lines(
                lines,
                #[trigger] chunks_of(lines)[j],
                0,
            ),
{
    assert(run_text(lines, 0, 0) =~= Seq::<u8>::empty());
    lemma_chunks_from_whole_lines(lines, 0, 0, seq![]);
}

/// Whether the bytes end inside a control sequence: one starts at an ESC
/// byte and ends with the next `m`.
pub open spec fn ends_in_code(bytes: Seq<u8>) -> bool
    decreases bytes.len(),
{
    if bytes.len() == 0 {
        false
    } else if ends_in_code(bytes.drop_last()) {
        bytes.last() != 109u8
    } else {
        bytes.last() == 27u8
    }
}

/// The bytes without their control sequences.
pub open spec fn strip_codes(bytes: Seq<u8>) -> Seq<u8>
    decreases bytes.len(),
{
    if bytes.len() == 0 {
        seq![]
    } else if !ends_in_code(bytes.drop_last()) && bytes.last() != 27u8 {
        strip_codes(bytes.drop_last()).push(bytes.last())
    } else {
        strip_codes(bytes.drop_last())
    }
}

/// No segment of the line holds an ESC byte.
pub open spec fn esc_free(src: Seq<u8>, line: Seq<Segment>) -> bool {
    forall|k: int, p: int|
        0 <= k < line.len() && (#[trigger] line[k]).start <= p < line[k].end ==> #[trigger] src[p]
            != 27u8
}

proof fn lemma_strip_append(a: Seq<u8>, b: Seq<u8>)
    requires
        !ends_in_code(a),
    ensures
        strip_codes(a + b) == strip_codes(a) + strip_codes(b),
        ends_in_code(a + b) == ends_in_code(b),
    decreases b.len(),
{
    if b.len() == 0 {
        assert(a + b =~= a);
        assert(strip_codes(a) + strip_codes(b) =~= strip_codes(a));
    } else {
        assert((a + b).drop_last() =~= a + b.drop_last());
        assert((a + b).last() == b.last());
        lemma_strip_append(a, b.drop_last());
        assert(strip_codes(a + b) =~= strip_codes(a) + strip_codes(b));
    }
}

proof fn lemma_strip_inside(mid: Seq<u8>)
    requires
        forall|k: int| 0 <= k < mid.len() ==> mid[k] != 109u8,
    ensures
        ends_in_code(seq![27u8] + mid),
        strip_codes(seq![27u8] + mid) == Seq::<u8>::empty(),
    decreases mid.len(),
{
    let all = seq![27u8] + mid;
    assert(seq![27u8].len() == 1);
    assert(all.len() == mid.len() + 1);
    if mid.len() == 0 {
        assert(all.drop_last() =~= Seq::<u8>::empty());
        assert(all.last() == 27u8);
        assert(strip_codes(all.drop_last()) =~= Seq::<u8>::empty());
    } else {
        assert(all.drop_last() =~= seq![27u8] + mid.drop_last());
        assert(all.last() == mid[mid.len() - 1]);
        lemma_strip_inside(mid.drop_last());
        assert(ends_in_code(all.drop_last()));
    }
    assert(strip_codes(all) =~= Seq::<u8>::empty());
}

/// A colour's control sequence is one whole control sequence: stripping it
/// leaves nothing.
pub proof fn lemma_strip_code(color: Color)
    ensures
        !ends_in_code(color.ansi_code()),
        strip_codes(color.ansi_code()) == Seq::<u8>::empty(),
{
    let params = color.ansi_params();
    let mid = seq![91u8] + params;
    assert forall|k: int| 0 <= k < mid.len() implies mid[k] != 109u8 by {
        match color {
            Color::Error => {},
            Color::Reset => {},
            Color::Gray => {},
            Color::Red => {},
            Color::LightGreen => {},
            Color::DarkGreen => {},
            Color::Yellow => {},
            Color::Blue => {},
            Color::DarkBlue => {},
            Color::Pink => {},
            Color::Cyan => {},
            Color::White => {},
        }
    }
    lemma_strip_inside(mid);
    let code = color.ansi_code();
    assert(code.drop_last() =~= seq![27u8] + mid);
    assert(code.last() == 109u8);
    assert(strip_codes(code) =~= Seq::<u8>::empty());
}

proof fn lemma_strip_text(text: Seq<u8>)
    requires
        forall|k: int| 0 <= k < text.len() ==> text[k] != 27u8,
    ensures
        !ends_in_code(text),
        strip_codes(text) == text,
    decreases text.len(),
{
    if text.len() > 0 {
        lemma_strip_text(text.drop_last());
        assert(strip_codes(text) =~= text);
    }
}

proof fn lemma_strip_colored_text(src: Seq<u8>, line: Seq<Segment>)
    requires
        line_in_range(line, src.len()),
        esc_free(src, line),
    ensures
        !ends_in_code(colored_text(src, line)),
        strip_codes(colored_text(src, line)) == line_text(src, line),
    decreases line.len(),
{
    if line.len() > 0 {
        let init = line.drop_last();
        let last = line.last();
        assert forall|k: int| 0 <= k < init.len() implies (#[trigger] init[k]).start
            <= init[k].end && init[k].end <= src.len() by {
            assert(init[k] == line[k]);
        }
        assert forall|k: int, p: int|
            0 <= k < init.len() && (#[trigger] init[k]).start <= p < init[k].end implies #[trigger] src[p]
            != 27u8 by {
            assert(init[k] == line[k]);
        }
        lemma_strip_colored_text(src, init);
        let code = last.color.ansi_code();
        let text = last.text_of(src);
        assert(last == line[line.len() - 1]);
        assert forall|k: int| 0 <= k < text.len() implies text[k] != 27u8 by {
            assert(text[k] == src[last.start + k]);
        }
        lemma_strip_code(last.color);
        lemma_strip_text(text);
        lemma_strip_append(colored_text(src, init), code);
        lemma_strip_append(colored_text(src, init) + code, text);
        assert(strip_codes(colored_text(src, line)) =~= line_text(src, line));
    }
}

/// Taking the colour codes out of a written-out line gives the line's text
/// back, as long as the text itself holds no ESC byte.
pub proof fn lemma_strip_serialized(src: Seq<u8>, line: Seq<Segment>)
    requires
        line_in_range(line, src.len()),
        esc_free(src, line),
    ensures
        !ends_in_code(serialized(src, line)),
        strip_codes(serialized(src, line)) == line_text(src, line),
{
    lemma_strip_colored_text(src, line);
    lemma_strip_code(Color::Reset);
    lemma_strip_append(colored_text(src, line), Color::Reset.ansi_code());
    assert(strip_codes(serialized(src, line)) =~= line_text(src, line));
}

proof fn lemma_chunks_from_nonempty(lines: Seq<Seq<u8>>, i: int, pending: Seq<u8>)
    requires
        0 <= i <= lines.len(),
        pending.len() > 0 || i < lines.len(),
    ensures
        chunks_from(lines, i, pending).len() >= 1,
    decreases lines.len() - i,
{
    if i < lines.len() {
        if pending.len() > 0 && 8 + pending.len() + lines[i].len() + 4 > 2000 {
        } else {
            lemma_chunks_from_nonempty(lines, i + 1, pending + lines[i].push(10u8));
        }
    }
}

/// Where there is a line there is a chunk.
pub proof fn lemma_chunks_nonempty(lines: Seq<Seq<u8>>)
    requires
        lines.len() >= 1,
    ensures
        chunks_of(lines).len() >= 1,
{
    lemma_chunks_from_nonempty(lines, 0, seq![]);
}

/// Appends the bytes `start..end` of `src` to `out`.
pub fn append_range(out: &mut Vec<u8>, src: &[u8], start: usize, end: usize)
    requires
        start <= end <= src@.len(),
    ensures
        final(out)@ == old(out)@ + src@.subrange(start as int, end as int),
{
    let mut k: usize = start;
    assert(out@ =~= old(out)@ + src@.subrange(start as int, k as int));
    while k < end
        invariant
            start <= k <= end <= src@.len(),
            out@ == old(out)@ + src@.subrange(start as int, k as int),
        decreases end - k,
    {
        out.push(src[k]);
        k = k + 1;
        assert(out@ =~= old(out)@ + src@.subrange(start as int, k as int));
    }
}

/// Writes one line out: each segment's colour code and its text, and the
/// code of the default colour at the end.
pub fn format_line(src: &[u8], line: &Vec<Segment>) -> (out: Vec<u8>)
    requires
        line_in_range(line@, src@.len()),
    ensures
        out@ == serialized(src@, line@),
{
    let mut out: Vec<u8> = Vec::new();
    let mut k: usize = 0;
    while k < line.len()
        invariant
            0 <= k <= line@.len(),
            line_in_range(line@, src@.len()),
            out@ == colored_text(src@, line@.take(k as int)),
        decreases line@.len() - k,
    {
        let seg = line[k];
        assert(line@.take(k + 1).drop_last() =~= line@.take(k as int));
        assert(line@.take(k + 1).last() == seg);
        seg.color.push_ansi(&mut out);
        append_range(&mut out, src, seg.start, seg.end);
        k = k + 1;
    }
    assert(line@.take(k as int) =~= line@);
    Color::Reset.push_ansi(&mut out);
    out
}

/// Puts the two markers round a body.
pub fn wrap_chunk(body: &Vec<u8>) -> (chunk: Vec<u8>)
    ensures
        chunk@ == wrap(body@),
{
    let mut chunk: Vec<u8> = Vec::new();
    chunk.push(96u8);
    chunk.push(96u8);
    chunk.push(96u8);
    chunk.push(97u8);
    chunk.push(110u8);
    chunk.push(115u8);
    chunk.push(105u8);
    chunk.push(10u8);
    assert(chunk@ =~= prologue());
    append_range(&mut chunk, body.as_slice(), 0, body.len());
    assert(body@.subrange(0, body@.len() as int) =~= body@);
    chunk.push(96u8);
    chunk.push(96u8);
    chunk.push(96u8);
    assert(chunk@ =~= wrap(body@));
    chunk
}

/// Packs written-out lines into chunks, in order and whole. A line joins the
/// open chunk while the chunk stays within the limit; else the open chunk is
/// closed and the line opens the next. If any line is too long to fit into
/// a chunk alone, nothing is produced.
pub fn chunk_lines(lines: &Vec<Vec<u8>>) -> (r: Result<Vec<Vec<u8>>, RenderError>)
    ensures
        r.is_ok() == all_fit(bytes_view(lines@)),
        match r {
            Ok(chunks) => {
                &&& bytes_view(chunks@) == chunks_of(bytes_view(lines@))
                &&& lines@.len() >= 1 ==> chunks@.len() >= 1
                &&& forall|j: int| 0 <= j < chunks@.len() ==> (#[trigger] chunks@[j])@.len() <= 2000
                &&& bodies(bytes_view(chunks@)) == lines_with_newlines(bytes_view(lines@), 0)
                &&& forall|j: int|
                    0 <= j < chunks@.len() ==> holds_whole_lines(
                        bytes_view(lines@),
                        #[trigger] bytes_view(chunks@)[j],
                        0,
                    )
            },
            Err(e) => e == RenderError::LineTooLong,
        },
{
    let ghost all = bytes_view(lines@);
    let mut k: usize = 0;
    while k < lines.len()
        invariant
            0 <= k <= lines@.len(),
            all == bytes_view(lines@),
            forall|j: int| 0 <= j < k ==> line_fits(#[trigger] all[j]),
        decreases lines@.len() - k,
    {
        if lines[k].len() > LINE_LIMIT {
            assert(!line_fits(all[k as int]));
            return Err(RenderError::LineTooLong);
        }
        k = k + 1;
    }
    let mut chunks: Vec<Vec<u8>> = Vec::new();
    let mut pending: Vec<u8> = Vec::new();
    let mut i: usize = 0;
    assert(bytes_view(chunks@) + chunks_from(all, 0, pending@) =~= chunks_of(all));
    while i < lines.len()
        invariant
            0 <= i <= lines@.len(),
            all == bytes_view(lines@),
            forall|j: int| 0 <= j < lines@.len() ==> line_fits(#[trigger] all[j]),
            pending@.len() + 11 <= 2000,
            bytes_view(chunks@) + chunks_from(all, i as int, pending@) == chunks_of(all),
        decreases lines@.len() - i,
    {
        let line = &lines[i];
        assert(line@ == all[i as int]);
        assert(line_fits(all[i as int]));
        if pending.len() > 0 && pending.len() + line.len() > LINE_LIMIT {
            let ghost before = bytes_view(chunks@);
            let chunk = wrap_chunk(&pending);
            chunks.push(chunk);
            assert(bytes_view(chunks@) =~= before + seq![wrap(pending@)]);
            pending = Vec::new();
            assert(pending@ + line@.push(10u8) =~= line@.push(10u8));
        }
        let ghost gathered = pending@;
        append_range(&mut pending, line.as_slice(), 0, line.len());
        pending.push(NEWLINE_BYTE);
        assert(line@.subrange(0, line@.len() as int) =~= line@);
        assert(pending@ =~= gathered + line@.push(10u8));
        i = i + 1;
    }
    if pending.len() > 0 {
        let ghost before = bytes_view(chunks@);
        let chunk = wrap_chunk(&pending);
        chunks.push(chunk);
        assert(bytes_view(chunks@) =~= before + seq![wrap(pending@)]);
    } else {
        assert(bytes_view(chunks@) + Seq::<Seq<u8>>::empty() =~= bytes_view(chunks@));
    }
    proof {
        lemma_chunks_within_limit(all);
        lemma_chunks_keep_lines(all);
        lemma_chunks_hold_whole_lines(all);
        if all.len() >= 1 {
            lemma_chunks_nonempty(all);
        }
        assert forall|j: int| 0 <= j < chunks@.len() implies (#[trigger] chunks@[j])@.len()
            <= 2000 by {
            assert(bytes_view(chunks@)[j] == chunks@[j]@);
        }
    }
    Ok(chunks)
}

/// The lines of a text from place `start` on: the stretches between its
/// newlines, an empty one after a newline at the end.
pub open spec fn text_lines(content: Seq<u8>, start: int) -> Seq<Seq<u8>>
    decreases content.len() - start,
{
    let nl = find_newline(content, start, content.len() as int);
    if start <= nl < content.len() {
        seq![content.subrange(start, nl)] + text_lines(content, nl + 1)
    } else {
        seq![content.subrange(start, content.len() as int)]
    }
}

/// Cuts a text at its newlines.
pub fn split_text(content: &[u8]) -> (lines: Vec<Vec<u8>>)
    ensures
        bytes_view(lines@) == text_lines(content@, 0),
{
    let mut lines: Vec<Vec<u8>> = Vec::new();
    let mut seg_start: usize = 0;
    let mut pos: usize = 0;
    assert(bytes_view(lines@) + text_lines(content@, 0) =~= text_lines(content@, 0));
    while pos < content.len()
        invariant
            0 <= seg_start <= pos <= content@.len(),
            find_newline(content@, seg_start as int, content@.len() as int) == find_newline(
                content@,
                pos as int,
                content@.len() as int,
            ),
            bytes_view(lines@) + text_lines(content@, seg_start as int) == text_lines(content@, 0),
        decreases content@.len() - pos,
    {
        if content[pos] == NEWLINE_BYTE {
            let ghost before = bytes_view(lines@);
            let mut line: Vec<u8> = Vec::new();
            append_range(&mut line, content, seg_start, pos);
            assert(line@ =~= content@.subrange(seg_start as int, pos as int));
            lines.push(line);
            assert(bytes_view(lines@) =~= before + seq![
                content@.subrange(seg_start as int, pos as int),
            ]);
            seg_start = pos + 1;
        }
        pos = pos + 1;
    }
    let ghost before = bytes_view(lines@);
    let mut line: Vec<u8> = Vec::new();
    append_range(&mut line, content, seg_start, content.len());
    assert(line@ =~= content@.subrange(seg_start as int, content@.len() as int));
    lines.push(line);
    assert(bytes_view(lines@) =~= before + seq![
        content@.subrange(seg_start as int, content@.len() as int),
    ]);
    lines
}

/// Cuts a text at its newlines and packs the lines into chunks.
pub fn chunk_ansi(content: &[u8]) -> (r: Result<Vec<Vec<u8>>, RenderError>)
    ensures
        r.is_ok() == all_fit(text_lines(content@, 0)),
        match r {
            Ok(chunks) => {
                &&& bytes_view(chunks@) == chunks_of(text_lines(content@, 0))
                &&& chunks@.len() >= 1
                &&& forall|j: int| 0 <= j < chunks@.len() ==> (#[trigger] chunks@[j])@.len() <= 2000
                &&& bodies(bytes_view(chunks@)) == lines_with_newlines(text_lines(content@, 0), 0)
                &&& forall|j: int|
                    0 <= j < chunks@.len() ==> holds_whole_lines(
                        text_lines(content@, 0),
                        #[trigger] bytes_view(chunks@)[j],
                        0,
                    )
            },
            Err(e) => e == RenderError::LineTooLong,
        },
{
    let lines = split_text(content);
    chunk_lines(&lines)
}

/// Writes every line out and packs the result into chunks.
pub fn format_chunks(src: &[u8], lines: &Vec<Vec<Segment>>) -> (r: Result<
    Vec<Vec<u8>>,
    RenderError,
>)
    requires
        lines_in_range(lines_view(lines@), src@.len()),
    ensures
        r.is_ok() == all_fit(serialized_lines(src@, lines_view(lines@))),
        match r {
            Ok(chunks) => {
                &&& bytes_view(chunks@) == chunks_of(serialized_lines(src@, lines_view(lines@)))
                &&& lines@.len() >= 1 ==> chunks@.len() >= 1
                &&& forall|j: int| 0 <= j < chunks@.len() ==> (#[trigger] chunks@[j])@.len() <= 2000
                &&& bodies(bytes_view(chunks@)) == lines_with_newlines(
                    serialized_lines(src@, lines_view(lines@)),
                    0,
                )
                &&& forall|j: int|
                    0 <= j < chunks@.len() ==> holds_whole_lines(
                        serialized_lines(src@, lines_view(lines@)),
                        #[trigger] bytes_view(chunks@)[j],
                        0,
                    )
            },
            Err(e) => e == RenderError::LineTooLong,
        },
{
    let mut written: Vec<Vec<u8>> = Vec::new();
    let mut k: usize = 0;
    let ghost target = serialized_lines(src@, lines_view(lines@));
    while k < lines.len()
        invariant
            0 <= k <= lines@.len(),
            lines_in_range(lines_view(lines@), src@.len()),
            target == serialized_lines(src@, lines_view(lines@)),
            bytes_view(written@) == target.take(k as int),
        decreases lines@.len() - k,
    {
        assert(line_in_range(lines_view(lines@)[k as int], src@.len()));
        let ghost before = bytes_view(written@);
        let out = format_line(src, &lines[k]);
        written.push(out);
        assert(bytes_view(written@) =~= before.push(target[k as int]));
        k = k + 1;
        assert(bytes_view(written@) =~= target.take(k as int));
    }
    assert(target.take(k as int) =~= target);
    chunk_lines(&written)
}

} // verus!
