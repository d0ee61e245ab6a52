//! The lines of a text as std counts them, and what the chat client does
//! with them: preparing a message for reading, and judging how long a render
//! will take.
//!
//! A line ends at a newline; a carriage return right before that newline
//! belongs to the line ending. A text that ends in a line ending has no
//! further, empty line after it.

use vstd::prelude::*;
use crate::ansi::append_range;
use crate::lines::{find_newline, lemma_find_newline};

verus! {

/// How large a piece of code is, for the notice that the user gets while it
/// is rendered.
#[derive(Clone, Copy, Debug, PartialEq, Eq, Structural)]
pub enum RenderSize {
    /// No line is longer than 100 bytes and there are no more than 100
    /// lines.
    Plain,
    /// Above that, but within 700 bytes and 700 lines.
    Big,
    /// Above that.
    Huge,
}

/// Where the line that starts at `start` ends, given the newline at `nl`
/// that ends it (or the end of the text): a carriage return before the
/// newline is not part of the line.
pub open spec fn line_stop(code: Seq<u8>, start: int, nl: int) -> int {
    if nl < code.len() && start < nl && code[nl - 1] == 13u8 {
        nl - 1
    } else {
        nl
    }
}

/// The lines of the text from place `start` on.
pub open spec fn std_lines(code: Seq<u8>, start: int) -> Seq<Seq<u8>>
    decreases code.len() - start,
{
    if start < 0 || start >= code.len() {
        seq![]
    } else {
        let nl = find_newline(code, start, code.len() as int);
        if start <= nl < code.len() {
            seq![code.subrange(start, line_stop(code, start, nl))] + std_lines(code, nl + 1)
        } else {
            seq![code.subrange(start, code.len() as int)]
        }
    }
}

/// The length of the longest line, zero for none.
pub open spec fn longest(lines: Seq<Seq<u8>>) -> nat
    decreases lines.len(),
{
    if lines.len() == 0 {
        0
    } else if lines[0].len() > longest(lines.skip(1)) {
        lines[0].len()
    } else {
        longest(lines.skip(1))
    }
}

/// Whether a line is longer than `limit` bytes or there are more than
/// `limit` lines.
pub open spec fn exceeds(lines: Seq<Seq<u8>>, limit: nat) -> bool {
    longest(lines) > limit || lines.len() > limit
}

/// How large the code is.
pub open spec fn render_size_spec(code: Seq<u8>) -> RenderSize {
    let lines = std_lines(code, 0);
    if exceeds(lines, 700) {
        RenderSize::Huge
    } else if exceeds(lines, 100) {
        RenderSize::Big
    } else {
        RenderSize::Plain
    }
}

/// A newline, and after it the lines with a newline between each two;
/// nothing for no lines.
pub open spec fn normalized_spec(code: Seq<u8>) -> Seq<u8> {
    newline_before_each(std_lines(code, 0))
}

/// Each line with a newline in front of it.
pub open spec fn newline_before_each(lines: Seq<Seq<u8>>) -> Seq<u8>
    decreases lines.len(),
{
    if lines.len() == 0 {
        seq![]
    } else {
        seq![10u8] + lines[0] + newline_before_each(lines.skip(1))
    }
}

/// Greater of two numbers.
pub open spec fn greater(a: nat, b: nat) -> nat {
    if a > b {
        a
    } else {
        b
    }
}

proof fn lemma_lines_step(code: Seq<u8>, start: int)
    requires
        0 <= start < code.len(),
    ensures
        ({
            let nl = find_newline(code, start, code.len() as int);
            let rest = if nl < code.len() {
                std_lines(code, nl + 1)
            } else {
                Seq::<Seq<u8>>::empty()
            };
            let line = code.subrange(start, line_stop(code, start, nl));
            &&& start <= nl <= code.len()
            &&& std_lines(code, start).len() == 1 + rest.len()
            &&& longest(std_lines(code, start)) == greater(line.len(), longest(rest))
            &&& newline_before_each(std_lines(code, start)) == seq![10u8] + line
                + newline_before_each(rest)
        }),
{
    lemma_find_newline(code, start, code.len() as int);
    let nl = find_newline(code, start, code.len() as int);
    let rest = if nl < code.len() {
        std_lines(code, nl + 1)
    } else {
        Seq::<Seq<u8>>::empty()
    };
    let line = code.subrange(start, line_stop(code, start, nl));
    let all = std_lines(code, start);
    assert(all =~= seq![line] + rest);
    assert(all.skip(1) =~= rest);
    assert(all[0] == line);
}

/// Judges how large a piece of code is by its longest line and the number
/// of its lines.
pub fn render_size(code: &[u8]) -> (size: RenderSize)
    ensures
        size == render_size_spec(code@),
{
    let len = code.len();
    let mut most: usize = 0;
    let mut count: usize = 0;
    let mut start: usize = 0;
    let mut pos: usize = 0;
    while pos < len
        invariant
            0 <= start <= pos <= len == code@.len(),
            count <= start,
            most <= start,
            find_newline(code@, start as int, len as int) == find_newline(
                code@,
                pos as int,
                len as int,
            ),
            count + std_lines(code@, start as int).len() == std_lines(code@, 0).len(),
            greater(most as nat, longest(std_lines(code@, start as int))) == longest(
                std_lines(code@, 0),
            ),
        decreases len - pos,
    {
        if code[pos] == 10u8 {
            proof {
                lemma_lines_step(code@, start as int);
            }
            let stop: usize = if start < pos && code[pos - 1] == 13u8 {
                pos - 1
            } else {
                pos
            };
            if stop - start > most {
                most = stop - start;
            }
            count = count + 1;
            start = pos + 1;
        }
        pos = pos + 1;
    }
    if start < len {
        proof {
            lemma_lines_step(code@, start as int);
        }
        if len - start > most {
            most = len - start;
        }
        count = count + 1;
    }
    if most > 700 || count > 700 {
        RenderSize::Huge
    } else if most > 100 || count > 100 {
        RenderSize::Big
    } else {
        RenderSize::Plain
    }
}

/// Brings the line endings of a message into one form: every line starts
/// with a newline and holds no line ending.
pub fn normalize_lines(code: &[u8]) -> (out: Vec<u8>)
    ensures
        out@ == normalized_spec(code@),
{
    let len = code.len();
    let mut out: Vec<u8> = Vec::new();
    let mut start: usize = 0;
    let mut pos: usize = 0;
    assert(out@ + newline_before_each(std_lines(code@, 0)) =~= normalized_spec(code@));
    while pos < len
        invariant
            0 <= start <= pos <= len == code@.len(),
            find_newline(code@, start as int, len as int) == find_newline(
                code@,
                pos as int,
                len as int,
            ),
            out@ + newline_before_each(std_lines(code@, start as int)) == normalized_spec(code@),
        decreases len - pos,
    {
        if code[pos] == 10u8 {
            proof {
                lemma_lines_step(code@, start as int);
            }
            let stop: usize = if start < pos && code[pos - 1] == 13u8 {
                pos - 1
            } else {
                pos
            };
            let ghost before = out@;
            out.push(10u8);
            append_range(&mut out, code, start, stop);
            assert(out@ =~= before + (seq![10u8] + code@.subrange(start as int, stop as int)));
            start = pos + 1;
            assert(out@ + newline_before_each(std_lines(code@, start as int)) =~= normalized_spec(
                code@,
            ));
        }
        pos = pos + 1;
    }
    if start < len {
        proof {
            lemma_lines_step(code@, start as int);
        }
        let ghost before = out@;
        out.push(10u8);
        append_range(&mut out, code, start, len);
        assert(out@ =~= before + (seq![10u8] + code@.subrange(start as int, len as int)));
        assert(out@ =~= normalized_spec(code@));
    } else {
        assert(out@ =~= normalized_spec(code@));
    }
    out
}

/// The UTF-8 bytes of a text in Unicode Normalization Form KC.
pub uninterp spec fn nfkc_bytes(text: Seq<char>) -> Seq<u8>;

/// `UnicodeNormalization::nfkc` on a string: the text after compatibility
/// decomposition and canonical composition, collected into a string and
/// handed out as its bytes.
#[verifier::external_body]
fn to_nfkc(text: &str) -> (bytes: Vec<u8>)
    ensures
        bytes@ == nfkc_bytes(text@),
{
    unicode_normalization::UnicodeNormalization::nfkc(text).collect::<String>().into_bytes()
}

/// Prepares the text of a message for reading: compatibility characters
/// are replaced by their plain forms, since glyphs are drawn one to a
/// character, and the line endings are brought into one form.
pub fn prepare_message(content: &str) -> (out: Vec<u8>)
    ensures
        out@ == normalized_spec(nfkc_bytes(content@)),
{
    let plain = to_nfkc(content);
    normalize_lines(plain.as_slice())
}

} // verus!
