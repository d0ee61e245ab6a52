//! Reading what the chat client hands over: the one code block of a
//! message with the command in front of it, and the identifier of a button.

use vstd::prelude::*;

verus! {

/// What can be done with a code block.
#[derive(Clone, Copy, Debug, PartialEq, Eq, Structural)]
pub enum Command {
    Highlight,
    Render,
    PrettyParse,
    PlainParse,
}

/// A stretch of a text: the characters `start..end`.
#[derive(Clone, Copy, Debug, PartialEq, Eq, Structural)]
pub struct Range {
    pub start: usize,
    pub end: usize,
}

/// The parts of a message that holds one code block.
#[derive(Clone, Copy, Debug, PartialEq, Eq, Structural)]
pub struct CodeBlock {
    /// What stands before the block, without white space at either end.
    pub before: Range,
    /// The language tag; empty for a block without one.
    pub lang: Range,
    /// The code itself.
    pub code: Range,
    /// What stands after the block.
    pub after: Range,
}

/// Whether std counts the character as alphanumeric.
pub uninterp spec fn is_alphanumeric(c: char) -> bool;

/// Whether the character is white space: one of the characters that
/// Unicode gives the property `White_Space`.
pub open spec fn is_whitespace(c: char) -> bool {
    let v = c as u32;
    ||| 0x09 <= v <= 0x0D
    ||| v == 0x20
    ||| v == 0x85
    ||| v == 0xA0
    ||| v == 0x1680
    ||| 0x2000 <= v <= 0x200A
    ||| v == 0x2028
    ||| v == 0x2029
    ||| v == 0x202F
    ||| v == 0x205F
    ||| v == 0x3000
}

/// `char::is_alphanumeric`: whether the character is alphabetic or numeric
/// by the Unicode tables that std holds; the answer is given a name.
#[verifier::external_body]
fn char_is_alphanumeric(c: char) -> (b: bool)
    ensures
        b == is_alphanumeric(c),
{
    c.is_alphanumeric()
}

/// `char::is_whitespace`: whether the character has the Unicode property
/// `White_Space`, whose members are written out in `is_whitespace`.
#[verifier::external_body]
fn char_is_whitespace(c: char) -> (b: bool)
    ensures
        b == is_whitespace(c),
{
    c.is_whitespace()
}

/// Whether three backticks start at place `i`.
pub open spec fn fence_at(s: Seq<char>, i: int) -> bool {
    0 <= i && i + 3 <= s.len() && s[i] == '`' && s[i + 1] == '`' && s[i + 2] == '`'
}

/// The place of the first fence at or after `from`, or the length of the
/// text without one.
pub open spec fn find_fence(s: Seq<char>, from: int) -> int
    decreases s.len() - from,
{
    if from < 0 || from + 3 > s.len() {
        s.len() as int
    } else if fence_at(s, from) {
        from
    } else {
        find_fence(s, from + 1)
    }
}

/// The place of the first newline in `from..to`, or `to` without one.
pub open spec fn find_line_end(s: Seq<char>, from: int, to: int) -> int
    decreases to - from,
{
    if from >= to {
        to
    } else if s[from] == '\n' {
        from
    } else {
        find_line_end(s, from + 1, to)
    }
}

/// The first place in `from..to` that holds no newline, or `to`.
pub open spec fn skip_newlines(s: Seq<char>, from: int, to: int) -> int
    decreases to - from,
{
    if from >= to {
        to
    } else if s[from] != '\n' {
        from
    } else {
        skip_newlines(s, from + 1, to)
    }
}

/// The end of `from..to` without the newlines that it ends in.
pub open spec fn drop_newlines(s: Seq<char>, from: int, to: int) -> int
    decreases to - from,
{
    if from >= to {
        from
    } else if s[to - 1] != '\n' {
        to
    } else {
        drop_newlines(s, from, to - 1)
    }
}

/// The first place in `from..to` that holds no white space, or `to`.
pub open spec fn skip_space(s: Seq<char>, from: int, to: int) -> int
    decreases to - from,
{
    if from >= to {
        to
    } else if !is_whitespace(s[from]) {
        from
    } else {
        skip_space(s, from + 1, to)
    }
}

/// The end of `from..to` without the white space that it ends in.
pub open spec fn drop_space(s: Seq<char>, from: int, to: int) -> int
    decreases to - from,
{
    if from >= to {
        from
    } else if !is_whitespace(s[to - 1]) {
        to
    } else {
        drop_space(s, from, to - 1)
    }
}

/// Every character of `from..to` is alphanumeric.
pub open spec fn all_alphanumeric(s: Seq<char>, from: int, to: int) -> bool {
    forall|i: int| from <= i < to ==> is_alphanumeric(#[trigger] s[i])
}

/// The parts of a message. There is a block only if the message holds
/// exactly two fences. The first line inside is the language tag if it is
/// alphanumeric and code follows it; the code is then what follows, without
/// newlines at either end. Otherwise all that stands inside is code (for a
/// single line, that line). A block without code is none.
pub open spec fn codeblock_spec(s: Seq<char>) -> Option<CodeBlock> {
    let len = s.len() as int;
    let open = find_fence(s, 0);
    let close = find_fence(s, open + 3);
    if open >= len || close >= len || find_fence(s, close + 3) < len {
        None
    } else {
        let inner = open + 3;
        let line_end = find_line_end(s, inner, close);
        let rest = if line_end < close {
            line_end + 1
        } else {
            close
        };
        let code_start = skip_newlines(s, rest, close);
        let code_end = drop_newlines(s, code_start, close);
        let (lang, code) = if code_start >= code_end {
            ((inner, inner), (inner, line_end))
        } else if !all_alphanumeric(s, inner, line_end) {
            ((inner, inner), (inner, close))
        } else {
            ((inner, line_end), (code_start, code_end))
        };
        if code.0 >= code.1 {
            None
        } else {
            let before_start = skip_space(s, 0, open);
            Some(
                CodeBlock {
                    before: Range {
                        start: before_start as usize,
                        end: drop_space(s, before_start, open) as usize,
                    },
                    lang: Range { start: lang.0 as usize, end: lang.1 as usize },
                    code: Range { start: code.0 as usize, end: code.1 as usize },
                    after: Range { start: (close + 3) as usize, end: s.len() as usize },
                },
            )
        }
    }
}

/// What `find_fence` returns is a fence, unless it is the length.
pub proof fn lemma_find_fence(s: Seq<char>, from: int)
    requires
        0 <= from,
    ensures
        from <= find_fence(s, from) || find_fence(s, from) == s.len(),
        find_fence(s, from) <= s.len(),
        find_fence(s, from) < s.len() ==> fence_at(s, find_fence(s, from)),
    decreases s.len() - from,
{
    if from + 3 <= s.len() && !fence_at(s, from) {
        lemma_find_fence(s, from + 1);
    }
}

fn first_fence(s: &[char], from: usize) -> (at: usize)
    ensures
        at == find_fence(s@, from as int),
{
    let mut i: usize = from;
    while i < s.len() && s.len() - i >= 3
        invariant
            from <= i,
            find_fence(s@, i as int) == find_fence(s@, from as int),
        decreases s@.len() - i,
    {
        if s[i] == '`' && s[i + 1] == '`' && s[i + 2] == '`' {
            return i;
        }
        i = i + 1;
    }
    s.len()
}

fn line_end(s: &[char], from: usize, to: usize) -> (at: usize)
    requires
        from <= to <= s@.len(),
    ensures
        at == find_line_end(s@, from as int, to as int),
        from <= at <= to,
{
    let mut i: usize = from;
    while i < to
        invariant
            from <= i <= to <= s@.len(),
            find_line_end(s@, i as int, to as int) == find_line_end(s@, from as int, to as int),
        decreases to - i,
    {
        if s[i] == '\n' {
            return i;
        }
        i = i + 1;
    }
    to
}

fn after_newlines(s: &[char], from: usize, to: usize) -> (at: usize)
    requires
        from <= to <= s@.len(),
    ensures
        at == skip_newlines(s@, from as int, to as int),
        from <= at <= to,
{
    let mut i: usize = from;
    while i < to
        invariant
            from <= i <= to <= s@.len(),
            skip_newlines(s@, i as int, to as int) == skip_newlines(s@, from as int, to as int),
        decreases to - i,
    {
        if s[i] != '\n' {
            return i;
        }
        i = i + 1;
    }
    to
}

fn before_newlines(s: &[char], from: usize, to: usize) -> (at: usize)
    requires
        from <= to <= s@.len(),
    ensures
        at == drop_newlines(s@, from as int, to as int),
        from <= at <= to,
{
    let mut i: usize = to;
    while i > from
        invariant
            from <= i <= to <= s@.len(),
            drop_newlines(s@, from as int, i as int) == drop_newlines(s@, from as int, to as int),
        decreases i - from,
    {
        if s[i - 1] != '\n' {
            return i;
        }
        i = i - 1;
    }
    from
}

fn after_space(s: &[char], from: usize, to: usize) -> (at: usize)
    requires
        from <= to <= s@.len(),
    ensures
        at == skip_space(s@, from as int, to as int),
        from <= at <= to,
{
    let mut i: usize = from;
    while i < to
        invariant
            from <= i <= to <= s@.len(),
            skip_space(s@, i as int, to as int) == skip_space(s@, from as int, to as int),
        decreases to - i,
    {
        if !char_is_whitespace(s[i]) {
            return i;
        }
        i = i + 1;
    }
    to
}

fn before_space(s: &[char], from: usize, to: usize) -> (at: usize)
    requires
        from <= to <= s@.len(),
    ensures
        at == drop_space(s@, from as int, to as int),
        from <= at <= to,
{
    let mut i: usize = to;
    while i > from
        invariant
            from <= i <= to <= s@.len(),
            drop_space(s@, from as int, i as int) == drop_space(s@, from as int, to as int),
        decreases i - from,
    {
        if !char_is_whitespace(s[i - 1]) {
            return i;
        }
        i = i - 1;
    }
    from
}

fn is_tag(s: &[char], from: usize, to: usize) -> (b: bool)
    requires
        from <= to <= s@.len(),
    ensures
        b == all_alphanumeric(s@, from as int, to as int),
{
    let mut i: usize = from;
    while i < to
        invariant
            from <= i <= to <= s@.len(),
            all_alphanumeric(s@, from as int, i as int),
        decreases to - i,
    {
        if !char_is_alphanumeric(s[i]) {
            return false;
        }
        i = i + 1;
    }
    true
}

/// Finds the one code block of a message and what stands round it.
pub fn codeblock(s: &[char]) -> (block: Option<CodeBlock>)
    ensures
        block == codeblock_spec(s@),
{
    let len = s.len();
    proof {
        lemma_find_fence(s@, 0);
    }
    let open = first_fence(s, 0);
    if open >= len {
        return None;
    }
    let inner: usize = open + 3;
    proof {
        lemma_find_fence(s@, inner as int);
    }
    let close = first_fence(s, inner);
    if close >= len {
        return None;
    }
    proof {
        lemma_find_fence(s@, close + 3);
    }
    if first_fence(s, close + 3) < len {
        return None;
    }
    let first_end = line_end(s, inner, close);
    let rest: usize = if first_end < close {
        first_end + 1
    } else {
        close
    };
    let code_start = after_newlines(s, rest, close);
    let code_end = before_newlines(s, code_start, close);
    let (lang, code) = if code_start >= code_end {
        (Range { start: inner, end: inner }, Range { start: inner, end: first_end })
    } else if !is_tag(s, inner, first_end) {
        (Range { start: inner, end: inner }, Range { start: inner, end: close })
    } else {
        (Range { start: inner, end: first_end }, Range { start: code_start, end: code_end })
    };
    if code.start >= code.end {
        None
    } else {
        let before_start = after_space(s, 0, open);
        let before_end = before_space(s, before_start, open);
        Some(
            CodeBlock {
                before: Range { start: before_start, end: before_end },
                lang,
                code,
                after: Range { start: close + 3, end: len },
            },
        )
    }
}

/// The text `+highlight`.
pub open spec fn highlight_word() -> Seq<char> {
    seq!['+', 'h', 'i', 'g', 'h', 'l', 'i', 'g', 'h', 't']
}

/// The text `+render`.
pub open spec fn render_word() -> Seq<char> {
    seq!['+', 'r', 'e', 'n', 'd', 'e', 'r']
}

/// The text `+parse`.
pub open spec fn parse_word() -> Seq<char> {
    seq!['+', 'p', 'a', 'r', 's', 'e']
}

/// The text `+pparse`.
pub open spec fn plain_parse_word() -> Seq<char> {
    seq!['+', 'p', 'p', 'a', 'r', 's', 'e']
}

/// The command that a text names, if it names one.
pub open spec fn parse_command_spec(before: Seq<char>) -> Option<Command> {
    if before == highlight_word() {
        Some(Command::Highlight)
    } else if before == render_word() {
        Some(Command::Render)
    } else if before == parse_word() {
        Some(Command::PrettyParse)
    } else if before == plain_parse_word() {
        Some(Command::PlainParse)
    } else {
        None
    }
}

fn same_text(a: &[char], b: &Vec<char>) -> (same: bool)
    ensures
        same == (a@ == b@),
{
    if a.len() != b.len() {
        return false;
    }
    let mut i: usize = 0;
    while i < a.len()
        invariant
            0 <= i <= a@.len(),
            a@.len() == b@.len(),
            forall|k: int| 0 <= k < i ==> a@[k] == b@[k],
        decreases a@.len() - i,
    {
        if a[i] != b[i] {
            return false;
        }
        i = i + 1;
    }
    assert(a@ =~= b@);
    true
}

/// The command that stands before a code block, if it is one.
pub fn parse_command(before: &[char]) -> (command: Option<Command>)
    ensures
        command == parse_command_spec(before@),
{
    let highlight = vec!['+', 'h', 'i', 'g', 'h', 'l', 'i', 'g', 'h', 't'];
    let render = vec!['+', 'r', 'e', 'n', 'd', 'e', 'r'];
    let parse = vec!['+', 'p', 'a', 'r', 's', 'e'];
    let plain_parse = vec!['+', 'p', 'p', 'a', 'r', 's', 'e'];
    assert(highlight@ =~= highlight_word());
    assert(render@ =~= render_word());
    assert(parse@ =~= parse_word());
    assert(plain_parse@ =~= plain_parse_word());
    if same_text(before, &highlight) {
        Some(Command::Highlight)
    } else if same_text(before, &render) {
        Some(Command::Render)
    } else if same_text(before, &parse) {
        Some(Command::PrettyParse)
    } else if same_text(before, &plain_parse) {
        Some(Command::PlainParse)
    } else {
        None
    }
}

/// What a button of the chat client asks for.
#[derive(Clone, Copy, Debug, PartialEq, Eq, Structural)]
pub enum Action {
    /// Running a command on the code block.
    Run(Command),
    /// Taking the buttons away.
    Delete,
    /// Nothing that is known.
    Unknown,
}

/// The parts of a button's identifier.
#[derive(Clone, Copy, Debug, PartialEq, Eq, Structural)]
pub struct ComponentId {
    /// What the button asks for.
    pub action: Action,
    /// Where the action's name stands in the identifier.
    pub name: Range,
    /// The message that the button is about, where the identifier names it.
    pub reference: Option<u64>,
    /// Whether the identifier ends in the mark `-ephemeralish`.
    pub ephemeralish: bool,
}

/// Whether the character is one of the digits `0` to `9`.
pub open spec fn is_digit(c: char) -> bool {
    48 <= (c as u32) <= 57
}

/// Every character is a digit.
pub open spec fn all_digits(s: Seq<char>) -> bool {
    forall|i: int| 0 <= i < s.len() ==> is_digit(#[trigger] s[i])
}

/// The number that the digits spell.
pub open spec fn digits_value(s: Seq<char>) -> nat
    decreases s.len(),
{
    if s.len() == 0 {
        0
    } else {
        (digits_value(s.drop_last()) * 10 + ((s.last() as u32) - 48)) as nat
    }
}

/// The number that a text spells, as `str::parse::<u64>` reads it: digits
/// alone, with a plus sign in front if there is one, and no more than a
/// `u64` holds.
pub open spec fn parsed_u64(text: Seq<char>) -> Option<u64> {
    digits_number(
        if text.len() > 0 && text[0] == '+' {
            text.skip(1)
        } else {
            text
        },
    )
}

/// The number that digits spell, if there are any and a `u64` holds it.
pub open spec fn digits_number(digits: Seq<char>) -> Option<u64> {
    if digits.len() > 0 && all_digits(digits) && digits_value(digits) <= u64::MAX {
        Some(digits_value(digits) as u64)
    } else {
        None
    }
}

proof fn lemma_digits_grow(s: Seq<char>, k: int)
    requires
        all_digits(s),
        0 <= k <= s.len(),
    ensures
        digits_value(s.take(k)) <= digits_value(s),
    decreases s.len() - k,
{
    if k < s.len() {
        lemma_digits_grow(s, k + 1);
        assert(s.take(k + 1).drop_last() =~= s.take(k));
        assert(is_digit(s[k]));
        assert(s.take(k + 1).last() == s[k]);
    } else {
        assert(s.take(k) =~= s);
    }
}

/// Reads the number that the characters `from..to` spell.
pub fn parse_u64(s: &[char], from: usize, to: usize) -> (r: Option<u64>)
    requires
        from <= to <= s@.len(),
    ensures
        r == parsed_u64(s@.subrange(from as int, to as int)),
{
    let ghost text = s@.subrange(from as int, to as int);
    let start: usize = if from < to && s[from] == '+' {
        from + 1
    } else {
        from
    };
    let ghost digits = s@.subrange(start as int, to as int);
    assert(digits =~= if text.len() > 0 && text[0] == '+' {
        text.skip(1)
    } else {
        text
    });
    if start >= to {
        return None;
    }
    let mut value: u64 = 0;
    let mut i: usize = start;
    assert(digits.take(0) =~= Seq::<char>::empty());
    while i < to
        invariant
            start <= i <= to <= s@.len(),
            digits == s@.subrange(start as int, to as int),
            parsed_u64(s@.subrange(from as int, to as int)) == digits_number(digits),
            forall|k: int| 0 <= k < i - start ==> is_digit(#[trigger] digits[k]),
            value == digits_value(digits.take(i - start)),
        decreases to - i,
    {
        let code: u32 = s[i] as u32;
        if code < 48 || code > 57 {
            assert(!is_digit(digits[i - start]));
            return None;
        }
        let digit: u64 = (code - 48) as u64;
        proof {
            assert(digits.take(i - start + 1).drop_last() =~= digits.take(i - start));
            assert(digits.take(i - start + 1).last() == digits[i - start]);
        }
        if value > (u64::MAX - digit) / 10 {
            proof {
                if all_digits(digits) {
                    lemma_digits_grow(digits, i - start + 1);
                }
            }
            return None;
        }
        value = value * 10 + digit;
        i = i + 1;
    }
    assert(digits.take(i - start) =~= digits);
    Some(value)
}

/// The mark `-ephemeralish`.
pub open spec fn ephemeralish_mark() -> Seq<char> {
    seq!['-', 'e', 'p', 'h', 'e', 'm', 'e', 'r', 'a', 'l', 'i', 's', 'h']
}

/// The place of the last hyphen before `to`, or -1 without one.
pub open spec fn last_hyphen(s: Seq<char>, to: int) -> int
    decreases to,
{
    if to <= 0 {
        -1
    } else if s[to - 1] == '-' {
        to - 1
    } else {
        last_hyphen(s, to - 1)
    }
}

/// The action that a name stands for.
pub open spec fn action_spec(name: Seq<char>) -> Action {
    if name == seq!['h', 'i', 'g', 'h', 'l', 'i', 'g', 'h', 't'] {
        Action::Run(Command::Highlight)
    } else if name == seq!['r', 'e', 'n', 'd', 'e', 'r'] {
        Action::Run(Command::Render)
    } else if name == seq!['p', 'r', 'e', 't', 't', 'y', '-', 'p', 'a', 'r', 's', 'e'] {
        Action::Run(Command::PrettyParse)
    } else if name == seq!['p', 'l', 'a', 'i', 'n', '-', 'p', 'a', 'r', 's', 'e'] {
        Action::Run(Command::PlainParse)
    } else if name == seq!['d', 'e', 'l', 'e', 't', 'e'] {
        Action::Delete
    } else {
        Action::Unknown
    }
}

/// The parts of a button's identifier. A mark `-ephemeralish` at the end is
/// taken off first. If what follows the last hyphen is a number, it names
/// the message, and the action's name is what stands before that hyphen;
/// otherwise the whole is the action's name.
pub open spec fn component_id_spec(s: Seq<char>) -> ComponentId {
    let len = s.len() as int;
    let ephemeralish = len >= 13 && s.subrange(len - 13, len) == ephemeralish_mark();
    let end = if ephemeralish {
        len - 13
    } else {
        len
    };
    let hyphen = last_hyphen(s, end);
    let number = if hyphen >= 0 {
        parsed_u64(s.subrange(hyphen + 1, end))
    } else {
        None
    };
    match number {
        Some(id) => ComponentId {
            action: action_spec(s.subrange(0, hyphen)),
            name: Range { start: 0, end: hyphen as usize },
            reference: Some(id),
            ephemeralish,
        },
        None => ComponentId {
            action: action_spec(s.subrange(0, end)),
            name: Range { start: 0, end: end as usize },
            reference: None,
            ephemeralish,
        },
    }
}

fn same_range(s: &[char], from: usize, to: usize, word: &Vec<char>) -> (same: bool)
    requires
        from <= to <= s@.len(),
    ensures
        same == (s@.subrange(from as int, to as int) == word@),
{
    if to - from != word.len() {
        return false;
    }
    let mut i: usize = 0;
    while i < word.len()
        invariant
            0 <= i <= word@.len(),
            from + word@.len() == to <= s@.len(),
            forall|k: int| 0 <= k < i ==> s@[from + k] == word@[k],
        decreases word@.len() - i,
    {
        if s[from + i] != word[i] {
            assert(s@.subrange(from as int, to as int)[i as int] != word@[i as int]);
            return false;
        }
        i = i + 1;
    }
    assert(s@.subrange(from as int, to as int) =~= word@);
    true
}

fn hyphen_before(s: &[char], to: usize) -> (at: Option<usize>)
    requires
        to <= s@.len(),
    ensures
        match at {
            Some(i) => i == last_hyphen(s@, to as int) && i < to,
            None => last_hyphen(s@, to as int) == -1,
        },
{
    let mut i: usize = to;
    while i > 0
        invariant
            0 <= i <= to <= s@.len(),
            last_hyphen(s@, i as int) == last_hyphen(s@, to as int),
        decreases i,
    {
        if s[i - 1] == '-' {
            return Some(i - 1);
        }
        i = i - 1;
    }
    None
}

/// The action that the characters `from..to` name.
fn action_of(s: &[char], from: usize, to: usize) -> (action: Action)
    requires
        from <= to <= s@.len(),
    ensures
        action == action_spec(s@.subrange(from as int, to as int)),
{
    let highlight = vec!['h', 'i', 'g', 'h', 'l', 'i', 'g', 'h', 't'];
    let render = vec!['r', 'e', 'n', 'd', 'e', 'r'];
    let pretty_parse = vec!['p', 'r', 'e', 't', 't', 'y', '-', 'p', 'a', 'r', 's', 'e'];
    let plain_parse = vec!['p', 'l', 'a', 'i', 'n', '-', 'p', 'a', 'r', 's', 'e'];
    let delete = vec!['d', 'e', 'l', 'e', 't', 'e'];
    assert(highlight@ =~= seq!['h', 'i', 'g', 'h', 'l', 'i', 'g', 'h', 't']);
    assert(render@ =~= seq!['r', 'e', 'n', 'd', 'e', 'r']);
    assert(pretty_parse@ =~= seq!['p', 'r', 'e', 't', 't', 'y', '-', 'p', 'a', 'r', 's', 'e']);
    assert(plain_parse@ =~= seq!['p', 'l', 'a', 'i', 'n', '-', 'p', 'a', 'r', 's', 'e']);
    assert(delete@ =~= seq!['d', 'e', 'l', 'e', 't', 'e']);
    if same_range(s, from, to, &highlight) {
        Action::Run(Command::Highlight)
    } else if same_range(s, from, to, &render) {
        Action::Run(Command::Render)
    } else if same_range(s, from, to, &pretty_parse) {
        Action::Run(Command::PrettyParse)
    } else if same_range(s, from, to, &plain_parse) {
        Action::Run(Command::PlainParse)
    } else if same_range(s, from, to, &delete) {
        Action::Delete
    } else {
        Action::Unknown
    }
}

/// Takes a button's identifier apart.
pub fn parse_component_id(s: &[char]) -> (id: ComponentId)
    ensures
        id == component_id_spec(s@),
{
    let len = s.len();
    let mark = vec!['-', 'e', 'p', 'h', 'e', 'm', 'e', 'r', 'a', 'l', 'i', 's', 'h'];
    assert(mark@ =~= ephemeralish_mark());
    let ephemeralish = len >= 13 && same_range(s, len - 13, len, &mark);
    let end: usize = if ephemeralish {
        len - 13
    } else {
        len
    };
    let number = match hyphen_before(s, end) {
        Some(hyphen) => match parse_u64(s, hyphen + 1, end) {
            Some(id) => Some((hyphen, id)),
            None => None,
        },
        None => None,
    };
    match number {
        Some((hyphen, id)) => ComponentId {
            action: action_of(s, 0, hyphen),
            name: Range { start: 0, end: hyphen },
            reference: Some(id),
            ephemeralish,
        },
        None => ComponentId {
            action: action_of(s, 0, end),
            name: Range { start: 0, end },
            reference: None,
            ephemeralish,
        },
    }
}

/// The name that a command has in a button's identifier.
pub open spec fn command_name(command: Command) -> Seq<char> {
    match command {
        Command::Highlight => seq!['h', 'i', 'g', 'h', 'l', 'i', 'g', 'h', 't'],
        Command::Render => seq!['r', 'e', 'n', 'd', 'e', 'r'],
        Command::PrettyParse => seq!['p', 'r', 'e', 't', 't', 'y', '-', 'p', 'a', 'r', 's', 'e'],
        Command::PlainParse => seq!['p', 'l', 'a', 'i', 'n', '-', 'p', 'a', 'r', 's', 'e'],
    }
}

/// A number in decimal digits.
pub open spec fn decimal_chars(n: nat) -> Seq<char>
    decreases n,
{
    if n < 10 {
        seq![((48 + n) as u8) as char]
    } else {
        decimal_chars(n / 10).push(((48 + n % 10) as u8) as char)
    }
}

/// The mark where it is asked for.
pub open spec fn mark_if(ephemeralish: bool) -> Seq<char> {
    if ephemeralish {
        ephemeralish_mark()
    } else {
        seq![]
    }
}

/// The identifier of the button that runs a command on a message.
pub open spec fn command_button_id_spec(command: Command, message: u64, ephemeralish: bool) -> Seq<
    char,
> {
    command_name(command) + seq!['-'] + decimal_chars(message as nat) + mark_if(ephemeralish)
}

/// The identifier of the button that takes the buttons away.
pub open spec fn delete_button_id_spec(ephemeralish: bool) -> Seq<char> {
    seq!['d', 'e', 'l', 'e', 't', 'e'] + mark_if(ephemeralish)
}

fn push_decimal_chars(out: &mut Vec<char>, n: u64)
    ensures
        final(out)@ == old(out)@ + decimal_chars(n as nat),
    decreases n,
{
    if n >= 10 {
        push_decimal_chars(out, n / 10);
    }
    out.push((48u8 + ((n % 10) as u8)) as char);
    assert(out@ =~= old(out)@ + decimal_chars(n as nat));
}

fn push_mark(out: &mut Vec<char>, ephemeralish: bool)
    ensures
        final(out)@ == old(out)@ + mark_if(ephemeralish),
{
    if ephemeralish {
        let mut mark = vec!['-', 'e', 'p', 'h', 'e', 'm', 'e', 'r', 'a', 'l', 'i', 's', 'h'];
        assert(mark@ =~= ephemeralish_mark());
        out.append(&mut mark);
    } else {
        assert(out@ =~= old(out)@ + mark_if(ephemeralish));
    }
}

/// The identifier of the button that runs a command on a message.
pub fn command_button_id(command: Command, message: u64, ephemeralish: bool) -> (id: Vec<char>)
    ensures
        id@ == command_button_id_spec(command, message, ephemeralish),
{
    let mut id = match command {
        Command::Highlight => vec!['h', 'i', 'g', 'h', 'l', 'i', 'g', 'h', 't'],
        Command::Render => vec!['r', 'e', 'n', 'd', 'e', 'r'],
        Command::PrettyParse => vec!['p', 'r', 'e', 't', 't', 'y', '-', 'p', 'a', 'r', 's', 'e'],
        Command::PlainParse => vec!['p', 'l', 'a', 'i', 'n', '-', 'p', 'a', 'r', 's', 'e'],
    };
    assert(id@ =~= command_name(command));
    id.push('-');
    push_decimal_chars(&mut id, message);
    push_mark(&mut id, ephemeralish);
    assert(id@ =~= command_button_id_spec(command, message, ephemeralish));
    id
}

/// The identifier of the button that takes the buttons away.
pub fn delete_button_id(ephemeralish: bool) -> (id: Vec<char>)
    ensures
        id@ == delete_button_id_spec(ephemeralish),
{
    let mut id = vec!['d', 'e', 'l', 'e', 't', 'e'];
    push_mark(&mut id, ephemeralish);
    assert(id@ =~= delete_button_id_spec(ephemeralish));
    id
}

proof fn lemma_decimal_digits(n: nat)
    ensures
        decimal_chars(n).len() >= 1,
        all_digits(decimal_chars(n)),
        digits_value(decimal_chars(n)) == n,
    decreases n,
{
    let digits = decimal_chars(n);
    if n < 10 {
        assert(digits.len() == 1);
        assert(digits.drop_last() =~= Seq::<char>::empty());
        assert(digits_value(digits.drop_last()) == 0);
        assert(digits.last() as u32 == 48 + n);
        assert(digits_value(digits) == n);
    } else {
        lemma_decimal_digits(n / 10);
        let init = decimal_chars(n / 10);
        assert(digits == init.push(((48 + n % 10) as u8) as char));
        assert(digits.drop_last() =~= init);
        assert(digits.last() as u32 == 48 + n % 10);
        assert(digits_value(digits) == digits_value(init) * 10 + n % 10);
        assert(digits_value(digits) == n);
        assert forall|i: int| 0 <= i < digits.len() implies is_digit(#[trigger] digits[i]) by {
            if i < init.len() {
                assert(digits[i] == init[i]);
            }
        }
    }
}

proof fn lemma_last_hyphen(s: Seq<char>, h: int, to: int)
    requires
        0 <= h < to <= s.len(),
        s[h] == '-',
        forall|k: int| h < k < to ==> s[k] != '-',
    ensures
        last_hyphen(s, to) == h,
    decreases to,
{
    if to - 1 > h {
        lemma_last_hyphen(s, h, to - 1);
    }
}

proof fn lemma_command_names(command: Command)
    ensures
        action_spec(command_name(command)) == Action::Run(command),
        6 <= command_name(command).len() <= 12,
{
    assert(seq!['h', 'i', 'g', 'h', 'l', 'i', 'g', 'h', 't'].len() == 9);
    assert(seq!['r', 'e', 'n', 'd', 'e', 'r'].len() == 6);
    assert(seq!['p', 'r', 'e', 't', 't', 'y', '-', 'p', 'a', 'r', 's', 'e'].len() == 12);
    assert(seq!['p', 'l', 'a', 'i', 'n', '-', 'p', 'a', 'r', 's', 'e'].len() == 11);
}

/// What the identifier of a command's button is made of can be read from
/// it again: the command, the message and the mark.
pub proof fn lemma_command_button_id_roundtrip(command: Command, message: u64, ephemeralish: bool)
    ensures
        component_id_spec(command_button_id_spec(command, message, ephemeralish)) == (ComponentId {
            action: Action::Run(command),
            name: Range { start: 0, end: command_name(command).len() as usize },
            reference: Some(message),
            ephemeralish,
        }),
{
    let name = command_name(command);
    let digits = decimal_chars(message as nat);
    let body = name + seq!['-'] + digits;
    let s = command_button_id_spec(command, message, ephemeralish);
    let len = s.len() as int;
    lemma_command_names(command);
    lemma_decimal_digits(message as nat);
    assert(ephemeralish_mark().len() == 13);
    assert(ephemeralish_mark()[12] == 'h');
    assert(s =~= body + mark_if(ephemeralish));
    let end = body.len() as int;
    let hyphen = name.len() as int;
    if ephemeralish {
        assert(s.subrange(len - 13, len) =~= ephemeralish_mark());
    } else {
        assert(s =~= body);
        if len >= 13 && s.subrange(len - 13, len) == ephemeralish_mark() {
            assert(s.subrange(len - 13, len)[12] == s[len - 1]);
            assert(s[len - 1] == digits[digits.len() - 1]);
            assert(is_digit(digits[digits.len() - 1]));
        }
    }
    assert(s[hyphen] == '-');
    assert forall|k: int| hyphen < k < end implies s[k] != '-' by {
        assert(s[k] == digits[k - hyphen - 1]);
        assert(is_digit(digits[k - hyphen - 1]));
    }
    lemma_last_hyphen(s, hyphen, end);
    assert(s.subrange(hyphen + 1, end) =~= digits);
    assert(is_digit(digits[0]));
    assert(s.subrange(0, hyphen) =~= name);
}

/// The identifier of the button that takes the buttons away reads as that,
/// with its mark and without a message.
pub proof fn lemma_delete_button_id_roundtrip(ephemeralish: bool)
    ensures
        component_id_spec(delete_button_id_spec(ephemeralish)) == (ComponentId {
            action: Action::Delete,
            name: Range { start: 0, end: 6 },
            reference: None,
            ephemeralish,
        }),
{
    let name = seq!['d', 'e', 'l', 'e', 't', 'e'];
    let s = delete_button_id_spec(ephemeralish);
    let len = s.len() as int;
    assert(name.len() == 6);
    assert(ephemeralish_mark().len() == 13);
    assert(seq!['h', 'i', 'g', 'h', 'l', 'i', 'g', 'h', 't'].len() == 9);
    assert(seq!['p', 'r', 'e', 't', 't', 'y', '-', 'p', 'a', 'r', 's', 'e'].len() == 12);
    assert(seq!['p', 'l', 'a', 'i', 'n', '-', 'p', 'a', 'r', 's', 'e'].len() == 11);
    assert(seq!['r', 'e', 'n', 'd', 'e', 'r'][0] == 'r');
    if ephemeralish {
        assert(s.subrange(len - 13, len) =~= ephemeralish_mark());
    } else {
        assert(s =~= name);
    }
    assert(s.subrange(0, 6) =~= name);
    reveal_with_fuel(last_hyphen, 8);
    assert(last_hyphen(s, 6) == -1);
}

} // verus!
