//! Spelling characters out in UTF-8.

use vstd::prelude::*;

verus! {

/// The bytes of one character: one for a code below 128, and up to four
/// above, a leading byte and continuation bytes of six bits each.
pub open spec fn utf8_char(c: char) -> Seq<u8> {
    let v = c as u32;
    if v < 0x80 {
        seq![v as u8]
    } else if v < 0x800 {
        seq![(0xC0 + v / 0x40) as u8, (0x80 + v % 0x40) as u8]
    } else if v < 0x1_0000 {
        seq![
            (0xE0 + v / 0x1000) as u8,
            (0x80 + (v / 0x40) % 0x40) as u8,
            (0x80 + v % 0x40) as u8,
        ]
    } else {
        seq![
            (0xF0 + v / 0x4_0000) as u8,
            (0x80 + (v / 0x1000) % 0x40) as u8,
            (0x80 + (v / 0x40) % 0x40) as u8,
            (0x80 + v % 0x40) as u8,
        ]
    }
}

/// The bytes of a text: those of its characters, one after the other.
pub open spec fn utf8_text(text: Seq<char>) -> Seq<u8>
    decreases text.len(),
{
    if text.len() == 0 {
        seq![]
    } else {
        utf8_text(text.drop_last()) + utf8_char(text.last())
    }
}

/// Whether a byte starts a character: it is no continuation byte.
pub open spec fn starts_char(b: u8) -> bool {
    b < 128 || b >= 192
}

/// How many characters start in the bytes.
pub open spec fn char_count(bytes: Seq<u8>) -> nat
    decreases bytes.len(),
{
    if bytes.len() == 0 {
        0
    } else if starts_char(bytes.last()) {
        char_count(bytes.drop_last()) + 1
    } else {
        char_count(bytes.drop_last())
    }
}

/// The characters that start in two byte strings put together are those of
/// the one and those of the other.
pub proof fn lemma_char_count_append(a: Seq<u8>, b: Seq<u8>)
    ensures
        char_count(a + b) == char_count(a) + char_count(b),
    decreases b.len(),
{
    if b.len() == 0 {
        assert(a + b =~= a);
    } else {
        assert((a + b).drop_last() =~= a + b.drop_last());
        assert((a + b).last() == b.last());
        lemma_char_count_append(a, b.drop_last());
    }
}

proof fn lemma_char_count_one(b: u8)
    ensures
        char_count(seq![b]) == if starts_char(b) {
            1nat
        } else {
            0nat
        },
{
    let one = seq![b];
    assert(one.len() == 1);
    assert(one.drop_last() =~= Seq::<u8>::empty());
    assert(char_count(one.drop_last()) == 0);
    assert(one.last() == b);
}

/// The bytes of one character hold one start of a character.
pub proof fn lemma_utf8_char_count(c: char)
    ensures
        char_count(utf8_char(c)) == 1,
{
    let v = c as u32;
    assert(v <= 0x10_FFFF) by {
        assert((v as char) == c);
    }
    let bytes = utf8_char(c);
    if v < 0x80 {
        lemma_char_count_one(v as u8);
    } else if v < 0x800 {
        let b0 = (0xC0 + v / 0x40) as u8;
        let b1 = (0x80 + v % 0x40) as u8;
        assert(bytes =~= seq![b0] + seq![b1]);
        lemma_char_count_append(seq![b0], seq![b1]);
        lemma_char_count_one(b0);
        lemma_char_count_one(b1);
    } else if v < 0x1_0000 {
        let b0 = (0xE0 + v / 0x1000) as u8;
        let b1 = (0x80 + (v / 0x40) % 0x40) as u8;
        let b2 = (0x80 + v % 0x40) as u8;
        assert(bytes =~= seq![b0] + seq![b1] + seq![b2]);
        lemma_char_count_append(seq![b0] + seq![b1], seq![b2]);
        lemma_char_count_append(seq![b0], seq![b1]);
        lemma_char_count_one(b0);
        lemma_char_count_one(b1);
        lemma_char_count_one(b2);
    } else {
        let b0 = (0xF0 + v / 0x4_0000) as u8;
        let b1 = (0x80 + (v / 0x1000) % 0x40) as u8;
        let b2 = (0x80 + (v / 0x40) % 0x40) as u8;
        let b3 = (0x80 + v % 0x40) as u8;
        assert(bytes =~= seq![b0] + seq![b1] + seq![b2] + seq![b3]);
        lemma_char_count_append(seq![b0] + seq![b1] + seq![b2], seq![b3]);
        lemma_char_count_append(seq![b0] + seq![b1], seq![b2]);
        lemma_char_count_append(seq![b0], seq![b1]);
        lemma_char_count_one(b0);
        lemma_char_count_one(b1);
        lemma_char_count_one(b2);
        lemma_char_count_one(b3);
    }
}

/// As many characters start in the bytes of a text as the text has.
pub proof fn lemma_utf8_text_count(text: Seq<char>)
    ensures
        char_count(utf8_text(text)) == text.len(),
    decreases text.len(),
{
    if text.len() > 0 {
        lemma_utf8_text_count(text.drop_last());
        lemma_utf8_char_count(text.last());
        lemma_char_count_append(utf8_text(text.drop_last()), utf8_char(text.last()));
    }
}

/// Appends the bytes of one character.
pub fn push_utf8(out: &mut Vec<u8>, c: char)
    ensures
        final(out)@ == old(out)@ + utf8_char(c),
{
    let v: u32 = c as u32;
    assert(v <= 0x10_FFFF) by {
        assert((v as char) == c);
    }
    if v < 0x80 {
        out.push(v as u8);
    } else if v < 0x800 {
        out.push((0xC0 + v / 0x40) as u8);
        out.push((0x80 + v % 0x40) as u8);
    } else if v < 0x1_0000 {
        out.push((0xE0 + v / 0x1000) as u8);
        out.push((0x80 + (v / 0x40) % 0x40) as u8);
        out.push((0x80 + v % 0x40) as u8);
    } else {
        out.push((0xF0 + v / 0x4_0000) as u8);
        out.push((0x80 + (v / 0x1000) % 0x40) as u8);
        out.push((0x80 + (v / 0x40) % 0x40) as u8);
        out.push((0x80 + v % 0x40) as u8);
    }
    assert(out@ =~= old(out)@ + utf8_char(c));
}

/// The bytes of a text.
pub fn encode_text(text: &Vec<char>) -> (bytes: Vec<u8>)
    ensures
        bytes@ == utf8_text(text@),
{
    let mut bytes: Vec<u8> = Vec::new();
    let mut i: usize = 0;
    while i < text.len()
        invariant
            0 <= i <= text@.len(),
            bytes@ == utf8_text(text@.take(i as int)),
        decreases text@.len() - i,
    {
        assert(text@.take(i + 1).drop_last() =~= text@.take(i as int));
        assert(text@.take(i + 1).last() == text@[i as int]);
        push_utf8(&mut bytes, text[i]);
        i = i + 1;
    }
    assert(text@.take(i as int) =~= text@);
    bytes
}

/// Whether two byte strings are the same.
pub fn same_bytes(a: &Vec<u8>, b: &Vec<u8>) -> (same: bool)
    ensures
        same == (a@ == b@),
{
    if a.len() != b.len() {
        return false;
    }
    let mut i: usize = 0;
    while i < a.len()
        invariant
            0 <= i <= a@.len(),
            a@.len() == b@.len(),
            forall|k: int| 0 <= k < i ==> a@[k] == b@[k],
        decreases a@.len() - i,
    {
        if a[i] != b[i] {
            return false;
        }
        i = i + 1;
    }
    assert(a@ =~= b@);
    true
}

} // verus!
