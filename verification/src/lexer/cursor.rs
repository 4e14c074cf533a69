//! A cursor over the characters of the source text that keeps track of byte
//! offsets.

use crate::lexer::span::Span;
use vstd::prelude::*;
use vstd::std_specs::iter::IteratorSpec;
use vstd::string::StringSliceAdditionalSpecFns;
use vstd::utf8::{
    char_is_scalar, char_u32_cast, decode_first_scalar, encode_scalar, encode_utf8,
    encode_utf8_first_scalar, encode_utf8_valid_utf8, is_char_boundary,
    is_char_boundary_iff_not_is_continuation_byte, is_char_boundary_start_end_of_seq,
    length_of_first_scalar, valid_utf8, valid_utf8_split,
};

verus! {

/// The character that stands for the end of the text.
pub const EOF_CHAR: char = '\0';

/// The character whose encoding starts at byte `i`.
pub open spec fn char_at(bytes: Seq<u8>, i: int) -> char {
    decode_first_scalar(bytes.subrange(i, bytes.len() as int)) as char
}

/// Number of bytes in the encoding of the character that starts at byte `i`.
pub open spec fn width_at(bytes: Seq<u8>, i: int) -> int {
    width_of(char_at(bytes, i))
}

/// The character at byte `i`, or [`EOF_CHAR`] where the text has ended.
pub open spec fn peek_at(bytes: Seq<u8>, i: int) -> char {
    if 0 <= i < bytes.len() {
        char_at(bytes, i)
    } else {
        EOF_CHAR
    }
}

/// The offset behind the character at byte `i`; at the end of the text, `i`
/// itself.
pub open spec fn next_at(bytes: Seq<u8>, i: int) -> int {
    if 0 <= i < bytes.len() {
        i + width_at(bytes, i)
    } else {
        i
    }
}

/// Number of bytes in the UTF-8 encoding of a character.
pub open spec fn width_of(c: char) -> int {
    if (c as u32) < 0x80 {
        1
    } else if (c as u32) < 0x800 {
        2
    } else if (c as u32) < 0x10000 {
        3
    } else {
        4
    }
}

/// In a text, a character that starts on a character boundary ends on one,
/// within the text, and is between one and four bytes wide.
pub proof fn lemma_next_boundary(bytes: Seq<u8>, i: int)
    requires
        valid_utf8(bytes),
        is_char_boundary(bytes, i),
        0 <= i < bytes.len(),
    ensures
        1 <= width_at(bytes, i) <= 4,
        i + width_at(bytes, i) <= bytes.len(),
        is_char_boundary(bytes, i + width_at(bytes, i)),
        width_at(bytes, i) == length_of_first_scalar(bytes.subrange(i, bytes.len() as int)),
        bytes[i] < 0x80 ==> char_at(bytes, i) as u32 == bytes[i],
        bytes[i] < 0x80 <==> (char_at(bytes, i) as u32) < 0x80,
{
    let rest = bytes.subrange(i, bytes.len() as int);
    valid_utf8_split(bytes, i);
    let w = length_of_first_scalar(rest);
    let after = rest.subrange(w, rest.len() as int);
    assert(valid_utf8(after));
    let j = i + w;
    if j < bytes.len() {
        is_char_boundary_iff_not_is_continuation_byte(bytes, j);
    } else {
        is_char_boundary_start_end_of_seq(bytes);
    }
    vstd::utf8::decode_utf8_encode_utf8(rest);
    let chars = vstd::utf8::decode_utf8(rest);
    encode_utf8_first_scalar(chars);
    char_is_scalar(chars[0]);
    let b = bytes[i];
    if b < 0x80 {
        assert((b & 0x7F) == b) by (bit_vector)
            requires
                b < 0x80,
        ;
    }
}

/// The offset at which a run of characters that satisfy `p` ends, when the
/// run starts at byte `i`. The run also ends before a NUL character.
pub open spec fn run_end(bytes: Seq<u8>, i: int, p: spec_fn(char) -> bool) -> int
    decreases bytes.len() - i,
{
    if 0 <= i < next_at(bytes, i) <= bytes.len() && char_at(bytes, i) != EOF_CHAR && p(
        char_at(bytes, i),
    ) {
        run_end(bytes, next_at(bytes, i), p)
    } else {
        i
    }
}

/// A run that starts on a character boundary within a text ends on one, at or
/// behind its start and within the text.
pub proof fn lemma_run_end(bytes: Seq<u8>, i: int, p: spec_fn(char) -> bool)
    requires
        valid_utf8(bytes),
        is_char_boundary(bytes, i),
        0 <= i <= bytes.len(),
    ensures
        i <= run_end(bytes, i, p) <= bytes.len(),
        is_char_boundary(bytes, run_end(bytes, i, p)),
    decreases bytes.len() - i,
{
    if i < bytes.len() {
        lemma_next_boundary(bytes, i);
        if char_at(bytes, i) != EOF_CHAR && p(char_at(bytes, i)) {
            lemma_run_end(bytes, next_at(bytes, i), p);
        }
    }
}

/// No character begins between the first byte of a character and the first
/// byte of the next.
pub proof fn lemma_no_boundary_inside(bytes: Seq<u8>, i: int)
    requires
        valid_utf8(bytes),
        is_char_boundary(bytes, i),
        0 <= i < bytes.len(),
    ensures
        forall|k: int| i < k < next_at(bytes, i) ==> !#[trigger] is_char_boundary(bytes, k),
{
    lemma_next_boundary(bytes, i);
    valid_utf8_split(bytes, i);
    assert forall|k: int| i < k < next_at(bytes, i) implies !#[trigger] is_char_boundary(
        bytes,
        k,
    ) by {
        is_char_boundary_iff_not_is_continuation_byte(bytes, k);
    }
}

/// The function `p` describes everything that `predicate` may answer.
pub open spec fn decides<F: FnOnce(char) -> bool>(predicate: F, p: spec_fn(char) -> bool) -> bool {
    forall|c: char, r: bool| #[trigger] predicate.ensures((c,), r) ==> r == p(c)
}

/// A position in a source text, with the start of the piece that is being
/// scanned.
#[derive(Debug)]
pub struct Cursor<'a> {
    pub source: &'a str,
    /// Offset at which the piece under the cursor starts.
    pub start: usize,
    /// Offset of the next character.
    pub index: usize,
}

impl<'a> Cursor<'a> {
    /// The character that stands for the end of the text.
    pub const EOF_CHAR: char = EOF_CHAR;

    /// The bytes of the source text.
    pub open spec fn bytes(&self) -> Seq<u8> {
        self.source.spec_bytes()
    }

    /// The piece under the cursor is a piece of the text.
    pub open spec fn wf(&self) -> bool {
        &&& (Span { start: self.start, end: self.index }).fits(self.bytes())
        &&& self.bytes().len() <= usize::MAX
    }

    /// The same text and the same start of the piece.
    pub open spec fn moved_from(&self, before: &Cursor<'a>) -> bool {
        &&& self.source == before.source
        &&& self.start == before.start
    }

    /// A cursor at the beginning of `source`.
    pub fn new(source: &'a str) -> (cursor: Cursor<'a>)
        ensures
            cursor.source == source,
            cursor.start == 0,
            cursor.index == 0,
            cursor.wf(),
    {
        proof {
            encode_utf8_valid_utf8(source@);
            is_char_boundary_start_end_of_seq(source.spec_bytes());
        }
        // The length of the text is a `usize`.
        let length: usize = source.as_bytes().len();
        assert(length == source.spec_bytes().len());
        Cursor { source, start: 0, index: 0 }
    }

    /// The character at offset `at` and the offset behind it, if the text has
    /// not ended there.
    fn decode(&self, at: usize) -> (found: Option<(char, usize)>)
        requires
            at <= self.bytes().len() <= usize::MAX,
            is_char_boundary(self.bytes(), at as int),
        ensures
            at == self.bytes().len() ==> found is None,
            at < self.bytes().len() ==> found == Some(
                (char_at(self.bytes(), at as int), next_at(self.bytes(), at as int) as usize),
            ),
            at < self.bytes().len() ==> at < next_at(self.bytes(), at as int) <= self.bytes().len()
                && is_char_boundary(self.bytes(), next_at(self.bytes(), at as int)),
    {
        let ghost bytes = self.bytes();
        proof {
            encode_utf8_valid_utf8(self.source@);
        }
        let (_, rest) = self.source.split_at(at);
        let mut chars = rest.chars();
        proof {
            vstd::utf8::encode_utf8_decode_utf8(rest@);
            if at < bytes.len() {
                lemma_next_boundary(bytes, at as int);
                encode_utf8_first_scalar(rest@);
                char_u32_cast(rest@[0], rest@[0] as u32);
            } else {
                if rest@.len() > 0 {
                    encode_utf8_first_scalar(rest@);
                }
            }
        }
        match chars.next() {
            Some(c) => {
                let code = c as u32;
                let width: usize = if code < 0x80 {
                    1
                } else if code < 0x800 {
                    2
                } else if code < 0x10000 {
                    3
                } else {
                    4
                };
                Some((c, at + width))
            },
            None => None,
        }
    }

    /// Moves past the next character and returns it; at the end of the text
    /// the cursor stays and [`EOF_CHAR`] is returned.
    pub fn advance(&mut self) -> (c: char)
        requires
            old(self).wf(),
        ensures
            final(self).wf(),
            final(self).moved_from(old(self)),
            c == peek_at(old(self).bytes(), old(self).index as int),
            final(self).index == next_at(old(self).bytes(), old(self).index as int),
    {
        match self.decode(self.index) {
            Some((c, next)) => {
                self.index = next;
                c
            },
            None => EOF_CHAR,
        }
    }

    /// The next character, or [`EOF_CHAR`] at the end of the text.
    pub fn peek_first(&self) -> (c: char)
        requires
            self.wf(),
        ensures
            c == peek_at(self.bytes(), self.index as int),
    {
        match self.decode(self.index) {
            Some((c, _)) => c,
            None => EOF_CHAR,
        }
    }

    /// The character after the next one, or [`EOF_CHAR`] where the text ends
    /// before it.
    pub fn peek_second(&self) -> (c: char)
        requires
            self.wf(),
        ensures
            c == peek_at(self.bytes(), next_at(self.bytes(), self.index as int)),
    {
        match self.decode(self.index) {
            Some((_, next)) => match self.decode(next) {
                Some((c, _)) => c,
                None => EOF_CHAR,
            },
            None => EOF_CHAR,
        }
    }

    /// Advances if the predicate holds of the next character and returns
    /// whether it did. At the end of the text the predicate is asked about
    /// [`EOF_CHAR`].
    pub fn advance_if<F>(&mut self, predicate: F) -> (advanced: bool) where
        F: FnOnce(char) -> bool + Copy,

        requires
            old(self).wf(),
            predicate.requires((peek_at(old(self).bytes(), old(self).index as int),)),
        ensures
            final(self).wf(),
            final(self).moved_from(old(self)),
            predicate.ensures((peek_at(old(self).bytes(), old(self).index as int),), advanced),
            final(self).index == if advanced {
                next_at(old(self).bytes(), old(self).index as int)
            } else {
                old(self).index as int
            },
    {
        let mut advanced = false;
        if predicate(self.peek_first()) {
            self.advance();
            advanced = true;
        }
        advanced
    }

    /// Advances if the next character is `c` and returns whether it is.
    pub fn advance_if_eq(&mut self, c: char) -> (advanced: bool)
        requires
            old(self).wf(),
        ensures
            final(self).wf(),
            final(self).moved_from(old(self)),
            advanced == (peek_at(old(self).bytes(), old(self).index as int) == c),
            final(self).index == if advanced {
                next_at(old(self).bytes(), old(self).index as int)
            } else {
                old(self).index as int
            },
    {
        let mut advanced = false;
        if self.peek_first() == c {
            self.advance();
            advanced = true;
        }
        advanced
    }

    /// Advances while the predicate holds of the next character and returns
    /// whether the cursor moved. The cursor stops at the end of the text and
    /// before a NUL character.
    pub fn advance_while<F>(&mut self, predicate: F) -> (advanced: bool) where
        F: FnOnce(char) -> bool + Copy,

        requires
            old(self).wf(),
            forall|c: char| predicate.requires((c,)),
        ensures
            final(self).wf(),
            final(self).moved_from(old(self)),
            old(self).index <= final(self).index,
            advanced == (old(self).index < final(self).index),
            forall|i: int|
                old(self).index <= i < final(self).index && #[trigger] is_char_boundary(
                    old(self).bytes(),
                    i,
                ) ==> char_at(old(self).bytes(), i) != EOF_CHAR && predicate.ensures(
                    (char_at(old(self).bytes(), i),),
                    true,
                ),
            peek_at(final(self).bytes(), final(self).index as int) == EOF_CHAR
                || predicate.ensures(
                (peek_at(final(self).bytes(), final(self).index as int),),
                false,
            ),
            forall|p: spec_fn(char) -> bool| #[trigger]
                decides(predicate, p) ==> final(self).index == run_end(
                    old(self).bytes(),
                    old(self).index as int,
                    p,
                ),
    {
        let mut advanced = false;
        while !self.is_at_end()
            invariant
                self.wf(),
                self.moved_from(old(self)),
                old(self).index <= self.index,
                advanced == (old(self).index < self.index),
                forall|c: char| predicate.requires((c,)),
                forall|i: int|
                    old(self).index <= i < self.index && #[trigger] is_char_boundary(
                        self.bytes(),
                        i,
                    ) ==> char_at(self.bytes(), i) != EOF_CHAR && predicate.ensures(
                        (char_at(self.bytes(), i),),
                        true,
                    ),
                forall|p: spec_fn(char) -> bool| #[trigger]
                    decides(predicate, p) ==> run_end(self.bytes(), self.index as int, p)
                        == run_end(old(self).bytes(), old(self).index as int, p),
            decreases self.bytes().len() - self.index,
        {
            let ghost before = self.index as int;
            if !predicate(self.peek_first()) {
                return advanced;
            }
            proof {
                encode_utf8_valid_utf8(self.source@);
                lemma_no_boundary_inside(self.bytes(), before);
            }
            self.advance();
            advanced = true;
        }
        advanced
    }

    /// Whether nothing is left to scan: the text has ended, or the next
    /// character is NUL.
    pub fn is_at_end(&self) -> (ended: bool)
        requires
            self.wf(),
        ensures
            ended == (peek_at(self.bytes(), self.index as int) == EOF_CHAR),
    {
        self.peek_first() == EOF_CHAR
    }

    /// Offset at which the piece under the cursor starts.
    pub fn start_index(&self) -> (start: usize)
        ensures
            start == self.start,
    {
        self.start
    }

    /// Starts a new piece at the cursor and returns where the old one
    /// started.
    pub fn reset_start_index(&mut self) -> (start: usize)
        requires
            old(self).wf(),
        ensures
            final(self).wf(),
            start == old(self).start,
            final(self).source == old(self).source,
            final(self).index == old(self).index,
            final(self).start == old(self).index,
    {
        let start = self.start;
        self.start = self.current_index();
        start
    }

    /// Offset of the next character.
    pub fn current_index(&self) -> (index: usize)
        ensures
            index == self.index,
    {
        self.index
    }

    /// The piece under the cursor.
    pub fn slice(&self) -> (piece: &'a str)
        requires
            self.wf(),
        ensures
            piece.spec_bytes() == self.bytes().subrange(self.start as int, self.index as int),
    {
        Span::new(self.start_index(), self.current_index()).slice(self.source)
    }

    /// The span of the piece under the cursor.
    pub fn span(&mut self) -> (span: Span)
        ensures
            *final(self) == *old(self),
            span == (Span { start: old(self).start, end: old(self).index }),
    {
        Span::new(self.start, self.current_index())
    }

    /// The span of the piece under the cursor; a new piece starts at the
    /// cursor.
    pub fn reset_span(&mut self) -> (span: Span)
        requires
            old(self).wf(),
        ensures
            final(self).wf(),
            span == (Span { start: old(self).start, end: old(self).index }),
            final(self).source == old(self).source,
            final(self).index == old(self).index,
            final(self).start == old(self).index,
    {
        Span::new(self.reset_start_index(), self.current_index())
    }
}

} // verus!
