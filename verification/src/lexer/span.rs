//! Half-open byte ranges into the source text.

use vstd::prelude::*;
use vstd::string::StringSliceAdditionalSpecFns;
use vstd::utf8::{
    encode_utf8_valid_utf8, is_char_boundary, is_char_boundary_iff_not_is_continuation_byte,
    is_char_boundary_start_end_of_seq, is_continuation_byte, valid_utf8, valid_utf8_split,
};

verus! {

/// A character boundary of a text is one of every prefix that reaches it.
pub proof fn lemma_boundary_in_prefix(bytes: Seq<u8>, start: int, end: int)
    requires
        valid_utf8(bytes),
        0 <= start <= end <= bytes.len(),
        is_char_boundary(bytes, start),
        is_char_boundary(bytes, end),
    ensures
        valid_utf8(bytes.subrange(0, end)),
        is_char_boundary(bytes.subrange(0, end), start),
{
    let head = bytes.subrange(0, end);
    valid_utf8_split(bytes, end);
    if start < end {
        is_char_boundary_iff_not_is_continuation_byte(bytes, start);
        is_char_boundary_iff_not_is_continuation_byte(head, start);
    } else {
        is_char_boundary_start_end_of_seq(head);
    }
}

/// The byte that ends a line.
pub const LINE_FEED: u8 = 0x0A;

/// Number of line feeds in a text.
pub open spec fn newlines(bytes: Seq<u8>) -> nat
    decreases bytes.len(),
{
    if bytes.len() == 0 {
        0
    } else {
        newlines(bytes.drop_last()) + if bytes.last() == LINE_FEED {
            1nat
        } else {
            0nat
        }
    }
}

/// The offset at which the line begins that holds the byte offset `at`:
/// behind the last line feed before `at`, or the start of the text.
pub open spec fn line_start(bytes: Seq<u8>, at: int) -> int
    decreases at,
{
    if at <= 0 || at > bytes.len() {
        0
    } else if bytes[at - 1] == LINE_FEED {
        at
    } else {
        line_start(bytes, at - 1)
    }
}

/// Number of characters in a piece of text: each character has one byte that
/// is no continuation byte, its first.
pub open spec fn characters(bytes: Seq<u8>) -> nat
    decreases bytes.len(),
{
    if bytes.len() == 0 {
        0
    } else {
        characters(bytes.drop_first()) + if is_continuation_byte(bytes.first()) {
            0nat
        } else {
            1nat
        }
    }
}

/// The characters of two pieces of text add up.
pub proof fn lemma_characters_add(first: Seq<u8>, second: Seq<u8>)
    ensures
        characters(first + second) == characters(first) + characters(second),
    decreases first.len(),
{
    if first.len() == 0 {
    } else {
        assert((first + second).drop_first() =~= first.drop_first() + second);
        lemma_characters_add(first.drop_first(), second);
    }
}

/// [`characters`] counts the characters of a text: the encoding of a sequence
/// of characters has as many as the sequence is long.
pub proof fn lemma_characters_of_text(chars: Seq<char>)
    ensures
        characters(vstd::utf8::encode_utf8(chars)) == chars.len(),
    decreases chars.len(),
{
    if chars.len() > 0 {
        let bytes = vstd::utf8::encode_utf8(chars);
        let rest = vstd::utf8::encode_utf8(chars.drop_first());
        let head = vstd::utf8::encode_scalar(chars[0] as u32);
        vstd::utf8::encode_utf8_first_scalar(chars);
        assert(bytes.subrange(0, head.len() as int) =~= head);
        lemma_characters_add(head, rest);
        lemma_characters_of_text(chars.drop_first());
        reveal_with_fuel(characters, 5);
        let one = head.drop_first();
        let two = one.drop_first();
        let three = two.drop_first();
        assert(head[0] == bytes[0]);
        if head.len() > 1 {
            assert(one[0] == bytes[1]);
        }
        if head.len() > 2 {
            assert(two[0] == bytes[2]);
        }
        if head.len() > 3 {
            assert(three[0] == bytes[3]);
        }
        assert(characters(head) == 1);
    }
}

/// A region of the source text, as a half-open interval of byte offsets.
#[derive(Debug, PartialEq, Eq, Clone, Copy, Structural)]
pub struct Span {
    /// Offset of the first byte of the region.
    pub start: usize,
    /// Offset one past the last byte of the region.
    pub end: usize,
}

impl Span {
    /// A span is well formed when it does not end before it starts.
    pub open spec fn wf(self) -> bool {
        self.start <= self.end
    }

    /// The span marks a piece of the text `bytes`: it lies within the text
    /// and cuts no character in two.
    pub open spec fn fits(self, bytes: Seq<u8>) -> bool {
        &&& self.start <= self.end <= bytes.len()
        &&& is_char_boundary(bytes, self.start as int)
        &&& is_char_boundary(bytes, self.end as int)
    }

    pub fn new(start: usize, end: usize) -> (span: Span)
        ensures
            span == (Span { start, end }),
    {
        Span { start, end }
    }

    /// The span that reaches from the start of `start` to the end of `end`.
    pub fn between(start: Span, end: Span) -> (span: Span)
        ensures
            span == (Span { start: start.start, end: end.end }),
    {
        Span { start: start.start, end: end.end }
    }

    pub fn start(&self) -> (start: usize)
        ensures
            start == self.start,
    {
        self.start
    }

    pub fn end(&self) -> (end: usize)
        ensures
            end == self.end,
    {
        self.end
    }

    /// Number of bytes the span covers.
    pub fn len(&self) -> (len: usize)
        requires
            self.wf(),
        ensures
            len == self.end - self.start,
    {
        self.end - self.start
    }

    pub fn is_empty(&self) -> (empty: bool)
        requires
            self.wf(),
        ensures
            empty == (self.start == self.end),
    {
        self.len() == 0
    }

    /// The piece of `source` that the span marks.
    pub fn slice<'a>(self, source: &'a str) -> (piece: &'a str)
        requires
            self.fits(source.spec_bytes()),
        ensures
            piece.spec_bytes() == source.spec_bytes().subrange(self.start as int, self.end as int),
    {
        proof {
            encode_utf8_valid_utf8(source@);
            lemma_boundary_in_prefix(source.spec_bytes(), self.start as int, self.end as int);
        }
        let (head, _) = source.split_at(self.end);
        let (_, piece) = head.split_at(self.start);
        piece
    }

    /// The number of the line on which the span begins. Lines are counted
    /// from one.
    pub fn starting_line_number(self, source: &str) -> (line: usize)
        requires
            self.start <= source.spec_bytes().len(),
            self.start < usize::MAX,
        ensures
            line == newlines(source.spec_bytes().subrange(0, self.start as int)) + 1,
            1 <= line <= self.start + 1,
    {
        let bytes = source.as_bytes();
        let mut count: usize = 0;
        let mut i: usize = 0;
        while i < self.start
            invariant
                i <= self.start <= bytes@.len(),
                count <= i,
                count == newlines(bytes@.subrange(0, i as int)),
            decreases self.start - i,
        {
            assert(bytes@.subrange(0, i + 1).drop_last() =~= bytes@.subrange(0, i as int));
            if bytes[i] == LINE_FEED {
                count = count + 1;
            }
            i = i + 1;
        }
        count + 1
    }

    /// The number of the column in which the span begins: one more than the
    /// number of characters between the start of the line and the span.
    pub fn starting_column_number(self, source: &str) -> (column: usize)
        requires
            self.start <= source.spec_bytes().len(),
            self.start < usize::MAX,
        ensures
            column == characters(
                source.spec_bytes().subrange(
                    line_start(source.spec_bytes(), self.start as int),
                    self.start as int,
                ),
            ) + 1,
            1 <= column <= self.start + 1,
    {
        let bytes = source.as_bytes();
        let mut count: usize = 0;
        let mut i: usize = self.start;
        while i > 0 && bytes[i - 1] != LINE_FEED
            invariant
                i <= self.start <= bytes@.len(),
                count <= self.start - i,
                line_start(bytes@, i as int) == line_start(bytes@, self.start as int),
                count == characters(bytes@.subrange(i as int, self.start as int)),
            decreases i,
        {
            i = i - 1;
            assert(bytes@.subrange(i as int, self.start as int).drop_first() =~= bytes@.subrange(
                i + 1,
                self.start as int,
            ));
            let byte = bytes[i];
            if !(0x80 <= byte && byte <= 0xBF) {
                count = count + 1;
            }
        }
        count + 1
    }
}

} // verus!
