//! Where an error is to be shown: the line and column of a span, the line of
//! source text that holds it, and the marks that point at it.
//!
//! The library computes the layout; printing it is left to the caller.

use crate::lexer::span::{characters, line_start, newlines, Span, LINE_FEED};
use vstd::prelude::*;
use vstd::string::StringSliceAdditionalSpecFns;
use vstd::utf8::{
    encode_utf8_valid_utf8, is_char_boundary, is_char_boundary_iff_not_is_continuation_byte,
    is_char_boundary_start_end_of_seq, valid_utf8,
};

verus! {

/// The byte that, before a line feed, belongs to the end of the line.
pub const CARRIAGE_RETURN: u8 = 0x0D;

/// Number of decimal digits of a number.
pub open spec fn digits(n: nat) -> nat
    decreases n,
{
    if n < 10 {
        1
    } else {
        1 + digits(n / 10)
    }
}

/// The offset of the first line feed at or behind the byte offset `at`, or
/// the length of the text if there is none.
pub open spec fn line_end(bytes: Seq<u8>, at: int) -> int
    decreases bytes.len() - at,
{
    if at < 0 || at >= bytes.len() {
        bytes.len() as int
    } else if bytes[at] == LINE_FEED {
        at
    } else {
        line_end(bytes, at + 1)
    }
}

/// The line that holds the byte offset `at`, without the line feed, or the
/// carriage return and line feed, that ends it.
pub open spec fn line_of(bytes: Seq<u8>, at: int) -> Span {
    let start = line_start(bytes, at);
    let end = line_end(bytes, at);
    if end < bytes.len() && start < end && bytes[end - 1] == CARRIAGE_RETURN {
        Span { start: start as usize, end: (end - 1) as usize }
    } else {
        Span { start: start as usize, end: end as usize }
    }
}

/// How an error at a span is shown under the line of source text that holds
/// it.
#[derive(Debug, Clone, Copy, PartialEq, Eq, Structural)]
pub struct Layout {
    /// The line on which the span begins, counted from one.
    pub line: usize,
    /// The column in which the span begins, counted from one.
    pub column: usize,
    /// The line of source text, without its end.
    pub text: Span,
    /// Number of blanks that stand before the marks: as wide as the line and
    /// column numbers with their three separators, and the text before the
    /// span.
    pub indent: usize,
    /// Number of marks: one for each byte of the span.
    pub marks: usize,
}

/// The layout for a span of the text `bytes` that is not empty.
pub open spec fn layout_of(bytes: Seq<u8>, span: Span) -> Layout {
    let line = newlines(bytes.subrange(0, span.start as int)) + 1;
    let column = characters(
        bytes.subrange(line_start(bytes, span.start as int), span.start as int),
    ) + 1;
    Layout {
        line: line as usize,
        column: column as usize,
        text: line_of(bytes, span.start as int),
        indent: (3 + digits(line) + digits(column) + (column - 1)) as usize,
        marks: (span.end - span.start) as usize,
    }
}

/// Counts the decimal digits of `n`.
pub fn digit_count(n: u32) -> (count: u32)
    requires
        n > 0,
    ensures
        count == digits(n as nat),
        1 <= count <= 10,
{
    let mut count: u32 = 1;
    let mut rest: u32 = n;
    proof {
        reveal_with_fuel(digits, 11);
    }
    while rest >= 10
        invariant
            digits(n as nat) == digits(rest as nat) + count - 1,
            1 <= count <= 10,
            count <= digits(n as nat),
            digits(n as nat) <= 10,
        decreases rest,
    {
        rest = rest / 10;
        count = count + 1;
    }
    count
}

/// The line of `source` that holds the byte offset `at`.
pub fn line_span(source: &str, at: usize) -> (line: Span)
    requires
        at <= source.spec_bytes().len(),
    ensures
        line == line_of(source.spec_bytes(), at as int),
        line.fits(source.spec_bytes()),
        line.start <= at,
{
    let bytes = source.as_bytes();
    proof {
        encode_utf8_valid_utf8(source@);
        is_char_boundary_start_end_of_seq(bytes@);
    }
    let mut start: usize = at;
    while start > 0 && bytes[start - 1] != LINE_FEED
        invariant
            start <= at <= bytes@.len(),
            line_start(bytes@, start as int) == line_start(bytes@, at as int),
        decreases start,
    {
        start = start - 1;
    }
    let mut end: usize = at;
    while end < bytes.len() && bytes[end] != LINE_FEED
        invariant
            at <= end <= bytes@.len(),
            line_end(bytes@, end as int) == line_end(bytes@, at as int),
        decreases bytes@.len() - end,
    {
        end = end + 1;
    }
    if end < bytes.len() && start < end && bytes[end - 1] == CARRIAGE_RETURN {
        end = end - 1;
    }
    proof {
        if 0 < start < bytes@.len() {
            lemma_boundary_behind_ascii(bytes@, start - 1);
        }
        if end < bytes@.len() {
            is_char_boundary_iff_not_is_continuation_byte(bytes@, end as int);
        }
    }
    Span::new(start, end)
}

/// In a text, an ASCII byte is a character of its own: a character begins at
/// it and another, or the end of the text, behind it.
pub proof fn lemma_boundary_behind_ascii(bytes: Seq<u8>, i: int)
    requires
        valid_utf8(bytes),
        0 <= i < bytes.len(),
        bytes[i] < 0x80,
    ensures
        is_char_boundary(bytes, i),
        is_char_boundary(bytes, i + 1),
{
    is_char_boundary_iff_not_is_continuation_byte(bytes, i);
    crate::lexer::cursor::lemma_next_boundary(bytes, i);
}

/// The layout for showing an error at `span`, or nothing for an empty span,
/// which stands for the end of the text. Line and column numbers are counted
/// in 32 bits: the text may not be longer than `i32::MAX` bytes.
pub fn layout(span: Span, source: &str) -> (layout: Option<Layout>)
    requires
        span.start <= span.end <= source.spec_bytes().len() <= i32::MAX,
    ensures
        match layout {
            None => span.start == span.end,
            Some(layout) => {
                &&& span.start < span.end
                &&& layout == layout_of(source.spec_bytes(), span)
                &&& layout.text.fits(source.spec_bytes())
            },
        },
{
    if span.is_empty() {
        return None;
    }
    let line = span.starting_line_number(source);
    let column = span.starting_column_number(source);
    let margin_width = 3 + digit_count(line as u32) + digit_count(column as u32);
    Some(
        Layout {
            line,
            column,
            text: line_span(source, span.start()),
            indent: margin_width as usize + (column - 1),
            marks: span.len(),
        },
    )
}

} // verus!
