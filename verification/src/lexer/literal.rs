//! Number literals: what they are, and that they are just what the lexer
//! takes for numbers.

use crate::lexer::cursor::{
    char_at, lemma_next_boundary, lemma_run_end, next_at, peek_at, run_end,
};
use crate::lexer::span::Span;
use crate::lexer::token::TokenKind;
use crate::lexer::{
    digit, is_digit, lemma_scan_bounds, number_end, scan, space, Lexed, LexicalErrorKind,
};
use vstd::prelude::*;
use vstd::utf8::{is_char_boundary, valid_utf8};

verus! {

/// The bytes that encode the ASCII digits.
pub open spec fn is_digit_byte(b: u8) -> bool {
    0x30 <= b <= 0x39
}

/// The offset at which the run of digit bytes ends that starts at byte `i`.
pub open spec fn digits_end(text: Seq<u8>, i: int) -> int
    decreases text.len() - i,
{
    if 0 <= i < text.len() && is_digit_byte(text[i]) {
        digits_end(text, i + 1)
    } else {
        i
    }
}

/// The text is a number literal: one or more digits, which a point and one or
/// more digits may follow.
pub open spec fn is_literal(text: Seq<u8>) -> bool {
    let whole = digits_end(text, 0);
    &&& 1 <= whole
    &&& whole == text.len() || {
        &&& text[whole] == 0x2E
        &&& whole + 1 < text.len()
        &&& digits_end(text, whole + 1) == text.len()
    }
}

/// A run of digit bytes ends within the text, behind nothing but digits and
/// before a byte that is none.
pub proof fn lemma_digits_end(text: Seq<u8>, i: int)
    requires
        0 <= i <= text.len(),
    ensures
        i <= digits_end(text, i) <= text.len(),
        forall|k: int| i <= k < digits_end(text, i) ==> is_digit_byte(#[trigger] text[k]),
        digits_end(text, i) < text.len() ==> !is_digit_byte(text[digits_end(text, i)]),
    decreases text.len() - i,
{
    if i < text.len() && is_digit_byte(text[i]) {
        lemma_digits_end(text, i + 1);
    }
}

/// A piece of the text that holds a whole run of digit bytes has the same
/// run.
pub proof fn lemma_digits_end_of_piece(text: Seq<u8>, from: int, to: int, i: int)
    requires
        0 <= from <= i <= to <= text.len(),
        digits_end(text, i) <= to,
    ensures
        digits_end(text.subrange(from, to), i - from) == digits_end(text, i) - from,
    decreases text.len() - i,
{
    lemma_digits_end(text, i);
    if i < to {
        if is_digit_byte(text[i]) {
            lemma_digits_end_of_piece(text, from, to, i + 1);
        }
    }
}

/// In a text, an ASCII byte on a character boundary is a character of its
/// own, and the next byte begins a character.
pub proof fn lemma_ascii_char(bytes: Seq<u8>, i: int)
    requires
        valid_utf8(bytes),
        is_char_boundary(bytes, i),
        0 <= i < bytes.len(),
    ensures
        bytes[i] < 0x80 ==> char_at(bytes, i) as u32 == bytes[i] && next_at(bytes, i) == i + 1
            && is_char_boundary(bytes, i + 1),
        bytes[i] >= 0x80 ==> char_at(bytes, i) as u32 >= 0x80,
        is_digit(char_at(bytes, i)) <==> is_digit_byte(bytes[i]),
        i < next_at(bytes, i) <= bytes.len(),
        is_char_boundary(bytes, next_at(bytes, i)),
{
    lemma_next_boundary(bytes, i);
}

/// Over a text, a run of digit characters is a run of digit bytes.
pub proof fn lemma_digit_run(bytes: Seq<u8>, i: int)
    requires
        valid_utf8(bytes),
        is_char_boundary(bytes, i),
        0 <= i <= bytes.len(),
    ensures
        run_end(bytes, i, digit()) == digits_end(bytes, i),
    decreases bytes.len() - i,
{
    if i < bytes.len() {
        lemma_ascii_char(bytes, i);
        if is_digit_byte(bytes[i]) {
            lemma_digit_run(bytes, i + 1);
        }
    }
}

/// The text of a number token is a number literal.
pub proof fn lemma_number_is_literal(bytes: Seq<u8>, pos: int)
    requires
        valid_utf8(bytes),
        is_char_boundary(bytes, pos),
        0 <= pos <= bytes.len() <= usize::MAX,
        scan(bytes, pos).kind == Ok::<TokenKind, LexicalErrorKind>(TokenKind::Number),
    ensures
        is_literal(
            bytes.subrange(scan(bytes, pos).span.start as int, scan(bytes, pos).span.end as int),
        ),
{
    reveal(scan);
    lemma_scan_bounds(bytes, pos);
    lemma_run_end(bytes, pos, space());
    let start = run_end(bytes, pos, space());
    lemma_ascii_char(bytes, start);
    let after = start + 1;
    lemma_digit_run(bytes, after);
    lemma_digits_end(bytes, after);
    let whole = digits_end(bytes, after);
    let end = number_end(bytes, after);
    let text = bytes.subrange(start, end);
    if whole < bytes.len() {
        lemma_run_end(bytes, after, digit());
        lemma_ascii_char(bytes, whole);
    }
    if peek_at(bytes, whole) == '.' && is_digit(peek_at(bytes, next_at(bytes, whole))) {
        lemma_ascii_char(bytes, whole + 1);
        lemma_digit_run(bytes, whole + 1);
        lemma_digits_end(bytes, whole + 1);
        lemma_digits_end_of_piece(bytes, start, end, start);
        lemma_digits_end_of_piece(bytes, start, end, whole + 1);
    } else {
        lemma_digits_end_of_piece(bytes, start, end, start);
    }
}

/// A text that is a number literal is one number token: the lexer finds a
/// number that covers the whole text, and the end of the text behind it.
pub proof fn lemma_literal_is_one_number(bytes: Seq<u8>)
    requires
        valid_utf8(bytes),
        bytes.len() <= usize::MAX,
        is_literal(bytes),
    ensures
        scan(bytes, 0) == (Lexed {
            kind: Ok(TokenKind::Number),
            span: Span { start: 0, end: bytes.len() as usize },
        }),
        scan(bytes, bytes.len() as int) == (Lexed {
            kind: Ok(TokenKind::Eof),
            span: Span { start: bytes.len() as usize, end: bytes.len() as usize },
        }),
{
    reveal(scan);
    let len = bytes.len() as int;
    vstd::utf8::is_char_boundary_start_end_of_seq(bytes);
    lemma_digits_end(bytes, 0);
    let whole = digits_end(bytes, 0);
    lemma_ascii_char(bytes, 0);
    lemma_digit_run(bytes, 1);
    if whole < len {
        vstd::utf8::is_char_boundary_iff_not_is_continuation_byte(bytes, whole);
        lemma_ascii_char(bytes, whole);
        lemma_digits_end(bytes, whole + 1);
        lemma_ascii_char(bytes, whole + 1);
        lemma_digit_run(bytes, whole + 1);
    }
}

} // verus!
