use calculator::lexer::cursor::Cursor;
use calculator::lexer::span::Span;
use calculator::lexer::token::{Token, TokenKind};
use calculator::lexer::{
    is_ascii_digit, is_ascii_whitespace, Lexer, LexicalError, LexicalErrorKind,
};

#[test]
fn number() -> Result<(), LexicalError> {
    let mut lexer = Lexer::new("3");
    assert_eq!(lexer.next_token()?.kind, TokenKind::Number);
    assert_eq!(lexer.next_token()?.kind, TokenKind::Eof);

    let mut lexer = Lexer::new("3.14");
    assert_eq!(lexer.next_token()?.kind, TokenKind::Number);
    assert_eq!(lexer.next_token()?.kind, TokenKind::Eof);

    Ok(())
}

#[test]
fn unexpected() -> Result<(), LexicalError> {
    let mut lexer = Lexer::new("10 + #");
    assert_eq!(lexer.next_token()?.kind, TokenKind::Number);
    assert_eq!(lexer.next_token()?.kind, TokenKind::Plus);
    assert!(lexer.next_token().is_err());
    assert_eq!(lexer.next_token()?.kind, TokenKind::Eof);

    Ok(())
}

#[test]
fn number_lexeme_is_the_whole_literal() {
    for literal in ["3", "3.14", "0", "007", "10.5", "123456789.987654321"] {
        let mut lexer = Lexer::new(literal);
        let token = lexer.next_token().unwrap();
        assert_eq!(token.kind, TokenKind::Number);
        assert_eq!(token.lexeme, literal);
        assert_eq!(token.span, Span::new(0, literal.len()));
        let end = lexer.next_token().unwrap();
        assert_eq!(end.kind, TokenKind::Eof);
        assert_eq!(end.span, Span::new(literal.len(), literal.len()));
    }
}

#[test]
fn unexpected_character_carries_its_span() {
    let mut lexer = Lexer::new("10 + #");
    let ten = lexer.next_token().unwrap();
    assert_eq!(ten.lexeme, "10");
    assert_eq!(ten.span, Span::new(0, 2));
    let plus = lexer.next_token().unwrap();
    assert_eq!(plus.lexeme, "+");
    assert_eq!(plus.span, Span::new(3, 4));
    let error = lexer.next_token().unwrap_err();
    assert_eq!(error.kind, LexicalErrorKind::Unexpected);
    assert_eq!(error.span, Span::new(5, 6));
    let end = lexer.next_token().unwrap();
    assert_eq!(end.kind, TokenKind::Eof);
    assert_eq!(end.span, Span::new(6, 6));
}

#[test]
fn point_without_digit_is_not_part_of_the_number() {
    let mut lexer = Lexer::new("3.");
    let three = lexer.next_token().unwrap();
    assert_eq!(three.kind, TokenKind::Number);
    assert_eq!(three.lexeme, "3");
    let point = lexer.next_token().unwrap_err();
    assert_eq!(point.kind, LexicalErrorKind::Unexpected);
    assert_eq!(point.span, Span::new(1, 2));
    assert_eq!(lexer.next_token().unwrap().kind, TokenKind::Eof);
}

#[test]
fn second_point_ends_the_number() {
    let mut lexer = Lexer::new("1.2.3");
    let first = lexer.next_token().unwrap();
    assert_eq!(first.lexeme, "1.2");
    assert!(lexer.next_token().is_err());
    let last = lexer.next_token().unwrap();
    assert_eq!(last.lexeme, "3");
    assert_eq!(last.span, Span::new(4, 5));
}

#[test]
fn single_character_tokens() {
    let mut lexer = Lexer::new("();*/%+-");
    let kinds = [
        TokenKind::LParen,
        TokenKind::RParen,
        TokenKind::Semicolon,
        TokenKind::Star,
        TokenKind::Slash,
        TokenKind::Percent,
        TokenKind::Plus,
        TokenKind::Minus,
    ];
    for (i, kind) in kinds.iter().enumerate() {
        let token = lexer.next_token().unwrap();
        assert_eq!(token.kind, *kind);
        assert_eq!(token.span, Span::new(i, i + 1));
        assert_eq!(token.lexeme, &"();*/%+-"[i..i + 1]);
    }
    assert_eq!(lexer.next_token().unwrap().kind, TokenKind::Eof);
}

#[test]
fn whitespace_is_skipped() {
    let mut lexer = Lexer::new(" \t\r\n\x0C42 \n ");
    let token = lexer.next_token().unwrap();
    assert_eq!(token.kind, TokenKind::Number);
    assert_eq!(token.lexeme, "42");
    assert_eq!(token.span, Span::new(5, 7));
    let end = lexer.next_token().unwrap();
    assert_eq!(end.kind, TokenKind::Eof);
    assert_eq!(end.span, Span::new(10, 10));
    assert_eq!(end.lexeme, "");
}

#[test]
fn vertical_tab_is_no_whitespace() {
    let mut lexer = Lexer::new("\x0B1");
    let error = lexer.next_token().unwrap_err();
    assert_eq!(error.span, Span::new(0, 1));
    assert_eq!(lexer.next_token().unwrap().lexeme, "1");
}

#[test]
fn eof_is_repeated() {
    let mut lexer = Lexer::new("");
    for _ in 0..5 {
        let token = lexer.next_token().unwrap();
        assert_eq!(token.kind, TokenKind::Eof);
        assert_eq!(token.span, Span::new(0, 0));
        assert!(token.span.is_empty());
    }
}

#[test]
fn wide_character_is_one_error() {
    let source = "1 \u{e9} 2 \u{1F600}3";
    let mut lexer = Lexer::new(source);
    assert_eq!(lexer.next_token().unwrap().lexeme, "1");
    let error = lexer.next_token().unwrap_err();
    assert_eq!(error.span, Span::new(2, 4));
    assert_eq!(error.span.slice(source), "\u{e9}");
    assert_eq!(lexer.next_token().unwrap().lexeme, "2");
    let error = lexer.next_token().unwrap_err();
    assert_eq!(error.span, Span::new(7, 11));
    let three = lexer.next_token().unwrap();
    assert_eq!(three.lexeme, "3");
    assert_eq!(three.span, Span::new(11, 12));
    assert_eq!(lexer.next_token().unwrap().kind, TokenKind::Eof);
}

#[test]
fn nul_character_is_an_error_and_not_the_end() {
    let mut lexer = Lexer::new("1\0 2");
    assert_eq!(lexer.next_token().unwrap().lexeme, "1");
    let error = lexer.next_token().unwrap_err();
    assert_eq!(error.kind, LexicalErrorKind::Unexpected);
    assert_eq!(error.span, Span::new(1, 2));
    assert_eq!(lexer.next_token().unwrap().lexeme, "2");
    let end = lexer.next_token().unwrap();
    assert_eq!(end.kind, TokenKind::Eof);
    assert!(end.span.is_empty());
}

#[test]
fn character_classes() {
    for c in [' ', '\t', '\n', '\x0C', '\r'] {
        assert!(is_ascii_whitespace(c));
        assert!(c.is_ascii_whitespace());
    }
    for c in ['\x0B', 'a', '0', '\0', '\u{a0}'] {
        assert!(!is_ascii_whitespace(c));
    }
    for c in '\0'..='\u{ff}' {
        assert_eq!(is_ascii_digit(c), c.is_ascii_digit());
        assert_eq!(is_ascii_whitespace(c), c.is_ascii_whitespace());
    }
}

#[test]
fn token_kind_text() {
    assert_eq!(TokenKind::LParen.to_string(), "'('");
    assert_eq!(TokenKind::RParen.to_string(), "')'");
    assert_eq!(TokenKind::Semicolon.to_string(), "';'");
    assert_eq!(TokenKind::Number.to_string(), "<number>");
    assert_eq!(TokenKind::Plus.to_string(), "'+'");
    assert_eq!(TokenKind::Minus.to_string(), "'-'");
    assert_eq!(TokenKind::Star.to_string(), "'*'");
    assert_eq!(TokenKind::Slash.to_string(), "'/'");
    assert_eq!(TokenKind::Percent.to_string(), "'%'");
    assert_eq!(TokenKind::Dummy.to_string(), "'<dummy>'");
    assert_eq!(TokenKind::Eof.to_string(), "<eof>");
}

#[test]
fn token_kind_uniformity() {
    assert!(!TokenKind::Number.is_uniform());
    for kind in [
        TokenKind::LParen,
        TokenKind::RParen,
        TokenKind::Semicolon,
        TokenKind::Plus,
        TokenKind::Minus,
        TokenKind::Star,
        TokenKind::Slash,
        TokenKind::Percent,
        TokenKind::Dummy,
        TokenKind::Eof,
    ] {
        assert!(kind.is_uniform());
    }
}

#[test]
fn dummy_token() {
    let token = Token::dummy();
    assert_eq!(token.kind, TokenKind::Dummy);
    assert_eq!(token.lexeme, "");
    assert_eq!(token.span, Span::new(0, 0));
}

#[test]
fn span_accessors() {
    let span = Span::new(3, 8);
    assert_eq!(span.start(), 3);
    assert_eq!(span.end(), 8);
    assert_eq!(span.len(), 5);
    assert!(!span.is_empty());
    assert!(Span::new(4, 4).is_empty());
    assert_eq!(Span::new(4, 4).len(), 0);
    let joined = Span::between(Span::new(1, 2), Span::new(5, 9));
    assert_eq!(joined, Span::new(1, 9));
}

#[test]
fn span_slice() {
    let source = "ab \u{e9}cd";
    assert_eq!(Span::new(0, 2).slice(source), "ab");
    assert_eq!(Span::new(3, 5).slice(source), "\u{e9}");
    assert_eq!(Span::new(3, 7).slice(source), "\u{e9}cd");
    assert_eq!(Span::new(7, 7).slice(source), "");
    assert_eq!(Span::new(0, 7).slice(source), source);
}

#[test]
fn span_line_and_column() {
    let source = "1 +\n  2 *\n\u{e9}\u{e9} 3\n";
    assert_eq!(Span::new(0, 1).starting_line_number(source), 1);
    assert_eq!(Span::new(0, 1).starting_column_number(source), 1);
    assert_eq!(Span::new(2, 3).starting_line_number(source), 1);
    assert_eq!(Span::new(2, 3).starting_column_number(source), 3);
    // The line feed itself still belongs to the first line.
    assert_eq!(Span::new(3, 4).starting_line_number(source), 1);
    assert_eq!(Span::new(3, 4).starting_column_number(source), 4);
    assert_eq!(Span::new(6, 7).starting_line_number(source), 2);
    assert_eq!(Span::new(6, 7).starting_column_number(source), 3);
    // Two characters of two bytes each stand before the 3.
    assert_eq!(Span::new(15, 16).slice(source), "3");
    assert_eq!(Span::new(15, 16).starting_line_number(source), 3);
    assert_eq!(Span::new(15, 16).starting_column_number(source), 4);
    let end = Span::new(source.len(), source.len());
    assert_eq!(end.starting_line_number(source), 4);
    assert_eq!(end.starting_column_number(source), 1);
}

#[test]
fn cursor_walks_characters() {
    let mut cursor = Cursor::new("a\u{e9}b");
    assert_eq!(cursor.current_index(), 0);
    assert_eq!(cursor.start_index(), 0);
    assert_eq!(cursor.peek_first(), 'a');
    assert_eq!(cursor.peek_second(), '\u{e9}');
    assert!(!cursor.is_at_end());
    assert_eq!(cursor.advance(), 'a');
    assert_eq!(cursor.current_index(), 1);
    assert_eq!(cursor.peek_first(), '\u{e9}');
    assert_eq!(cursor.peek_second(), 'b');
    assert_eq!(cursor.advance(), '\u{e9}');
    assert_eq!(cursor.current_index(), 3);
    assert_eq!(cursor.peek_second(), Cursor::EOF_CHAR);
    assert_eq!(cursor.slice(), "a\u{e9}");
    assert_eq!(cursor.span(), Span::new(0, 3));
    assert_eq!(cursor.advance(), 'b');
    assert!(cursor.is_at_end());
    assert_eq!(cursor.peek_first(), Cursor::EOF_CHAR);
    assert_eq!(cursor.advance(), Cursor::EOF_CHAR);
    assert_eq!(cursor.current_index(), 4);
}

#[test]
fn cursor_pieces() {
    let mut cursor = Cursor::new("12+3");
    assert!(cursor.advance_while(|c| c.is_ascii_digit()));
    assert_eq!(cursor.slice(), "12");
    assert_eq!(cursor.reset_span(), Span::new(0, 2));
    assert_eq!(cursor.start_index(), 2);
    assert_eq!(cursor.slice(), "");
    assert!(!cursor.advance_while(|c| c.is_ascii_digit()));
    assert!(!cursor.advance_if_eq('-'));
    assert!(cursor.advance_if_eq('+'));
    assert_eq!(cursor.reset_start_index(), 2);
    assert_eq!(cursor.start_index(), 3);
    assert!(!cursor.advance_if(|c| c == 'x'));
    assert!(cursor.advance_if(|c| c == '3'));
    assert_eq!(cursor.slice(), "3");
    assert!(!cursor.advance_while(|_| true));
    assert!(cursor.is_at_end());
}

#[test]
fn cursor_stops_before_nul() {
    let mut cursor = Cursor::new("ab\0cd");
    assert!(cursor.advance_while(|_| true));
    assert_eq!(cursor.current_index(), 2);
    assert!(cursor.is_at_end());
    assert_eq!(cursor.advance(), '\0');
    assert_eq!(cursor.current_index(), 3);
    assert!(!cursor.is_at_end());
}
