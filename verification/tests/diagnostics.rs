use calculator::diagnostics::{digit_count, layout, line_span, Layout};
use calculator::lexer::span::Span;

#[test]
fn digits_are_counted() {
    assert_eq!(digit_count(1), 1);
    assert_eq!(digit_count(9), 1);
    assert_eq!(digit_count(10), 2);
    assert_eq!(digit_count(99), 2);
    assert_eq!(digit_count(100), 3);
    assert_eq!(digit_count(65535), 5);
    assert_eq!(digit_count(999_999_999), 9);
    assert_eq!(digit_count(1_000_000_000), 10);
    assert_eq!(digit_count(u32::MAX), 10);
    for n in [1u32, 7, 10, 11, 12345, 4_000_000_000] {
        assert_eq!(digit_count(n), n.ilog10() + 1);
    }
}

#[test]
fn lines_are_found() {
    let source = "first\nsecond\r\nthird";
    assert_eq!(line_span(source, 0).slice(source), "first");
    assert_eq!(line_span(source, 3).slice(source), "first");
    assert_eq!(line_span(source, 5).slice(source), "first");
    assert_eq!(line_span(source, 6).slice(source), "second");
    assert_eq!(line_span(source, 12).slice(source), "second");
    assert_eq!(line_span(source, 14).slice(source), "third");
    assert_eq!(line_span(source, source.len()).slice(source), "third");
    let lines: Vec<&str> = source.lines().collect();
    assert_eq!(lines, vec!["first", "second", "third"]);
}

#[test]
fn carriage_return_alone_ends_no_line() {
    let source = "a\rb\r";
    assert_eq!(line_span(source, 2).slice(source), "a\rb\r");
    assert_eq!(source.lines().next(), Some("a\rb\r"));
}

#[test]
fn empty_span_has_no_layout() {
    assert_eq!(layout(Span::new(5, 5), "1 + 2"), None);
    assert_eq!(layout(Span::new(0, 0), ""), None);
}

#[test]
fn layout_points_at_the_span() {
    let source = "1 + 2;\n3 + @@ 4;\n";
    let span = Span::new(11, 13);
    assert_eq!(span.slice(source), "@@");
    let found = layout(span, source).unwrap();
    assert_eq!(
        found,
        Layout { line: 2, column: 5, text: Span::new(7, 16), indent: 3 + 1 + 1 + 4, marks: 2 }
    );
    assert_eq!(found.text.slice(source), "3 + @@ 4;");
    assert_eq!(source.lines().nth(found.line - 1), Some("3 + @@ 4;"));
}

#[test]
fn layout_counts_characters_and_bytes() {
    let source = "\u{e9}\u{e9}\u{e9} #";
    let found = layout(Span::new(7, 8), source).unwrap();
    assert_eq!(found.line, 1);
    assert_eq!(found.column, 5);
    assert_eq!(found.indent, 3 + 1 + 1 + 4);
    assert_eq!(found.marks, 1);
    // A wide character gets one mark for each of its bytes.
    assert_eq!(layout(Span::new(0, 2), source).unwrap().marks, 2);
}

#[test]
fn layout_widens_with_the_numbers() {
    let mut source = "\n".repeat(99);
    source.push_str("          #");
    let at = source.len() - 1;
    let found = layout(Span::new(at, at + 1), &source).unwrap();
    assert_eq!(found.line, 100);
    assert_eq!(found.column, 11);
    assert_eq!(found.indent, 3 + 3 + 2 + 10);
    assert_eq!(found.text.slice(&source), "          #");
}
