use runic::error::Error;
use runic::source::Source;
use runic::span::Span;

#[test]
fn test_error_display_single_line() {
    let source = Source::from_str(
        "test.rs",
        "fn main() {\n    println!(\"Hello, world!\");\n}",
    );
    let span = Span { start: 12, end: 25 };
    let error = Error::new("Syntax error".to_string(), &source, span)
        .with_context("In function main".to_string())
        .with_note("Check the syntax".to_string());
    let lines = error.render_lines();

    assert_eq!(lines.len(), 8);
    assert_eq!(lines[0], "error: Syntax error");
    assert_eq!(lines[1], " --> test.rs:2:1-13");
    assert_eq!(lines[2], "  |");
    assert_eq!(lines[3], "2 |     println!(\"Hello, world!\");");
    assert_eq!(lines[4], "  | ^^^^^^^^^^^^^");
    assert_eq!(lines[5], "  |");
    assert_eq!(lines[6], "  = In function main");
    assert_eq!(lines[7], "  = note: Check the syntax");
}

#[test]
fn test_error_display_multi_line() {
    let source = Source::from_str(
        "test.rs",
        "fn main() {\n    println!(\"Hello, world!\");\n}",
    );
    let span = Span { start: 12, end: 40 };
    let error = Error::new("Syntax error".to_string(), &source, span)
        .with_context("In function main".to_string())
        .with_note("Check the syntax".to_string());
    let lines = error.render_lines();

    assert_eq!(lines.len(), 8);
    assert_eq!(lines[0], "error: Syntax error");
    assert_eq!(lines[1], " --> test.rs:2:1-28");
    assert_eq!(lines[2], "  |");
    assert_eq!(lines[3], "2 |     println!(\"Hello, world!\");");
    assert_eq!(lines[4], "  | ^^^^^^^^^^^^^^^^^^^^^^^^^^^^");
    assert_eq!(lines[5], "  |");
    assert_eq!(lines[6], "  = In function main");
    assert_eq!(lines[7], "  = note: Check the syntax");
}

#[test]
fn test_single_caret() {
    let source = Source::from_str("f", "abc");
    let error = Error::new("m".to_string(), &source, Span::new(0, 1));
    let lines = error.render_lines();

    assert_eq!(lines.len(), 5);
    assert_eq!(lines[0], "error: m");
    assert_eq!(lines[1], " --> f:1:1");
    assert_eq!(lines[2], "  |");
    assert_eq!(lines[3], "1 | abc");
    assert_eq!(lines[4], "  | ^");
}

#[test]
fn test_caret_count_matches_span_length() {
    let source = Source::from_str("f", "abcdef");
    let error = Error::new("m".to_string(), &source, Span::new(1, 4));
    let lines = error.render_lines();

    assert_eq!(lines.len(), 5);
    assert_eq!(lines[1], " --> f:1:2-4");
    assert_eq!(lines[3], "1 | abcdef");
    assert_eq!(lines[4], "  |  ^^^");
}

#[test]
fn test_two_line_span() {
    let source = Source::from_str("f.txt", "Hello\nWorld");
    let error = Error::new("Oops".to_string(), &source, Span::new(2, 8));
    let lines = error.render_lines();

    assert_eq!(lines.len(), 7);
    assert_eq!(lines[0], "error: Oops");
    assert_eq!(lines[1], " --> f.txt:1:3-2:2");
    assert_eq!(lines[2], "  |");
    assert_eq!(lines[3], "1 | Hello");
    assert_eq!(lines[4], "  |   ^^^");
    assert_eq!(lines[5], "2 | World");
    assert_eq!(lines[6], "  | ^^^");
}

#[test]
fn test_interior_line_fully_underlined() {
    let source = Source::from_str("f", "ab\ncde\nfg");
    let error = Error::new("m".to_string(), &source, Span::new(1, 8));
    let lines = error.render_lines();

    assert_eq!(lines.len(), 9);
    assert_eq!(lines[1], " --> f:1:2-3:1");
    assert_eq!(lines[3], "1 | ab");
    assert_eq!(lines[4], "  |  ^");
    assert_eq!(lines[5], "2 | cde");
    assert_eq!(lines[6], "  | ^^^");
    assert_eq!(lines[7], "3 | fg");
    assert_eq!(lines[8], "  | ^^");
}

#[test]
fn test_span_ending_after_trailing_newline() {
    let source = Source::from_str("f", "ab\n");
    let error = Error::new("m".to_string(), &source, Span::new(0, 3));
    let lines = error.render_lines();

    assert_eq!(lines.len(), 5);
    assert_eq!(lines[1], " --> f:1:1-2:0");
    assert_eq!(lines[3], "1 | ab");
    assert_eq!(lines[4], "  | ^^");
}

#[test]
fn test_two_digit_gutter() {
    let source = Source::from_str("f", "a\nb\nc\nd\ne\nf\ng\nh\ni\nj");
    let error = Error::new("m".to_string(), &source, Span::new(18, 19));
    let lines = error.render_lines();

    assert_eq!(lines.len(), 5);
    assert_eq!(lines[0], "error: m");
    assert_eq!(lines[1], "  --> f:10:1");
    assert_eq!(lines[2], "   |");
    assert_eq!(lines[3], "10 | j");
    assert_eq!(lines[4], "   | ^");
}

#[test]
fn test_context_and_notes_in_order() {
    let source = Source::from_str("f", "abc");
    let error = Error::new("m".to_string(), &source, Span::new(0, 2))
        .with_context("first".to_string())
        .with_context("second".to_string())
        .with_note("a note".to_string())
        .with_note("another".to_string());
    let lines = error.render_lines();

    assert_eq!(lines.len(), 10);
    assert_eq!(lines[5], "  |");
    assert_eq!(lines[6], "  = first");
    assert_eq!(lines[7], "  = second");
    assert_eq!(lines[8], "  = note: a note");
    assert_eq!(lines[9], "  = note: another");
}
