use runic::span::{Span, location_to_line_col};

#[test]
fn test_span_new() {
    let span = Span::new(5, 10);
    assert_eq!(span.start, 5);
    assert_eq!(span.end, 10);
}

#[test]
fn test_location_to_line_col() {
    let source = "Hello\nWorld";
    assert_eq!(location_to_line_col(source, 0), (1, 1));
    assert_eq!(location_to_line_col(source, 4), (1, 5));
    assert_eq!(location_to_line_col(source, 5), (1, 6));
    assert_eq!(location_to_line_col(source, 6), (2, 1));
    assert_eq!(location_to_line_col(source, 10), (2, 5));
}

#[test]
fn test_location_past_the_end() {
    let source = "Hello\nWorld";
    assert_eq!(location_to_line_col(source, 11), (2, 6));
    assert_eq!(location_to_line_col(source, 100), (2, 6));
}

#[test]
fn test_location_empty_source() {
    assert_eq!(location_to_line_col("", 0), (1, 1));
    assert_eq!(location_to_line_col("", 5), (1, 1));
}
