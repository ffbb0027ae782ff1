use scribe::LineIterator;

#[test]
fn next_produces_a_value_for_empty_data() {
    let mut lines = LineIterator::new("");
    assert_eq!(Some((0, String::new())), lines.next());
}

#[test]
fn line_iterator_next_includes_trailing_newlines() {
    let mut lines = LineIterator::new("line\nanother line\n");
    assert_eq!(Some((0, "line\n".to_string())), lines.next());
    assert_eq!(Some((1, "another line\n".to_string())), lines.next());
    assert_eq!(Some((2, String::new())), lines.next());
}

#[test]
fn line_iterator_next_stops_at_end_of_data() {
    let mut lines = LineIterator::new("line\nanother line");
    lines.next();
    lines.next();
    assert_eq!(None, lines.next());
}

#[test]
fn line_iterator_done_reports_exhaustion() {
    let mut lines = LineIterator::new("one");
    assert!(!lines.done());
    lines.next();
    assert!(lines.done());
}
