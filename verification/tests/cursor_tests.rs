use scribe::{Cursor, GapBuffer, Position};

#[test]
fn move_up_goes_to_eol_if_offset_would_be_out_of_range() {
    let buffer = GapBuffer::new("This is a test.\nAnother line that is longer.".to_string());
    let mut cursor = Cursor::new(Position { line: 1, offset: 20 });
    cursor.move_up(&buffer);
    assert_eq!(cursor.line(), 0);
    assert_eq!(cursor.offset(), 15);
}

#[test]
fn move_down_goes_to_eol_if_offset_would_be_out_of_range() {
    let buffer = GapBuffer::new("Another line that is longer.\nThis is a test.".to_string());
    let mut cursor = Cursor::new(Position { line: 0, offset: 20 });
    cursor.move_down(&buffer);
    assert_eq!(cursor.line(), 1);
    assert_eq!(cursor.offset(), 15);
}

#[test]
fn move_up_persists_offset_across_shorter_lines() {
    let buffer = GapBuffer::new(
        "First line that is longer.\nThis is a test.\nAnother line that is longer.".to_string(),
    );
    let mut cursor = Cursor::new(Position { line: 2, offset: 20 });
    cursor.move_up(&buffer);
    cursor.move_up(&buffer);
    assert_eq!(cursor.line(), 0);
    assert_eq!(cursor.offset(), 20);
}

#[test]
fn move_down_persists_offset_across_shorter_lines() {
    let buffer = GapBuffer::new(
        "First line that is longer.\nThis is a test.\nAnother line that is longer.".to_string(),
    );
    let mut cursor = Cursor::new(Position { line: 0, offset: 20 });
    cursor.move_down(&buffer);
    cursor.move_down(&buffer);
    assert_eq!(cursor.line(), 2);
    assert_eq!(cursor.offset(), 20);
}

#[test]
fn move_to_sets_persisted_offset() {
    let buffer = GapBuffer::new(
        "First line that is longer.\nThis is a test.\nAnother line that is longer.".to_string(),
    );
    let mut cursor = Cursor::new(Position { line: 0, offset: 20 });
    cursor.move_to(&buffer, Position { line: 1, offset: 5 });
    cursor.move_down(&buffer);
    assert_eq!(cursor.line(), 2);
    assert_eq!(cursor.offset(), 5);
}

#[test]
fn move_to_start_of_line_sets_offset_to_zero() {
    let buffer = GapBuffer::new("This is a test.\nAnother line.".to_string());
    let mut cursor = Cursor::new(Position { line: 1, offset: 5 });
    cursor.move_to_start_of_line(&buffer);
    assert_eq!(cursor.line(), 1);
    assert_eq!(cursor.offset(), 0);
}

#[test]
fn move_to_end_of_line_sets_offset_the_line_length() {
    let buffer = GapBuffer::new("This is a test.\nAnother line.".to_string());
    let mut cursor = Cursor::new(Position { line: 0, offset: 5 });
    cursor.move_to_end_of_line(&buffer);
    assert_eq!(cursor.line(), 0);
    assert_eq!(cursor.offset(), 15);
}

#[test]
fn move_up_does_nothing_if_at_the_start_of_line() {
    let buffer = GapBuffer::new("This is a test.".to_string());
    let mut cursor = Cursor::new(Position { line: 0, offset: 0 });
    cursor.move_up(&buffer);
    assert_eq!(cursor.line(), 0);
    assert_eq!(cursor.offset(), 0);
}

#[test]
fn move_left_does_nothing_if_at_the_start_of_line() {
    let buffer = GapBuffer::new("This is a test.".to_string());
    let mut cursor = Cursor::new(Position { line: 0, offset: 0 });
    cursor.move_left(&buffer);
    assert_eq!(cursor.line(), 0);
    assert_eq!(cursor.offset(), 0);
}

#[test]
fn move_to_last_line_moves_to_same_offset_on_last_line() {
    let buffer = GapBuffer::new("first\nsecond\nlast".to_string());
    let mut cursor = Cursor::new(Position { line: 0, offset: 2 });
    cursor.move_to_last_line(&buffer);
    assert_eq!(cursor.line(), 2);
    assert_eq!(cursor.offset(), 2);
}

#[test]
fn move_to_last_line_moves_to_end_of_last_line_if_offset_would_be_out_of_range() {
    let buffer = GapBuffer::new("first\nsecond\nlast".to_string());
    let mut cursor = Cursor::new(Position { line: 0, offset: 5 });
    cursor.move_to_last_line(&buffer);
    assert_eq!(cursor.line(), 2);
    assert_eq!(cursor.offset(), 4);
}

#[test]
fn move_to_last_line_moves_last_line_when_it_is_a_trailing_newline() {
    let buffer = GapBuffer::new("first\nsecond\nlast\n".to_string());
    let mut cursor = Cursor::new(Position { line: 0, offset: 2 });
    cursor.move_to_last_line(&buffer);
    assert_eq!(cursor.line(), 3);
    assert_eq!(cursor.offset(), 0);
}

#[test]
fn move_to_first_line_moves_to_same_offset_on_first_line() {
    let buffer = GapBuffer::new("first\nsecond\nlast".to_string());
    let mut cursor = Cursor::new(Position { line: 1, offset: 2 });
    cursor.move_to_first_line(&buffer);
    assert_eq!(cursor.line(), 0);
    assert_eq!(cursor.offset(), 2);
}

#[test]
fn move_to_first_line_moves_to_end_of_first_line_if_offset_would_be_out_of_range() {
    let buffer = GapBuffer::new("first\nsecond\nlast".to_string());
    let mut cursor = Cursor::new(Position { line: 1, offset: 6 });
    cursor.move_to_first_line(&buffer);
    assert_eq!(cursor.line(), 0);
    assert_eq!(cursor.offset(), 5);
}

#[test]
fn move_right_steps_one_column() {
    let buffer = GapBuffer::new("ab".to_string());
    let mut cursor = Cursor::new(Position { line: 0, offset: 0 });
    cursor.move_right(&buffer);
    assert_eq!(cursor.offset(), 1);
    cursor.move_right(&buffer);
    assert_eq!(cursor.offset(), 2);
    cursor.move_right(&buffer);
    assert_eq!(cursor.offset(), 2);
}
