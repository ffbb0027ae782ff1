use scribe::Error;
use scribe::{Buffer, GapBuffer, Position, Range};

#[test]
fn new_buffer_insert_leaves_cursor_usable_at_line_end() {
    let mut buffer = Buffer::new();
    buffer.insert("scribe");
    assert_eq!(buffer.data(), "scribe");
    assert!(buffer
        .cursor
        .move_to(&buffer.gap, Position { line: 0, offset: 6 }));
    assert_eq!(buffer.cursor.position, Position { line: 0, offset: 6 });
}

#[test]
fn delete_at_end_of_line_joins_lines() {
    let mut buffer = Buffer::new();
    buffer.insert("scribe\n library");
    buffer.cursor.move_to_end_of_line(&buffer.gap);
    assert_eq!(buffer.cursor.position, Position { line: 0, offset: 6 });
    buffer.delete();
    assert_eq!(buffer.data(), "scribe library");
}

#[test]
fn undo_and_redo_restore_content() {
    let mut buffer = Buffer::new();
    buffer.insert("scribe");
    buffer.undo();
    assert_eq!(buffer.data(), "");
    buffer.redo();
    assert_eq!(buffer.data(), "scribe");
}

#[test]
fn undo_and_redo_walk_edit_sequences_in_both_directions() {
    let mut buffer = Buffer::new();
    buffer.insert("a");
    buffer.cursor.move_to(&buffer.gap, Position { line: 0, offset: 1 });
    buffer.insert("b\n");
    buffer.cursor.move_to(&buffer.gap, Position { line: 1, offset: 0 });
    buffer.insert("c");
    assert_eq!(buffer.data(), "ab\nc");

    buffer.undo();
    assert_eq!(buffer.data(), "ab\n");
    buffer.undo();
    assert_eq!(buffer.data(), "a");
    buffer.undo();
    assert_eq!(buffer.data(), "");

    buffer.redo();
    assert_eq!(buffer.data(), "a");
    buffer.redo();
    assert_eq!(buffer.data(), "ab\n");
    buffer.redo();
    assert_eq!(buffer.data(), "ab\nc");
}

#[test]
fn grouped_operations_are_undone_as_one() {
    let mut buffer = Buffer::new();
    buffer.start_operation_group();
    buffer.insert("scribe");
    buffer.cursor.move_to(&buffer.gap, Position { line: 0, offset: 6 });
    buffer.insert(" library");
    buffer.end_operation_group();
    buffer.cursor.move_to(&buffer.gap, Position { line: 0, offset: 14 });
    buffer.insert(" test");

    buffer.undo();
    assert_eq!(buffer.data(), "scribe library");
    buffer.undo();
    assert_eq!(buffer.data(), "");
}

#[test]
fn grapheme_clusters_count_as_single_offset_steps() {
    let gap_buffer = GapBuffer::new("scribe नी library".to_string());
    let range = Range::new(
        Position { line: 0, offset: 8 },
        Position { line: 0, offset: 16 },
    );
    assert_eq!(gap_buffer.read(&range).unwrap(), " library");
    assert!(gap_buffer.in_bounds(&Position { line: 0, offset: 16 }));
    assert!(!gap_buffer.in_bounds(&Position { line: 0, offset: 17 }));
}

#[test]
fn inserting_after_a_cluster_respects_its_boundaries() {
    let mut gap_buffer = GapBuffer::new("aनीb".to_string());
    gap_buffer.insert("X", &Position { line: 0, offset: 2 });
    assert_eq!(gap_buffer.to_string(), "aनीXb");
    let range = Range::new(
        Position { line: 0, offset: 1 },
        Position { line: 0, offset: 3 },
    );
    assert_eq!(gap_buffer.read(&range).unwrap(), "नीX");
}

#[test]
fn replace_keeps_the_cursor_and_supports_undo() {
    let mut buffer = Buffer::new();
    buffer.insert("amp editor");
    buffer.cursor.move_to(&buffer.gap, Position { line: 0, offset: 3 });
    buffer.replace("scribe");
    assert_eq!(buffer.data(), "scribe");
    assert_eq!(buffer.cursor.position, Position { line: 0, offset: 3 });

    buffer.undo();
    assert_eq!(buffer.data(), "amp editor");
}

#[test]
fn fresh_gap_buffer_round_trips_its_content() {
    let text = "first\nsecond नी\n";
    let gap_buffer = GapBuffer::new(text.to_string());
    assert_eq!(gap_buffer.to_string(), text);
}

#[test]
fn edits_track_a_reference_model() {
    // Apply the same edits to the gap buffer and to a plain string, and
    // check that they agree at every step.
    let mut gap_buffer = GapBuffer::new(String::new());
    let mut model = String::new();

    gap_buffer.insert("hello world", &Position { line: 0, offset: 0 });
    model.insert_str(0, "hello world");
    assert_eq!(gap_buffer.to_string(), model);

    gap_buffer.insert("big ", &Position { line: 0, offset: 6 });
    model.insert_str(6, "big ");
    assert_eq!(gap_buffer.to_string(), model);

    gap_buffer.delete(&Range::new(
        Position { line: 0, offset: 0 },
        Position { line: 0, offset: 6 },
    ));
    model.replace_range(0..6, "");
    assert_eq!(gap_buffer.to_string(), model);

    gap_buffer.insert("\ntail", &Position { line: 0, offset: 9 });
    model.insert_str(9, "\ntail");
    assert_eq!(gap_buffer.to_string(), model);
}

#[test]
fn error_variants_carry_their_descriptions() {
    assert_eq!(Error::EmptyWorkspace.message(), "the workspace is empty");
    assert_eq!(
        Error::MissingSyntax.message(),
        "no syntax definition for the current buffer"
    );
    assert_eq!(Error::MissingPath.message(), "the buffer has no path");
    assert_eq!(
        Error::MissingScope.message(),
        "couldn't find any scopes at the cursor position"
    );
    assert_eq!(Error::Io("gone".to_string()).message(), "gone");
}
