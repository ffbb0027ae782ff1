use scribe::{Buffer, Position, Range};

#[test]
fn buffer_insert_advances_nothing_but_content() {
    let mut buffer = Buffer::new();
    buffer.insert("scribe");
    assert_eq!(buffer.data(), "scribe");
    assert_eq!(buffer.cursor.position, Position { line: 0, offset: 0 });
}

#[test]
fn mod_delete_joins_lines_when_invoked_at_end_of_line() {
    let mut buffer = Buffer::new();
    buffer.insert("scribe\n library");
    buffer.cursor.move_to_end_of_line(&buffer.gap);
    buffer.delete();
    assert_eq!(buffer.data(), "scribe library");
}

#[test]
fn mod_delete_does_nothing_when_invoked_at_the_end_of_the_document() {
    let mut buffer = Buffer::new();
    buffer.insert("scribe\n library");
    buffer.cursor.move_down(&buffer.gap);
    buffer.cursor.move_to_end_of_line(&buffer.gap);
    buffer.delete();
    assert_eq!(buffer.data(), "scribe\n library");
}

#[test]
fn mod_insert_is_undoable() {
    let mut buffer = Buffer::new();
    buffer.insert("scribe");
    assert_eq!("scribe", buffer.data());
    buffer.undo();
    assert_eq!("", buffer.data());
}

#[test]
fn mod_delete_is_undoable() {
    let mut buffer = Buffer::new();
    buffer.insert("scribe");
    assert_eq!("scribe", buffer.data());

    buffer.cursor.move_to(&buffer.gap, Position { line: 0, offset: 0 });
    buffer.delete();
    assert_eq!("cribe", buffer.data());

    buffer.undo();
    assert_eq!("scribe", buffer.data());
}

#[test]
fn buffer_redo_restores_an_undone_insert() {
    let mut buffer = Buffer::new();
    buffer.insert("scribe");
    buffer.undo();
    assert_eq!("", buffer.data());
    buffer.redo();
    assert_eq!("scribe", buffer.data());
}

#[test]
fn mod_correctly_called_operation_groups_are_undone_correctly() {
    let mut buffer = Buffer::new();

    // Run some operations in a group.
    buffer.start_operation_group();
    buffer.insert("scribe");
    buffer.cursor.move_to(&buffer.gap, Position { line: 0, offset: 6 });
    buffer.insert(" library");
    buffer.end_operation_group();

    // Run an operation outside of the group.
    buffer.cursor.move_to(&buffer.gap, Position { line: 0, offset: 14 });
    buffer.insert(" test");

    // Make sure the buffer looks okay.
    assert_eq!("scribe library test", buffer.data());

    // Check that undo reverses the single operation outside the group.
    buffer.undo();
    assert_eq!("scribe library", buffer.data());

    // Check that undo reverses the group operation.
    buffer.undo();
    assert_eq!("", buffer.data());
}

#[test]
fn mod_non_terminated_operation_groups_are_undone_correctly() {
    let mut buffer = Buffer::new();

    // Run an operation outside of the group.
    buffer.insert("scribe");

    // Run some operations in a group, without closing it.
    buffer.start_operation_group();
    buffer.cursor.move_to(&buffer.gap, Position { line: 0, offset: 6 });
    buffer.insert(" library");
    buffer.cursor.move_to(&buffer.gap, Position { line: 0, offset: 14 });
    buffer.insert(" test");

    // Make sure the buffer looks okay.
    assert_eq!("scribe library test", buffer.data());

    // Check that undo reverses the open group.
    buffer.undo();
    assert_eq!("scribe", buffer.data());

    // Check that undo reverses the operation before the group.
    buffer.undo();
    assert_eq!("", buffer.data());
}

#[test]
fn non_terminated_empty_operation_groups_are_dropped() {
    let mut buffer = Buffer::new();

    // Run an operation outside of the group.
    buffer.insert("scribe");

    // Start an empty operation group.
    buffer.start_operation_group();

    // Check that undo drops the empty operation group
    // and undoes the previous operation.
    buffer.undo();
    assert_eq!(buffer.data(), "");
}

#[test]
fn search_returns_empty_set_when_there_are_no_matches() {
    let mut buffer = Buffer::new();
    buffer.insert("scribe");

    assert!(buffer.search("library").is_empty());
}

#[test]
fn search_does_not_panic_with_non_ascii_data() {
    let mut buffer = Buffer::new();
    buffer.insert("scribé");

    // Use a longer term than the haystack.
    assert!(buffer.search("library").is_empty());

    // Use a term whose length does not lie on a haystack character boundary.
    assert!(buffer.search("scribe").is_empty());

    // Use a matching term.
    assert!(buffer.search("scribé").len() > 0);
}

#[test]
fn search_reports_byte_offsets_within_lines() {
    let mut buffer = Buffer::new();
    buffer.insert("scribe\nlibrary");

    assert_eq!(
        buffer.search("ib"),
        vec![
            Position { line: 0, offset: 3 },
            Position { line: 1, offset: 1 },
        ]
    );
}

#[test]
fn buffer_line_count_includes_trailing_newlines() {
    let mut buffer = Buffer::new();
    buffer.insert("scribe\nlibrary\n");

    assert_eq!(buffer.line_count(), 3);
}

#[test]
fn buffer_read_returns_ranges_of_data() {
    let mut buffer = Buffer::new();
    buffer.insert("scribe");

    let range = Range::new(
        Position { line: 0, offset: 1 },
        Position { line: 0, offset: 5 },
    );
    assert_eq!("crib", buffer.read(&range).unwrap());
}

#[test]
fn buffer_modified_tracks_the_history_mark() {
    let mut buffer = Buffer::from_content("it works!\n".to_string(), None);
    assert!(!buffer.modified());

    // Inserting data into a buffer flags it as modified.
    buffer.insert("scribe");
    assert!(buffer.modified());

    // Undoing the modification reverses the flag.
    buffer.undo();
    assert!(!buffer.modified());

    // Buffers that never were in sync are always modified.
    let buffer = Buffer::new();
    assert!(buffer.modified());
}

#[test]
fn replace_retains_full_position_when_possible() {
    let mut buffer = Buffer::new();
    buffer.insert("amp editor");

    // Move to a position that will exist after replacing content.
    buffer.cursor.move_to(&buffer.gap, Position { line: 0, offset: 3 });

    // Replace the buffer content.
    buffer.replace("scribe");

    // Verify that the position is retained.
    assert_eq!(buffer.cursor.position, Position { line: 0, offset: 3 });
    assert_eq!(buffer.data(), "scribe");
}

#[test]
fn replace_retains_position_line_when_possible() {
    let mut buffer = Buffer::new();

    // Move to a position whose line (but not offset)
    // is available in the replaced content.
    buffer.insert("amp\neditor");
    buffer.cursor.move_to(&buffer.gap, Position { line: 1, offset: 1 });

    // Replace the buffer content.
    buffer.replace("scribe\n");

    // Verify that the position is set to the start of the same line.
    assert_eq!(buffer.cursor.position, Position { line: 1, offset: 0 });
}

#[test]
fn replace_discards_position_when_impossible() {
    let mut buffer = Buffer::new();

    // Move to a position entirely unavailable in the replaced content.
    buffer.insert("\namp\neditor");
    buffer.cursor.move_to(&buffer.gap, Position { line: 2, offset: 1 });

    // Replace the buffer content.
    buffer.replace("scribe\n");

    // Verify that the position is discarded.
    assert_eq!(buffer.cursor.position, Position::new());
}

#[test]
fn replace_flags_buffer_as_modified() {
    let mut buffer = Buffer::from_content("it works!\n".to_string(), None);

    // Replace the buffer content.
    buffer.replace("scribe");

    // Verify that the buffer is seen as modified.
    assert!(buffer.modified());
}

#[test]
fn replace_is_reversible() {
    let mut buffer = Buffer::from_content("it works!\n".to_string(), None);

    // Replace the buffer content and then undo it.
    buffer.replace("scribe");
    buffer.undo();

    // Verify that the original content is restored.
    assert_eq!(buffer.data(), "it works!\n");
}

#[test]
fn replace_does_nothing_if_replacement_matches_buffer_contents() {
    let mut buffer = Buffer::from_content("it works!\n".to_string(), None);

    // Try to replace buffer content with matching content.
    buffer.replace("it works!\n");

    assert!(!buffer.modified());
    assert!(buffer.history.previous().is_none());
}

#[test]
fn replace_content_retains_full_position_when_possible() {
    let mut buffer = Buffer::new();
    buffer.insert("amp editor");

    // Move to a position that will exist after replacing content.
    buffer.cursor.move_to(&buffer.gap, Position { line: 0, offset: 3 });

    // Replace the buffer content.
    buffer.replace_content("scribe");

    // Verify that the position is retained.
    assert_eq!(buffer.cursor.position, Position { line: 0, offset: 3 });
}

#[test]
fn replace_content_retains_position_line_when_possible() {
    let mut buffer = Buffer::new();

    // Move to a position whose line (but not offset)
    // is available in the replaced content.
    buffer.insert("amp\neditor");
    buffer.cursor.move_to(&buffer.gap, Position { line: 1, offset: 1 });

    // Replace the buffer content.
    buffer.replace_content("scribe\n");

    // Verify that the position is set to the start of the same line.
    assert_eq!(buffer.cursor.position, Position { line: 1, offset: 0 });
}

#[test]
fn replace_content_discards_position_when_impossible() {
    let mut buffer = Buffer::new();

    // Move to a position entirely unavailable in the replaced content.
    buffer.insert("\namp\neditor");
    buffer.cursor.move_to(&buffer.gap, Position { line: 2, offset: 1 });

    // Replace the buffer content.
    buffer.replace_content("scribe\n");

    // Verify that the position is discarded.
    assert_eq!(buffer.cursor.position, Position::new());
}

#[test]
fn replace_content_does_not_touch_the_history() {
    let mut buffer = Buffer::new();
    buffer.insert("amp");
    buffer.replace_content("scribe");

    // The replacement itself cannot be undone; undo reverses the earlier
    // insert against the new content instead, removing its first three
    // characters.
    buffer.undo();
    assert_eq!(buffer.data(), "ibe");
}

#[test]
fn buffer_file_name_takes_the_last_path_component() {
    let mut buffer = Buffer::new();
    assert!(buffer.file_name().is_none());

    buffer.path = Some("tests/sample/file".to_string());
    assert_eq!(buffer.file_name().unwrap(), "file");
}

#[test]
fn buffer_file_extension_follows_the_last_dot() {
    let mut buffer = Buffer::new();

    buffer.path = Some("file.txt".to_string());
    assert_eq!(buffer.file_extension().unwrap(), "txt");

    buffer.path = Some("Makefile".to_string());
    assert!(buffer.file_extension().is_none());

    buffer.path = Some("file.".to_string());
    assert!(buffer.file_extension().is_none());

    buffer.path = Some(".gitignore".to_string());
    assert!(buffer.file_extension().is_none());

    buffer.path = Some("dir.d/archive.tar.gz".to_string());
    assert_eq!(buffer.file_extension().unwrap(), "gz");
}

#[test]
fn buffer_mark_records_the_saved_state() {
    let mut buffer = Buffer::new();
    buffer.insert("scribe");
    assert!(buffer.modified());
    buffer.mark();
    assert!(!buffer.modified());
}
