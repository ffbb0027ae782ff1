use scribe::{Buffer, Delete, Insert, Operation, OperationGroup, Position, Range};

#[test]
fn run_and_reverse_add_and_remove_content_without_newlines_at_cursor_position() {
    // Set up a buffer with some data.
    let mut buffer = Buffer::new();
    buffer.insert("something");

    // Set up a position pointing to the end of the buffer's contents.
    let insert_position = Position { line: 0, offset: 9 };

    // Create the insert operation and run it.
    let insert_operation = Insert::new(" else".to_string(), insert_position);
    insert_operation.run(&mut buffer);

    assert_eq!(buffer.data(), "something else");

    insert_operation.reverse(&mut buffer);

    assert_eq!(buffer.data(), "something");
}

#[test]
fn run_and_reverse_add_and_remove_content_with_newlines_at_cursor_position() {
    // Set up a buffer with some data.
    let mut buffer = Buffer::new();
    buffer.insert("\n something");

    // Set up a position pointing to the end of the buffer's contents.
    let insert_position = Position { line: 1, offset: 10 };

    // Create the insert operation and run it.
    //
    // NOTE: The newline character ensures that the operation doesn't use a
    //       naive algorithm based purely on the content length.
    let insert_operation = Insert::new("\n else\n entirely".to_string(), insert_position);
    insert_operation.run(&mut buffer);

    assert_eq!(buffer.data(), "\n something\n else\n entirely");

    insert_operation.reverse(&mut buffer);

    assert_eq!(buffer.data(), "\n something");
}

#[test]
fn reverse_removes_a_newline() {
    // Set up a buffer with some data.
    let mut buffer = Buffer::new();
    let insert_operation = Insert::new("\n".to_string(), Position { line: 0, offset: 0 });
    insert_operation.run(&mut buffer);
    assert_eq!(buffer.data(), "\n");

    insert_operation.reverse(&mut buffer);
    assert_eq!(buffer.data(), "");
}

#[test]
fn reverse_correctly_removes_line_ranges() {
    // Set up a buffer with some data.
    let mut buffer = Buffer::new();
    buffer.insert("scribe\nlibrary\n");

    let insert_operation = Insert::new("editor\n".to_string(), Position { line: 1, offset: 0 });
    insert_operation.run(&mut buffer);
    assert_eq!(buffer.data(), "scribe\neditor\nlibrary\n");

    insert_operation.reverse(&mut buffer);
    assert_eq!(buffer.data(), "scribe\nlibrary\n");
}

#[test]
fn reverse_correctly_removes_single_line_content_with_graphemes() {
    // Set up a buffer with some data.
    let mut buffer = Buffer::new();
    buffer.insert("scribe\nlibrary");

    let insert_operation = Insert::new("नी editor ".to_string(), Position { line: 1, offset: 0 });
    insert_operation.run(&mut buffer);
    assert_eq!(buffer.data(), "scribe\nनी editor library");

    insert_operation.reverse(&mut buffer);
    assert_eq!(buffer.data(), "scribe\nlibrary");
}

#[test]
fn reverse_correctly_removes_multi_line_content_with_graphemes() {
    // Set up a buffer with some data.
    let mut buffer = Buffer::new();
    buffer.insert("scribe\nlibrary");

    let insert_operation = Insert::new("\nनी editor".to_string(), Position { line: 0, offset: 6 });
    insert_operation.run(&mut buffer);
    assert_eq!(buffer.data(), "scribe\nनी editor\nlibrary");

    insert_operation.reverse(&mut buffer);
    assert_eq!(buffer.data(), "scribe\nlibrary");
}

#[test]
fn run_and_reverse_remove_and_add_content_without_newlines_at_cursor_position() {
    // Set up a buffer with some data.
    let mut buffer = Buffer::new();
    buffer.insert("something else");

    // Set up a range that covers everything after the first word.
    let start = Position { line: 0, offset: 9 };
    let end = Position { line: 0, offset: 14 };
    let delete_range = Range::new(start, end);

    // Create the delete operation and run it.
    let mut delete_operation = Delete::new(delete_range);
    delete_operation.run(&mut buffer);

    assert_eq!(buffer.data(), "something");

    delete_operation.reverse(&mut buffer);

    assert_eq!(buffer.data(), "something else");
}

#[test]
fn run_and_reverse_remove_and_add_content_with_newlines_at_cursor_position() {
    // Set up a buffer with some data.
    let mut buffer = Buffer::new();
    buffer.insert("\n something\n else\n entirely");

    // Set up a range that covers everything after the first word.
    let start = Position { line: 1, offset: 10 };
    let end = Position { line: 3, offset: 9 };
    let delete_range = Range::new(start, end);

    // Create the delete operation and run it.
    //
    // NOTE: The newline character ensures that the operation doesn't use a
    //       naive algorithm based purely on the content length.
    let mut delete_operation = Delete::new(delete_range);
    delete_operation.run(&mut buffer);

    assert_eq!(buffer.data(), "\n something");

    delete_operation.reverse(&mut buffer);

    assert_eq!(buffer.data(), "\n something\n else\n entirely");
}

#[test]
fn reverse_does_nothing_when_the_delete_never_ran() {
    let mut buffer = Buffer::new();
    buffer.insert("scribe");

    let delete_operation = Delete::new(Range::new(
        Position { line: 0, offset: 0 },
        Position { line: 0, offset: 3 },
    ));
    delete_operation.reverse(&mut buffer);

    assert_eq!(buffer.data(), "scribe");
}

#[test]
fn group_run_and_reverse_call_themselves_on_all_operations() {
    let mut group = OperationGroup::new();
    let mut buffer = Buffer::new();

    // Push two insert operations into the group.
    let first = Operation::Insert(Insert::new(
        "something".to_string(),
        Position { line: 0, offset: 0 },
    ));
    let second = Operation::Insert(Insert::new(
        " else".to_string(),
        Position { line: 0, offset: 9 },
    ));
    group.add(first);
    group.add(second);

    // Run the operation group.
    group.run(&mut buffer);

    assert_eq!(buffer.data(), "something else");

    // Reverse the operation group.
    group.reverse(&mut buffer);

    assert_eq!(buffer.data(), "");
}

#[test]
fn end_operation_group_drops_group_if_empty() {
    let mut buffer = Buffer::new();
    buffer.insert("amp");

    // Create an empty operation group that
    // shouldn't be added to the buffer history.
    buffer.start_operation_group();
    buffer.end_operation_group();

    // Undo the last change, which should be the initial
    // insert, if the empty operation group was ignored.
    buffer.undo();
    assert_eq!(buffer.data(), "");
}
