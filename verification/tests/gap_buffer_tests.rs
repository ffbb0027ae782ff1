use scribe::GapBuffer;
use scribe::{Position, Range};

#[test]
fn move_gap_works() {
    let mut gb = GapBuffer::new("This is a test.".to_string());
    gb.move_gap(0);
    assert_eq!(gb.to_string(), "This is a test.");
}

#[test]
fn inserting_at_the_start_works() {
    let mut gb = GapBuffer::new("toolkit".to_string());

    // This insert serves to move the gap to the start of the buffer.
    gb.insert(" ", &Position { line: 0, offset: 0 });
    assert_eq!(gb.to_string(), " toolkit");

    // We insert enough data (more than twice original capacity) to force
    // a re-allocation, which, with the gap at the start and when handled
    // incorrectly, would create a split/two-segment gap.
    gb.insert("scribe text", &Position { line: 0, offset: 0 });
    assert_eq!(gb.to_string(), "scribe text toolkit");
}

#[test]
fn inserting_in_the_middle_works() {
    let mut gb = GapBuffer::new("    editor".to_string());

    // Move the gap into the middle and then force a reallocation, to
    // check that pre-allocation gap shifting is working correctly.
    gb.insert(" ", &Position { line: 0, offset: 4 });
    gb.insert("scribe", &Position { line: 0, offset: 4 });
    assert_eq!(gb.to_string(), "    scribe editor");
}

#[test]
fn inserting_at_the_end_works() {
    let mut gb = GapBuffer::new("This is a test.".to_string());
    gb.insert(" Seriously.", &Position { line: 0, offset: 15 });
    assert_eq!(gb.to_string(), "This is a test. Seriously.");
}

#[test]
fn inserting_in_different_spots_twice_works() {
    let mut gb = GapBuffer::new("This is a test.".to_string());
    gb.insert("Hi. ", &Position { line: 0, offset: 0 });
    gb.insert(" Thank you.", &Position { line: 0, offset: 19 });
    assert_eq!(gb.to_string(), "Hi. This is a test. Thank you.");
}

#[test]
fn inserting_at_an_invalid_position_does_nothing() {
    let mut gb = GapBuffer::new("This is a test.".to_string());
    gb.insert(" Seriously.", &Position { line: 0, offset: 35 });
    assert_eq!(gb.to_string(), "This is a test.");
}

#[test]
fn inserting_after_a_grapheme_cluster_works() {
    let mut gb = GapBuffer::new("scribe नी".to_string());
    gb.insert(" library", &Position { line: 0, offset: 8 });
    assert_eq!(gb.to_string(), "scribe नी library");
}

#[test]
fn deleting_works() {
    let mut gb = GapBuffer::new("This is a test.\nSee what happens.".to_string());
    let start = Position { line: 0, offset: 8 };
    let end = Position { line: 1, offset: 4 };
    gb.delete(&Range::new(start, end));
    assert_eq!(gb.to_string(), "This is what happens.");
}

#[test]
fn inserting_then_deleting_at_the_start_works() {
    let mut gb = GapBuffer::new(String::new());
    gb.insert("This is a test.", &Position { line: 0, offset: 0 });
    let start = Position { line: 0, offset: 0 };
    let end = Position { line: 0, offset: 1 };
    gb.delete(&Range::new(start, end));
    assert_eq!(gb.to_string(), "his is a test.");
}

#[test]
fn deleting_immediately_after_the_end_of_the_gap_widens_the_gap() {
    let mut gb = GapBuffer::new("This is a test.".to_string());
    let mut start = Position { line: 0, offset: 8 };
    let mut end = Position { line: 0, offset: 9 };
    gb.delete(&Range::new(start, end));
    assert_eq!(gb.to_string(), "This is  test.");
    assert_eq!(gb.gap_length(), 1);

    start = Position { line: 0, offset: 9 };
    end = Position { line: 0, offset: 10 };
    gb.delete(&Range::new(start, end));
    assert_eq!(gb.to_string(), "This is  est.");
    assert_eq!(gb.gap_length(), 2);
}

#[test]
fn deleting_to_an_out_of_range_line_deletes_to_the_end_of_the_buffer() {
    let mut gb = GapBuffer::new("scribe\nlibrary".to_string());
    let start = Position { line: 0, offset: 6 };
    let end = Position { line: 2, offset: 10 };
    gb.delete(&Range::new(start, end));
    assert_eq!(gb.to_string(), "scribe");
}

#[test]
fn deleting_to_an_out_of_range_column_deletes_to_the_end_of_the_buffer() {
    let mut gb = GapBuffer::new("scribe\nlibrary".to_string());
    let start = Position { line: 0, offset: 0 };
    let end = Position { line: 0, offset: 100 };
    gb.delete(&Range::new(start, end));
    assert_eq!(gb.to_string(), "library");
}

#[test]
fn deleting_after_a_grapheme_cluster_works() {
    let mut gb = GapBuffer::new("scribe नी library".to_string());
    let start = Position { line: 0, offset: 8 };
    let end = Position { line: 0, offset: 16 };
    gb.delete(&Range::new(start, end));
    assert_eq!(gb.to_string(), "scribe नी");
}

#[test]
fn read_does_not_include_gap_contents_when_gap_is_at_start_of_range() {
    // Create a buffer and a range that captures the first character.
    let mut gb = GapBuffer::new("scribe".to_string());
    let range = Range::new(
        Position { line: 0, offset: 0 },
        Position { line: 0, offset: 1 },
    );

    // Delete the first character, which will move the gap to the start.
    gb.delete(&range);
    assert_eq!(gb.to_string(), "cribe");

    // Ask for the first character, which would include the deleted
    // value, if the read function weren't smart enough to skip it.
    assert_eq!(gb.read(&range).unwrap(), "c");
}

#[test]
fn read_does_not_include_gap_contents_when_gap_is_in_middle_of_range() {
    let mut gb = GapBuffer::new("scribe".to_string());

    // Delete data from the middle of the buffer, which will move the gap there.
    gb.delete(&Range::new(
        Position { line: 0, offset: 2 },
        Position { line: 0, offset: 4 },
    ));
    assert_eq!(gb.to_string(), "scbe");

    // Request a range that extends from the start to the finish.
    let range = Range::new(
        Position { line: 0, offset: 0 },
        Position { line: 0, offset: 4 },
    );
    assert_eq!(gb.read(&range).unwrap(), "scbe");
}

#[test]
fn reading_after_a_grapheme_cluster_works() {
    let gb = GapBuffer::new("scribe नी library".to_string());
    let range = Range::new(
        Position { line: 0, offset: 8 },
        Position { line: 0, offset: 16 },
    );
    assert_eq!(gb.read(&range).unwrap(), " library");
}

#[test]
fn in_bounds_considers_grapheme_clusters() {
    let gb = GapBuffer::new("scribe नी library".to_string());
    let in_bounds = Position { line: 0, offset: 16 };
    let out_of_bounds = Position { line: 0, offset: 17 };
    assert!(gb.in_bounds(&in_bounds));
    assert!(!gb.in_bounds(&out_of_bounds));
}

#[test]
fn find_offset_counts_bytes_not_graphemes() {
    let gb = GapBuffer::new("scribe नी library".to_string());
    // The cluster after "scribe " spans six bytes, so the boundary after
    // it sits at byte thirteen.
    assert_eq!(gb.find_offset(&Position { line: 0, offset: 8 }), Some(13));
    assert_eq!(gb.find_offset(&Position { line: 0, offset: 17 }), None);
}

#[test]
fn line_length_counts_graphemes_and_phantom_lines() {
    let gb = GapBuffer::new("scribe नी\nlast\n".to_string());
    assert_eq!(gb.line_length(0), Some(8));
    assert_eq!(gb.line_length(1), Some(4));
    assert_eq!(gb.line_length(2), Some(0));
    assert_eq!(gb.line_length(3), None);
}
