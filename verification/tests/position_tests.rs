use scribe::{Distance, Position};

#[test]
fn compare_works_when_lines_differ() {
    // Important to make the earlier position have a greater
    // offset, since that's an easy mistake to make.
    let earlier_position = Position { line: 2, offset: 20 };
    let later_position = Position { line: 3, offset: 10 };

    assert!(earlier_position < later_position);
}

#[test]
fn compare_works_when_lines_are_equal() {
    let earlier_position = Position { line: 3, offset: 10 };
    let later_position = Position { line: 3, offset: 20 };

    assert!(earlier_position < later_position);
}

#[test]
fn compare_works_when_lines_and_offsets_are_equal() {
    let earlier_position = Position { line: 3, offset: 10 };
    let later_position = Position { line: 3, offset: 10 };

    assert!(earlier_position <= later_position);
    assert!(earlier_position >= later_position);
    assert!(earlier_position == later_position);
}

#[test]
fn add_assign_works_with_zero_line_distance() {
    let position = Position { line: 1, offset: 3 };
    let distance = Distance { lines: 0, offset: 4 };
    let position = position.offset_by(distance);

    assert_eq!(position, Position { line: 1, offset: 7 });
}

#[test]
fn position_new_starts_at_the_origin() {
    assert_eq!(Position::new(), Position { line: 0, offset: 0 });
}
