use scribe::{LineRange, Position, Range};

#[test]
fn range_new_does_not_swap_values_if_end_does_not_precede_start() {
    let mut start = Position { line: 0, offset: 4 };
    let mut end = Position { line: 1, offset: 1 };
    let mut range = Range::new(start, end);

    assert_eq!(range.start(), start);
    assert_eq!(range.end(), end);

    start = Position { line: 0, offset: 4 };
    end = Position { line: 0, offset: 4 };
    range = Range::new(start, end);

    assert_eq!(range.start(), start);
    assert_eq!(range.end(), end);
}

#[test]
fn range_new_swaps_start_and_end_when_end_precedes_start() {
    let start = Position { line: 1, offset: 4 };
    let end = Position { line: 1, offset: 1 };
    let range = Range::new(start, end);

    assert_eq!(range.start(), end);
    assert_eq!(range.end(), start);
}

#[test]
fn range_is_valid_when_start_is_before_end() {
    let mut start = Position { line: 0, offset: 4 };
    let mut end = Position { line: 1, offset: 1 };
    let mut range = Range { start, end };

    assert!(range.is_valid());

    start = Position { line: 1, offset: 4 };
    end = Position { line: 1, offset: 5 };
    range = Range { start, end };

    assert!(range.is_valid());
}

#[test]
fn range_is_invalid_when_start_is_equal_to_end() {
    let start = Position { line: 0, offset: 4 };
    let end = Position { line: 0, offset: 4 };
    let range = Range { start, end };

    assert!(!range.is_valid());
}

#[test]
fn range_is_invalid_when_start_is_after_end() {
    let mut start = Position { line: 1, offset: 4 };
    let mut end = Position { line: 1, offset: 1 };
    let mut range = Range { start, end };

    assert!(!range.is_valid());

    start = Position { line: 2, offset: 4 };
    end = Position { line: 1, offset: 5 };
    range = Range { start, end };

    assert!(!range.is_valid());
}

#[test]
fn range_includes_is_half_open() {
    let range = Range::new(
        Position { line: 0, offset: 0 },
        Position { line: 1, offset: 5 },
    );

    assert!(range.includes(&Position { line: 1, offset: 0 }));
    assert!(range.includes(&Position { line: 1, offset: 4 }));
    assert!(!range.includes(&Position { line: 1, offset: 5 }));
}

#[test]
fn line_range_new_does_not_swap_values_if_end_does_not_precede_start() {
    let range = LineRange::new(0, 1);

    assert_eq!(range.start(), 0);
    assert_eq!(range.end(), 1);
}

#[test]
fn line_range_new_swaps_start_and_end_when_end_precedes_start() {
    let range = LineRange::new(1, 0);

    assert_eq!(range.start(), 0);
    assert_eq!(range.end(), 1);
}

#[test]
fn line_range_converts_to_zero_offset_ranges() {
    let line_range = LineRange::new(10, 14);

    assert_eq!(
        line_range.to_range(),
        Range::new(
            Position { line: 10, offset: 0 },
            Position { line: 14, offset: 0 },
        )
    );
    assert_eq!(
        line_range.to_inclusive_range(),
        Range::new(
            Position { line: 10, offset: 0 },
            Position { line: 15, offset: 0 },
        )
    );
    assert!(line_range.includes(11));
    assert!(!line_range.includes(14));
}
