use scribe::Distance;

#[test]
fn of_str_works_with_a_single_line_of_data() {
    assert_eq!(
        Distance::of_str("line"),
        Distance { lines: 0, offset: 4 }
    );
}

#[test]
fn of_str_works_with_a_trailing_newline() {
    assert_eq!(
        Distance::of_str("trailing newline\n"),
        Distance { lines: 1, offset: 0 }
    );
}

#[test]
fn of_str_counts_graphemes_on_the_last_line() {
    assert_eq!(
        Distance::of_str("first\nनी ab"),
        Distance { lines: 1, offset: 4 }
    );
}

#[test]
fn of_str_distances_combine_by_the_line_rule() {
    // With a line break in the second part, the combined distance takes
    // its last line from the second part alone.
    let d1 = Distance::of_str("ab");
    let d2 = Distance::of_str("c\nde");
    let combined = Distance::of_str("abc\nde");
    assert_eq!(combined.lines, d1.lines + d2.lines);
    assert_eq!(combined.offset, d2.offset);

    // Without one, the last lines join.
    let d3 = Distance::of_str("xy");
    let joined = Distance::of_str("abxy");
    assert_eq!(joined.lines, d1.lines + d3.lines);
    assert_eq!(joined.offset, d1.offset + d3.offset);
}
