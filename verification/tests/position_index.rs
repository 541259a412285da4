use textrules::position::{LineIndex, Position};

fn pos(line: usize, character: usize) -> Position {
    Position { line, character }
}

fn to_pos(text: &str, offset: usize) -> Position {
    let bytes = text.as_bytes();
    let index = LineIndex::new(bytes);
    index.to_pos(bytes, offset)
}

#[test]
fn resolves_offsets_in_ascii_text() {
    let text = "ab\ncd";
    assert_eq!(to_pos(text, 0), pos(0, 0));
    assert_eq!(to_pos(text, 1), pos(0, 1));
    assert_eq!(to_pos(text, 2), pos(0, 2));
    assert_eq!(to_pos(text, 3), pos(1, 0));
    assert_eq!(to_pos(text, 4), pos(1, 1));
    assert_eq!(to_pos(text, 5), pos(1, 2));
}

#[test]
fn line_is_newline_count_of_prefix() {
    let text = "a\n\nbb\nc";
    let bytes = text.as_bytes();
    let index = LineIndex::new(bytes);
    for offset in 0..=bytes.len() {
        let expected_line = bytes[..offset].iter().filter(|&&b| b == b'\n').count();
        assert_eq!(index.to_pos(bytes, offset).line, expected_line);
    }
}

#[test]
fn character_counts_scalar_values_not_bytes() {
    // two-byte scalar values before the offset count once each
    let text = "\u{3b1}b\n\u{3b3}";
    assert_eq!(to_pos(text, 2), pos(0, 1));
    assert_eq!(to_pos(text, 3), pos(0, 2));
    assert_eq!(to_pos(text, 4), pos(1, 0));
    assert_eq!(to_pos(text, 6), pos(1, 1));
}

#[test]
fn end_of_text_is_addressable() {
    assert_eq!(to_pos("", 0), pos(0, 0));
    assert_eq!(to_pos("a\n", 2), pos(1, 0));
    assert_eq!(to_pos("ab", 2), pos(0, 2));
}

#[test]
fn empty_lines_resolve_correctly() {
    let text = "\n\nx";
    assert_eq!(to_pos(text, 0), pos(0, 0));
    assert_eq!(to_pos(text, 1), pos(1, 0));
    assert_eq!(to_pos(text, 2), pos(2, 0));
    assert_eq!(to_pos(text, 3), pos(2, 1));
}

#[test]
fn num_lines_counts_trailing_segment() {
    let cases: &[(&str, usize)] = &[
        ("", 0),
        ("a", 1),
        ("a\n", 1),
        ("a\nb", 2),
        ("a\nb\n", 2),
        ("\n", 1),
        ("\n\n", 2),
    ];
    for (text, expected) in cases {
        let bytes = text.as_bytes();
        let index = LineIndex::new(bytes);
        assert_eq!(index.num_lines(bytes), *expected, "text {:?}", text);
    }
}

#[test]
fn line_boundaries_match_content() {
    let text = "ab\n\ncde";
    let bytes = text.as_bytes();
    let index = LineIndex::new(bytes);
    assert_eq!(index.num_lines(bytes), 3);
    assert_eq!(index.start_of_line(bytes, 0), 0);
    assert_eq!(index.end_of_line(bytes, 0), 2);
    assert_eq!(index.start_of_line(bytes, 1), 3);
    assert_eq!(index.end_of_line(bytes, 1), 3);
    assert_eq!(index.start_of_line(bytes, 2), 4);
    assert_eq!(index.end_of_line(bytes, 2), 7);
}
