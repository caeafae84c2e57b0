//! Position encodings and line indexes.

use increparse::{LineIndex, Position, PositionEncoding};

const TEXT: &str = "aé😀b"; // 'a' (1) 'é' (2) '😀' (4, 2 utf16 units) 'b' (1)

#[test]
fn units_of_counts_per_encoding() {
    assert_eq!(PositionEncoding::Utf8.units_of(TEXT), 8);
    assert_eq!(PositionEncoding::Utf16.units_of(TEXT), 5);
    assert_eq!(PositionEncoding::Utf32.units_of(TEXT), 4);
}

#[test]
fn offset_of_units_hits_char_boundaries() {
    let cases = [
        (PositionEncoding::Utf8, 0usize, 0usize),
        (PositionEncoding::Utf8, 1, 1),
        (PositionEncoding::Utf8, 3, 3),
        (PositionEncoding::Utf8, 7, 7),
        (PositionEncoding::Utf8, 8, 8),
        (PositionEncoding::Utf8, 100, 8),
        (PositionEncoding::Utf16, 0, 0),
        (PositionEncoding::Utf16, 1, 1),
        (PositionEncoding::Utf16, 2, 3),
        (PositionEncoding::Utf16, 3, 7),
        (PositionEncoding::Utf16, 4, 7),
        (PositionEncoding::Utf16, 5, 8),
        (PositionEncoding::Utf16, 99, 8),
        (PositionEncoding::Utf32, 0, 0),
        (PositionEncoding::Utf32, 2, 3),
        (PositionEncoding::Utf32, 3, 7),
        (PositionEncoding::Utf32, 4, 8),
    ];
    for (enc, units, expected) in cases {
        assert_eq!(
            enc.offset_of_units(TEXT, units as u32),
            expected,
            "{enc:?} @{units}"
        );
    }
}

#[test]
fn negotiate_prefers_utf8_then_utf16() {
    let utf8 = String::from("utf-8");
    let utf16 = String::from("utf-16");
    let utf32 = String::from("utf-32");

    assert_eq!(PositionEncoding::negotiate(&[]), None);
    assert_eq!(
        PositionEncoding::negotiate(&[utf16.clone()]),
        Some(PositionEncoding::Utf16)
    );
    assert_eq!(
        PositionEncoding::negotiate(&[utf16.clone(), utf8.clone()]),
        Some(PositionEncoding::Utf8)
    );
    assert_eq!(
        PositionEncoding::negotiate(&[utf32.clone(), utf16.clone()]),
        Some(PositionEncoding::Utf16)
    );
    assert_eq!(
        PositionEncoding::negotiate(&[utf32]),
        Some(PositionEncoding::Utf32)
    );
}

const LINES: &str = "abc\ndefé\n\nx😀\n";

#[test]
fn line_structure() {
    let index = LineIndex::new(LINES);
    assert_eq!(index.line_count(), 5);
    assert_eq!(index.line_start(0), Some(0));
    assert_eq!(index.line_start(1), Some(4));
    assert_eq!(index.line_start(2), Some(10));
    assert_eq!(index.line_start(3), Some(11));
    assert_eq!(index.line_start(4), Some(17));
    assert_eq!(index.line_start(5), None);
    assert_eq!(index.line_end(LINES, 0), Some(3));
    assert_eq!(index.line_end(LINES, 1), Some(9));
    assert_eq!(index.line_end(LINES, 2), Some(10));
    assert_eq!(index.line_end(LINES, 3), Some(16));
    assert_eq!(index.line_end(LINES, 4), Some(17));
}

#[test]
fn round_trip_utf16() {
    let index = LineIndex::new(LINES);
    let enc = PositionEncoding::Utf16;

    // Line 3 is "x😀": 'x' at byte 11, the 4-byte emoji at 12..16.
    let pos = Position {
        line: 3,
        character: 1,
    };
    assert_eq!(index.offset(LINES, pos, enc), Some(12));
    assert_eq!(index.position(LINES, 12, enc), pos);

    // Character 2 lands inside the surrogate pair: clamps past it, and
    // the position normalizes to the end of the line (3 units).
    let overshoot = Position {
        line: 3,
        character: 2,
    };
    assert_eq!(index.offset(LINES, overshoot, enc), Some(16));
    assert_eq!(
        index.position(LINES, 16, enc),
        Position {
            line: 3,
            character: 3
        }
    );
}

#[test]
fn round_trip_utf8_and_utf32() {
    let index = LineIndex::new(LINES);

    // UTF-8 columns are byte offsets within the line.
    assert_eq!(
        index.offset(
            LINES,
            Position {
                line: 3,
                character: 2
            },
            PositionEncoding::Utf8
        ),
        Some(13)
    );
    // Offset 13 is inside the emoji: rounds down to its first byte.
    assert_eq!(
        index.position(LINES, 13, PositionEncoding::Utf8),
        Position {
            line: 3,
            character: 1
        }
    );

    // UTF-32 columns are code points.
    assert_eq!(
        index.offset(
            LINES,
            Position {
                line: 3,
                character: 2
            },
            PositionEncoding::Utf32
        ),
        Some(16)
    );
    assert_eq!(
        index.position(LINES, 16, PositionEncoding::Utf32),
        Position {
            line: 3,
            character: 2
        }
    );
}

#[test]
fn out_of_range_clamps() {
    let index = LineIndex::new(LINES);
    let enc = PositionEncoding::Utf16;

    assert_eq!(
        index.offset(
            LINES,
            Position {
                line: 99,
                character: 0
            },
            enc
        ),
        Some(17)
    );
    assert_eq!(
        index.offset(
            LINES,
            Position {
                line: 0,
                character: 99
            },
            enc
        ),
        Some(3)
    );
    assert_eq!(
        index.position(LINES, 999, enc),
        Position {
            line: 4,
            character: 0
        }
    );
}

#[test]
fn empty_text_degenerates() {
    let index = LineIndex::new("");
    assert_eq!(index.line_count(), 1);
    assert_eq!(
        index.offset(
            "",
            Position {
                line: 0,
                character: 0
            },
            PositionEncoding::Utf16
        ),
        Some(0)
    );
    assert_eq!(
        index.position("", 0, PositionEncoding::Utf16),
        Position {
            line: 0,
            character: 0
        }
    );
}
