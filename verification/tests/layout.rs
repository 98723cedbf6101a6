use crabble::coordinate::Coordinate;
use crabble::layout::{standard_board_layout, BoardLayout, Square};

const STANDARD: &str = "#..2...#...2..#\n.\"...3...3...\".\n..\"...2.2...\"..\n2..\"...2...\"..2\n....\".....\"....\n.3...3...3...3.\n..2...2.2...2..\n#..2...*...2..#\n..2...2.2...2..\n.3...3...3...3.\n....\".....\"....\n2..\"...2...\"..2\n..\"...2.2...\"..\n.\"...3...3...\".\n#..2...#...2..#\n";

#[test]
fn test_standard_board_layout() {
    let layout = BoardLayout::from_fn((15, 15), standard_board_layout);
    let s = layout.to_string();
    assert_eq!(s, STANDARD,);
}

#[test]
fn standard_squares() {
    let at = |x, y| standard_board_layout(Coordinate { x, y });
    assert_eq!(at(7, 7), Square::CenterSquare);
    assert_eq!(at(0, 0), Square::WordMultiplier(3));
    assert_eq!(at(14, 7), Square::WordMultiplier(3));
    assert_eq!(at(1, 1), Square::WordMultiplier(2));
    assert_eq!(at(13, 1), Square::WordMultiplier(2));
    assert_eq!(at(3, 0), Square::LetterMultiplier(2));
    assert_eq!(at(0, 11), Square::LetterMultiplier(2));
    assert_eq!(at(5, 1), Square::LetterMultiplier(3));
    assert_eq!(at(9, 9), Square::LetterMultiplier(3));
    assert_eq!(at(6, 6), Square::LetterMultiplier(2));
    assert_eq!(at(11, 7), Square::LetterMultiplier(2));
    assert_eq!(at(10, 7), Square::Empty);
    assert_eq!(at(8, 7), Square::Empty);
}

#[test]
fn layout_get_and_dimensions() {
    let layout = BoardLayout::from_fn((3, 2), |c| {
        if c.x == 1 && c.y == 1 {
            Square::CenterSquare
        } else {
            Square::Empty
        }
    });
    assert_eq!(layout.dimensions(), (3, 2));
    assert_eq!(layout.get(Coordinate { x: 1, y: 1 }), Some(Square::CenterSquare));
    assert_eq!(layout.get(Coordinate { x: 2, y: 1 }), Some(Square::Empty));
    assert_eq!(layout.get(Coordinate { x: 3, y: 0 }), None);
    assert_eq!(layout.get(Coordinate { x: 0, y: 2 }), None);
    assert_eq!(layout.get(Coordinate { x: -1, y: 0 }), None);
    assert_eq!(layout.get(Coordinate { x: 0, y: -1 }), None);
    assert_eq!(layout.to_string(), "..\n.*\n..\n");
}

#[test]
fn layout_without_columns_has_no_rows() {
    let layout = BoardLayout::from_fn((0, 5), |_| Square::Empty);
    assert_eq!(layout.dimensions(), (0, 0));
    assert_eq!(layout.to_string(), "");
}

#[test]
fn glyphs_of_multipliers() {
    let layout = BoardLayout::from_fn((1, 4), |c| match c.y {
        0 => Square::LetterMultiplier(2),
        1 => Square::WordMultiplier(3),
        2 => Square::LetterMultiplier(-1),
        _ => Square::WordMultiplier(-128),
    });
    // -1 is the byte 255, which with 48 comes around to 47; -128 is the byte
    // 128, which with 32 is 160
    assert_eq!(layout.to_string(), "2#/\u{a0}\n");
}
