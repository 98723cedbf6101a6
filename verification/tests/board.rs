use crabble::board::Board;
use crabble::coordinate::{Coordinate, Direction};
use crabble::error::WordPlacementError;
use crabble::language::{Language, LetterValues};
use crabble::layout::{BoardLayout, Square};
use crabble::play::contains_coordinate;
use crabble::tile::{BoardTile, HandTile, Tile};

fn letter(c: char) -> Tile {
    Tile { tile: c, is_joker: false }
}

fn at(x: isize, y: isize) -> Coordinate {
    Coordinate { x, y }
}

fn english() -> LetterValues {
    Language::by_name("english").unwrap().values
}

fn put(board: &mut Board, word: &str, start: Coordinate, dir: Direction) {
    let mut c = start;
    for ch in word.chars() {
        board.place(letter(ch), c).unwrap();
        c = c + dir.to_offset();
    }
}

#[test]
fn new_board_is_the_empty_standard_board() {
    let board = Board::new();
    assert_eq!(board.dimensions(), (15, 15));
    assert_eq!(board.get_square(at(7, 7)), Some(Square::CenterSquare));
    assert_eq!(board.get_square(at(0, 0)), Some(Square::WordMultiplier(3)));
    assert_eq!(board.get_square(at(15, 0)), None);
    assert_eq!(board.get_square(at(-1, 0)), None);
    for x in 0..15 {
        for y in 0..15 {
            assert_eq!(board.get_tile(at(x, y)), None);
        }
    }
    assert!(board.provisional_coordinates().is_empty());
}

#[test]
fn place_then_get() {
    let mut board = Board::new();
    assert_eq!(board.place(letter('k'), at(2, 11)), Ok(()));
    assert_eq!(
        board.get_tile(at(2, 11)),
        Some(BoardTile { tile: letter('k'), is_provisional: true })
    );
    assert_eq!(board.get_tile(at(11, 2)), None);
}

#[test]
fn place_joker_keeps_the_flag() {
    let mut board = Board::new();
    board.place(Tile { tile: 'k', is_joker: true }, at(0, 14)).unwrap();
    assert_eq!(
        board.get_tile(at(0, 14)),
        Some(BoardTile { tile: Tile { tile: 'k', is_joker: true }, is_provisional: true })
    );
}

#[test]
fn place_on_a_tile_is_occupied_and_keeps_the_first() {
    let mut board = Board::new();
    board.place(letter('a'), at(5, 5)).unwrap();
    assert_eq!(board.place(letter('b'), at(5, 5)), Err(WordPlacementError::TileOccupied));
    assert_eq!(
        board.get_tile(at(5, 5)),
        Some(BoardTile { tile: letter('a'), is_provisional: true })
    );
    // a committed tile is occupied as well
    let mut board = Board::new();
    board.place(letter('a'), at(7, 7)).unwrap();
    board.commit(&english()).unwrap();
    assert_eq!(board.place(letter('b'), at(7, 7)), Err(WordPlacementError::TileOccupied));
}

#[test]
fn place_off_the_board() {
    let mut board = Board::new();
    for c in [at(15, 7), at(7, 15), at(-1, 7), at(7, -1), at(isize::MIN, isize::MAX)] {
        assert_eq!(board.place(letter('a'), c), Err(WordPlacementError::TileOutOufBounds));
    }
    assert!(board.provisional_coordinates().is_empty());
}

#[test]
fn board_without_cells_takes_no_tile() {
    let mut board = Board::from_layout(BoardLayout::from_fn((0, 0), |_| Square::Empty));
    assert_eq!(board.dimensions(), (0, 0));
    assert_eq!(board.place(letter('a'), at(0, 0)), Err(WordPlacementError::TileOutOufBounds));
    assert_eq!(board.commit(&english()), Err(WordPlacementError::PlayedWordEmpty));
    assert_eq!(board.find_range(at(0, 0), Direction::Horizontal), vec![at(0, 0)]);
}

#[test]
fn find_range_finds_the_whole_run() {
    let mut board = Board::new();
    put(&mut board, "cat", at(7, 7), Direction::Horizontal);
    let run = vec![at(7, 7), at(8, 7), at(9, 7)];
    for c in &run {
        assert_eq!(board.find_range(*c, Direction::Horizontal), run);
        assert_eq!(board.find_range(*c, Direction::Vertical), vec![*c]);
    }
}

#[test]
fn find_range_joins_the_asked_cell_to_its_neighbours() {
    let mut board = Board::new();
    put(&mut board, "ab", at(3, 3), Direction::Horizontal);
    put(&mut board, "cd", at(6, 3), Direction::Horizontal);
    // (5,3) is free: asked for, it joins "ab" on its left to "cd" on its right
    assert_eq!(
        board.find_range(at(5, 3), Direction::Horizontal),
        vec![at(3, 3), at(4, 3), at(5, 3), at(6, 3), at(7, 3)]
    );
    assert_eq!(
        board.find_range(at(4, 3), Direction::Horizontal),
        vec![at(3, 3), at(4, 3)]
    );
    assert_eq!(
        board.find_range(at(2, 3), Direction::Horizontal),
        vec![at(2, 3), at(3, 3), at(4, 3)]
    );
    assert_eq!(board.find_range(at(0, 0), Direction::Vertical), vec![at(0, 0)]);
}

#[test]
fn find_range_stops_at_the_edges() {
    let mut board = Board::new();
    put(&mut board, "abcdefghijklmno", at(0, 14), Direction::Horizontal);
    let run = board.find_range(at(6, 14), Direction::Horizontal);
    assert_eq!(run.len(), 15);
    assert_eq!(run[0], at(0, 14));
    assert_eq!(run[14], at(14, 14));
    put(&mut board, "xy", at(14, 12), Direction::Vertical);
    assert_eq!(
        board.find_range(at(14, 14), Direction::Vertical),
        vec![at(14, 12), at(14, 13), at(14, 14)]
    );
}

#[test]
fn find_range_far_off_the_board_is_the_cell_alone() {
    let board = Board::new();
    for c in [
        at(isize::MAX, isize::MAX),
        at(isize::MIN, isize::MIN),
        at(isize::MAX, 0),
        at(0, isize::MIN),
        at(-1, 7),
        at(15, 7),
    ] {
        assert_eq!(board.find_range(c, Direction::Horizontal), vec![c]);
        assert_eq!(board.find_range(c, Direction::Vertical), vec![c]);
    }
}

#[test]
fn find_range_next_to_the_board_joins_the_tiles_at_the_edge() {
    let mut board = Board::new();
    put(&mut board, "ab", at(0, 4), Direction::Horizontal);
    assert_eq!(
        board.find_range(at(-1, 4), Direction::Horizontal),
        vec![at(-1, 4), at(0, 4), at(1, 4)]
    );
}

#[test]
fn skip_tiles_finds_the_next_free_cell() {
    let mut board = Board::new();
    put(&mut board, "cat", at(7, 7), Direction::Horizontal);
    assert_eq!(board.skip_tiles(at(7, 7), Direction::Horizontal), at(10, 7));
    assert_eq!(board.skip_tiles(at(9, 7), Direction::Horizontal), at(10, 7));
    assert_eq!(board.skip_tiles(at(10, 7), Direction::Horizontal), at(10, 7));
    assert_eq!(board.skip_tiles(at(7, 7), Direction::Vertical), at(7, 8));
    put(&mut board, "abcde", at(10, 7), Direction::Horizontal);
    assert_eq!(board.skip_tiles(at(7, 7), Direction::Horizontal), at(15, 7));
}

#[test]
fn provisional_coordinates_come_in_reading_order() {
    let mut board = Board::new();
    board.place(letter('a'), at(9, 2)).unwrap();
    board.place(letter('b'), at(3, 8)).unwrap();
    board.place(letter('c'), at(3, 1)).unwrap();
    board.place(letter('d'), at(9, 0)).unwrap();
    assert_eq!(
        board.provisional_coordinates(),
        vec![at(3, 1), at(3, 8), at(9, 0), at(9, 2)]
    );
}

#[test]
fn tiles_with_coordinates_lists_every_cell() {
    let mut board = Board::from_layout(BoardLayout::from_fn((2, 3), |_| Square::Empty));
    board.place(letter('a'), at(1, 0)).unwrap();
    let a = Some(BoardTile { tile: letter('a'), is_provisional: true });
    assert_eq!(
        board.tiles_with_coordinates(),
        vec![
            (at(0, 0), None),
            (at(0, 1), None),
            (at(0, 2), None),
            (at(1, 0), a),
            (at(1, 1), None),
            (at(1, 2), None),
        ]
    );
}

#[test]
fn commit_scores_and_settles() {
    let mut board = Board::new();
    put(&mut board, "cat", at(7, 7), Direction::Horizontal);
    assert_eq!(board.commit(&english()), Ok(10));
    for (x, c) in [(7, 'c'), (8, 'a'), (9, 't')] {
        assert_eq!(
            board.get_tile(at(x, 7)),
            Some(BoardTile { tile: letter(c), is_provisional: false })
        );
    }
    assert!(board.provisional_coordinates().is_empty());
    assert_eq!(board.commit(&english()), Err(WordPlacementError::PlayedWordEmpty));
    board.place(letter('s'), at(10, 7)).unwrap();
    assert_eq!(board.commit(&english()), Ok(6));
}

#[test]
fn refused_commit_leaves_the_board_alone() {
    let mut board = Board::new();
    put(&mut board, "cat", at(0, 0), Direction::Horizontal);
    let before = board.to_string();
    assert_eq!(board.commit(&english()), Err(WordPlacementError::WordNotAdjacent));
    assert_eq!(board.to_string(), before);
    assert_eq!(board.provisional_coordinates().len(), 3);
}

#[test]
fn check_play_tells_the_word() {
    let mut board = Board::new();
    put(&mut board, "cat", at(7, 5), Direction::Vertical);
    let play = board.check_play(&english()).unwrap();
    assert_eq!(play.anchor, at(7, 5));
    assert_eq!(play.direction, Direction::Vertical);
    assert_eq!(play.run, vec![at(7, 5), at(7, 6), at(7, 7)]);
    // t on the centre: 5 doubled
    assert_eq!(play.points, 10);
    // nothing was settled
    assert_eq!(board.provisional_coordinates().len(), 3);
}

#[test]
fn every_refusal_in_its_order() {
    let values = english();
    let mut board = Board::new();
    assert_eq!(board.check_play(&values).unwrap_err(), WordPlacementError::PlayedWordEmpty);
    board.place(letter('a'), at(1, 1)).unwrap();
    board.place(letter('b'), at(2, 2)).unwrap();
    assert_eq!(board.check_play(&values).unwrap_err(), WordPlacementError::InvalidDirection);

    let mut board = Board::new();
    board.place(letter('a'), at(1, 1)).unwrap();
    board.place(letter('b'), at(1, 3)).unwrap();
    assert_eq!(
        board.check_play(&values).unwrap_err(),
        WordPlacementError::ScatteredProvisionalTile
    );
    board.place(letter('c'), at(1, 2)).unwrap();
    assert_eq!(board.check_play(&values).unwrap_err(), WordPlacementError::WordNotAdjacent);

    let mut board = Board::new();
    board.place(letter('!'), at(7, 7)).unwrap();
    assert_eq!(board.check_play(&values).unwrap_err(), WordPlacementError::UnknownLetter);
}

#[test]
fn word_touching_another_is_adjacent() {
    let values = english();
    let mut board = Board::new();
    put(&mut board, "cat", at(7, 7), Direction::Horizontal);
    board.commit(&values).unwrap();
    // "ox" in row 8 under "at": touches a and t from below
    put(&mut board, "ox", at(8, 8), Direction::Horizontal);
    // word: o on a double letter square 2 + x 8; across: "ao" 2, "tx" 9
    assert_eq!(board.commit(&values), Ok(10 + 2 + 9));
}

#[test]
fn score_range_of_a_word() {
    let values = english();
    let mut board = Board::new();
    put(&mut board, "quiz", at(0, 0), Direction::Horizontal);
    let word = vec![at(0, 0), at(1, 0), at(2, 0), at(3, 0)];
    // q on a triple word square, z on a double letter square
    assert_eq!(board.score_range(&values, &word, false), Ok((10 + 1 + 1 + 20) * 3));
    assert_eq!(board.score_range(&values, &word, true), Ok(10 + 1 + 1 + 10));
    assert_eq!(board.score_range(&values, &vec![], false), Ok(0));
    assert_eq!(
        board.score_range(&values, &vec![at(5, 5)], false),
        Err(WordPlacementError::UnknownLetter)
    );
    assert!(board.range_valued(&values, &word));
    assert!(!board.range_valued(&values, &vec![at(0, 0), at(0, 1)]));
}

#[test]
fn word_multipliers_multiply_each_other() {
    let values = english();
    let layout = BoardLayout::from_fn((3, 1), |c| match c.x {
        0 => Square::WordMultiplier(3),
        1 => Square::CenterSquare,
        _ => Square::WordMultiplier(2),
    });
    let mut board = Board::from_layout(layout);
    put(&mut board, "cat", at(0, 0), Direction::Horizontal);
    assert_eq!(board.commit(&values), Ok(5 * 3 * 2 * 2));
}

#[test]
fn negative_and_zero_multipliers_count_as_they_are() {
    let values = english();
    let layout = BoardLayout::from_fn((3, 1), |c| match c.x {
        0 => Square::LetterMultiplier(-2),
        1 => Square::CenterSquare,
        _ => Square::LetterMultiplier(0),
    });
    let mut board = Board::from_layout(layout);
    put(&mut board, "cat", at(0, 0), Direction::Horizontal);
    assert_eq!(board.commit(&values), Ok((-6 + 1 + 0) * 2));
}

#[test]
fn overflowing_product_is_refused() {
    let values = english();
    let layout = BoardLayout::from_fn((12, 1), |c| {
        if c.x == 0 {
            Square::CenterSquare
        } else {
            Square::WordMultiplier(127)
        }
    });
    let mut board = Board::from_layout(layout);
    put(&mut board, "aaaaaaaaaaaa", at(0, 0), Direction::Horizontal);
    assert_eq!(board.commit(&values), Err(WordPlacementError::ScoreOverflow));
    assert_eq!(board.provisional_coordinates().len(), 12);
}

#[test]
fn score_word_adds_the_crossings() {
    let values = english();
    let mut board = Board::new();
    put(&mut board, "cat", at(7, 7), Direction::Horizontal);
    board.commit(&values).unwrap();
    put(&mut board, "at", at(7, 8), Direction::Vertical);
    let word = vec![at(7, 7), at(7, 8), at(7, 9)];
    assert_eq!(board.score_word(&values, &word, Direction::Vertical), Ok(5 + 5));
    assert!(board.play_valued(&values, &word, Direction::Vertical));
    assert!(board.all_provisional(&vec![at(7, 8), at(7, 9)]));
    assert!(!board.all_provisional(&word));
    assert!(board.touches_neighbour(&word, Direction::Vertical));
    assert!(!board.touches_neighbour(&vec![at(7, 8), at(7, 9)], Direction::Vertical));
    assert!(board.covers_center(&word));
    assert!(!board.covers_center(&vec![at(7, 8), at(7, 9)]));
}

#[test]
fn contains_coordinate_finds_what_is_there() {
    let list = vec![at(1, 2), at(3, 4)];
    assert!(contains_coordinate(&list, at(3, 4)));
    assert!(!contains_coordinate(&list, at(4, 3)));
    assert!(!contains_coordinate(&vec![], at(0, 0)));
}

#[test]
fn board_picture_shows_tiles_and_squares() {
    let layout = BoardLayout::from_fn((3, 2), |c| match (c.x, c.y) {
        (0, 0) => Square::CenterSquare,
        (1, 0) => Square::LetterMultiplier(3),
        (2, 1) => Square::WordMultiplier(2),
        _ => Square::Empty,
    });
    let mut board = Board::from_layout(layout);
    assert_eq!(board.to_string(), "*3.\n..\"\n");
    board.place(letter('a'), at(0, 0)).unwrap();
    board.commit(&english()).unwrap();
    board.place(letter('z'), at(1, 0)).unwrap();
    assert_eq!(board.to_string(), "a\u{1b}[35mz\u{1b}[0m.\n..\"\n");
}

#[test]
fn letter_values_lookup() {
    let mut values = LetterValues::new();
    assert!(!values.contains(HandTile::Joker));
    assert_eq!(values.lookup(HandTile::Joker), None);
    values.insert(HandTile::Letter('a'), 4);
    values.insert(HandTile::Joker, 0);
    values.insert(HandTile::Letter('a'), 9);
    assert_eq!(values.get(HandTile::Letter('a')), 9);
    assert_eq!(values.lookup(HandTile::Letter('a')), Some(9));
    assert_eq!(values.get(HandTile::Joker), 0);
    assert!(!values.contains(HandTile::Letter('b')));
}
