use crabble::board::Board;
use crabble::coordinate::{Coordinate, Direction};
use crabble::dictionary::{challenge, check_if_valid, rank, Dictionary, Rank};
use crabble::tile::{BoardTile, Tile};

fn chars(s: &str) -> Vec<char> {
    s.chars().collect()
}

fn tiles(s: &str) -> Vec<BoardTile> {
    s.chars()
        .map(|c| BoardTile { tile: Tile { tile: c, is_joker: false }, is_provisional: false })
        .collect()
}

fn at(x: isize, y: isize) -> Coordinate {
    Coordinate { x, y }
}

const WORDS: &str = "a\nat\ncat\ncats\ndog\nta\nzebra\n";

#[test]
fn ranks_words_as_strings_are_ordered() {
    let words = ["", "a", "ab", "abc", "b", "ba", "z", "é", "zz", "A", "cat", "cats"];
    for x in words {
        for y in words {
            let expected = if x < y {
                Rank::Before
            } else if x == y {
                Rank::Same
            } else {
                Rank::After
            };
            assert_eq!(rank(&chars(x), &chars(y)), expected, "{} {}", x, y);
        }
    }
}

#[test]
fn finds_the_words_that_are_there() {
    let d = Dictionary::from_text(WORDS);
    assert!(d.is_sorted());
    for w in ["a", "at", "cat", "cats", "dog", "ta", "zebra"] {
        assert!(d.contains(&chars(w)), "{}", w);
        assert!(check_if_valid(&d, &tiles(w)), "{}", w);
    }
    for w in ["", "b", "ca", "catss", "zebr", "zebras", "A"] {
        assert!(!d.contains(&chars(w)), "{}", w);
        assert!(!check_if_valid(&d, &tiles(w)), "{}", w);
    }
}

#[test]
fn empty_word_is_never_valid() {
    // even in a dictionary that lists the empty word
    let d = Dictionary::from_text("\na\n");
    assert!(d.is_sorted());
    assert!(d.contains(&chars("")));
    assert!(!check_if_valid(&d, &tiles("")));
    assert!(!check_if_valid(&Dictionary::from_text(""), &tiles("")));
}

#[test]
fn lines_of_the_text() {
    assert!(!Dictionary::from_text("").contains(&chars("")));
    let d = Dictionary::from_text("a\r\nb\nc");
    assert!(d.contains(&chars("a")));
    assert!(d.contains(&chars("b")));
    assert!(d.contains(&chars("c")));
    assert!(!d.contains(&chars("a\r")));
    // a carriage return without a line feed after it belongs to the word
    let d = Dictionary::from_text("a\nb\r");
    assert!(d.contains(&chars("b\r")));
    assert!(!d.contains(&chars("b")));
}

#[test]
fn unsorted_dictionary_is_noticed() {
    assert!(!Dictionary::from_text("b\na\n").is_sorted());
    assert!(!Dictionary::from_text("a\na\n").is_sorted());
    assert!(!Dictionary::from_text("a\n\n").is_sorted());
    assert!(Dictionary::from_text("").is_sorted());
    assert!(Dictionary::from_text("a").is_sorted());
}

#[test]
fn challenge_checks_the_word_and_every_crossing() {
    let d = Dictionary::from_text(WORDS);
    let mut board = Board::new();
    let mut c = at(7, 7);
    for ch in "cat".chars() {
        board.place(Tile { tile: ch, is_joker: false }, c).unwrap();
        c = c + Direction::Horizontal.to_offset();
    }
    let word = vec![at(7, 7), at(8, 7), at(9, 7)];
    // "cat" is a word, but of its letters alone only "a" is one
    assert!(!challenge(&board, &word, Direction::Horizontal, &d));
    let d = Dictionary::from_text("a\nc\ncat\nt\n");
    assert!(challenge(&board, &word, Direction::Horizontal, &d));
    // read down, the word is c alone and the crossing is "cat"
    assert!(challenge(&board, &vec![at(7, 7)], Direction::Vertical, &d));
    let d = Dictionary::from_text("a\nc\nt\n");
    assert!(!challenge(&board, &word, Direction::Horizontal, &d));
    assert!(!challenge(&board, &vec![], Direction::Horizontal, &d));
}

#[test]
fn tiles_on_reads_the_board() {
    let mut board = Board::new();
    board.place(Tile { tile: 'x', is_joker: true }, at(1, 1)).unwrap();
    assert_eq!(
        board.tiles_on(&vec![at(1, 1)]),
        vec![BoardTile { tile: Tile { tile: 'x', is_joker: true }, is_provisional: true }]
    );
}
