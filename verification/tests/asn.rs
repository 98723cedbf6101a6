use crabble::asn::{digit15, read_tiles, tile_step, ASNError, ParseState, Step, ASN};
use crabble::coordinate::{Coordinate, Direction};
use crabble::error::CrabbleError;
use crabble::game::{Game, GameState, Player};
use crabble::language::Language;
use crabble::layout::{standard_board_layout, BoardLayout};
use crabble::tile::{BoardTile, Tile};
use std::str::FromStr;

fn new_game() -> Game {
    let layout = BoardLayout::from_fn((15, 15), standard_board_layout);
    let players = vec![
        Player::new("Gamer 1".to_string()),
        Player::new("Player 2".to_string()),
    ];
    Game::new(players, layout, Language::by_name("english").unwrap())
}

#[test]
fn asn_test_word_extension() {
    let a = ASN::from_str("77hcat\na7hs").unwrap();
    a.run(&mut new_game()).unwrap();
}

#[test]
fn asn_invalid_play() {
    let a = ASN::from_str("77hcat\ne8hs").unwrap();
    let err = a.run(&mut new_game()).unwrap_err();
    assert_eq!(err, CrabbleError::WordNotAdjacent);
}

#[test]
fn asn_invalid_play_overlap() {
    let a = ASN::from_str("77hcat\n97hmeow").unwrap();
    let err = a.run(&mut new_game()).unwrap_err();
    assert_eq!(err, CrabbleError::TileOccupied);
}

#[test]
fn asn_catgirl_extension() {
    let a = ASN::from_str("77hgirl\n47hcats").unwrap();
    a.run(&mut new_game()).unwrap();
}

#[test]
fn catgirl_extension_skips_the_tiles_that_lie_there() {
    let mut game = new_game();
    ASN::from_str("77hgirl\n47hcats").unwrap().run(&mut game).unwrap();
    let word: String = (4..12)
        .map(|x| game.get_tile(Coordinate { x, y: 7 }).unwrap().tile.tile)
        .collect();
    assert_eq!(word, "catgirls");
    assert_eq!(game.get_tile(Coordinate { x: 12, y: 7 }), None);
    assert_eq!(game.get_tile(Coordinate { x: 3, y: 7 }), None);
    // girl: g2 i1 r1 l1 = 5, doubled; catgirls: 3+1+1+2+1+1+1 and s on the
    // double letter square (11,7): 2
    let scores: Vec<isize> = game.players.iter().map(|p| p.score).collect();
    assert_eq!(scores, [10, 12]);
}

#[test]
fn invalid_play_leaves_its_tiles_provisional() {
    let mut game = new_game();
    let err = ASN::from_str("77hcat\ne8hs").unwrap().run(&mut game).unwrap_err();
    assert_eq!(err, CrabbleError::WordNotAdjacent);
    assert_eq!(
        game.get_tile(Coordinate { x: 14, y: 8 }),
        Some(BoardTile { tile: Tile { tile: 's', is_joker: false }, is_provisional: true })
    );
    assert_eq!(game.state, GameState::Turn(1, false));
    let scores: Vec<isize> = game.players.iter().map(|p| p.score).collect();
    assert_eq!(scores, [10, 0]);
}

#[test]
fn overlap_stops_at_the_first_tile() {
    let mut game = new_game();
    let err = ASN::from_str("77hcat\n97hmeow").unwrap().run(&mut game).unwrap_err();
    assert_eq!(err, CrabbleError::TileOccupied);
    assert_eq!(
        game.get_tile(Coordinate { x: 9, y: 7 }),
        Some(BoardTile { tile: Tile { tile: 't', is_joker: false }, is_provisional: false })
    );
    assert_eq!(game.get_tile(Coordinate { x: 10, y: 7 }), None);
}

#[test]
fn play_running_off_the_board_is_out_of_bounds() {
    let mut game = new_game();
    let err = ASN::from_str("c7habcd").unwrap().run(&mut game).unwrap_err();
    assert_eq!(err, CrabbleError::TileOutOufBounds);
    assert!(game.get_tile(Coordinate { x: 14, y: 7 }).is_some());
}

#[test]
fn parses_coordinates_direction_and_tiles() {
    let a = ASN::from_str("e0vAb*c\n0Ehx").unwrap();
    assert_eq!(a.lines.len(), 2);
    assert_eq!(a.lines[0].coord, Coordinate { x: 14, y: 0 });
    assert_eq!(a.lines[0].dir, Direction::Vertical);
    assert_eq!(
        a.lines[0].tiles,
        vec![
            Tile { tile: 'A', is_joker: false },
            Tile { tile: 'b', is_joker: false },
            Tile { tile: 'c', is_joker: true },
        ]
    );
    assert_eq!(a.lines[1].coord, Coordinate { x: 0, y: 14 });
    assert_eq!(a.lines[1].dir, Direction::Horizontal);
    assert_eq!(a.lines[1].tiles, vec![Tile { tile: 'x', is_joker: false }]);
}

#[test]
fn parse_is_from_str() {
    let a = ASN::parse("77hcat").unwrap();
    let b = ASN::from_str("77hcat").unwrap();
    assert_eq!(a.lines.len(), 1);
    assert_eq!(a.lines[0].tiles, b.lines[0].tiles);
    assert_eq!(a.lines[0].coord, b.lines[0].coord);
}

#[test]
fn empty_text_has_no_plays() {
    assert_eq!(ASN::from_str("").unwrap().lines.len(), 0);
}

#[test]
fn trailing_line_feed_ends_the_last_play() {
    assert_eq!(ASN::from_str("77hcat\n").unwrap().lines.len(), 1);
}

#[test]
fn letters_of_other_scripts_are_tiles() {
    let a = ASN::from_str("77hé*ß").unwrap();
    assert_eq!(
        a.lines[0].tiles,
        vec![Tile { tile: 'é', is_joker: false }, Tile { tile: 'ß', is_joker: true }]
    );
}

fn error_of(text: &str) -> ASNError {
    ASN::from_str(text).unwrap_err()
}

#[test]
fn bad_coordinates() {
    assert_eq!(error_of("f7hcat"), ASNError::InvalidCoord);
    assert_eq!(error_of("7fhcat"), ASNError::InvalidCoord);
    assert_eq!(error_of("7"), ASNError::InvalidCoord);
    assert_eq!(error_of("+7hcat"), ASNError::InvalidCoord);
    assert_eq!(error_of("77hcat\n\n"), ASNError::InvalidCoord);
    assert_eq!(error_of("٣7hcat"), ASNError::InvalidCoord);
}

#[test]
fn bad_direction() {
    assert_eq!(error_of("77xcat"), ASNError::InvalidDirection);
    assert_eq!(error_of("77Hcat"), ASNError::InvalidDirection);
    assert_eq!(error_of("77"), ASNError::InvalidDirection);
}

#[test]
fn bad_joker() {
    assert_eq!(error_of("77h**a"), ASNError::InvalidJoker);
    assert_eq!(error_of("77hc**a"), ASNError::InvalidJoker);
}

#[test]
fn play_ending_too_early() {
    assert_eq!(error_of("77h"), ASNError::UnexpendedPlayEnd);
    assert_eq!(error_of("77h\n"), ASNError::UnexpendedPlayEnd);
    assert_eq!(error_of("77hc*"), ASNError::UnexpendedPlayEnd);
    assert_eq!(error_of("77hc*\n"), ASNError::UnexpendedPlayEnd);
}

#[test]
fn bad_tile_character() {
    assert_eq!(error_of("77hc4t"), ASNError::InvalidTileCharacter);
    assert_eq!(error_of("77hc t"), ASNError::InvalidTileCharacter);
    assert_eq!(error_of("77h*4"), ASNError::InvalidTileCharacter);
    assert_eq!(error_of("77hcat\r\n"), ASNError::InvalidTileCharacter);
}

#[test]
fn tile_steps() {
    assert_eq!(tile_step(ParseState::RequiresTile, Some('*'), false), Step::Mark(ParseState::JokerTile));
    assert_eq!(tile_step(ParseState::CanEnd, Some('*'), false), Step::Mark(ParseState::JokerTile));
    assert_eq!(tile_step(ParseState::JokerTile, Some('*'), false), Step::Fail(ASNError::InvalidJoker));
    assert_eq!(tile_step(ParseState::CanEnd, None, false), Step::End);
    assert_eq!(tile_step(ParseState::CanEnd, Some('\n'), false), Step::End);
    assert_eq!(tile_step(ParseState::RequiresTile, None, false), Step::Fail(ASNError::UnexpendedPlayEnd));
    assert_eq!(tile_step(ParseState::JokerTile, Some('\n'), false), Step::Fail(ASNError::UnexpendedPlayEnd));
    assert_eq!(
        tile_step(ParseState::RequiresTile, Some('k'), true),
        Step::Put(Tile { tile: 'k', is_joker: false })
    );
    assert_eq!(
        tile_step(ParseState::JokerTile, Some('k'), true),
        Step::Put(Tile { tile: 'k', is_joker: true })
    );
    assert_eq!(
        tile_step(ParseState::CanEnd, Some('k'), true),
        Step::Put(Tile { tile: 'k', is_joker: false })
    );
    assert_eq!(
        tile_step(ParseState::CanEnd, Some('4'), false),
        Step::Fail(ASNError::InvalidTileCharacter)
    );
}

#[test]
fn digits_in_base_fifteen() {
    assert_eq!(digit15('0'), Some(0));
    assert_eq!(digit15('9'), Some(9));
    assert_eq!(digit15('a'), Some(10));
    assert_eq!(digit15('e'), Some(14));
    assert_eq!(digit15('A'), Some(10));
    assert_eq!(digit15('E'), Some(14));
    assert_eq!(digit15('f'), None);
    assert_eq!(digit15('F'), None);
    assert_eq!(digit15('-'), None);
    assert_eq!(digit15(' '), None);
}

#[test]
fn read_tiles_stops_after_the_line_feed() {
    let s: Vec<char> = "77hca\n88vx".chars().collect();
    let (tiles, end) = read_tiles(&s, 3).unwrap();
    assert_eq!(tiles.len(), 2);
    assert_eq!(end, 6);
    let (tiles, end) = read_tiles(&s, 9).unwrap();
    assert_eq!(tiles, vec![Tile { tile: 'x', is_joker: false }]);
    assert_eq!(end, 10);
}

#[test]
fn place_lays_out_one_play() {
    let mut game = new_game();
    let a = ASN::from_str("77vdog").unwrap();
    a.lines[0].place(&mut game).unwrap();
    for (y, c) in [(7, 'd'), (8, 'o'), (9, 'g')] {
        assert_eq!(
            game.get_tile(Coordinate { x: 7, y }),
            Some(BoardTile { tile: Tile { tile: c, is_joker: false }, is_provisional: true })
        );
    }
    assert_eq!(game.state, GameState::Turn(0, false));
}
