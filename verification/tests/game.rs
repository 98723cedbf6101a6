use crabble::asn::ASN;
use crabble::bag::Bag;
use crabble::coordinate::Coordinate;
use crabble::error::CrabbleError;
use crabble::game::{Game, GameState, Player};
use crabble::language::{Distribution, Language};
use crabble::layout::{standard_board_layout, BoardLayout};
use crabble::tile::{BoardTile, Hand, HandTile, Tile};
use std::str::FromStr;

fn two_players() -> Vec<Player> {
    vec![
        Player::new("Gamer 1".to_string()),
        Player::new("Player 2".to_string()),
    ]
}

fn english_game() -> Game {
    let layout = BoardLayout::from_fn((15, 15), standard_board_layout);
    Game::new(two_players(), layout, Language::by_name("english").unwrap())
}

fn letter(c: char) -> Tile {
    Tile { tile: c, is_joker: false }
}

fn at(x: isize, y: isize) -> Coordinate {
    Coordinate { x, y }
}

fn scores(game: &Game) -> Vec<isize> {
    game.players.iter().map(|p| p.score).collect()
}

#[test]
fn scoring_test_1() {
    let layout = BoardLayout::from_fn((15, 15), crabble::layout::standard_board_layout);

    let players = vec![
        Player::new("Gamer 1".to_string()),
        Player::new("Player 2".to_string()),
    ];

    let mut game = Game::new(players, layout, Language::by_name("english").unwrap());

    let a = ASN::from_str("77hcat\na7hs").unwrap();
    a.run(&mut game).unwrap();

    let scores: Vec<_> = game.players.iter().map(|p| p.score).collect();
    assert_eq!(scores, [10, 6])
}

#[test]
fn new_game_deals_seven_tiles_each() {
    let game = english_game();
    assert_eq!(game.bag_len(), 86);
    assert_eq!(game.players.len(), 2);
    for p in &game.players {
        assert_eq!(p.hand.len(), 7);
        assert_eq!(p.score, 0);
    }
    assert_eq!(game.players[0].name, "Gamer 1");
    assert_eq!(game.players[1].name, "Player 2");
    assert_eq!(game.state, GameState::Turn(0, false));
    assert_eq!(game.state(), GameState::Turn(0, false));
    assert_eq!(game.get_tile(at(7, 7)), None);
}

#[test]
fn dealt_tiles_and_bag_make_up_the_distribution() {
    let game = english_game();
    let mut e = 0;
    for p in &game.players {
        e += p.hand.letters.iter().filter(|t| **t == HandTile::Letter('e')).count();
    }
    // the rest of the twelve is in the bag: draw the game's racks empty and
    // refill to see them
    assert!(e <= 12);
    let total: usize = game.players.iter().map(|p| p.hand.len()).sum::<usize>() + game.bag_len();
    assert_eq!(total, 100);
}

#[test]
fn with_bag_deals_from_the_end_of_the_bag() {
    let mut d = Distribution::new();
    d.push(HandTile::Letter('a'), 7);
    d.push(HandTile::Letter('b'), 7);
    d.push(HandTile::Letter('c'), 3);
    let bag = Bag::full(&d);
    let layout = BoardLayout::from_fn((15, 15), standard_board_layout);
    let game = Game::with_bag(two_players(), layout, Language::by_name("english").unwrap(), bag);
    let c = HandTile::Letter('c');
    let b = HandTile::Letter('b');
    let a = HandTile::Letter('a');
    assert_eq!(game.players[0].hand.letters, vec![c, c, c, b, b, b, b]);
    assert_eq!(game.players[1].hand.letters, vec![b, b, b, a, a, a, a]);
    assert_eq!(game.bag_len(), 3);
}

#[test]
fn place_then_get_returns_provisional_tile() {
    let mut game = english_game();
    game.place_tile(letter('q'), at(3, 4)).unwrap();
    assert_eq!(
        game.get_tile(at(3, 4)),
        Some(BoardTile { tile: letter('q'), is_provisional: true })
    );
    assert_eq!(game.get_tile(at(4, 3)), None);
    assert_eq!(game.board().get_tile(at(3, 4)), game.get_tile(at(3, 4)));
}

#[test]
fn place_twice_is_occupied() {
    let mut game = english_game();
    game.place_tile(letter('a'), at(0, 0)).unwrap();
    assert_eq!(game.place_tile(letter('b'), at(0, 0)), Err(CrabbleError::TileOccupied));
    assert_eq!(
        game.get_tile(at(0, 0)),
        Some(BoardTile { tile: letter('a'), is_provisional: true })
    );
}

#[test]
fn place_off_the_board_is_out_of_bounds() {
    let mut game = english_game();
    for c in [at(15, 0), at(0, 15), at(-1, 0), at(0, -1), at(isize::MAX, 3), at(3, isize::MIN)] {
        assert_eq!(game.place_tile(letter('a'), c), Err(CrabbleError::TileOutOufBounds));
        assert_eq!(game.get_tile(c), None);
    }
}

#[test]
fn empty_commit_fails_and_changes_nothing() {
    let mut game = english_game();
    let before = game.to_string();
    let bag = game.bag_len();
    assert_eq!(game.end_turn(), Err(CrabbleError::PlayedWordEmpty));
    assert_eq!(game.to_string(), before);
    assert_eq!(game.bag_len(), bag);
    assert_eq!(game.state, GameState::Turn(0, false));
    assert_eq!(scores(&game), [0, 0]);
}

#[test]
fn empty_commit_after_a_play_fails_too() {
    let mut game = english_game();
    ASN::from_str("77hcat").unwrap().run(&mut game).unwrap();
    let before = game.to_string();
    assert_eq!(game.end_turn(), Err(CrabbleError::PlayedWordEmpty));
    assert_eq!(game.to_string(), before);
    assert_eq!(scores(&game), [10, 0]);
}

#[test]
fn first_play_must_cover_the_center() {
    let mut game = english_game();
    game.place_tile(letter('c'), at(0, 0)).unwrap();
    game.place_tile(letter('a'), at(1, 0)).unwrap();
    let before = game.to_string();
    assert_eq!(game.end_turn(), Err(CrabbleError::WordNotAdjacent));
    assert_eq!(game.to_string(), before);
    assert_eq!(game.state, GameState::Turn(0, false));
    assert_eq!(scores(&game), [0, 0]);
}

#[test]
fn unconnected_play_is_refused_and_costs_nothing() {
    let mut game = english_game();
    ASN::from_str("77hcat").unwrap().run(&mut game).unwrap();
    game.place_tile(letter('s'), at(14, 8)).unwrap();
    let before = game.to_string();
    let bag = game.bag_len();
    assert_eq!(game.end_turn(), Err(CrabbleError::WordNotAdjacent));
    assert_eq!(game.to_string(), before);
    assert_eq!(game.bag_len(), bag);
    assert_eq!(game.state, GameState::Turn(1, false));
    assert_eq!(scores(&game), [10, 0]);
    // the refused tile is still provisional, and the play can be mended
    assert_eq!(
        game.get_tile(at(14, 8)),
        Some(BoardTile { tile: letter('s'), is_provisional: true })
    );
}

#[test]
fn overlap_is_refused_at_placement() {
    let mut game = english_game();
    ASN::from_str("77hcat").unwrap().run(&mut game).unwrap();
    assert_eq!(game.place_tile(letter('m'), at(9, 7)), Err(CrabbleError::TileOccupied));
    assert_eq!(
        game.get_tile(at(9, 7)),
        Some(BoardTile { tile: letter('t'), is_provisional: false })
    );
}

#[test]
fn tiles_in_no_line_are_an_invalid_direction() {
    let mut game = english_game();
    game.place_tile(letter('a'), at(7, 7)).unwrap();
    game.place_tile(letter('b'), at(8, 8)).unwrap();
    assert_eq!(game.end_turn(), Err(CrabbleError::InvalidDirection));
}

#[test]
fn tiles_with_a_gap_are_scattered() {
    let mut game = english_game();
    game.place_tile(letter('a'), at(7, 7)).unwrap();
    game.place_tile(letter('b'), at(9, 7)).unwrap();
    assert_eq!(game.end_turn(), Err(CrabbleError::ScatteredProvisionalTile));
    // filling the gap mends the play
    game.place_tile(letter('c'), at(8, 7)).unwrap();
    assert_eq!(game.end_turn(), Ok(()));
    // a(1)+c(3)+b(3) = 7, doubled by the centre
    assert_eq!(scores(&game), [14, 0]);
}

#[test]
fn committed_tiles_are_permanent() {
    let mut game = english_game();
    ASN::from_str("77hcat").unwrap().run(&mut game).unwrap();
    for (x, c) in [(7, 'c'), (8, 'a'), (9, 't')] {
        assert_eq!(
            game.get_tile(at(x, 7)),
            Some(BoardTile { tile: letter(c), is_provisional: false })
        );
    }
    assert_eq!(game.state, GameState::Turn(1, false));
    assert_eq!(game.bag_len(), 86);
}

#[test]
fn unknown_letter_is_refused() {
    let mut game = english_game();
    game.place_tile(letter('C'), at(7, 7)).unwrap();
    let before = game.to_string();
    assert_eq!(game.end_turn(), Err(CrabbleError::UnknownLetter));
    assert_eq!(game.to_string(), before);
    assert_eq!(game.state, GameState::Turn(0, false));
}

#[test]
fn joker_scores_nothing_whatever_it_shows() {
    let mut game = english_game();
    // q is worth ten; as a joker it is worth nothing, and so is a letter the
    // language does not know
    ASN::from_str("77h*qa*Z").unwrap().run(&mut game).unwrap();
    assert_eq!(scores(&game), [2, 0]);
}

#[test]
fn single_tile_on_the_center_is_a_play() {
    let mut game = english_game();
    game.place_tile(letter('q'), at(7, 7)).unwrap();
    assert_eq!(game.end_turn(), Ok(()));
    assert_eq!(scores(&game), [20, 0]);
}

#[test]
fn single_tile_extends_the_longer_run() {
    let mut game = english_game();
    // "cat" down column 7 through the centre
    ASN::from_str("76vcat").unwrap().run(&mut game).unwrap();
    assert_eq!(scores(&game), [10, 0]);
    // an s below it: the vertical run has four cells, the horizontal one
    ASN::from_str("79vs").unwrap().run(&mut game).unwrap();
    assert_eq!(scores(&game), [10, 6]);
}

#[test]
fn single_tile_tie_is_played_horizontally() {
    let mut game = english_game();
    // a at (7,7), b at (8,7), then b at (8,8)
    ASN::from_str("77hab").unwrap().run(&mut game).unwrap();
    ASN::from_str("88vb").unwrap().run(&mut game).unwrap();
    assert_eq!(scores(&game), [8, 9 + 4]);
    // z at (7,8) has a horizontal run z-b and a vertical run a-z, two cells
    // each. Played horizontally the word is "zb" (13), and the words down
    // through z ("az", 11) and through b ("bb", 6) are scored as well: 30.
    // Played vertically it would come to 11 + 4 + 13 = 28.
    ASN::from_str("78hz").unwrap().run(&mut game).unwrap();
    assert_eq!(scores(&game), [8 + 30, 13]);
}

#[test]
fn letter_and_word_squares_count_under_new_tiles_only() {
    let mut game = english_game();
    // "cat" from (7,7): 5 doubled
    ASN::from_str("77hcat").unwrap().run(&mut game).unwrap();
    // "s" on (10,7) and "x" on (11,7), a double letter square: c a t s x =
    // 3+1+1+1+16
    ASN::from_str("a7hsx").unwrap().run(&mut game).unwrap();
    assert_eq!(scores(&game), [10, 22]);
    // extending once more scores the old letters plainly: the x counts 8 now
    ASN::from_str("c7hy").unwrap().run(&mut game).unwrap();
    assert_eq!(scores(&game), [10 + 3 + 1 + 1 + 1 + 8 + 4, 22]);
}

#[test]
fn crossing_words_are_scored_without_squares() {
    let mut game = english_game();
    ASN::from_str("77hcat").unwrap().run(&mut game).unwrap();
    // "at" below the c: the word played is "cat" down column 7, on plain
    // squares: 5. The word across its first cell is the old "cat": 5 again,
    // without the centre's doubling.
    ASN::from_str("78vat").unwrap().run(&mut game).unwrap();
    assert_eq!(scores(&game), [10, 10]);
    // "o" at (8,8), a double letter square, between a at (7,8) and a at
    // (8,7): played horizontally, "ao" is 1 + 2. Down through the a runs
    // "cat" (5), down through the o runs "ao" with the o counted once (2).
    ASN::from_str("88ho").unwrap().run(&mut game).unwrap();
    assert_eq!(scores(&game), [10 + 3 + 5 + 2, 10]);
}

#[test]
fn playing_leaves_the_racks_alone() {
    let mut game = english_game();
    let before: Vec<Vec<HandTile>> =
        game.players.iter().map(|p| p.hand.letters.clone()).collect();
    ASN::from_str("77hcat").unwrap().run(&mut game).unwrap();
    let after: Vec<Vec<HandTile>> =
        game.players.iter().map(|p| p.hand.letters.clone()).collect();
    assert_eq!(before, after);
    assert_eq!(game.bag_len(), 86);
}

#[test]
fn refill_comes_from_the_bag() {
    let mut game = english_game();
    game.players[0].hand.letters.truncate(4);
    ASN::from_str("77hcat").unwrap().run(&mut game).unwrap();
    assert_eq!(game.players[0].hand.len(), 7);
    assert_eq!(game.players[1].hand.len(), 7);
    assert_eq!(game.bag_len(), 83);
}

#[test]
fn draw_from_bag_reports_an_empty_bag() {
    let mut d = Distribution::new();
    d.push(HandTile::Letter('a'), 3);
    let mut bag = Bag::full(&d);
    let mut p = Player::new("p".to_string());
    assert_eq!(p.draw_from_bag(&mut bag), Err(CrabbleError::BagEmpty));
    assert_eq!(p.hand.len(), 3);
    assert!(bag.is_empty());

    let mut d = Distribution::new();
    d.push(HandTile::Letter('a'), 9);
    let mut bag = Bag::full(&d);
    assert_eq!(p.draw_from_bag(&mut bag), Ok(()));
    assert_eq!(p.hand.len(), 7);
    assert_eq!(bag.len(), 5);
    assert_eq!(p.draw_from_bag(&mut bag), Ok(()));
    assert_eq!(bag.len(), 5);
}

fn full_rack() -> Hand {
    Hand { letters: vec![HandTile::Letter('a'); 7] }
}

fn game_with_empty_bag() -> Game {
    let players = vec![
        Player { name: "one".to_string(), score: 0, hand: full_rack() },
        Player { name: "two".to_string(), score: 0, hand: full_rack() },
    ];
    let layout = BoardLayout::from_fn((15, 15), standard_board_layout);
    Game::with_bag(players, layout, Language::by_name("english").unwrap(), Bag::empty())
}

#[test]
fn game_ends_after_a_round_of_empty_racks() {
    let mut game = game_with_empty_bag();
    assert_eq!(game.bag_len(), 0);

    // a turn with tiles left on the rack: no last round yet
    ASN::from_str("77hcat").unwrap().run(&mut game).unwrap();
    assert_eq!(game.state, GameState::Turn(1, false));
    assert_eq!(game.players[0].hand.len(), 7);

    // the second player plays the rack out: the last round begins
    game.players[1].hand.letters.clear();
    ASN::from_str("a7hs").unwrap().run(&mut game).unwrap();
    assert_eq!(game.state, GameState::Turn(2, true));

    // the first player plays out too, and the next rack is empty: done
    game.players[0].hand.letters.clear();
    ASN::from_str("b7hx").unwrap().run(&mut game).unwrap();
    assert_eq!(game.state, GameState::Done);
    assert_eq!(game.state(), GameState::Done);
    assert_eq!(game.display_current_player_hand(), "");

    // a further play is not attempted
    let before = game.to_string();
    assert_eq!(
        ASN::from_str("c7hy").unwrap().run(&mut game),
        Err(CrabbleError::GameOver)
    );
    assert_eq!(game.to_string(), before);
}

#[test]
fn last_round_goes_on_while_the_next_rack_holds_tiles() {
    let mut game = game_with_empty_bag();
    game.players[0].hand.letters.clear();
    ASN::from_str("77hcat").unwrap().run(&mut game).unwrap();
    assert_eq!(game.state, GameState::Turn(1, true));
    // the second player keeps tiles; the first player's rack is empty: done
    // only if the rack of the player next to move is empty, which it is
    ASN::from_str("a7hs").unwrap().run(&mut game).unwrap();
    assert_eq!(game.state, GameState::Done);
}

#[test]
fn last_round_with_tiles_on_the_next_rack_is_not_done() {
    let players = vec![
        Player { name: "one".to_string(), score: 0, hand: full_rack() },
        Player { name: "two".to_string(), score: 0, hand: full_rack() },
        Player { name: "three".to_string(), score: 0, hand: full_rack() },
    ];
    let layout = BoardLayout::from_fn((15, 15), standard_board_layout);
    let mut game =
        Game::with_bag(players, layout, Language::by_name("english").unwrap(), Bag::empty());
    game.players[0].hand.letters.clear();
    ASN::from_str("77hcat").unwrap().run(&mut game).unwrap();
    assert_eq!(game.state, GameState::Turn(1, true));
    ASN::from_str("a7hs").unwrap().run(&mut game).unwrap();
    assert_eq!(game.state, GameState::Turn(2, true));
    ASN::from_str("b7hx").unwrap().run(&mut game).unwrap();
    // the turn passes to the first player, whose rack is empty
    assert_eq!(game.state, GameState::Done);
}

#[test]
fn active_player_is_the_turn_number_modulo_the_players() {
    let mut game = english_game();
    ASN::from_str("77hcat\na7hs\nb7hx").unwrap().run(&mut game).unwrap();
    assert_eq!(game.state, GameState::Turn(3, false));
    // the third play went to the first player again: x on a double letter
    // square, c a t s x = 3+1+1+1+16
    assert_eq!(scores(&game), [10 + 22, 6]);
}

#[test]
fn hand_display_lists_tiles_with_values() {
    let players = vec![Player {
        name: "one".to_string(),
        score: 0,
        hand: Hand {
            letters: vec![
                HandTile::Letter('q'),
                HandTile::Joker,
                HandTile::Letter('e'),
                HandTile::Letter('e'),
                HandTile::Letter('k'),
                HandTile::Letter('d'),
                HandTile::Letter('z'),
            ],
        },
    }];
    let layout = BoardLayout::from_fn((15, 15), standard_board_layout);
    let game =
        Game::with_bag(players, layout, Language::by_name("english").unwrap(), Bag::empty());
    assert!(game.current_hand_valued());
    assert_eq!(
        game.display_current_player_hand(),
        "(q, 10) (*, 0) (e, 1) (e, 1) (k, 5) (d, 2) (z, 10) "
    );
}

#[test]
fn hand_with_unknown_tile_is_not_valued() {
    let mut game = english_game();
    game.players[0].hand.letters[3] = HandTile::Letter('Q');
    assert!(!game.current_hand_valued());
}

#[test]
fn game_picture() {
    let players = vec![
        Player {
            name: "one".to_string(),
            score: -12,
            hand: Hand { letters: vec![HandTile::Letter('a'), HandTile::Joker] },
        },
        Player { name: "two".to_string(), score: 305, hand: Hand::empty() },
    ];
    let layout = BoardLayout::from_fn((2, 2), |c| {
        if c.x == 0 && c.y == 0 {
            crabble::layout::Square::CenterSquare
        } else {
            crabble::layout::Square::WordMultiplier(2)
        }
    });
    let mut d = Distribution::new();
    d.push(HandTile::Letter('z'), 20);
    let mut game =
        Game::with_bag(players, layout, Language::by_name("english").unwrap(), Bag::full(&d));
    game.players[0].score = -12;
    game.place_tile(letter('h'), at(1, 0)).unwrap();
    assert_eq!(
        game.to_string(),
        "State: Turn 0, Players: \n\
         Player one, (score: -12), hand: a, *, z, z, z, z, z\n\
         Player two, (score: 305), hand: z, z, z, z, z, z, z\n\
         *\u{1b}[35mh\u{1b}[0m\n\"\"\n"
    );
}

#[test]
fn state_and_hand_as_text() {
    assert_eq!(GameState::Turn(12, true).to_string(), "Turn 12");
    assert_eq!(GameState::Turn(0, false).to_string(), "Turn 0");
    assert_eq!(GameState::Done.to_string(), "Done");
    assert_eq!(Hand::empty().to_string(), "");
    assert_eq!(Hand { letters: vec![HandTile::Joker] }.to_string(), "*");
    assert_eq!(
        Hand { letters: vec![HandTile::Letter('x'), HandTile::Joker, HandTile::Letter('y')] }
            .to_string(),
        "x, *, y"
    );
}

#[test]
fn hand_remove_takes_the_first_match() {
    let mut h = Hand {
        letters: vec![HandTile::Letter('a'), HandTile::Joker, HandTile::Letter('a')],
    };
    assert!(h.remove(HandTile::Letter('a')));
    assert_eq!(h.letters, vec![HandTile::Joker, HandTile::Letter('a')]);
    assert!(!h.remove(HandTile::Letter('b')));
    assert_eq!(h.len(), 2);
    assert!(h.remove(HandTile::Joker));
    assert!(h.remove(HandTile::Letter('a')));
    assert!(h.is_empty());
}

#[test]
fn score_overflow_is_refused() {
    let lang = Language::parse_csv("big", "l,n,v\na,20,9223372036854775807\nb,20,1\n").unwrap();
    let layout = BoardLayout::from_fn((15, 15), standard_board_layout);
    let mut game = Game::new(two_players(), layout, lang);
    game.place_tile(letter('a'), at(7, 7)).unwrap();
    let before = game.to_string();
    // the value fits, doubled by the centre it does not
    assert_eq!(game.end_turn(), Err(CrabbleError::ScoreOverflow));
    assert_eq!(game.to_string(), before);
    assert_eq!(game.state, GameState::Turn(0, false));
}

#[test]
fn player_total_overflow_is_refused() {
    let lang = Language::parse_csv("big", "l,n,v\na,20,9223372036854775807\nb,20,1\n").unwrap();
    let layout = BoardLayout::from_fn((15, 15), standard_board_layout);
    let mut game = Game::new(two_players(), layout, lang);
    game.place_tile(letter('b'), at(7, 7)).unwrap();
    game.end_turn().unwrap();
    game.players[1].score = 1;
    game.place_tile(letter('a'), at(8, 7)).unwrap();
    let before = game.to_string();
    // b(1) + a(max) overflows within the word
    assert_eq!(game.end_turn(), Err(CrabbleError::ScoreOverflow));
    assert_eq!(game.to_string(), before);
}
