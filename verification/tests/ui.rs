use crabble::asn::ASNError;
use crabble::error::CrabbleError;
use crabble::game::GameState;
use crabble::ui::{
    App, Button, GameTurnActiveBox, GameUI, Key, Settings, SettingsActiveBox, State, StringField,
    UiError,
};

fn field(text: &str, cursor: usize) -> StringField {
    let mut f = StringField::new("label".to_string());
    f.set_text(text);
    f.character_index = cursor;
    f
}

fn type_text(app: &mut App, text: &str) {
    for c in text.chars() {
        app.on_key_press(Key::Char(c)).unwrap();
    }
}

#[test]
fn new_field_is_empty() {
    let f = StringField::new("name".to_string());
    assert_eq!(f.label, "name");
    assert_eq!(f.text(), "");
    assert_eq!(f.character_index, 0);
    assert!(!f.selected);
}

#[test]
fn typing_inserts_at_the_cursor() {
    let mut f = field("héllo", 2);
    f.enter_char('x');
    assert_eq!(f.text(), "héxllo");
    assert_eq!(f.character_index, 3);
    let mut f = field("ab", 0);
    f.enter_char('x');
    assert_eq!(f.text(), "xab");
    assert_eq!(f.character_index, 1);
    // a cursor beyond the text types at the end
    let mut f = field("ab", 9);
    f.enter_char('x');
    assert_eq!(f.text(), "abx");
    assert_eq!(f.character_index, 3);
}

#[test]
fn backspace_deletes_before_the_cursor() {
    let mut f = field("héllo", 2);
    f.delete_char();
    assert_eq!(f.text(), "hllo");
    assert_eq!(f.character_index, 1);
    let mut f = field("abc", 0);
    f.delete_char();
    assert_eq!(f.text(), "abc");
    assert_eq!(f.character_index, 0);
    let mut f = field("abc", 3);
    f.delete_char();
    assert_eq!(f.text(), "ab");
    assert_eq!(f.character_index, 2);
    // a cursor beyond the text deletes nothing and comes back into it
    let mut f = field("abc", 7);
    f.delete_char();
    assert_eq!(f.text(), "abc");
    assert_eq!(f.character_index, 3);
}

#[test]
fn cursor_stays_in_the_text() {
    let mut f = field("ab", 0);
    f.move_cursor_left();
    assert_eq!(f.character_index, 0);
    f.move_cursor_right();
    f.move_cursor_right();
    assert_eq!(f.character_index, 2);
    f.move_cursor_right();
    assert_eq!(f.character_index, 2);
    f.move_cursor_left();
    assert_eq!(f.character_index, 1);
    assert_eq!(f.clamp_cursor(5), 2);
    assert_eq!(f.clamp_cursor(1), 1);
    f.character_index = usize::MAX;
    f.move_cursor_right();
    assert_eq!(f.character_index, 2);
    f.reset_cursor();
    assert_eq!(f.character_index, 0);
}

#[test]
fn byte_index_counts_utf8_bytes() {
    assert_eq!(field("héllo", 0).byte_index(), 0);
    assert_eq!(field("héllo", 1).byte_index(), 1);
    assert_eq!(field("héllo", 2).byte_index(), 3);
    assert_eq!(field("héllo", 5).byte_index(), 6);
    assert_eq!(field("héllo", 50).byte_index(), 6);
    assert_eq!(field("a€😀b", 3).byte_index(), 1 + 3 + 4);
    for text in ["", "abc", "héllo", "a€😀b"] {
        for i in 0..6 {
            let expected =
                text.char_indices().map(|(i, _)| i).nth(i).unwrap_or(text.len());
            assert_eq!(field(text, i).byte_index(), expected);
        }
    }
}

#[test]
fn field_keys() {
    let mut f = field("ab", 1);
    f.on_key(Key::Char('x'));
    assert_eq!(f.text(), "axb");
    f.on_key(Key::Left);
    assert_eq!(f.character_index, 1);
    f.on_key(Key::Backspace);
    assert_eq!(f.text(), "xb");
    f.on_key(Key::Right);
    assert_eq!(f.character_index, 1);
    f.on_key(Key::Tab);
    f.on_key(Key::Enter);
    f.on_key(Key::Other);
    assert_eq!(f.text(), "xb");
    assert_eq!(f.character_index, 1);
}

#[test]
fn new_button() {
    let b = Button::new("go".to_string());
    assert_eq!(b.text, "go");
    assert!(!b.selected);
}

#[test]
fn settings_focus_goes_round() {
    let mut s = Settings::new();
    assert_eq!(s.active_box, SettingsActiveBox::NumPlayers);
    assert_eq!(s.num_players.label, "How many players are there?");
    assert_eq!(s.language.label, "What language would you like to play in?");
    assert_eq!(s.start_button.text, "Start Game!");
    assert!(!s.num_players.selected && !s.language.selected && !s.start_button.selected);
    s.select_next_box();
    assert_eq!(s.active_box, SettingsActiveBox::Language);
    assert!(!s.num_players.selected && s.language.selected && !s.start_button.selected);
    assert!(s.get_active_input_field().is_some());
    s.select_next_box();
    assert_eq!(s.active_box, SettingsActiveBox::Start);
    assert!(!s.num_players.selected && !s.language.selected && s.start_button.selected);
    assert!(s.get_active_input_field().is_none());
    s.select_next_box();
    assert_eq!(s.active_box, SettingsActiveBox::NumPlayers);
    assert!(s.num_players.selected && !s.language.selected && !s.start_button.selected);
}

#[test]
fn settings_keys_go_to_the_active_field() {
    let mut s = Settings::new();
    s.on_key_press(Key::Char('3'));
    s.on_key_press(Key::Tab);
    s.on_key_press(Key::Char('d'));
    s.on_key_press(Key::Char('x'));
    s.on_key_press(Key::Backspace);
    s.on_key_press(Key::Tab);
    s.on_key_press(Key::Char('q'));
    assert_eq!(s.num_players.text(), "3");
    assert_eq!(s.language.text(), "d");
    assert_eq!(s.active_box, SettingsActiveBox::Start);
}

fn settings(players: &str, language: &str) -> Settings {
    let mut s = Settings::new();
    s.num_players.set_text(players);
    s.language.set_text(language);
    s
}

#[test]
fn start_game_refusals() {
    let refusal = |p, l| settings(p, l).start_game().unwrap_err();
    assert_eq!(refusal("", "english"), CrabbleError::InvalidNumberPlayers);
    assert_eq!(refusal("two", "english"), CrabbleError::InvalidNumberPlayers);
    assert_eq!(refusal("-1", "english"), CrabbleError::InvalidNumberPlayers);
    assert_eq!(refusal("4294967296", "english"), CrabbleError::InvalidNumberPlayers);
    assert_eq!(refusal("x", "nonsense"), CrabbleError::InvalidNumberPlayers);
    assert_eq!(refusal("2", "nonsense"), CrabbleError::InvalidLanguage);
    assert_eq!(refusal("0", "nonsense"), CrabbleError::InvalidLanguage);
    assert_eq!(refusal("0", "english"), CrabbleError::InvalidNumberPlayers);
    assert_eq!(refusal("5", "dutch"), CrabbleError::InvalidNumberPlayers);
    assert_eq!(refusal("4294967295", "dutch"), CrabbleError::InvalidNumberPlayers);
}

#[test]
fn start_game_seats_the_players() {
    let (game, ui) = settings("+3", "dutch").start_game().unwrap();
    assert_eq!(game.players.len(), 3);
    assert_eq!(game.players[0].name, "player 0");
    assert_eq!(game.players[2].name, "player 2");
    assert_eq!(game.bag_len(), 102 - 21);
    assert_eq!(game.state, GameState::Turn(0, false));
    assert_eq!(ui.active_box, GameTurnActiveBox::Move);
    assert_eq!(ui.curr_board.label, "Current Board - Player 1's turn");
    assert_eq!(ui.curr_board.text(), game.board().to_string());
    assert_eq!(ui.curr_hand.label, "Current Player's hand");
    assert_eq!(ui.curr_hand.text(), game.display_current_player_hand());
    assert_eq!(ui.curr_move.label, "Move");
    assert_eq!(ui.curr_move.text(), "");
    assert!(ui.curr_move.selected);
    assert_eq!(ui.submit.text, "Submit Move");
    assert!(!ui.submit.selected);
}

#[test]
fn app_starts_on_the_setup_form() {
    let app = App::new();
    assert!(matches!(app.state, State::Setup(_)));
}

fn started() -> App {
    let mut app = App::new();
    type_text(&mut app, "2");
    app.on_key_press(Key::Tab).unwrap();
    type_text(&mut app, "english");
    // Enter on a field does nothing
    app.on_key_press(Key::Enter).unwrap();
    assert!(matches!(app.state, State::Setup(_)));
    app.on_key_press(Key::Tab).unwrap();
    app.on_key_press(Key::Enter).unwrap();
    app
}

#[test]
fn app_starts_a_game() {
    let app = started();
    match &app.state {
        State::Gaming(game, ui) => {
            assert_eq!(game.players.len(), 2);
            assert_eq!(ui.curr_board.label, "Current Board - Player 1's turn");
        }
        State::Setup(_) => panic!("no game was started"),
    }
}

#[test]
fn app_tells_why_no_game_starts() {
    let mut app = App::new();
    type_text(&mut app, "9");
    app.on_key_press(Key::Tab).unwrap();
    type_text(&mut app, "english");
    app.on_key_press(Key::Tab).unwrap();
    app.on_key_press(Key::Enter).unwrap();
    match &app.state {
        State::Setup(s) => {
            assert_eq!(s.start_button.text, "Start Game! - invalid number of players")
        }
        State::Gaming(_, _) => panic!("a game was started"),
    }
    app.on_key_press(Key::Enter).unwrap();
    match &app.state {
        State::Setup(s) => assert_eq!(
            s.start_button.text,
            "Start Game! - invalid number of players - invalid number of players"
        ),
        State::Gaming(_, _) => panic!("a game was started"),
    }
}

#[test]
fn app_plays_a_move() {
    let mut app = started();
    type_text(&mut app, "77hcat");
    // Enter moves to the button, Enter again submits
    app.on_key_press(Key::Enter).unwrap();
    match &app.state {
        State::Gaming(_, ui) => {
            assert_eq!(ui.active_box, GameTurnActiveBox::Submit);
            assert!(ui.submit.selected && !ui.curr_move.selected);
        }
        State::Setup(_) => panic!(),
    }
    app.on_key_press(Key::Enter).unwrap();
    match &app.state {
        State::Gaming(game, ui) => {
            assert_eq!(game.players[0].score, 10);
            assert_eq!(game.state, GameState::Turn(1, false));
            assert_eq!(ui.active_box, GameTurnActiveBox::Move);
            assert_eq!(ui.curr_move.text(), "");
            assert_eq!(ui.curr_board.label, "Current Board - Player 2's turn");
            assert_eq!(ui.curr_board.text(), game.board().to_string());
            assert_eq!(ui.curr_hand.text(), game.display_current_player_hand());
        }
        State::Setup(_) => panic!(),
    }
}

#[test]
fn app_reports_a_bad_move() {
    let mut app = started();
    type_text(&mut app, "77xcat");
    app.on_key_press(Key::Tab).unwrap();
    assert_eq!(
        app.on_key_press(Key::Enter),
        Err(UiError::Notation(ASNError::InvalidDirection))
    );
    app.on_key_press(Key::Tab).unwrap();
    for _ in 0..6 {
        app.on_key_press(Key::Backspace).unwrap();
    }
    type_text(&mut app, "00hcat");
    app.on_key_press(Key::Enter).unwrap();
    assert_eq!(
        app.on_key_press(Key::Enter),
        Err(UiError::Play(CrabbleError::WordNotAdjacent))
    );
}

#[test]
fn keys_for_a_field_need_the_field() {
    let mut app = started();
    app.on_key_press(Key::Tab).unwrap();
    assert_eq!(app.on_key_press(Key::Char('a')), Err(UiError::NoField));
    assert_eq!(app.on_key_press(Key::Backspace), Err(UiError::NoField));
    assert_eq!(app.on_key_press(Key::Left), Err(UiError::NoField));
    assert_eq!(app.on_key_press(Key::Right), Err(UiError::NoField));
    assert_eq!(app.on_key_press(Key::Other), Ok(()));
    app.on_key_press(Key::Tab).unwrap();
    assert_eq!(app.on_key_press(Key::Char('a')), Ok(()));
    match &mut app.state {
        State::Gaming(_, ui) => {
            assert_eq!(ui.curr_move.text(), "a");
            assert!(ui.get_active_box().is_some());
            ui.focus(GameTurnActiveBox::Submit);
            assert!(ui.get_active_box().is_none());
        }
        State::Setup(_) => panic!(),
    }
}

#[test]
fn form_of_a_game() {
    let (game, _) = settings("1", "english").start_game().unwrap();
    let ui = GameUI::new(&game);
    assert_eq!(ui.curr_hand.text(), game.display_current_player_hand());
}

#[test]
fn errors_as_text() {
    assert_eq!(CrabbleError::TileOccupied.to_string(), "tile occupied");
    assert_eq!(CrabbleError::BagEmpty.to_string(), "bag empty");
    assert_eq!(CrabbleError::GameOver.to_string(), "game over");
    assert_eq!(
        CrabbleError::from_placement(crabble::error::WordPlacementError::TileOutOufBounds),
        CrabbleError::TileOutOufBounds
    );
}
