//! What a terminal front end shows and how it answers to keys: text fields
//! with a cursor, the setup form, the form of a turn, and the application's
//! two screens. Drawing and reading keys are left to the front end.

use crate::asn::{can_move, parse_asn, run_plays, ASNError, ASN};
use crate::error::{error_text, CrabbleError};
use crate::game::{
    players_view, racks_in_range, tiles_needed, Game, GameState, GameView, Player,
};
use crate::language::{expand, language_table, parse_table, Language};
use crate::layout::{standard_board_layout, BoardLayout};
use crate::render::{board_text, current_hand_valued, decimal, hand_values_text, push_decimal};
use crate::text::{parse_number, parse_usize};
use crate::tile::{HandTile, HAND_SIZE};
use vstd::prelude::*;
use vstd::string::StringExecFns;

verus! {

/// A key, as far as the forms tell keys apart.
#[derive(Clone, Copy, Debug, PartialEq, Eq, Structural)]
pub enum Key {
    Enter,
    Tab,
    Backspace,
    Left,
    Right,
    Char(char),
    Other,
}

/// A line of text under a label, with a cursor.
#[derive(Debug)]
pub struct StringField {
    /// Whether the field has the focus.
    pub selected: bool,
    /// The label above the field.
    pub label: String,
    /// The cursor: the number of characters before it.
    pub character_index: usize,
    /// The text of the field.
    pub input: Vec<char>,
}

/// A text field as mathematics.
pub struct StringFieldView {
    pub selected: bool,
    pub label: Seq<char>,
    pub character_index: nat,
    pub input: Seq<char>,
}

impl View for StringField {
    type V = StringFieldView;

    open spec fn view(&self) -> StringFieldView {
        StringFieldView {
            selected: self.selected,
            label: self.label@,
            character_index: self.character_index as nat,
            input: self.input@,
        }
    }
}

/// The number of bytes that a character takes in UTF-8.
pub open spec fn char_width(c: char) -> nat {
    if (c as u32) < 0x80 {
        1
    } else if (c as u32) < 0x800 {
        2
    } else if (c as u32) < 0x10000 {
        3
    } else {
        4
    }
}

/// The number of bytes that the characters of `s` take in UTF-8.
pub open spec fn byte_len(s: Seq<char>) -> nat
    decreases s.len(),
{
    if s.len() == 0 {
        0
    } else {
        byte_len(s.drop_last()) + char_width(s.last())
    }
}

/// A cursor position brought back into the text.
pub open spec fn clamped(pos: nat, len: nat) -> nat {
    if pos > len {
        len
    } else {
        pos
    }
}

impl StringFieldView {
    /// The field after the cursor has moved one character to the left.
    pub open spec fn cursor_left(self) -> StringFieldView {
        StringFieldView {
            character_index: clamped(
                if self.character_index == 0 {
                    0
                } else {
                    (self.character_index - 1) as nat
                },
                self.input.len(),
            ),
            ..self
        }
    }

    /// The field after the cursor has moved one character to the right.
    pub open spec fn cursor_right(self) -> StringFieldView {
        StringFieldView {
            character_index: clamped(
                if self.character_index == usize::MAX {
                    self.character_index
                } else {
                    self.character_index + 1
                },
                self.input.len(),
            ),
            ..self
        }
    }

    /// The field after `c` was typed: it stands at the cursor, or at the end
    /// if the cursor is beyond, and the cursor has moved on.
    pub open spec fn entered(self, c: char) -> StringFieldView {
        StringFieldView {
            input: self.input.insert(clamped(self.character_index, self.input.len()) as int, c),
            ..self
        }.cursor_right()
    }

    /// The field after the character before the cursor was deleted; as it
    /// was, if the cursor is at the start.
    pub open spec fn deleted(self) -> StringFieldView {
        if self.character_index == 0 {
            self
        } else {
            StringFieldView {
                input: if self.character_index <= self.input.len() {
                    self.input.remove(self.character_index - 1)
                } else {
                    self.input
                },
                ..self
            }.cursor_left()
        }
    }

    /// What a key does to the field.
    pub open spec fn key(self, key: Key) -> StringFieldView {
        match key {
            Key::Char(c) => self.entered(c),
            Key::Backspace => self.deleted(),
            Key::Left => self.cursor_left(),
            Key::Right => self.cursor_right(),
            _ => self,
        }
    }
}

impl StringField {
    /// An empty field without focus.
    pub fn new(label: String) -> (f: StringField)
        ensures
            f@ == (StringFieldView {
                selected: false,
                label: label@,
                character_index: 0,
                input: Seq::empty(),
            }),
    {
        StringField { selected: false, label, character_index: 0, input: Vec::new() }
    }

    /// The text of the field as a string.
    pub fn text(&self) -> (s: String)
        ensures
            s@ == self@.input,
    {
        let mut s = String::new();
        let mut i: usize = 0;
        while i < self.input.len()
            invariant
                i <= self.input@.len(),
                s@ == self.input@.take(i as int),
            decreases self.input@.len() - i,
        {
            s.push(self.input[i]);
            assert(self.input@.take(i + 1) == self.input@.take(i as int).push(
                self.input@[i as int],
            ));
            i += 1;
        }
        assert(self.input@.take(i as int) == self.input@);
        s
    }

    /// Sets the text of the field.
    pub fn set_text(&mut self, text: &str)
        ensures
            final(self)@ == (StringFieldView { input: text@, ..old(self)@ }),
    {
        self.input = crate::text::chars_of(text);
    }

    /// A cursor position brought back into the text.
    pub fn clamp_cursor(&self, new_cursor_pos: usize) -> (pos: usize)
        ensures
            pos == clamped(new_cursor_pos as nat, self@.input.len()),
    {
        if new_cursor_pos > self.input.len() {
            self.input.len()
        } else {
            new_cursor_pos
        }
    }

    /// Moves the cursor one character to the left, if it is not at the start.
    pub fn move_cursor_left(&mut self)
        ensures
            final(self)@ == old(self)@.cursor_left(),
    {
        let cursor_moved_left: usize = if self.character_index == 0 {
            0
        } else {
            self.character_index - 1
        };
        self.character_index = self.clamp_cursor(cursor_moved_left);
    }

    /// Moves the cursor one character to the right, if it is not at the end.
    pub fn move_cursor_right(&mut self)
        ensures
            final(self)@ == old(self)@.cursor_right(),
    {
        let cursor_moved_right: usize = if self.character_index == usize::MAX {
            self.character_index
        } else {
            self.character_index + 1
        };
        self.character_index = self.clamp_cursor(cursor_moved_right);
    }

    /// The byte at which the cursor stands in the text's UTF-8 form: the
    /// bytes of the characters before it, or of the whole text if the cursor
    /// is beyond.
    pub fn byte_index(&self) -> (n: usize)
        requires
            byte_len(self@.input) <= usize::MAX,
        ensures
            n == byte_len(
                self@.input.take(clamped(self@.character_index, self@.input.len()) as int),
            ),
    {
        let end: usize = self.clamp_cursor(self.character_index);
        let mut n: usize = 0;
        let mut i: usize = 0;
        assert(self.input@.take(0) == Seq::<char>::empty());
        while i < end
            invariant
                i <= end <= self.input@.len(),
                byte_len(self.input@) <= usize::MAX,
                n == byte_len(self.input@.take(i as int)),
            decreases end - i,
        {
            let c = self.input[i];
            let code: u32 = c as u32;
            let w: usize = if code < 0x80 {
                1
            } else if code < 0x800 {
                2
            } else if code < 0x10000 {
                3
            } else {
                4
            };
            proof {
                assert(self.input@.take(i + 1).drop_last() == self.input@.take(i as int));
                assert(self.input@.take(i + 1).last() == c);
                lemma_byte_len_prefix(self.input@, i + 1);
            }
            n = n + w;
            i += 1;
        }
        n
    }

    /// Types `new_char` at the cursor.
    pub fn enter_char(&mut self, new_char: char)
        ensures
            final(self)@ == old(self)@.entered(new_char),
    {
        let index: usize = self.clamp_cursor(self.character_index);
        self.input.insert(index, new_char);
        self.move_cursor_right();
    }

    /// Deletes the character before the cursor.
    pub fn delete_char(&mut self)
        ensures
            final(self)@ == old(self)@.deleted(),
    {
        let is_not_cursor_leftmost = self.character_index != 0;
        if is_not_cursor_leftmost {
            let current_index: usize = self.character_index;
            if current_index <= self.input.len() {
                self.input.remove(current_index - 1);
            }
            self.move_cursor_left();
        }
    }

    /// Puts the cursor at the start.
    pub fn reset_cursor(&mut self)
        ensures
            final(self)@ == (StringFieldView { character_index: 0, ..old(self)@ }),
    {
        self.character_index = 0;
    }

    /// Answers to a key: a character is typed, backspace deletes, the arrows
    /// move the cursor, any other key does nothing.
    pub fn on_key(&mut self, key: Key)
        ensures
            final(self)@ == old(self)@.key(key),
    {
        match key {
            Key::Char(c) => self.enter_char(c),
            Key::Backspace => self.delete_char(),
            Key::Left => self.move_cursor_left(),
            Key::Right => self.move_cursor_right(),
            _ => {},
        }
    }
}

/// The beginning of a text takes no more bytes than the text.
pub proof fn lemma_byte_len_prefix(s: Seq<char>, k: int)
    requires
        0 <= k <= s.len(),
    ensures
        byte_len(s.take(k)) <= byte_len(s),
    decreases s.len(),
{
    if k == s.len() {
        assert(s.take(k) == s);
    } else {
        assert(s.drop_last().take(k) == s.take(k));
        lemma_byte_len_prefix(s.drop_last(), k);
    }
}

/// A button.
#[derive(Debug)]
pub struct Button {
    pub text: String,
    pub selected: bool,
}

/// A button as mathematics.
pub struct ButtonView {
    pub text: Seq<char>,
    pub selected: bool,
}

impl View for Button {
    type V = ButtonView;

    open spec fn view(&self) -> ButtonView {
        ButtonView { text: self.text@, selected: self.selected }
    }
}

impl Button {
    /// A button without focus.
    pub fn new(text: String) -> (b: Button)
        ensures
            b@ == (ButtonView { text: text@, selected: false }),
    {
        Button { selected: false, text }
    }
}

/// The part of the setup form that has the focus.
#[derive(Clone, Copy, Debug, PartialEq, Eq, Structural)]
pub enum SettingsActiveBox {
    NumPlayers,
    Language,
    Start,
}

/// The setup form: how many players, which language, and a button to start.
#[derive(Debug)]
pub struct Settings {
    pub num_players: StringField,
    pub language: StringField,
    pub start_button: Button,
    pub active_box: SettingsActiveBox,
}

/// The setup form as mathematics.
pub struct SettingsView {
    pub num_players: StringFieldView,
    pub language: StringFieldView,
    pub start_button: ButtonView,
    pub active_box: SettingsActiveBox,
}

impl View for Settings {
    type V = SettingsView;

    open spec fn view(&self) -> SettingsView {
        SettingsView {
            num_players: self.num_players@,
            language: self.language@,
            start_button: self.start_button@,
            active_box: self.active_box,
        }
    }
}

impl SettingsView {
    /// The form with the focus on `active` and on nothing else.
    pub open spec fn focused(self, active: SettingsActiveBox) -> SettingsView {
        SettingsView {
            num_players: StringFieldView {
                selected: active == SettingsActiveBox::NumPlayers,
                ..self.num_players
            },
            language: StringFieldView {
                selected: active == SettingsActiveBox::Language,
                ..self.language
            },
            start_button: ButtonView {
                selected: active == SettingsActiveBox::Start,
                ..self.start_button
            },
            active_box: active,
        }
    }

    /// The form after the focus has moved on: from the players to the
    /// language, on to the button, and back to the players.
    pub open spec fn next_box(self) -> SettingsView {
        self.focused(
            match self.active_box {
                SettingsActiveBox::NumPlayers => SettingsActiveBox::Language,
                SettingsActiveBox::Language => SettingsActiveBox::Start,
                SettingsActiveBox::Start => SettingsActiveBox::NumPlayers,
            },
        )
    }

    /// What a key does to the form: the tabulator moves the focus on; then
    /// the field that has the focus answers to the key.
    pub open spec fn key(self, key: Key) -> SettingsView {
        let moved = if key == Key::Tab {
            self.next_box()
        } else {
            self
        };
        match moved.active_box {
            SettingsActiveBox::NumPlayers => SettingsView {
                num_players: moved.num_players.key(key),
                ..moved
            },
            SettingsActiveBox::Language => SettingsView {
                language: moved.language.key(key),
                ..moved
            },
            SettingsActiveBox::Start => moved,
        }
    }

    /// The form with the error written behind the text of its button.
    pub open spec fn told(self, e: CrabbleError) -> SettingsView {
        SettingsView {
            start_button: ButtonView {
                text: self.start_button.text + " - "@ + error_text(e),
                ..self.start_button
            },
            ..self
        }
    }

    /// The number of players that the form asks for, if its text is a number
    /// of at most 32 bits.
    pub open spec fn player_count(self) -> Option<usize> {
        match parse_number(self.num_players.input) {
            Some(n) => if n <= u32::MAX {
                Some(n)
            } else {
                None
            },
            None => None,
        }
    }

    /// Why no game can be started from the form, if its entries say so: the
    /// number of players is no number, the language is unknown or its table
    /// malformed, the players are none or more than four, or the language has
    /// fewer tiles than their racks take.
    pub open spec fn refusal(self) -> Option<CrabbleError> {
        if self.player_count() is None {
            Some(CrabbleError::InvalidNumberPlayers)
        } else if language_table(self.language.input) is None || parse_table(
            language_table(self.language.input)->0,
        ) is None {
            Some(CrabbleError::InvalidLanguage)
        } else if !(1 <= self.player_count()->0 <= 4) {
            Some(CrabbleError::InvalidNumberPlayers)
        } else if expand(
            crate::language::language_of(
                self.language.input,
                parse_table(language_table(self.language.input)->0)->0,
            ).distribution,
        ).len() < HAND_SIZE * self.player_count()->0 {
            Some(CrabbleError::BagEmpty)
        } else {
            None
        }
    }
}

/// The part of the form of a turn that has the focus.
#[derive(Clone, Copy, Debug, PartialEq, Eq, Structural)]
pub enum GameTurnActiveBox {
    Move,
    Submit,
}

/// The form of a turn: the board, the rack of the player to move, a field
/// for the move and a button to submit it.
#[derive(Debug)]
pub struct GameUI {
    pub active_box: GameTurnActiveBox,
    pub curr_board: StringField,
    pub curr_hand: StringField,
    pub curr_move: StringField,
    pub submit: Button,
}

/// The form of a turn as mathematics.
pub struct GameUIView {
    pub active_box: GameTurnActiveBox,
    pub curr_board: StringFieldView,
    pub curr_hand: StringFieldView,
    pub curr_move: StringFieldView,
    pub submit: ButtonView,
}

impl View for GameUI {
    type V = GameUIView;

    open spec fn view(&self) -> GameUIView {
        GameUIView {
            active_box: self.active_box,
            curr_board: self.curr_board@,
            curr_hand: self.curr_hand@,
            curr_move: self.curr_move@,
            submit: self.submit@,
        }
    }
}

/// Whether the form of a turn can be drawn up for the game: a player is to
/// move, the turn's number can be counted up, and every tile on the mover's
/// rack has a value.
pub open spec fn showable(g: GameView) -> bool {
    can_move(g) && current_hand_valued(g)
}

/// The form of a turn for a game: the board and the mover's rack as text, an
/// empty field for the move, which has the focus, and the button.
pub open spec fn form_of(g: GameView) -> GameUIView {
    GameUIView {
        active_box: GameTurnActiveBox::Move,
        curr_board: StringFieldView {
            selected: false,
            label: "Current Board - Player "@ + decimal((g.state->Turn_0 + 1) as nat)
                + "'s turn"@,
            character_index: 0,
            input: board_text(g.board),
        },
        curr_hand: StringFieldView {
            selected: false,
            label: "Current Player's hand"@,
            character_index: 0,
            input: hand_values_text(
                g.players[g.current()].hand,
                g.language.values,
                g.players[g.current()].hand.len(),
            ),
        },
        curr_move: StringFieldView {
            selected: true,
            label: "Move"@,
            character_index: 0,
            input: Seq::empty(),
        },
        submit: ButtonView { text: "Submit Move"@, selected: false },
    }
}

impl GameUIView {
    /// The form with the focus on `active`.
    pub open spec fn focused(self, active: GameTurnActiveBox) -> GameUIView {
        GameUIView {
            active_box: active,
            curr_move: StringFieldView {
                selected: active == GameTurnActiveBox::Move,
                ..self.curr_move
            },
            submit: ButtonView { selected: active == GameTurnActiveBox::Submit, ..self.submit },
            ..self
        }
    }
}

impl GameUI {
    /// The form of the turn that is due in `game`.
    pub fn new(game: &Game) -> (ui: GameUI)
        requires
            game.wf(),
            showable(game@),
        ensures
            ui@ == form_of(game@),
    {
        let board = game.board().to_string();
        let curr_player: usize = match game.state() {
            GameState::Done => 0,
            GameState::Turn(n, _) => n,
        };
        let mut label = String::from_str("Current Board - Player ");
        push_decimal(&mut label, curr_player + 1);
        label.append("'s turn");
        let mut curr_board = StringField::new(label);
        curr_board.set_text(board.as_str());
        let mut curr_hand = StringField::new(String::from_str("Current Player's hand"));
        let hand = game.display_current_player_hand();
        curr_hand.set_text(hand.as_str());
        let mut curr_move = StringField::new(String::from_str("Move"));
        curr_move.selected = true;
        GameUI {
            active_box: GameTurnActiveBox::Move,
            curr_board,
            curr_hand,
            curr_move,
            submit: Button::new(String::from_str("Submit Move")),
        }
    }

    /// The field of the move, to be edited, while it has the focus.
    pub fn get_active_box(&mut self) -> (r: Option<&mut StringField>)
        ensures
            match old(self).active_box {
                GameTurnActiveBox::Move => r matches Some(f) && *f == old(self).curr_move
                    && *final(self) == (GameUI { curr_move: *final(f), ..*old(self) }),
                GameTurnActiveBox::Submit => r is None && *final(self) == *old(self),
            },
    {
        match self.active_box {
            GameTurnActiveBox::Move => Some(&mut self.curr_move),
            GameTurnActiveBox::Submit => None,
        }
    }

    /// Moves the focus to `active`.
    pub fn focus(&mut self, active: GameTurnActiveBox)
        ensures
            final(self)@ == old(self)@.focused(active),
    {
        self.active_box = active;
        match active {
            GameTurnActiveBox::Move => {
                self.curr_move.selected = true;
                self.submit.selected = false;
            },
            GameTurnActiveBox::Submit => {
                self.curr_move.selected = false;
                self.submit.selected = true;
            },
        }
    }
}

impl Settings {
    /// The form as it first appears: empty, the players' field active.
    pub fn new() -> (s: Settings)
        ensures
            s@.active_box == SettingsActiveBox::NumPlayers,
            s@.num_players == (StringFieldView {
                selected: false,
                label: "How many players are there?"@,
                character_index: 0,
                input: Seq::empty(),
            }),
            s@.language == (StringFieldView {
                selected: false,
                label: "What language would you like to play in?"@,
                character_index: 0,
                input: Seq::empty(),
            }),
            s@.start_button == (ButtonView { text: "Start Game!"@, selected: false }),
    {
        Settings {
            num_players: StringField::new(String::from_str("How many players are there?")),
            language: StringField::new(
                String::from_str("What language would you like to play in?"),
            ),
            start_button: Button::new(String::from_str("Start Game!")),
            active_box: SettingsActiveBox::NumPlayers,
        }
    }

    /// The field that has the focus, to be edited; none while the button has
    /// it.
    pub fn get_active_input_field(&mut self) -> (r: Option<&mut StringField>)
        ensures
            match old(self).active_box {
                SettingsActiveBox::NumPlayers => r matches Some(f) && *f == old(self).num_players
                    && *final(self) == (Settings { num_players: *final(f), ..*old(self) }),
                SettingsActiveBox::Language => r matches Some(f) && *f == old(self).language
                    && *final(self) == (Settings { language: *final(f), ..*old(self) }),
                SettingsActiveBox::Start => r is None && *final(self) == *old(self),
            },
    {
        match self.active_box {
            SettingsActiveBox::NumPlayers => Some(&mut self.num_players),
            SettingsActiveBox::Language => Some(&mut self.language),
            SettingsActiveBox::Start => None,
        }
    }

    /// Moves the focus on to the next part of the form.
    pub fn select_next_box(&mut self)
        ensures
            final(self)@ == old(self)@.next_box(),
    {
        match self.active_box {
            SettingsActiveBox::NumPlayers => {
                self.active_box = SettingsActiveBox::Language;
                self.num_players.selected = false;
                self.language.selected = true;
                self.start_button.selected = false;
            },
            SettingsActiveBox::Language => {
                self.active_box = SettingsActiveBox::Start;
                self.num_players.selected = false;
                self.language.selected = false;
                self.start_button.selected = true;
            },
            SettingsActiveBox::Start => {
                self.active_box = SettingsActiveBox::NumPlayers;
                self.num_players.selected = true;
                self.language.selected = false;
                self.start_button.selected = false;
            },
        }
    }

    /// Answers to a key: the tabulator moves the focus on; then the field
    /// that has the focus answers to the key.
    pub fn on_key_press(&mut self, key: Key)
        ensures
            final(self)@ == old(self)@.key(key),
    {
        if let Key::Tab = key {
            self.select_next_box()
        }
        match self.get_active_input_field() {
            Some(field) => field.on_key(key),
            None => (),
        }
    }

    /// Starts a game from the entries of the form: on the standard board, in
    /// the language named, with players called `player 0` and so on, each
    /// with a full rack from a shuffled bag.
    pub fn start_game(&self) -> (r: Result<(Game, GameUI), CrabbleError>)
        ensures
            match self@.refusal() {
                Some(e) => r matches Err(x) && x == e,
                None => {
                    &&& r matches Ok((game, ui))
                    &&& game.wf()
                    &&& showable(game@)
                    &&& game@.players.len() == self@.player_count()->0
                    &&& game@.state == GameState::Turn(0, false)
                    &&& ui@ == form_of(game@)
                },
            },
    {
        let num_players: usize = match parse_usize(&self.num_players.input) {
            Some(n) => n,
            None => {
                return Err(CrabbleError::InvalidNumberPlayers);
            },
        };
        if num_players > u32::MAX as usize {
            return Err(CrabbleError::InvalidNumberPlayers);
        }
        let name = self.language.text();
        let language = match Language::by_name(name.as_str()) {
            Ok(language) => language,
            Err(e) => {
                return Err(e);
            },
        };
        if num_players < 1 || num_players > 4 {
            return Err(CrabbleError::InvalidNumberPlayers);
        }
        match language.distribution.total() {
            Some(total) => {
                if total < HAND_SIZE * num_players {
                    return Err(CrabbleError::BagEmpty);
                }
            },
            None => {},
        }
        let mut players: Vec<Player> = Vec::new();
        let mut i: usize = 0;
        while i < num_players
            invariant
                i <= num_players <= 4,
                players@.len() == i,
                racks_in_range(players_view(players@)),
                tiles_needed(players_view(players@)) == HAND_SIZE * i,
                forall|k: int|
                    0 <= k < i ==> (#[trigger] players_view(players@)[k]).hand.len() == 0,
            decreases num_players - i,
        {
            let mut name = String::from_str("player ");
            push_decimal(&mut name, i);
            let ghost before = players_view(players@);
            players.push(Player::new(name));
            proof {
                let after = players_view(players@);
                assert(after.drop_last() == before);
                assert(after.last().hand.len() == 0);
                assert forall|k: int| 0 <= k < after.len() implies (#[trigger] after[k]).hand.len()
                    == 0 by {
                    if k < before.len() {
                        assert(after[k] == before[k]);
                    }
                }
            }
            i += 1;
        }
        let layout = BoardLayout::from_fn((15, 15), standard_board_layout);
        let ghost seated = players_view(players@);
        let ghost tiles = expand(language@.distribution);
        let ghost values = language@.values;
        proof {
            let rows = parse_table(language_table(self@.language.input)->0)->0;
            crate::language::lemma_table_language_valued(self@.language.input, rows);
        }
        let game = Game::new(players, layout, language);
        proof {
            let bag = choose|bag: Seq<HandTile>|
                bag.to_multiset() == tiles.to_multiset() && (game@.players, game@.bag)
                    == #[trigger] crate::game::deal(seated, bag);
            crate::game::lemma_deal(seated, bag);
            crate::game::lemma_permuted_valued(tiles, bag, values);
            crate::game::lemma_deal_valued(seated, bag, values);
        }
        let ui = GameUI::new(&game);
        Ok((game, ui))
    }
}

/// What the front end has to answer for: a key that the forms cannot take.
#[derive(Clone, Copy, Debug, PartialEq, Eq, Structural)]
pub enum UiError {
    /// The move is no notation of plays.
    Notation(ASNError),
    /// The move cannot be played.
    Play(CrabbleError),
    /// A key for a text field came while the button had the focus.
    NoField,
}

/// The two screens: the setup form, or a game with the form of its turn.
#[derive(Debug)]
pub enum State {
    Setup(Settings),
    Gaming(Game, GameUI),
}

/// The application.
#[derive(Debug)]
pub struct App {
    pub state: State,
}

impl App {
    /// The application as it starts: showing the setup form.
    pub fn new() -> (app: App)
        ensures
            app.state matches State::Setup(s) && s@.active_box == SettingsActiveBox::NumPlayers
                && s@.num_players.input.len() == 0 && s@.language.input.len() == 0,
    {
        App { state: State::Setup(Settings::new()) }
    }
}

/// What a key does on the form of a turn: the game and the form afterwards,
/// and whether the key could be taken. Enter moves the focus from the move to
/// the button, and on the button submits the move: its plays are made in the
/// game and the form is drawn up anew. The tabulator moves the focus to and
/// fro. Any other key goes to the field of the move, which must have the
/// focus if the key is one that a field answers to.
pub open spec fn turn_key_outcome(g: GameView, ui: GameUIView, key: Key) -> (
    GameView,
    GameUIView,
    Result<(), UiError>,
) {
    match key {
        Key::Enter => match ui.active_box {
            GameTurnActiveBox::Move => (g, ui.focused(GameTurnActiveBox::Submit), Ok(())),
            GameTurnActiveBox::Submit => match parse_asn(ui.curr_move.input) {
                Err(e) => (g, ui, Err(UiError::Notation(e))),
                Ok(lines) => {
                    let (played, failure) = run_plays(g, lines);
                    match failure {
                        Some(e) => (played, ui, Err(UiError::Play(e))),
                        None => if showable(played) {
                            (played, form_of(played), Ok(()))
                        } else {
                            (played, ui, Err(UiError::Play(CrabbleError::GameOver)))
                        },
                    }
                },
            },
        },
        Key::Tab => (
            g,
            ui.focused(
                match ui.active_box {
                    GameTurnActiveBox::Move => GameTurnActiveBox::Submit,
                    GameTurnActiveBox::Submit => GameTurnActiveBox::Move,
                },
            ),
            Ok(()),
        ),
        Key::Other => (g, ui, Ok(())),
        _ => match ui.active_box {
            GameTurnActiveBox::Move => (
                g,
                GameUIView { curr_move: ui.curr_move.key(key), ..ui },
                Ok(()),
            ),
            GameTurnActiveBox::Submit => (g, ui, Err(UiError::NoField)),
        },
    }
}

/// Answers to a key on the form of a turn.
pub fn turn_key(game: &mut Game, ui: &mut GameUI, key: Key) -> (r: Result<(), UiError>)
    requires
        old(game).wf(),
    ensures
        final(game).wf(),
        (final(game)@, final(ui)@, r) == turn_key_outcome(old(game)@, old(ui)@, key),
{
    match key {
        Key::Enter => match ui.active_box {
            GameTurnActiveBox::Move => {
                ui.focus(GameTurnActiveBox::Submit);
                Ok(())
            },
            GameTurnActiveBox::Submit => {
                let text = ui.curr_move.text();
                let asn = match ASN::parse(text.as_str()) {
                    Ok(asn) => asn,
                    Err(e) => {
                        return Err(UiError::Notation(e));
                    },
                };
                match asn.run(game) {
                    Ok(()) => {},
                    Err(e) => {
                        return Err(UiError::Play(e));
                    },
                }
                let movable = match game.state() {
                    GameState::Turn(n, _) => n < usize::MAX,
                    GameState::Done => false,
                };
                if !movable || !game.current_hand_valued() {
                    return Err(UiError::Play(CrabbleError::GameOver));
                }
                *ui = GameUI::new(game);
                Ok(())
            },
        },
        Key::Tab => {
            match ui.active_box {
                GameTurnActiveBox::Move => ui.focus(GameTurnActiveBox::Submit),
                GameTurnActiveBox::Submit => ui.focus(GameTurnActiveBox::Move),
            }
            Ok(())
        },
        Key::Other => Ok(()),
        _ => match ui.get_active_box() {
            Some(field) => {
                field.on_key(key);
                Ok(())
            },
            None => Err(UiError::NoField),
        },
    }
}

impl App {
    /// Every game that the application shows is well-formed.
    pub open spec fn wf(&self) -> bool {
        self.state matches State::Gaming(game, _) ==> game.wf()
    }

    /// Answers to a key. On the setup form Enter on the button starts the
    /// game, or writes behind the button's text why it cannot; elsewhere on
    /// the form Enter does nothing, and any other key goes to the form. On
    /// the form of a turn the key goes to that form.
    pub fn on_key_press(&mut self, key: Key) -> (r: Result<(), UiError>)
        requires
            old(self).wf(),
        ensures
            final(self).wf(),
            match old(self).state {
                State::Gaming(game, ui) => final(self).state matches State::Gaming(g, u) && (
                    g@,
                    u@,
                    r,
                ) == turn_key_outcome(game@, ui@, key),
                State::Setup(settings) => r is Ok && (if key != Key::Enter {
                    final(self).state matches State::Setup(s) && s@ == settings@.key(key)
                } else if settings@.active_box != SettingsActiveBox::Start {
                    final(self).state matches State::Setup(s) && s@ == settings@
                } else {
                    match settings@.refusal() {
                        None => {
                            &&& final(self).state matches State::Gaming(g, u)
                            &&& showable(g@)
                            &&& g@.players.len() == settings@.player_count()->0
                            &&& g@.state == GameState::Turn(0, false)
                            &&& u@ == form_of(g@)
                        },
                        Some(e) => final(self).state matches State::Setup(s) && s@
                            == settings@.told(e),
                    }
                }),
            },
    {
        match &mut self.state {
            State::Setup(settings) => {
                match key {
                    Key::Enter => match settings.active_box {
                        SettingsActiveBox::Start => match settings.start_game() {
                            Ok((game, ui)) => {
                                self.state = State::Gaming(game, ui);
                            },
                            Err(e) => {
                                settings.start_button.text.append(" - ");
                                let message = e.to_string();
                                settings.start_button.text.append(message.as_str());
                            },
                        },
                        _ => {},
                    },
                    _ => settings.on_key_press(key),
                }
                Ok(())
            },
            State::Gaming(game, game_turn) => turn_key(game, game_turn, key),
        }
    }
}

} // verus!
