//! Text pictures of a layout, a board and a rack.

use crate::board::{Board, BoardView};
use crate::coordinate::Coordinate;
use crate::game::{players_view, Game, GameState, GameView, Player, PlayerView};
use crate::grid::{grid_height, Grid};
use crate::layout::{BoardLayout, Square};
use crate::tile::{Hand, HandTile};
use vstd::prelude::*;
use vstd::string::StringExecFns;

verus! {

/// `String::push`: appends one character to the string.
pub assume_specification[ String::push ](s: &mut String, c: char)
    ensures
        final(s)@ == old(s)@.push(c),
;

/// The byte that a multiplier is cast to: itself, or itself and 256 if it is
/// negative.
pub open spec fn multiplier_byte(m: i8) -> int {
    if m >= 0 {
        m as int
    } else {
        m + 256
    }
}

/// The character that stands for a square: `.` for a plain one, `*` for the
/// centre, and for a letter or word square the character whose code is its
/// multiplier's byte counted on from that of `0` or of the space, around at
/// 256.
pub open spec fn square_glyph(s: Square) -> char {
    match s {
        Square::Empty => '.',
        Square::CenterSquare => '*',
        Square::LetterMultiplier(m) => (((multiplier_byte(m) + 48) % 256) as u8) as char,
        Square::WordMultiplier(m) => (((multiplier_byte(m) + 32) % 256) as u8) as char,
    }
}

/// The character that stands for a square.
pub fn glyph(s: Square) -> (c: char)
    ensures
        c == square_glyph(s),
{
    match s {
        Square::Empty => '.',
        Square::CenterSquare => '*',
        Square::LetterMultiplier(m) => {
            let v: i16 = m as i16;
            let b: i16 = if v >= 0 {
                v
            } else {
                v + 256
            };
            let g: u8 = ((b + 48) % 256) as u8;
            g as char
        },
        Square::WordMultiplier(m) => {
            let v: i16 = m as i16;
            let b: i16 = if v >= 0 {
                v
            } else {
                v + 256
            };
            let g: u8 = ((b + 32) % 256) as u8;
            g as char
        },
    }
}

/// The text of column `x` of a layout: a glyph for each square and a line
/// feed.
pub open spec fn layout_line(g: Grid<Square>, x: int) -> Seq<char> {
    Seq::new(grid_height(g), |y: int| square_glyph(g[x][y])).push('\n')
}

/// The text of the first `n` columns of a layout.
pub open spec fn layout_lines(g: Grid<Square>, n: nat) -> Seq<char>
    decreases n,
{
    if n == 0 {
        Seq::empty()
    } else {
        layout_lines(g, (n - 1) as nat) + layout_line(g, n - 1)
    }
}

/// The text of a layout: a line for each column.
pub open spec fn layout_text(g: Grid<Square>) -> Seq<char> {
    layout_lines(g, g.len())
}

/// The text of a cell of the board: the letter of its tile, between the
/// escape sequences for magenta and for reset if the tile is provisional, or
/// the glyph of its square if it holds no tile.
pub open spec fn cell_text(b: BoardView, p: (int, int)) -> Seq<char> {
    match b.tile_at(p) {
        Some(t) => if t.is_provisional {
            "\x1b[35m"@.push(t.tile.tile) + "\x1b[0m"@
        } else {
            seq![t.tile.tile]
        },
        None => match b.square_at(p) {
            Some(s) => seq![square_glyph(s)],
            None => Seq::empty(),
        },
    }
}

/// The text of the first `n` cells of row `y` of the board.
pub open spec fn board_cells(b: BoardView, y: int, n: nat) -> Seq<char>
    decreases n,
{
    if n == 0 {
        Seq::empty()
    } else {
        board_cells(b, y, (n - 1) as nat) + cell_text(b, (n - 1, y))
    }
}

/// The text of the first `n` rows of the board, a line feed after each.
pub open spec fn board_lines(b: BoardView, n: nat) -> Seq<char>
    decreases n,
{
    if n == 0 {
        Seq::empty()
    } else {
        board_lines(b, (n - 1) as nat) + board_cells(b, n - 1, b.width()).push('\n')
    }
}

/// The text of the board: a line for each row.
pub open spec fn board_text(b: BoardView) -> Seq<char> {
    board_lines(b, b.height())
}

/// The character of a decimal digit.
pub open spec fn digit_char(d: nat) -> char {
    ((d + 48) as u8) as char
}

/// The decimal digits of a number.
pub open spec fn decimal(n: nat) -> Seq<char>
    decreases n,
{
    if n < 10 {
        seq![digit_char(n)]
    } else {
        decimal(n / 10).push(digit_char(n % 10))
    }
}

/// Appends the decimal digits of `n` to `s`.
pub fn push_decimal(s: &mut String, n: usize)
    ensures
        final(s)@ == old(s)@ + decimal(n as nat),
    decreases n,
{
    if n >= 10 {
        push_decimal(s, n / 10);
    }
    let d: u8 = (n % 10) as u8;
    s.push((d + 48) as char);
    assert(final(s)@ =~= old(s)@ + decimal(n as nat));
}

impl BoardLayout {
    /// The layout as text: a line for each column, a glyph for each square.
    pub fn to_string(&self) -> (s: String)
        requires
            self.wf(),
        ensures
            s@ == layout_text(self@),
    {
        let (x_max, y_max) = self.dimensions();
        let mut s = String::new();
        let mut x: usize = 0;
        while x < x_max
            invariant
                self.wf(),
                x_max == self.width(),
                y_max == self.height(),
                x <= x_max,
                s@ == layout_lines(self@, x as nat),
            decreases x_max - x,
        {
            let ghost before = s@;
            let mut y: usize = 0;
            while y < y_max
                invariant
                    self.wf(),
                    x_max == self.width(),
                    y_max == self.height(),
                    x < x_max,
                    y <= y_max,
                    s@ == before + Seq::new(y as nat, |k: int| square_glyph(self@[x as int][k])),
                decreases y_max - y,
            {
                let square = self.get(Coordinate { x: x as isize, y: y as isize });
                match square {
                    Some(sq) => {
                        s.push(glyph(sq));
                    },
                    None => {},
                }
                proof {
                    assert(Seq::new((y + 1) as nat, |k: int| square_glyph(self@[x as int][k]))
                        =~= Seq::new(y as nat, |k: int| square_glyph(self@[x as int][k])).push(
                        square_glyph(self@[x as int][y as int]),
                    ));
                }
                y += 1;
            }
            s.push('\n');
            proof {
                assert(s@ =~= before + layout_line(self@, x as int));
            }
            x += 1;
        }
        s
    }
}

impl Board {
    /// The board as text: a line for each row; in a cell the letter of its
    /// tile, in magenta while it is provisional, or the glyph of its square.
    pub fn to_string(&self) -> (s: String)
        requires
            self.wf(),
        ensures
            s@ == board_text(self@),
    {
        let (x_max, y_max) = self.dimensions();
        let mut s = String::new();
        let mut y: usize = 0;
        while y < y_max
            invariant
                self.wf(),
                x_max == self@.width(),
                y_max == self@.height(),
                y <= y_max,
                s@ == board_lines(self@, y as nat),
            decreases y_max - y,
        {
            let ghost before = s@;
            let mut x: usize = 0;
            assert(before + Seq::<char>::empty() == before);
            while x < x_max
                invariant
                    self.wf(),
                    x_max == self@.width(),
                    y_max == self@.height(),
                    y < y_max,
                    x <= x_max,
                    s@ == before + board_cells(self@, y as int, x as nat),
                decreases x_max - x,
            {
                let c = Coordinate { x: x as isize, y: y as isize };
                let ghost row = s@;
                match self.get_tile(c) {
                    Some(tile) => {
                        if tile.is_provisional {
                            s.append("\x1b[35m");
                        }
                        s.push(tile.tile.tile);
                        if tile.is_provisional {
                            s.append("\x1b[0m");
                        }
                    },
                    None => {
                        match self.get_square(c) {
                            Some(sq) => {
                                s.push(glyph(sq));
                            },
                            None => {},
                        }
                    },
                }
                proof {
                    assert(s@ =~= row + cell_text(self@, (x as int, y as int)));
                    assert(s@ =~= before + board_cells(self@, y as int, (x + 1) as nat));
                }
                x += 1;
            }
            s.push('\n');
            proof {
                assert(s@ =~= before + board_cells(self@, y as int, self@.width()).push('\n'));
            }
            y += 1;
        }
        s
    }
}

/// A number in decimal, with a minus sign if it is negative.
pub open spec fn signed_decimal(n: int) -> Seq<char> {
    if n < 0 {
        seq!['-'] + decimal((-n) as nat)
    } else {
        decimal(n as nat)
    }
}

/// Appends `n` in decimal to `s`.
pub fn push_signed_decimal(s: &mut String, n: isize)
    ensures
        final(s)@ == old(s)@ + signed_decimal(n as int),
{
    if n < 0 {
        s.push('-');
        let m: usize = (-(n + 1)) as usize + 1;
        push_decimal(s, m);
        assert(final(s)@ =~= old(s)@ + signed_decimal(n as int));
    } else {
        push_decimal(s, n as usize);
    }
}

/// The first `n` tiles of a rack as text, with a comma and a space between
/// them.
pub open spec fn hand_text(hand: Seq<HandTile>, n: nat) -> Seq<char>
    decreases n,
{
    if n == 0 {
        Seq::empty()
    } else if n == 1 {
        seq![hand[0].symbol()]
    } else {
        (hand_text(hand, (n - 1) as nat) + ", "@).push(hand[n - 1].symbol())
    }
}

/// A state of the game as text.
pub open spec fn state_text(state: GameState) -> Seq<char> {
    match state {
        GameState::Turn(n, _) => "Turn "@ + decimal(n as nat),
        GameState::Done => "Done"@,
    }
}

/// The line of a player in the picture of a game.
pub open spec fn player_text(p: PlayerView) -> Seq<char> {
    ("Player "@ + p.name + ", (score: "@ + signed_decimal(p.score) + "), hand: "@ + hand_text(
        p.hand,
        p.hand.len(),
    )).push('\n')
}

/// The lines of the first `n` players.
pub open spec fn players_text(players: Seq<PlayerView>, n: nat) -> Seq<char>
    decreases n,
{
    if n == 0 {
        Seq::empty()
    } else {
        players_text(players, (n - 1) as nat) + player_text(players[n - 1])
    }
}

/// The picture of a game: its state, a line for each player, the board.
pub open spec fn game_text(g: GameView) -> Seq<char> {
    "State: "@ + state_text(g.state) + ", Players: \n"@ + players_text(g.players, g.players.len())
        + board_text(g.board)
}

/// The first `n` tiles of a rack with their values: for each tile its symbol
/// and its value, in brackets, and a space.
pub open spec fn hand_values_text(hand: Seq<HandTile>, values: Map<HandTile, usize>, n: nat) -> Seq<
    char,
>
    decreases n,
{
    if n == 0 {
        Seq::empty()
    } else {
        hand_values_text(hand, values, (n - 1) as nat) + seq!['(', hand[n - 1].symbol()] + ", "@
            + decimal(values[hand[n - 1]] as nat) + ") "@
    }
}

/// Whether the language has a value for every tile on the rack of the player
/// to move; trivially so when the game is over.
pub open spec fn current_hand_valued(g: GameView) -> bool {
    g.state is Turn ==> forall|i: int|
        0 <= i < g.players[g.current()].hand.len() ==> g.language.values.contains_key(
            #[trigger] g.players[g.current()].hand[i],
        )
}

impl Hand {
    /// The rack as text: the symbols of its tiles with a comma and a space
    /// between them.
    pub fn to_string(&self) -> (s: String)
        ensures
            s@ == hand_text(self@, self@.len()),
    {
        let mut s = String::new();
        let mut i: usize = 0;
        while i < self.letters.len()
            invariant
                i <= self@.len(),
                s@ == hand_text(self@, i as nat),
            decreases self@.len() - i,
        {
            if i > 0 {
                s.append(", ");
            }
            s.push(self.letters[i].symbol());
            i += 1;
        }
        s
    }
}

impl GameState {
    /// The state as text: the turn's number, or `Done`.
    pub fn to_string(&self) -> (s: String)
        ensures
            s@ == state_text(*self),
    {
        match self {
            GameState::Turn(n, _) => {
                let mut s = String::from_str("Turn ");
                push_decimal(&mut s, *n);
                s
            },
            GameState::Done => String::from_str("Done"),
        }
    }
}

impl Player {
    /// The player's line in the picture of a game.
    pub fn to_string(&self) -> (s: String)
        ensures
            s@ == player_text(self@),
    {
        let mut s = String::from_str("Player ");
        s.append(self.name.as_str());
        s.append(", (score: ");
        push_signed_decimal(&mut s, self.score);
        s.append("), hand: ");
        let hand = self.hand.to_string();
        s.append(hand.as_str());
        s.push('\n');
        s
    }
}

impl Game {
    /// The picture of the game: its state, a line for each player, the board.
    pub fn to_string(&self) -> (s: String)
        requires
            self.wf(),
        ensures
            s@ == game_text(self@),
    {
        let mut s = String::from_str("State: ");
        let state = self.state().to_string();
        s.append(state.as_str());
        s.append(", Players: \n");
        let players = self.players();
        let ghost head = s@;
        let mut i: usize = 0;
        assert(head + Seq::<char>::empty() == head);
        while i < players.len()
            invariant
                i <= players@.len(),
                players_view(players@) == self@.players,
                s@ == head + players_text(self@.players, i as nat),
            decreases players@.len() - i,
        {
            let line = players[i].to_string();
            assert(players_view(players@)[i as int] == players@[i as int]@);
            s.append(line.as_str());
            assert(s@ =~= head + players_text(self@.players, (i + 1) as nat));
            i += 1;
        }
        let board = self.board().to_string();
        s.append(board.as_str());
        assert(players_view(players@).len() == players@.len());
        s
    }

    /// Whether the language has a value for every tile on the rack of the
    /// player to move.
    pub fn current_hand_valued(&self) -> (b: bool)
        requires
            self.wf(),
        ensures
            b == current_hand_valued(self@),
    {
        match self.state() {
            GameState::Done => true,
            GameState::Turn(t, _) => {
                let players = self.players();
                assert(players_view(players@).len() == players@.len());
                let cur: usize = t % players.len();
                assert(players_view(players@)[cur as int] == players@[cur as int]@);
                let hand = &players[cur].hand;
                assert(hand@ == self@.players[self@.current()].hand);
                let mut i: usize = 0;
                while i < hand.letters.len()
                    invariant
                        i <= hand@.len(),
                        self@.state is Turn,
                        hand@ == self@.players[self@.current()].hand,
                        forall|k: int|
                            0 <= k < i ==> self@.language.values.contains_key(#[trigger] hand@[k]),
                    decreases hand@.len() - i,
                {
                    if !self.language().values.contains(hand.letters[i]) {
                        assert(!self@.language.values.contains_key(hand@[i as int]));
                        return false;
                    }
                    i += 1;
                }
                true
            },
        }
    }

    /// The rack of the player to move with the value of each tile; nothing
    /// when the game is over. The language must have a value for each tile of
    /// the rack.
    pub fn display_current_player_hand(&self) -> (res: String)
        requires
            self.wf(),
            current_hand_valued(self@),
        ensures
            res@ == (match self@.state {
                GameState::Turn(_, _) => hand_values_text(
                    self@.players[self@.current()].hand,
                    self@.language.values,
                    self@.players[self@.current()].hand.len(),
                ),
                GameState::Done => Seq::<char>::empty(),
            }),
    {
        let mut res = String::new();
        match self.state() {
            GameState::Done => {},
            GameState::Turn(t, _) => {
                let players = self.players();
                assert(players_view(players@).len() == players@.len());
                let cur: usize = t % players.len();
                assert(players_view(players@)[cur as int] == players@[cur as int]@);
                let hand = &players[cur].hand;
                assert(hand@ == self@.players[self@.current()].hand);
                let mut i: usize = 0;
                while i < hand.letters.len()
                    invariant
                        i <= hand@.len(),
                        forall|k: int|
                            0 <= k < hand@.len() ==> self@.language.values.contains_key(
                                #[trigger] hand@[k],
                            ),
                        res@ == hand_values_text(hand@, self@.language.values, i as nat),
                    decreases hand@.len() - i,
                {
                    let letter = hand.letters[i];
                    let ghost before = res@;
                    let score = self.language().values.get(letter);
                    res.push('(');
                    res.push(letter.symbol());
                    res.append(", ");
                    push_decimal(&mut res, score);
                    res.append(") ");
                    assert(res@ =~= before + seq!['(', letter.symbol()] + ", "@ + decimal(
                        score as nat,
                    ) + ") "@);
                    i += 1;
                }
            },
        }
        res
    }
}

} // verus!
