//! A short notation for plays, one play to a line: the column and the row of
//! the first tile as digits in base fifteen, `h` or `v` for the direction, and
//! the letters, each after a `*` if a joker stands for it.

use crate::coordinate::{Coordinate, Direction};
use crate::error::CrabbleError;
use crate::game::{Game, GameState, GameView};
use crate::text::chars_of;
use crate::tile::Tile;
use std::str::FromStr;
use vstd::prelude::*;

verus! {

/// Whether a character is alphabetic in the sense of the Unicode standard, as
/// `char::is_alphabetic` tells.
pub uninterp spec fn alphabetic(c: char) -> bool;

/// `char::is_alphabetic`: a property of the character alone, read from the
/// tables of the Unicode standard.
pub assume_specification[ char::is_alphabetic ](c: char) -> (b: bool)
    ensures
        b == alphabetic(c),
;

/// One play in notation: where its first tile goes, how it runs, its tiles.
#[derive(Debug)]
pub struct ASNLine {
    pub coord: Coordinate,
    pub dir: Direction,
    pub tiles: Vec<Tile>,
}

/// A play in notation, as mathematics.
pub struct ASNLineView {
    pub coord: Coordinate,
    pub dir: Direction,
    pub tiles: Seq<Tile>,
}

impl View for ASNLine {
    type V = ASNLineView;

    open spec fn view(&self) -> ASNLineView {
        ASNLineView { coord: self.coord, dir: self.dir, tiles: self.tiles@ }
    }
}

/// A sequence of plays in notation.
#[derive(Debug)]
pub struct ASN {
    pub lines: Vec<ASNLine>,
}

impl View for ASN {
    type V = Seq<ASNLineView>;

    open spec fn view(&self) -> Seq<ASNLineView> {
        self.lines@.map_values(|l: ASNLine| l@)
    }
}

/// Why a text is no notation of plays.
#[derive(Clone, Copy, Debug, PartialEq, Eq, Structural)]
pub enum ASNError {
    /// A coordinate is missing or no digit in base fifteen.
    InvalidCoord,
    /// The direction is missing or neither `h` nor `v`.
    InvalidDirection,
    /// A tile is neither a letter nor a joker mark.
    InvalidTileCharacter,
    /// A joker mark follows a joker mark.
    InvalidJoker,
    /// The play ends where a tile must follow.
    UnexpendedPlayEnd,
}

/// What the reader of a play's tiles expects next.
#[derive(Clone, Copy, Debug, PartialEq, Eq, Structural)]
pub enum ParseState {
    /// A joker mark was read: its letter must follow.
    JokerTile,
    /// No tile was read yet: one must follow.
    RequiresTile,
    /// A tile was read: another may follow, or the play may end.
    CanEnd,
}

/// What one character does to the reader of a play's tiles.
#[derive(Clone, Copy, Debug, PartialEq, Eq, Structural)]
pub enum Step {
    /// A joker mark: go on in the given state.
    Mark(ParseState),
    /// A tile.
    Put(Tile),
    /// The end of the play.
    End,
    /// No notation.
    Fail(ASNError),
}

/// The value of a digit in base fifteen: `0` to `9`, then `a` to `e` in
/// either case.
pub open spec fn radix15(c: char) -> Option<isize> {
    if '0' <= c <= '9' {
        Some((c as int - '0' as int) as isize)
    } else if 'a' <= c <= 'e' {
        Some((c as int - 'a' as int + 10) as isize)
    } else if 'A' <= c <= 'E' {
        Some((c as int - 'A' as int + 10) as isize)
    } else {
        None
    }
}

/// What the character `next`, or the end of the text, does in `state`;
/// `is_alphabetic` says whether the character is a letter.
pub open spec fn spec_tile_step(state: ParseState, next: Option<char>, is_alphabetic: bool) -> Step {
    if next == Some('*') {
        if state == ParseState::JokerTile {
            Step::Fail(ASNError::InvalidJoker)
        } else {
            Step::Mark(ParseState::JokerTile)
        }
    } else if next is None || next == Some('\n') {
        if state == ParseState::CanEnd {
            Step::End
        } else {
            Step::Fail(ASNError::UnexpendedPlayEnd)
        }
    } else if is_alphabetic {
        Step::Put(Tile { tile: next->0, is_joker: state == ParseState::JokerTile })
    } else {
        Step::Fail(ASNError::InvalidTileCharacter)
    }
}

/// The character at `i`, or none at the end of the text.
pub open spec fn char_at(s: Seq<char>, i: int) -> Option<char> {
    if 0 <= i < s.len() {
        Some(s[i])
    } else {
        None
    }
}

/// Reads the tiles of a play from position `i` on, after the tiles `acc`:
/// all the tiles of the play and the position after its end.
pub open spec fn parse_tiles(s: Seq<char>, i: int, state: ParseState, acc: Seq<Tile>) -> Result<
    (Seq<Tile>, int),
    ASNError,
>
    decreases s.len() - i,
{
    let next = char_at(s, i);
    match spec_tile_step(state, next, next is Some && alphabetic(next->0)) {
        Step::Fail(e) => Err(e),
        Step::End => Ok(
            (
                acc,
                if next is Some {
                    i + 1
                } else {
                    i
                },
            ),
        ),
        Step::Mark(st) => if next is Some {
            parse_tiles(s, i + 1, st, acc)
        } else {
            Err(ASNError::UnexpendedPlayEnd)
        },
        Step::Put(t) => if next is Some {
            parse_tiles(s, i + 1, ParseState::CanEnd, acc.push(t))
        } else {
            Err(ASNError::UnexpendedPlayEnd)
        },
    }
}

/// The direction that a character names.
pub open spec fn parse_direction(c: Option<char>) -> Option<Direction> {
    if c == Some('v') {
        Some(Direction::Vertical)
    } else if c == Some('h') {
        Some(Direction::Horizontal)
    } else {
        None
    }
}

/// Reads the play that starts at position `i`: the play and the position
/// after its end.
pub open spec fn parse_play(s: Seq<char>, i: int) -> Result<(ASNLineView, int), ASNError> {
    let x = match char_at(s, i) {
        Some(c) => radix15(c),
        None => None,
    };
    let y = match char_at(s, i + 1) {
        Some(c) => radix15(c),
        None => None,
    };
    let dir = parse_direction(char_at(s, i + 2));
    if x is None || y is None {
        Err(ASNError::InvalidCoord)
    } else if dir is None {
        Err(ASNError::InvalidDirection)
    } else {
        match parse_tiles(s, i + 3, ParseState::RequiresTile, Seq::empty()) {
            Ok((tiles, j)) => Ok(
                (ASNLineView { coord: Coordinate { x: x->0, y: y->0 }, dir: dir->0, tiles }, j),
            ),
            Err(e) => Err(e),
        }
    }
}

/// Reads the plays from position `i` on, after the plays `acc`.
pub open spec fn parse_plays(s: Seq<char>, i: int, acc: Seq<ASNLineView>) -> Result<
    Seq<ASNLineView>,
    ASNError,
>
    decreases s.len() - i,
{
    if i >= s.len() || i < 0 {
        Ok(acc)
    } else {
        match parse_play(s, i) {
            Err(e) => Err(e),
            Ok((line, j)) => if i < j <= s.len() {
                parse_plays(s, j, acc.push(line))
            } else {
                Ok(acc.push(line))
            },
        }
    }
}

/// The plays that a text notes.
pub open spec fn parse_asn(s: Seq<char>) -> Result<Seq<ASNLineView>, ASNError> {
    parse_plays(s, 0, Seq::empty())
}

/// Whether a turn can be ended in the game: it is not over, and its turn
/// number can still be counted up.
pub open spec fn can_move(g: GameView) -> bool {
    g.state matches GameState::Turn(n, _) && n < usize::MAX
}

/// What laying out the tiles of a play does to the game: the first tile goes
/// to `p`, each further tile to the next cell along `dir` that holds no tile.
/// Stops at the first tile that cannot be put down, with the reason.
pub open spec fn place_line(g: GameView, p: (int, int), dir: Direction, tiles: Seq<Tile>) -> (
    GameView,
    Option<CrabbleError>,
)
    decreases tiles.len(),
{
    if tiles.len() == 0 {
        (g, None)
    } else {
        match g.place_tile(tiles[0], p) {
            Err(e) => (g, Some(e)),
            Ok(placed) => place_line(
                placed,
                placed.board.next_free(p, dir),
                dir,
                tiles.drop_first(),
            ),
        }
    }
}

/// What making the plays in turn does to the game: each is laid out and the
/// turn is ended. Stops at the first play that cannot be made, with the
/// reason and with the game as it then stands.
pub open spec fn run_plays(g: GameView, lines: Seq<ASNLineView>) -> (GameView, Option<CrabbleError>)
    decreases lines.len(),
{
    if lines.len() == 0 {
        (g, None)
    } else if !can_move(g) {
        (g, Some(CrabbleError::GameOver))
    } else {
        let line = lines[0];
        let (laid, failure) = place_line(g, line.coord.pos(), line.dir, line.tiles);
        if failure is Some {
            (laid, failure)
        } else {
            match laid.end_turn() {
                Err(e) => (laid, Some(e)),
                Ok(next) => run_plays(next, lines.drop_first()),
            }
        }
    }
}

/// Laying out tiles leaves the game's state alone and the game well-formed.
pub proof fn lemma_place_line(g: GameView, p: (int, int), dir: Direction, tiles: Seq<Tile>)
    requires
        g.wf(),
    ensures
        place_line(g, p, dir, tiles).0.wf(),
        place_line(g, p, dir, tiles).0.state == g.state,
    decreases tiles.len(),
{
    if tiles.len() > 0 {
        match g.place_tile(tiles[0], p) {
            Err(e) => {},
            Ok(placed) => {
                crate::board::lemma_with_tile(
                    g.board,
                    p,
                    crate::tile::BoardTile { tile: tiles[0], is_provisional: true },
                );
                let q = placed.board.next_free(p, dir);
                lemma_place_line(placed, q, dir, tiles.drop_first());
            },
        }
    }
}

/// Reading the tiles of a play ends after the position it started from, and
/// within the text.
pub proof fn lemma_parse_tiles_advances(s: Seq<char>, i: int, state: ParseState, acc: Seq<Tile>)
    requires
        0 <= i <= s.len(),
    ensures
        parse_tiles(s, i, state, acc) matches Ok((_, j)) ==> i <= j <= s.len(),
    decreases s.len() - i,
{
    let next = char_at(s, i);
    match spec_tile_step(state, next, next is Some && alphabetic(next->0)) {
        Step::Mark(st) => {
            if next is Some {
                lemma_parse_tiles_advances(s, i + 1, st, acc);
            }
        },
        Step::Put(t) => {
            if next is Some {
                lemma_parse_tiles_advances(s, i + 1, ParseState::CanEnd, acc.push(t));
            }
        },
        _ => {},
    }
}

/// A play that is read ends after the position it started from, and within
/// the text: reading the plays of a text always moves on.
pub proof fn lemma_parse_play_advances(s: Seq<char>, i: int)
    requires
        0 <= i,
    ensures
        parse_play(s, i) matches Ok((_, j)) ==> i + 3 <= j <= s.len(),
{
    if parse_play(s, i) is Ok {
        assert(char_at(s, i + 2) is Some);
        lemma_parse_tiles_advances(s, i + 3, ParseState::RequiresTile, Seq::empty());
    }
}

/// What the character `next`, or the end of the text, does to the reader of a
/// play's tiles in `state`; `is_alphabetic` says whether the character is a
/// letter.
pub fn tile_step(state: ParseState, next: Option<char>, is_alphabetic: bool) -> (r: Step)
    ensures
        r == spec_tile_step(state, next, is_alphabetic),
{
    match next {
        Some('*') => match state {
            ParseState::JokerTile => Step::Fail(ASNError::InvalidJoker),
            _ => Step::Mark(ParseState::JokerTile),
        },
        None | Some('\n') => match state {
            ParseState::CanEnd => Step::End,
            _ => Step::Fail(ASNError::UnexpendedPlayEnd),
        },
        Some(c) => {
            if is_alphabetic {
                let is_joker = match state {
                    ParseState::JokerTile => true,
                    _ => false,
                };
                Step::Put(Tile { tile: c, is_joker })
            } else {
                Step::Fail(ASNError::InvalidTileCharacter)
            }
        },
    }
}

/// The value of a digit in base fifteen.
pub fn digit15(c: char) -> (r: Option<isize>)
    ensures
        r == radix15(c),
{
    let code: u32 = c as u32;
    if '0' <= c && c <= '9' {
        Some((code - '0' as u32) as isize)
    } else if 'a' <= c && c <= 'e' {
        Some((code - 'a' as u32 + 10) as isize)
    } else if 'A' <= c && c <= 'E' {
        Some((code - 'A' as u32 + 10) as isize)
    } else {
        None
    }
}

/// Reads the tiles of a play from position `start` on: the tiles and the
/// position after the play's end.
pub fn read_tiles(s: &Vec<char>, start: usize) -> (r: Result<(Vec<Tile>, usize), ASNError>)
    requires
        start <= s@.len(),
    ensures
        match parse_tiles(s@, start as int, ParseState::RequiresTile, Seq::empty()) {
            Ok((tiles, end)) => r matches Ok((found, j)) && found@ == tiles && j == end && start
                <= j <= s@.len(),
            Err(e) => r matches Err(x) && x == e,
        },
{
    let n: usize = s.len();
    let mut state = ParseState::RequiresTile;
    let mut tiles: Vec<Tile> = Vec::new();
    let mut j: usize = start;
    let ghost whole = parse_tiles(s@, start as int, ParseState::RequiresTile, Seq::empty());
    loop
        invariant_except_break
            whole == parse_tiles(s@, j as int, state, tiles@),
        invariant
            n == s@.len(),
            start <= j <= n,
            whole == parse_tiles(s@, start as int, ParseState::RequiresTile, Seq::empty()),
        ensures
            whole == Ok::<(Seq<Tile>, int), ASNError>((tiles@, j as int)),
        decreases n - j,
    {
        let next = if j < n {
            Some(s[j])
        } else {
            None
        };
        let is_alphabetic = match next {
            Some(c) => c.is_alphabetic(),
            None => false,
        };
        match tile_step(state, next, is_alphabetic) {
            Step::Fail(e) => {
                return Err(e);
            },
            Step::End => {
                if j < n {
                    j = j + 1;
                }
                break ;
            },
            Step::Mark(st) => {
                state = st;
                j = j + 1;
            },
            Step::Put(t) => {
                tiles.push(t);
                state = ParseState::CanEnd;
                j = j + 1;
            },
        }
    }
    Ok((tiles, j))
}

impl ASN {
    /// Reads a text as a sequence of plays.
    #[verifier::loop_isolation(false)]
    pub fn parse(text: &str) -> (r: Result<ASN, ASNError>)
        ensures
            match parse_asn(text@) {
                Ok(lines) => r matches Ok(asn) && asn@ == lines,
                Err(e) => r matches Err(x) && x == e,
            },
    {
        let s = chars_of(text);
        let n: usize = s.len();
        let mut asn_lines: Vec<ASNLine> = Vec::new();
        let mut i: usize = 0;
        let ghost whole = parse_asn(s@);
        proof {
            assert(asn_lines@.map_values(|l: ASNLine| l@) == Seq::<ASNLineView>::empty());
        }
        while i < n
            invariant
                n == s@.len(),
                i <= n,
                whole == parse_plays(s@, i as int, asn_lines@.map_values(|l: ASNLine| l@)),
            decreases n - i,
        {
            let ghost done = asn_lines@.map_values(|l: ASNLine| l@);
            let x = match digit15(s[i]) {
                Some(x) => x,
                None => {
                    return Err(ASNError::InvalidCoord);
                },
            };
            if i + 1 >= n {
                return Err(ASNError::InvalidCoord);
            }
            let y = match digit15(s[i + 1]) {
                Some(y) => y,
                None => {
                    return Err(ASNError::InvalidCoord);
                },
            };
            if i + 2 >= n {
                return Err(ASNError::InvalidDirection);
            }
            let dir = if s[i + 2] == 'v' {
                Direction::Vertical
            } else if s[i + 2] == 'h' {
                Direction::Horizontal
            } else {
                return Err(ASNError::InvalidDirection);
            };
            let (tiles, j) = match read_tiles(&s, i + 3) {
                Ok(found) => found,
                Err(e) => {
                    return Err(e);
                },
            };
            asn_lines.push(ASNLine { coord: Coordinate { x, y }, dir, tiles });
            proof {
                let line = ASNLineView { coord: Coordinate { x, y }, dir, tiles: tiles@ };
                assert(parse_play(s@, i as int) == Ok::<(ASNLineView, int), ASNError>(
                    (line, j as int),
                ));
                assert(asn_lines@.map_values(|l: ASNLine| l@) == done.push(line));
            }
            i = j;
        }
        Ok(ASN { lines: asn_lines })
    }
}

impl ASNLine {
    /// Lays out the tiles of the play on the board of `game`: the first tile
    /// at the play's coordinate, each further tile on the next cell along the
    /// play's direction that holds no tile. Stops at the first tile that
    /// cannot be put down.
    pub fn place(&self, game: &mut Game) -> (r: Result<(), CrabbleError>)
        requires
            old(game).wf(),
        ensures
            final(game).wf(),
            final(game)@ == place_line(old(game)@, self.coord.pos(), self.dir, self.tiles@).0,
            r == (match place_line(old(game)@, self.coord.pos(), self.dir, self.tiles@).1 {
                Some(e) => Err::<(), CrabbleError>(e),
                None => Ok(()),
            }),
    {
        let mut coord = self.coord;
        let mut k: usize = 0;
        let ghost whole = place_line(game@, self.coord.pos(), self.dir, self.tiles@);
        assert(self.tiles@.skip(0) == self.tiles@);
        while k < self.tiles.len()
            invariant
                game.wf(),
                k <= self.tiles@.len(),
                whole == place_line(old(game)@, self.coord.pos(), self.dir, self.tiles@),
                whole == place_line(game@, coord.pos(), self.dir, self.tiles@.skip(k as int)),
            decreases self.tiles@.len() - k,
        {
            proof {
                assert(self.tiles@.skip(k as int)[0] == self.tiles@[k as int]);
                assert(self.tiles@.skip(k as int).drop_first() == self.tiles@.skip(k + 1));
            }
            match game.place_tile(self.tiles[k], coord) {
                Ok(()) => {},
                Err(e) => {
                    return Err(e);
                },
            }
            coord = game.board().skip_tiles(coord, self.dir);
            k += 1;
        }
        Ok(())
    }
}

impl ASN {
    /// Makes the plays in turn: lays each out and ends the turn. Stops at the
    /// first play that cannot be made, and leaves the game as it then stands:
    /// with the tiles of that play that were put down still provisional.
    pub fn run(self, game: &mut Game) -> (r: Result<(), CrabbleError>)
        requires
            old(game).wf(),
        ensures
            final(game).wf(),
            final(game)@ == run_plays(old(game)@, self@).0,
            r == (match run_plays(old(game)@, self@).1 {
                Some(e) => Err::<(), CrabbleError>(e),
                None => Ok(()),
            }),
    {
        let ghost whole = run_plays(game@, self@);
        let ghost lines = self@;
        let mut i: usize = 0;
        assert(lines.skip(0) == lines);
        while i < self.lines.len()
            invariant
                game.wf(),
                lines == self@,
                i <= self.lines@.len(),
                whole == run_plays(old(game)@, lines),
                whole == run_plays(game@, lines.skip(i as int)),
            decreases self.lines@.len() - i,
        {
            proof {
                assert(lines.skip(i as int)[0] == self.lines@[i as int]@);
                assert(lines.skip(i as int).drop_first() == lines.skip(i + 1));
            }
            let movable = match game.state() {
                GameState::Turn(n, _) => n < usize::MAX,
                GameState::Done => false,
            };
            if !movable {
                return Err(CrabbleError::GameOver);
            }
            let ghost before = game@;
            match self.lines[i].place(game) {
                Ok(()) => {},
                Err(e) => {
                    return Err(e);
                },
            }
            proof {
                let line = self.lines@[i as int]@;
                lemma_place_line(before, line.coord.pos(), line.dir, line.tiles);
            }
            match game.end_turn() {
                Ok(()) => {},
                Err(e) => {
                    return Err(e);
                },
            }
            i += 1;
        }
        Ok(())
    }
}

impl FromStr for ASN {
    type Err = ASNError;

    /// Reads a text as a sequence of plays, as `ASN::parse` does.
    fn from_str(s: &str) -> (r: Result<ASN, ASNError>)
        ensures
            match parse_asn(s@) {
                Ok(lines) => r matches Ok(asn) && asn@ == lines,
                Err(e) => r matches Err(x) && x == e,
            },
    {
        ASN::parse(s)
    }
}

} // verus!
