//! The game: a board, a bag, the players and whose turn it is.

use crate::bag::{drawn_out, Bag};
use crate::board::{Board, BoardView};
use crate::coordinate::Coordinate;
use crate::error::CrabbleError;
use crate::language::{all_valued, expand, Language, LanguageView};
use crate::layout::BoardLayout;
use crate::play::{fits, lemma_primary_run_occupied};
use crate::tile::{BoardTile, Hand, HandTile, Tile, HAND_SIZE};
use vstd::prelude::*;

verus! {

/// A player: a name, the points so far and a rack.
#[derive(Debug)]
pub struct Player {
    pub name: String,
    pub score: isize,
    pub hand: Hand,
}

/// A player as mathematics.
pub struct PlayerView {
    pub name: Seq<char>,
    pub score: int,
    pub hand: Seq<HandTile>,
}

impl View for Player {
    type V = PlayerView;

    open spec fn view(&self) -> PlayerView {
        PlayerView { name: self.name@, score: self.score as int, hand: self.hand@ }
    }
}

/// Where a game stands: the number of the turn and whether the last round has
/// begun, or that the game is over. The turn number counts on from player to
/// player; the player to move is the one at that number modulo the number of
/// players.
#[derive(Clone, Copy, Debug, PartialEq, Eq, Structural)]
pub enum GameState {
    Turn(usize, bool),
    Done,
}

/// How many tiles a rack of `hand` tiles takes from a bag of `bag` tiles: up
/// to a full rack, as far as the bag lasts.
pub open spec fn draw_count(hand: nat, bag: nat) -> nat {
    if hand >= HAND_SIZE {
        0
    } else if HAND_SIZE - hand <= bag {
        (HAND_SIZE - hand) as nat
    } else {
        bag
    }
}

/// The rack after drawing from the bag.
pub open spec fn hand_after_draw(hand: Seq<HandTile>, bag: Seq<HandTile>) -> Seq<HandTile> {
    hand + drawn_out(bag).take(draw_count(hand.len(), bag.len()) as int)
}

/// The bag after a rack of `hand` has drawn from it.
pub open spec fn bag_after_draw(hand: Seq<HandTile>, bag: Seq<HandTile>) -> Seq<HandTile> {
    bag.take(bag.len() - draw_count(hand.len(), bag.len()))
}

/// The tile that leaves a bag at the `j`-th draw is the `j`-th from its end.
pub proof fn lemma_drawn_out_index(bag: Seq<HandTile>, j: int)
    requires
        0 <= j < bag.len(),
    ensures
        drawn_out(bag).len() == bag.len(),
        drawn_out(bag)[j] == bag[bag.len() - 1 - j],
    decreases bag.len(),
{
    crate::bag::lemma_drawn_out(bag);
    crate::bag::lemma_drawn_out(bag.drop_last());
    if j > 0 {
        lemma_drawn_out_index(bag.drop_last(), j - 1);
    }
}

impl Player {
    /// A player without points or tiles.
    pub fn new(name: String) -> (p: Player)
        ensures
            p.name == name,
            p.score == 0,
            p.hand@ == Seq::<HandTile>::empty(),
    {
        Player { name, score: 0, hand: Hand::empty() }
    }

    /// Fills the rack up from the bag. Fails with `BagEmpty` if the bag runs
    /// out first; the tiles drawn until then stay on the rack.
    pub fn draw_from_bag(&mut self, bag: &mut Bag) -> (r: Result<(), CrabbleError>)
        ensures
            final(self).name == old(self).name,
            final(self).score == old(self).score,
            final(self).hand@ == hand_after_draw(old(self).hand@, old(bag)@),
            final(bag)@ == bag_after_draw(old(self).hand@, old(bag)@),
            r == (if final(self).hand@.len() >= HAND_SIZE {
                Ok::<(), CrabbleError>(())
            } else {
                Err(CrabbleError::BagEmpty)
            }),
    {
        let ghost hand0 = self.hand@;
        let ghost bag0 = bag@;
        let ghost mut j: nat = 0;
        proof {
            crate::bag::lemma_drawn_out(bag0);
            assert(drawn_out(bag0).take(0) == Seq::<HandTile>::empty());
            assert(hand0 + Seq::<HandTile>::empty() == hand0);
            assert(bag0.take(bag0.len() as int) == bag0);
        }
        while self.hand.letters.len() < HAND_SIZE
            invariant
                self.name == old(self).name,
                self.score == old(self).score,
                hand0 == old(self).hand@,
                bag0 == old(bag)@,
                j <= bag0.len(),
                drawn_out(bag0).len() == bag0.len(),
                self.hand@ == hand0 + drawn_out(bag0).take(j as int),
                bag@ == bag0.take(bag0.len() - j),
                j == 0 || hand0.len() + j <= HAND_SIZE,
            decreases HAND_SIZE - self.hand.letters@.len(),
        {
            let drawn_tile = bag.take();
            match drawn_tile {
                Some(x) => {
                    proof {
                        lemma_drawn_out_index(bag0, j as int);
                        assert(drawn_out(bag0).take(j as int + 1) == drawn_out(bag0).take(j as int).push(
                            x,
                        ));
                        assert(bag0.take(bag0.len() - j).drop_last() == bag0.take(
                            bag0.len() - j - 1,
                        ));
                        j = j + 1;
                    }
                    self.hand.letters.push(x);
                },
                None => {
                    return Err(CrabbleError::BagEmpty);
                },
            }
        }
        Ok(())
    }
}

/// A game as mathematics.
pub struct GameView {
    pub board: BoardView,
    pub bag: Seq<HandTile>,
    pub players: Seq<PlayerView>,
    pub state: GameState,
    pub language: LanguageView,
}

/// The views of a vector of players.
pub open spec fn players_view(players: Seq<Player>) -> Seq<PlayerView> {
    players.map_values(|p: Player| p@)
}

/// How many tiles the players lack for full racks.
pub open spec fn tiles_needed(players: Seq<PlayerView>) -> nat
    decreases players.len(),
{
    if players.len() == 0 {
        0
    } else {
        tiles_needed(players.drop_last()) + draw_count(
            players.last().hand.len(),
            HAND_SIZE as nat,
        )
    }
}

/// The players and the bag after each player in turn has filled the rack from
/// the bag.
pub open spec fn deal(players: Seq<PlayerView>, bag: Seq<HandTile>) -> (Seq<PlayerView>, Seq<
    HandTile,
>)
    decreases players.len(),
{
    if players.len() == 0 {
        (players, bag)
    } else {
        let (before, rest) = deal(players.drop_last(), bag);
        let p = players.last();
        (
            before.push(PlayerView { hand: hand_after_draw(p.hand, rest), ..p }),
            bag_after_draw(p.hand, rest),
        )
    }
}

/// Whether no rack holds more than a full rack's tiles.
pub open spec fn racks_in_range(players: Seq<PlayerView>) -> bool {
    forall|i: int| 0 <= i < players.len() ==> (#[trigger] players[i]).hand.len() <= HAND_SIZE
}

/// Dealing keeps the players' names and points, and where the bag holds what
/// the racks lack, it leaves every rack full and takes just those tiles.
pub proof fn lemma_deal(players: Seq<PlayerView>, bag: Seq<HandTile>)
    ensures
        deal(players, bag).0.len() == players.len(),
        forall|i: int|
            0 <= i < players.len() ==> (#[trigger] deal(players, bag).0[i]).name == players[i].name
                && deal(players, bag).0[i].score == players[i].score,
        racks_in_range(players) && tiles_needed(players) <= bag.len() ==> {
            &&& deal(players, bag).1.len() == bag.len() - tiles_needed(players)
            &&& forall|i: int|
                0 <= i < players.len() ==> (#[trigger] deal(players, bag).0[i]).hand.len()
                    == HAND_SIZE
        },
    decreases players.len(),
{
    if players.len() > 0 {
        let init = players.drop_last();
        lemma_deal(init, bag);
        let (before, rest) = deal(init, bag);
        let p = players.last();
        crate::bag::lemma_drawn_out(rest);
        assert forall|i: int| 0 <= i < players.len() implies (#[trigger] deal(
            players,
            bag,
        ).0[i]).name == players[i].name && deal(players, bag).0[i].score == players[i].score by {
            if i < init.len() {
                assert(deal(players, bag).0[i] == before[i]);
                assert(init[i] == players[i]);
            }
        }
        if racks_in_range(players) && tiles_needed(players) <= bag.len() {
            assert(racks_in_range(init)) by {
                assert forall|i: int| 0 <= i < init.len() implies (#[trigger] init[i]).hand.len()
                    <= HAND_SIZE by {
                    assert(init[i] == players[i]);
                }
            }
            assert(p.hand.len() <= HAND_SIZE);
            assert forall|i: int| 0 <= i < players.len() implies (#[trigger] deal(
                players,
                bag,
            ).0[i]).hand.len() == HAND_SIZE by {
                if i < init.len() {
                    assert(deal(players, bag).0[i] == before[i]);
                }
            }
        }
    }
}

/// Tiles with the same tiles among them, in whatever order, have values
/// alike.
pub proof fn lemma_permuted_valued(a: Seq<HandTile>, b: Seq<HandTile>, values: Map<HandTile, usize>)
    requires
        a.to_multiset() == b.to_multiset(),
        all_valued(a, values),
    ensures
        all_valued(b, values),
{
    assert forall|i: int| 0 <= i < b.len() implies values.contains_key(#[trigger] b[i]) by {
        vstd::seq_lib::to_multiset_contains(b, b[i]);
        vstd::seq_lib::to_multiset_contains(a, b[i]);
        assert(b.contains(b[i]));
        let k = choose|k: int| 0 <= k < a.len() && a[k] == b[i];
        assert(values.contains_key(a[k]));
    }
}

/// Drawing from a bag of tiles that have values onto a rack of such tiles
/// leaves such tiles on the rack and in the bag.
pub proof fn lemma_draw_valued(hand: Seq<HandTile>, bag: Seq<HandTile>, values: Map<HandTile, usize>)
    requires
        all_valued(hand, values),
        all_valued(bag, values),
    ensures
        all_valued(hand_after_draw(hand, bag), values),
        all_valued(bag_after_draw(hand, bag), values),
{
    crate::bag::lemma_drawn_out(bag);
    lemma_permuted_valued(bag, drawn_out(bag), values);
    let drawn = drawn_out(bag).take(draw_count(hand.len(), bag.len()) as int);
    assert forall|i: int| 0 <= i < hand_after_draw(hand, bag).len() implies values.contains_key(
        #[trigger] hand_after_draw(hand, bag)[i],
    ) by {
        if i >= hand.len() {
            assert(hand_after_draw(hand, bag)[i] == drawn_out(bag)[i - hand.len()]);
        } else {
            assert(hand_after_draw(hand, bag)[i] == hand[i]);
        }
    }
    assert forall|i: int| 0 <= i < bag_after_draw(hand, bag).len() implies values.contains_key(
        #[trigger] bag_after_draw(hand, bag)[i],
    ) by {
        assert(bag_after_draw(hand, bag)[i] == bag[i]);
    }
}

/// Dealing from a bag of tiles that have values onto racks of such tiles
/// leaves such tiles on every rack and in the bag.
pub proof fn lemma_deal_valued(players: Seq<PlayerView>, bag: Seq<HandTile>, values: Map<HandTile, usize>)
    requires
        forall|i: int| 0 <= i < players.len() ==> all_valued((#[trigger] players[i]).hand, values),
        all_valued(bag, values),
    ensures
        forall|i: int|
            0 <= i < players.len() ==> all_valued((#[trigger] deal(players, bag).0[i]).hand, values),
        all_valued(deal(players, bag).1, values),
    decreases players.len(),
{
    lemma_deal(players, bag);
    if players.len() > 0 {
        let init = players.drop_last();
        assert forall|i: int| 0 <= i < init.len() implies all_valued(
            (#[trigger] init[i]).hand,
            values,
        ) by {
            assert(init[i] == players[i]);
        }
        lemma_deal_valued(init, bag, values);
        lemma_deal(init, bag);
        let (before, rest) = deal(init, bag);
        let p = players.last();
        assert(all_valued(p.hand, values));
        lemma_draw_valued(p.hand, rest, values);
        assert forall|i: int| 0 <= i < players.len() implies all_valued(
            (#[trigger] deal(players, bag).0[i]).hand,
            values,
        ) by {
            if i < init.len() {
                assert(deal(players, bag).0[i] == before[i]);
            }
        }
    }
}

impl GameView {
    /// The board is well-formed and one to four players sit at it.
    pub open spec fn wf(self) -> bool {
        &&& self.board.wf()
        &&& 1 <= self.players.len() <= 4
    }

    /// The index of the player to move.
    pub open spec fn current(self) -> int
        recommends
            self.state is Turn,
    {
        self.state->Turn_0 as int % self.players.len() as int
    }

    /// What putting a tile down does to the game.
    pub open spec fn place_tile(self, tile: Tile, p: (int, int)) -> Result<GameView, CrabbleError> {
        match self.board.place(tile, p) {
            Ok(board) => Ok(GameView { board, ..self }),
            Err(e) => Err(CrabbleError::from_placement(e)),
        }
    }

    /// What ending the turn does to the game. A refused play changes nothing.
    /// An accepted play is committed on the board and credited to the player
    /// to move, who then fills the rack from the bag as far as it lasts. The
    /// last round begins when that leaves the bag and the rack empty. The
    /// game is over when, in the last round, the next player's rack is empty
    /// too; otherwise it is the next player's turn.
    pub open spec fn end_turn(self) -> Result<GameView, CrabbleError>
        recommends
            self.state is Turn,
    {
        match self.board.judge(self.language.values) {
            Err(e) => Err(CrabbleError::from_placement(e)),
            Ok(points) => {
                let n = self.state->Turn_0;
                let last = self.state->Turn_1;
                let cur = self.current();
                let player = self.players[cur];
                if !fits(player.score + points) {
                    Err(CrabbleError::ScoreOverflow)
                } else {
                    let hand = hand_after_draw(player.hand, self.bag);
                    let bag = bag_after_draw(player.hand, self.bag);
                    let players = self.players.update(
                        cur,
                        PlayerView { score: player.score + points, hand, ..player },
                    );
                    let last_round = last || (bag.len() == 0 && hand.len() == 0);
                    let next = (n + 1) % self.players.len() as int;
                    let state = if last_round && players[next].hand.len() == 0 {
                        GameState::Done
                    } else {
                        GameState::Turn((n + 1) as usize, last_round)
                    };
                    Ok(GameView { board: self.board.committed(), bag, players, state, ..self })
                }
            },
        }
    }
}

/// A game in play.
#[derive(Debug)]
pub struct Game {
    board: Board,
    bag: Bag,
    pub players: Vec<Player>,
    pub state: GameState,
    language: Language,
}

impl View for Game {
    type V = GameView;

    closed spec fn view(&self) -> GameView {
        GameView {
            board: self.board@,
            bag: self.bag@,
            players: players_view(self.players@),
            state: self.state,
            language: self.language@,
        }
    }
}

impl Game {
    /// The game is well-formed: see `GameView::wf`.
    pub open spec fn wf(&self) -> bool {
        self@.wf()
    }

    /// Where the game stands.
    pub fn state(&self) -> (s: GameState)
        ensures
            s == self@.state,
    {
        self.state
    }

    /// The players, in the order of their turns.
    pub fn players(&self) -> (p: &Vec<Player>)
        ensures
            players_view(p@) == self@.players,
    {
        &self.players
    }

    /// A game over an empty board of `board_layout`, with the tiles of `bag`
    /// as they lie: each player in turn fills the rack from the bag, and the
    /// first player is to move.
    pub fn with_bag(
        mut players: Vec<Player>,
        board_layout: BoardLayout,
        language: Language,
        mut bag: Bag,
    ) -> (game: Game)
        requires
            1 <= players@.len() <= 4,
            board_layout.wf(),
            racks_in_range(players_view(players@)),
            tiles_needed(players_view(players@)) <= bag@.len(),
        ensures
            game.wf(),
            game@.board.is_empty_over(board_layout@),
            game@.state == GameState::Turn(0, false),
            game@.language == language@,
            (game@.players, game@.bag) == deal(players_view(players@), bag@),
            game@.players.len() == players@.len(),
            game@.bag.len() == bag@.len() - tiles_needed(players_view(players@)),
            forall|i: int|
                0 <= i < players@.len() ==> (#[trigger] game@.players[i]).hand.len() == HAND_SIZE,
            forall|i: int|
                0 <= i < players@.len() ==> (#[trigger] game@.players[i]).name == players@[i]@.name
                    && game@.players[i].score == players@[i]@.score,
    {
        let ghost seated = players@;
        let ghost players0 = players_view(players@);
        let ghost bag0 = bag@;
        let n: usize = players.len();
        let mut i: usize = 0;
        proof {
            assert(players0.take(0) == Seq::<PlayerView>::empty());
            assert(players_view(players@).take(0) == Seq::<PlayerView>::empty());
        }
        while i < n
            invariant
                n == players@.len(),
                players0.len() == n,
                i <= n,
                (players_view(players@).take(i as int), bag@) == deal(players0.take(i as int), bag0),
                forall|k: int| i <= k < n ==> players_view(players@)[k] == players0[k],
            decreases n - i,
        {
            let ghost before = players_view(players@);
            let ghost rest = bag@;
            let _ = players[i].draw_from_bag(&mut bag);
            proof {
                let after = players_view(players@);
                let p = players0[i as int];
                assert(before[i as int] == p);
                assert(forall|k: int| 0 <= k < n && k != i ==> after[k] == before[k]);
                assert(after[i as int] == PlayerView {
                    hand: hand_after_draw(p.hand, rest),
                    ..p
                });
                assert(players0.take(i + 1).drop_last() == players0.take(i as int));
                assert(players0.take(i + 1).last() == p);
                assert(after.take(i + 1) == before.take(i as int).push(after[i as int]));
            }
            i += 1;
        }
        proof {
            assert(players0.take(n as int) == players0);
            assert(players_view(players@).take(n as int) == players_view(players@));
            lemma_deal(players0, bag0);
            assert forall|i: int| 0 <= i < n implies players0[i] == seated[i]@ by {}
        }
        Game {
            board: Board::from_layout(board_layout),
            bag,
            state: GameState::Turn(0, false),
            language,
            players,
        }
    }

    /// A new game: an empty board of `board_layout`, a full bag of the
    /// language's tiles in random order, and a full rack for each player,
    /// dealt in turn. The first player is to move.
    pub fn new(players: Vec<Player>, board_layout: BoardLayout, language: Language) -> (game: Game)
        requires
            1 <= players@.len() <= 4,
            board_layout.wf(),
            racks_in_range(players_view(players@)),
            tiles_needed(players_view(players@)) <= expand(language@.distribution).len(),
        ensures
            game.wf(),
            game@.board.is_empty_over(board_layout@),
            game@.state == GameState::Turn(0, false),
            game@.language == language@,
            exists|bag: Seq<HandTile>|
                bag.to_multiset() == expand(language@.distribution).to_multiset() && (
                    game@.players,
                    game@.bag,
                ) == #[trigger] deal(players_view(players@), bag),
            game@.players.len() == players@.len(),
            game@.bag.len() == expand(language@.distribution).len() - tiles_needed(
                players_view(players@),
            ),
            forall|i: int|
                0 <= i < players@.len() ==> (#[trigger] game@.players[i]).hand.len() == HAND_SIZE,
            forall|i: int|
                0 <= i < players@.len() ==> (#[trigger] game@.players[i]).name == players@[i]@.name
                    && game@.players[i].score == players@[i]@.score,
    {
        let mut bag = Bag::full(&language.distribution);
        let ghost full = bag@;
        bag.shuffle();
        proof {
            vstd::seq_lib::to_multiset_len(full);
            vstd::seq_lib::to_multiset_len(bag@);
        }
        Game::with_bag(players, board_layout, language, bag)
    }

    /// The language of the game.
    pub fn language(&self) -> (l: &Language)
        ensures
            l@ == self@.language,
    {
        &self.language
    }

    /// The number of tiles left in the bag.
    pub fn bag_len(&self) -> (n: usize)
        ensures
            n == self@.bag.len(),
    {
        self.bag.len()
    }

    /// The board.
    pub fn board(&self) -> (b: &Board)
        ensures
            b@ == self@.board,
    {
        &self.board
    }

    /// The tile at `coord`; none off the board or on a free cell.
    pub fn get_tile(&self, coord: Coordinate) -> (t: Option<BoardTile>)
        requires
            self.wf(),
        ensures
            t == self@.board.tile_at(coord.pos()),
    {
        self.board.get_tile(coord)
    }

    /// Puts `tile` down at `coord` as part of the play in progress. Fails, and
    /// changes nothing, off the board and on a cell that holds a tile. The
    /// racks are left alone: the tile need not come from a rack, and taking
    /// it off one is for the caller to do, with `Hand::remove`.
    pub fn place_tile(&mut self, tile: Tile, coord: Coordinate) -> (r: Result<(), CrabbleError>)
        requires
            old(self).wf(),
        ensures
            final(self).wf(),
            match old(self)@.place_tile(tile, coord.pos()) {
                Ok(g) => r is Ok && final(self)@ == g,
                Err(e) => r == Err::<(), CrabbleError>(e) && final(self)@ == old(self)@,
            },
    {
        match self.board.place(tile, coord) {
            Ok(()) => Ok(()),
            Err(e) => Err(CrabbleError::from_placement(e)),
        }
    }

    /// Ends the turn of the player to move: commits the play in progress,
    /// credits its points, fills the player's rack and passes the turn on.
    /// No tile leaves a rack here. Where the play is refused, nothing
    /// changes. The game must not be over.
    pub fn end_turn(&mut self) -> (r: Result<(), CrabbleError>)
        requires
            old(self).wf(),
            old(self)@.state matches GameState::Turn(n, _) && n < usize::MAX,
        ensures
            final(self).wf(),
            match old(self)@.end_turn() {
                Ok(g) => r is Ok && final(self)@ == g,
                Err(e) => r == Err::<(), CrabbleError>(e) && final(self)@ == old(self)@,
            },
    {
        let play = match self.board.check_play(&self.language.values) {
            Ok(play) => play,
            Err(e) => {
                return Err(CrabbleError::from_placement(e));
            },
        };
        let (n, is_last_round) = match self.state {
            GameState::Turn(n, is_last_round) => (n, is_last_round),
            GameState::Done => {
                return Ok(());
            },
        };
        let count: usize = self.players.len();
        let player_id: usize = n % count;
        let score = match self.players[player_id].score.checked_add(play.points) {
            Some(score) => score,
            None => {
                return Err(CrabbleError::ScoreOverflow);
            },
        };
        proof {
            lemma_primary_run_occupied(self.board@);
        }
        let ghost before = players_view(self.players@);
        self.board.promote(&play.run);
        self.players[player_id].score = score;
        let _ = self.players[player_id].draw_from_bag(&mut self.bag);
        let last_round = is_last_round || (self.bag.is_empty() && self.players[player_id].hand.is_empty());
        let next: usize = (n + 1) % count;
        if last_round && self.players[next].hand.is_empty() {
            self.state = GameState::Done;
        } else {
            self.state = GameState::Turn(n + 1, last_round);
        }
        proof {
            let g = old(self)@.end_turn().unwrap();
            let after = players_view(self.players@);
            assert(after =~= g.players);
        }
        Ok(())
    }
}

} // verus!
