//! What holds of the engine whatever is played: stated over the views of the
//! board and the game, and proved from their definitions.

use crate::bag::{drawn_out, lemma_drawn_out};
use crate::board::{lemma_with_tile, BoardView};
use crate::coordinate::Direction;
use crate::error::{CrabbleError, WordPlacementError};
use crate::game::{bag_after_draw, hand_after_draw, GameState, GameView};
use crate::play::{
    lemma_primary_run_occupied, lemma_settled, lemma_settled_none, lemma_settled_step,
};
use crate::tile::{BoardTile, HandTile, Tile, HAND_SIZE};
use vstd::prelude::*;

verus! {

/// A tile that was put down is read back from its cell, and is provisional.
pub proof fn lemma_place_then_get(b: BoardView, tile: Tile, p: (int, int))
    requires
        b.wf(),
        b.place(tile, p) is Ok,
    ensures
        b.place(tile, p)->Ok_0.wf(),
        b.place(tile, p)->Ok_0.tile_at(p) == Some(BoardTile { tile, is_provisional: true }),
        forall|q: (int, int)| q != p ==> b.place(tile, p)->Ok_0.tile_at(q) == b.tile_at(q),
{
    lemma_with_tile(b, p, BoardTile { tile, is_provisional: true });
}

/// A tile can be put down exactly on the free cells of the board.
pub proof fn lemma_place_outcome(b: BoardView, tile: Tile, p: (int, int))
    requires
        b.wf(),
    ensures
        b.place(tile, p) is Ok <==> b.in_bounds(p) && !b.occupied(p),
        b.place(tile, p) == Err::<BoardView, WordPlacementError>(
            WordPlacementError::TileOutOufBounds,
        ) <==> !b.in_bounds(p),
        b.place(tile, p) == Err::<BoardView, WordPlacementError>(WordPlacementError::TileOccupied)
            <==> b.occupied(p),
{
}

/// A second tile on the cell of a tile just put down is refused as occupied,
/// and the first tile stays readable.
pub proof fn lemma_place_twice(b: BoardView, first: Tile, second: Tile, p: (int, int))
    requires
        b.wf(),
        b.place(first, p) is Ok,
    ensures
        b.place(first, p)->Ok_0.place(second, p) == Err::<BoardView, WordPlacementError>(
            WordPlacementError::TileOccupied,
        ),
        b.place(first, p)->Ok_0.tile_at(p) == Some(BoardTile { tile: first, is_provisional: true }),
{
    lemma_with_tile(b, p, BoardTile { tile: first, is_provisional: true });
    let placed = b.place(first, p)->Ok_0;
    assert(placed.squares == b.squares);
}

/// Without a provisional tile a commit is refused as an empty play, whatever
/// the language.
pub proof fn lemma_empty_play(b: BoardView, values: Map<HandTile, usize>)
    requires
        !b.has_provisional(),
    ensures
        b.judge(values) == Err::<int, WordPlacementError>(WordPlacementError::PlayedWordEmpty),
{
}

/// A play is refused as empty only where no provisional tile lies on the
/// board.
pub proof fn lemma_empty_play_only(b: BoardView, values: Map<HandTile, usize>)
    requires
        b.judge(values) == Err::<int, WordPlacementError>(WordPlacementError::PlayedWordEmpty),
    ensures
        !b.has_provisional(),
{
}

/// A single new tile whose two runs are as long as each other is played
/// horizontally.
pub proof fn lemma_single_tile_tie(b: BoardView)
    requires
        b.has_provisional(),
        b.same_column(),
        b.same_row(),
        b.run_len(b.anchor(), Direction::Vertical) == b.run_len(b.anchor(), Direction::Horizontal),
    ensures
        b.play_direction() == Some(Direction::Horizontal),
{
}

/// Where no new tile lies outside the word played, the word is the run
/// through any of the new tiles: it does not matter which of them the word is
/// found from.
pub proof fn lemma_word_through_any_tile(b: BoardView, q: (int, int))
    requires
        b.play_direction() is Some,
        !b.scattered(b.primary_run()),
        b.provisional(q),
    ensures
        b.run(q, b.play_direction()->0) == b.primary_run(),
{
    crate::play::lemma_anchor_exists(b);
    let run = b.primary_run();
    assert(run.contains(q));
    let i = choose|i: int| 0 <= i < run.len() && run[i] == q;
    crate::run::lemma_run_shared(b, b.anchor(), b.play_direction()->0, i);
}

/// Settling a run of tiles on a well-formed board leaves it well-formed.
pub proof fn lemma_settled_wf(b: BoardView, run: Seq<(int, int)>)
    requires
        b.wf(),
        forall|i: int| 0 <= i < run.len() ==> b.occupied(#[trigger] run[i]),
    ensures
        b.settled(run).wf(),
    decreases run.len(),
{
    if run.len() == 0 {
        lemma_settled_none(b);
        assert(run == Seq::<(int, int)>::empty());
    } else {
        let n = run.len() - 1;
        let shorter = run.take(n);
        assert forall|i: int| 0 <= i < shorter.len() implies b.occupied(#[trigger] shorter[i]) by {
            assert(shorter[i] == run[i]);
        }
        lemma_settled_wf(b, shorter);
        lemma_settled_step(b, run, n);
        assert(run.take(n + 1) == run);
        lemma_settled(b, shorter);
        let before = b.settled(shorter);
        assert(before.in_bounds(run[n])) by {
            assert(before.occupied(run[n]));
        }
        lemma_with_tile(before, run[n], before.tile_at(run[n]).unwrap().permanent());
    }
}

/// Once a play is committed no tile on the board is provisional, every tile
/// shows the letter it showed, and no cell has gained or lost a tile.
pub proof fn lemma_committed(b: BoardView, values: Map<HandTile, usize>)
    requires
        b.wf(),
        b.judge(values) is Ok,
    ensures
        b.committed().wf(),
        !b.committed().has_provisional(),
        b.committed().placed == b.placed,
        forall|p: (int, int)| b.committed().square_at(p) == b.square_at(p),
        forall|p: (int, int)| b.committed().occupied(p) == b.occupied(p),
        forall|p: (int, int)|
            b.occupied(p) ==> (#[trigger] b.committed().tile_at(p))->0.tile == b.tile_at(p)->0.tile,
{
    let run = b.primary_run();
    lemma_primary_run_occupied(b);
    lemma_settled_wf(b, run);
    lemma_settled(b, run);
    let c = b.committed();
    assert forall|p: (int, int)| !c.provisional(p) by {
        assert(c.tile_at(p) == (if run.contains(p) {
            crate::play::settled_tile(b.tile_at(p))
        } else {
            b.tile_at(p)
        }));
        if !run.contains(p) && b.provisional(p) {
            assert(b.scattered(run));
        }
    }
    assert forall|p: (int, int)| b.occupied(p) implies (#[trigger] c.tile_at(p))->0.tile
        == b.tile_at(p)->0.tile by {
        assert(c.tile_at(p) == (if run.contains(p) {
            crate::play::settled_tile(b.tile_at(p))
        } else {
            b.tile_at(p)
        }));
    }
}

/// A commit right after a commit is refused as an empty play.
pub proof fn lemma_commit_twice(b: BoardView, values: Map<HandTile, usize>)
    requires
        b.wf(),
        b.judge(values) is Ok,
    ensures
        b.committed().judge(values) == Err::<int, WordPlacementError>(
            WordPlacementError::PlayedWordEmpty,
        ),
{
    lemma_committed(b, values);
}

/// A word across the played word, and any word without a provisional tile,
/// is worth the plain sum of its letters.
pub proof fn lemma_plain_score(
    b: BoardView,
    values: Map<HandTile, usize>,
    run: Seq<(int, int)>,
    primary: bool,
)
    requires
        !primary || forall|i: int| 0 <= i < run.len() ==> !b.provisional(#[trigger] run[i]),
    ensures
        b.word_product(run, primary) == 1,
        b.run_score(values, run, primary) == b.letters_sum(values, run, primary),
        run.len() == 1 ==> b.run_score(values, run, primary) == b.cell_value(values, run[0]),
    decreases run.len(),
{
    if run.len() > 0 {
        let shorter = run.drop_last();
        assert forall|i: int| 0 <= i < shorter.len() implies (!primary || !b.provisional(
            #[trigger] shorter[i],
        )) by {
            assert(shorter[i] == run[i]);
        }
        if primary {
            assert forall|i: int| 0 <= i < shorter.len() implies !b.provisional(
                #[trigger] shorter[i],
            ) by {
                assert(shorter[i] == run[i]);
            }
            assert(!b.provisional(run[run.len() - 1]));
        }
        lemma_plain_score(b, values, shorter, primary);
        if run.len() == 1 {
            assert(shorter.len() == 0);
            assert(b.letters_sum(values, shorter, primary) == 0);
        }
    }
}

/// Filling a rack never takes it past a full rack, fills it where the bag
/// lasts, and moves tiles from the bag to the rack without loss.
pub proof fn lemma_draw(hand: Seq<HandTile>, bag: Seq<HandTile>)
    ensures
        hand_after_draw(hand, bag).len() + bag_after_draw(hand, bag).len() == hand.len()
            + bag.len(),
        hand.len() <= HAND_SIZE ==> hand_after_draw(hand, bag).len() <= HAND_SIZE,
        hand.len() <= HAND_SIZE <= hand.len() + bag.len() ==> hand_after_draw(hand, bag).len()
            == HAND_SIZE,
        hand_after_draw(hand, bag).len() < HAND_SIZE ==> bag_after_draw(hand, bag).len() == 0,
        hand.len() >= HAND_SIZE ==> hand_after_draw(hand, bag) == hand && bag_after_draw(hand, bag)
            == bag,
{
    lemma_drawn_out(bag);
    if hand.len() >= HAND_SIZE {
        assert(drawn_out(bag).take(0) == Seq::<HandTile>::empty());
        assert(hand + Seq::<HandTile>::empty() == hand);
        assert(bag.take(bag.len() as int) == bag);
    }
}

/// Ending a turn keeps the game well-formed: the board stays sound and the
/// players are who they were.
pub proof fn lemma_end_turn_wf(g: GameView)
    requires
        g.wf(),
        g.state is Turn,
        g.end_turn() is Ok,
    ensures
        g.end_turn()->Ok_0.wf(),
        g.end_turn()->Ok_0.players.len() == g.players.len(),
        g.end_turn()->Ok_0.language == g.language,
        forall|i: int|
            0 <= i < g.players.len() && i != g.current() ==> g.end_turn()->Ok_0.players[i]
                == g.players[i],
        g.end_turn()->Ok_0.players[g.current()].name == g.players[g.current()].name,
{
    lemma_committed(g.board, g.language.values);
}

/// A refused play costs nothing: the outcome names the board's reason, or
/// that the mover's points would not fit.
pub proof fn lemma_end_turn_refused(g: GameView)
    requires
        g.state is Turn,
        g.end_turn() is Err,
    ensures
        g.board.judge(g.language.values) matches Err(e) ==> g.end_turn() == Err::<
            GameView,
            CrabbleError,
        >(CrabbleError::from_placement(e)),
        g.board.judge(g.language.values) is Ok ==> g.end_turn() == Err::<GameView, CrabbleError>(
            CrabbleError::ScoreOverflow,
        ),
{
}

/// An accepted play is credited to the player to move and to nobody else.
pub proof fn lemma_end_turn_credits(g: GameView)
    requires
        g.wf(),
        g.state is Turn,
        g.end_turn() is Ok,
    ensures
        g.board.judge(g.language.values) is Ok,
        g.end_turn()->Ok_0.players[g.current()].score == g.players[g.current()].score
            + g.board.judge(g.language.values)->Ok_0,
        g.end_turn()->Ok_0.board == g.board.committed(),
{
}

/// The turn passes on by one, and the last round, once begun, lasts until
/// the game is over.
pub proof fn lemma_turn_advances(g: GameView)
    requires
        g.wf(),
        g.state is Turn,
        g.state->Turn_0 < usize::MAX,
        g.end_turn() is Ok,
    ensures
        g.end_turn()->Ok_0.state matches GameState::Turn(n, last) ==> n == g.state->Turn_0 + 1 && (
        g.state->Turn_1 ==> last),
{
}

/// The last round begins exactly when a turn leaves the bag and the mover's
/// rack empty.
pub proof fn lemma_last_round_begins(g: GameView)
    requires
        g.wf(),
        g.state matches GameState::Turn(_, false),
        g.end_turn() is Ok,
    ensures
        ({
            let after = g.end_turn()->Ok_0;
            let emptied = after.bag.len() == 0 && after.players[g.current()].hand.len() == 0;
            &&& after.state matches GameState::Turn(_, last) ==> last == emptied
            &&& after.state is Done ==> emptied
        }),
{
}

/// The game is over exactly when, in the last round, the turn passes to a
/// player whose rack is empty.
pub proof fn lemma_game_over(g: GameView)
    requires
        g.wf(),
        g.state is Turn,
        g.end_turn() is Ok,
    ensures
        ({
            let after = g.end_turn()->Ok_0;
            let next = (g.state->Turn_0 + 1) % g.players.len() as int;
            let mover = after.players[g.current()];
            let last_round = g.state->Turn_1 || (after.bag.len() == 0 && mover.hand.len() == 0);
            after.state is Done <==> last_round && after.players[next].hand.len() == 0
        }),
{
}

/// With the bag empty and every rack empty, the turn that is ended ends the
/// game.
pub proof fn lemma_all_empty_ends_game(g: GameView)
    requires
        g.wf(),
        g.state is Turn,
        g.end_turn() is Ok,
        g.bag.len() == 0,
        forall|i: int| 0 <= i < g.players.len() ==> (#[trigger] g.players[i]).hand.len() == 0,
    ensures
        g.end_turn()->Ok_0.state == GameState::Done,
{
    lemma_drawn_out(g.bag);
    let cur = g.current();
    let next = (g.state->Turn_0 + 1) % g.players.len() as int;
    assert(g.players[cur].hand.len() == 0);
    assert(g.players[next].hand.len() == 0);
    assert(hand_after_draw(g.players[cur].hand, g.bag).len() == 0);
    assert(bag_after_draw(g.players[cur].hand, g.bag).len() == 0);
}

/// A tile alone on the board, newly placed on the centre square, is a legal
/// play worth twice the tile's value.
pub proof fn lemma_lone_tile_on_center(b: BoardView, values: Map<HandTile, usize>, p: (int, int))
    requires
        b.wf(),
        b.provisional(p),
        forall|q: (int, int)| q != p ==> b.tile_at(q) is None,
        b.square_at(p) == Some(crate::layout::Square::CenterSquare),
        crate::play::tile_value(values, b.tile_at(p)->0.tile) is Some,
        crate::play::fits(2 * b.cell_value(values, p)),
    ensures
        b.play_direction() == Some(Direction::Horizontal),
        b.primary_run() == seq![p],
        b.judge(values) == Ok::<int, WordPlacementError>(2 * b.cell_value(values, p)),
{
    let h = Direction::Horizontal;
    let v = Direction::Vertical;
    assert(b.has_provisional());
    assert(b.is_anchor(p));
    crate::play::lemma_anchor_exists(b);
    assert(b.anchor() == p);
    assert(b.same_column());
    assert(b.same_row());
    assert(h.shift(p, 1) != p && h.shift(p, -1) != p);
    assert(v.shift(p, 1) != p && v.shift(p, -1) != p);
    assert(b.reach_forward(p, h) == 0 && b.reach_backward(p, h) == 0);
    assert(b.reach_forward(p, v) == 0 && b.reach_backward(p, v) == 0);
    assert(h.shift(p, 0) == p);
    assert(v.shift(p, 0) == p);
    assert(b.run(p, h) =~= seq![p]);
    assert(b.run(p, v) =~= seq![p]);
    let run = b.primary_run();
    assert(run == seq![p]);
    assert(!b.scattered(run)) by {
        assert forall|q: (int, int)| b.provisional(q) implies run.contains(q) by {
            assert(q == p);
            assert(run[0] == q);
        }
    }
    assert(b.covers_center(run)) by {
        assert(b.square_at(run[0]) == Some(crate::layout::Square::CenterSquare));
    }
    assert(b.crossing(p, h) == seq![p]);
    assert(b.play_valued(values, run, h));
    let empty = Seq::<(int, int)>::empty();
    assert(run.drop_last() == empty);
    assert(run.take(0) == empty);
    assert(run.take(1) == run);
    assert(b.letters_sum(values, empty, true) == 0);
    assert(b.word_product(empty, true) == 1);
    assert(b.letters_sum(values, run, true) == b.cell_value(values, p));
    assert(b.word_product(run, true) == 2);
    assert(b.crossings_sum(values, empty, h) == 0);
    assert(b.crossings_sum(values, run, h) == 0);
    assert(b.run_fits(values, run, true)) by {
        assert forall|k: int| 0 <= k <= run.len() implies crate::play::fits(
            b.letters_sum(values, #[trigger] run.take(k), true),
        ) && crate::play::fits(b.word_product(run.take(k), true)) by {
            if k == 0 {
                assert(run.take(0) == empty);
            } else {
                assert(run.take(k) == run);
            }
        }
    }
    assert(b.play_fits(values, run, h)) by {
        assert forall|k: int| 0 <= k <= run.len() implies crate::play::fits(
            b.run_score(values, run, true) + b.crossings_sum(values, #[trigger] run.take(k), h),
        ) by {
            if k == 0 {
                assert(run.take(0) == empty);
            } else {
                assert(run.take(k) == run);
            }
        }
    }
}

} // verus!
