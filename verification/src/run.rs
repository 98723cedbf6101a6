//! Runs: the maximal stretches of tiles through a cell along one axis.

use crate::board::{Board, BoardView};
use crate::coordinate::{Coordinate, Direction};
use vstd::prelude::*;

verus! {

/// The cells of a sequence of coordinates, as pairs of integers.
pub open spec fn cells(s: Seq<Coordinate>) -> Seq<(int, int)> {
    s.map_values(|c: Coordinate| c.pos())
}

impl BoardView {
    /// How many cells in a row hold a tile, counted from the cell after `p`
    /// along `dir`.
    pub open spec fn reach_forward(self, p: (int, int), dir: Direction) -> nat
        decreases
            (match dir {
                Direction::Horizontal => self.tiles.len() - p.0,
                Direction::Vertical => crate::grid::grid_height(self.tiles) - p.1,
            }),
    {
        if self.occupied(dir.shift(p, 1)) {
            1 + self.reach_forward(dir.shift(p, 1), dir)
        } else {
            0
        }
    }

    /// How many cells in a row hold a tile, counted from the cell before `p`
    /// against `dir`.
    pub open spec fn reach_backward(self, p: (int, int), dir: Direction) -> nat
        decreases
            (match dir {
                Direction::Horizontal => p.0 + 1,
                Direction::Vertical => p.1 + 1,
            }),
    {
        if self.occupied(dir.shift(p, -1)) {
            1 + self.reach_backward(dir.shift(p, -1), dir)
        } else {
            0
        }
    }

    /// The first cell from `p` on along `dir` that holds no tile.
    pub open spec fn next_free(self, p: (int, int), dir: Direction) -> (int, int) {
        if self.occupied(p) {
            dir.shift(p, self.reach_forward(p, dir) as int + 1)
        } else {
            p
        }
    }

    /// The first cell of the run through `p`.
    pub open spec fn run_start(self, p: (int, int), dir: Direction) -> (int, int) {
        dir.shift(p, -(self.reach_backward(p, dir) as int))
    }

    /// The number of cells of the run through `p`: `p` itself and the tiles
    /// that adjoin it on either side.
    pub open spec fn run_len(self, p: (int, int), dir: Direction) -> nat {
        self.reach_backward(p, dir) + 1 + self.reach_forward(p, dir)
    }

    /// The run through `p` along `dir`, first cell first.
    pub open spec fn run(self, p: (int, int), dir: Direction) -> Seq<(int, int)> {
        Seq::new(self.run_len(p, dir), |i: int| dir.shift(self.run_start(p, dir), i))
    }
}

/// The cells counted by `reach_forward` hold tiles, and the cell after them
/// does not.
pub proof fn lemma_reach_forward(b: BoardView, p: (int, int), dir: Direction)
    ensures
        forall|k: int| 1 <= k <= b.reach_forward(p, dir) ==> b.occupied(#[trigger] dir.shift(p, k)),
        !b.occupied(dir.shift(p, b.reach_forward(p, dir) as int + 1)),
    decreases b.reach_forward(p, dir),
{
    if b.occupied(dir.shift(p, 1)) {
        let q = dir.shift(p, 1);
        lemma_reach_forward(b, q, dir);
        assert forall|k: int| 1 <= k <= b.reach_forward(p, dir) implies b.occupied(
            #[trigger] dir.shift(p, k),
        ) by {
            if k > 1 {
                assert(dir.shift(p, k) == dir.shift(q, k - 1));
            }
        }
        assert(dir.shift(p, b.reach_forward(p, dir) as int + 1) == dir.shift(
            q,
            b.reach_forward(q, dir) as int + 1,
        ));
    }
}

/// The cells counted by `reach_backward` hold tiles, and the cell before them
/// does not.
pub proof fn lemma_reach_backward(b: BoardView, p: (int, int), dir: Direction)
    ensures
        forall|k: int|
            1 <= k <= b.reach_backward(p, dir) ==> b.occupied(#[trigger] dir.shift(p, -k)),
        !b.occupied(dir.shift(p, -(b.reach_backward(p, dir) + 1))),
    decreases b.reach_backward(p, dir),
{
    if b.occupied(dir.shift(p, -1)) {
        let q = dir.shift(p, -1);
        lemma_reach_backward(b, q, dir);
        assert forall|k: int| 1 <= k <= b.reach_backward(p, dir) implies b.occupied(
            #[trigger] dir.shift(p, -k),
        ) by {
            if k > 1 {
                assert(dir.shift(p, -k) == dir.shift(q, -(k - 1)));
            }
        }
        assert(dir.shift(p, -(b.reach_backward(p, dir) + 1)) == dir.shift(
            q,
            -(b.reach_backward(q, dir) + 1),
        ));
    }
}

/// A stretch of `n` tiles after `p`, followed by a cell without a tile, is
/// what `reach_forward` counts.
pub proof fn lemma_reach_forward_is(b: BoardView, p: (int, int), dir: Direction, n: nat)
    requires
        forall|k: int| 1 <= k <= n ==> b.occupied(#[trigger] dir.shift(p, k)),
        !b.occupied(dir.shift(p, n as int + 1)),
    ensures
        b.reach_forward(p, dir) == n,
    decreases n,
{
    if n > 0 {
        let q = dir.shift(p, 1);
        assert(b.occupied(q));
        assert forall|k: int| 1 <= k <= n - 1 implies b.occupied(#[trigger] dir.shift(q, k)) by {
            assert(dir.shift(q, k) == dir.shift(p, k + 1));
        }
        assert(dir.shift(q, (n - 1) + 1) == dir.shift(p, n as int + 1));
        lemma_reach_forward_is(b, q, dir, (n - 1) as nat);
    }
}

/// A stretch of `n` tiles before `p`, preceded by a cell without a tile, is
/// what `reach_backward` counts.
pub proof fn lemma_reach_backward_is(b: BoardView, p: (int, int), dir: Direction, n: nat)
    requires
        forall|k: int| 1 <= k <= n ==> b.occupied(#[trigger] dir.shift(p, -k)),
        !b.occupied(dir.shift(p, -(n + 1))),
    ensures
        b.reach_backward(p, dir) == n,
    decreases n,
{
    if n > 0 {
        let q = dir.shift(p, -1);
        assert(b.occupied(q));
        assert forall|k: int| 1 <= k <= n - 1 implies b.occupied(#[trigger] dir.shift(q, -k)) by {
            assert(dir.shift(q, -k) == dir.shift(p, -(k + 1)));
        }
        assert(dir.shift(q, -((n - 1) + 1)) == dir.shift(p, -(n + 1)));
        lemma_reach_backward_is(b, q, dir, (n - 1) as nat);
    }
}

/// The run through `p` is a stretch of adjoining cells that holds `p`; each
/// of its cells but perhaps `p` holds a tile; and the cells before its first
/// and after its last hold none.
pub proof fn lemma_run_is_maximal(b: BoardView, p: (int, int), dir: Direction)
    ensures
        b.run(p, dir).len() >= 1,
        b.run(p, dir)[b.reach_backward(p, dir) as int] == p,
        forall|i: int|
            0 <= i < b.run(p, dir).len() ==> #[trigger] b.run(p, dir)[i] == dir.shift(
                b.run(p, dir)[0],
                i,
            ),
        forall|i: int|
            0 <= i < b.run(p, dir).len() && b.run(p, dir)[i] != p ==> b.occupied(
                #[trigger] b.run(p, dir)[i],
            ),
        !b.occupied(dir.shift(b.run(p, dir)[0], -1)),
        !b.occupied(dir.shift(b.run(p, dir).last(), 1)),
{
    lemma_reach_forward(b, p, dir);
    lemma_reach_backward(b, p, dir);
    let back = b.reach_backward(p, dir) as int;
    let fwd = b.reach_forward(p, dir) as int;
    let run = b.run(p, dir);
    let start = b.run_start(p, dir);
    assert(run[0] == start);
    assert forall|i: int| 0 <= i < run.len() && run[i] != p implies b.occupied(
        #[trigger] run[i],
    ) by {
        if i < back {
            assert(run[i] == dir.shift(p, -(back - i)));
        } else {
            assert(run[i] == dir.shift(p, i - back));
        }
    }
    assert(dir.shift(run[0], -1) == dir.shift(p, -(back + 1)));
    assert(dir.shift(run.last(), 1) == dir.shift(p, fwd as int + 1));
}

/// A stretch of adjoining cells through `p`, with tiles on `before` cells
/// before `p` and on `after` cells after it and with no tile on the cell at
/// either end, is the run through `p`.
pub proof fn lemma_run_unique(b: BoardView, p: (int, int), dir: Direction, before: nat, after: nat)
    requires
        forall|k: int| 1 <= k <= before ==> b.occupied(#[trigger] dir.shift(p, -k)),
        forall|k: int| 1 <= k <= after ==> b.occupied(#[trigger] dir.shift(p, k)),
        !b.occupied(dir.shift(p, -(before + 1))),
        !b.occupied(dir.shift(p, after as int + 1)),
    ensures
        b.reach_backward(p, dir) == before,
        b.reach_forward(p, dir) == after,
        b.run(p, dir) == Seq::new(before + 1 + after, |i: int| dir.shift(p, i - before)),
{
    lemma_reach_backward_is(b, p, dir, before);
    lemma_reach_forward_is(b, p, dir, after);
    assert(b.run(p, dir) =~= Seq::new(before + 1 + after, |i: int| dir.shift(p, i - before)));
}

/// The run through a tile is the run through each of its tiles.
pub proof fn lemma_run_shared(b: BoardView, p: (int, int), dir: Direction, i: int)
    requires
        b.occupied(p),
        0 <= i < b.run(p, dir).len(),
    ensures
        b.run(b.run(p, dir)[i], dir) == b.run(p, dir),
{
    lemma_run_is_maximal(b, p, dir);
    let run = b.run(p, dir);
    let back = b.reach_backward(p, dir) as int;
    let q = run[i];
    let n = run.len() as int;
    assert(run[back] == p);
    assert forall|k: int| 1 <= k <= i implies b.occupied(#[trigger] dir.shift(q, -k)) by {
        assert(dir.shift(q, -k) == run[i - k]);
    }
    assert forall|k: int| 1 <= k <= n - 1 - i implies b.occupied(#[trigger] dir.shift(q, k)) by {
        assert(dir.shift(q, k) == run[i + k]);
    }
    assert(dir.shift(q, -(i + 1)) == dir.shift(run[0], -1));
    assert(dir.shift(q, (n - 1 - i) + 1) == dir.shift(run.last(), 1));
    lemma_run_unique(b, q, dir, i as nat, (n - 1 - i) as nat);
    assert(b.run(q, dir) =~= run);
}

/// A cell that holds a tile has a run in which every cell holds a tile.
pub proof fn lemma_run_occupied(b: BoardView, p: (int, int), dir: Direction)
    requires
        b.occupied(p),
    ensures
        forall|i: int| 0 <= i < b.run(p, dir).len() ==> b.occupied(#[trigger] b.run(p, dir)[i]),
{
    lemma_run_is_maximal(b, p, dir);
}

/// A run on a well-formed board lies on the board, but perhaps for the cell
/// it was asked for.
pub proof fn lemma_run_in_bounds(b: BoardView, p: (int, int), dir: Direction)
    requires
        b.wf(),
    ensures
        forall|i: int|
            0 <= i < b.run(p, dir).len() && b.run(p, dir)[i] != p ==> b.in_bounds(
                #[trigger] b.run(p, dir)[i],
            ),
        b.in_bounds(p) ==> b.run(p, dir).len() <= (match dir {
            Direction::Horizontal => b.width(),
            Direction::Vertical => b.height(),
        }),
{
    lemma_run_is_maximal(b, p, dir);
    let run = b.run(p, dir);
    if b.in_bounds(p) {
        let back = b.reach_backward(p, dir) as int;
        let last = run.len() - 1;
        assert(run[back] == p);
        if back > 0 {
            assert(b.occupied(run[0]));
        }
        if last > back {
            assert(b.occupied(run[last]));
        }
        assert(b.in_bounds(run[0]));
        assert(b.in_bounds(run[last]));
        assert(run[last] == dir.shift(run[0], last));
    }
}

impl Board {
    /// Whether the cell `k` steps from `coord` along `dir` holds a tile, for
    /// `k` one or minus one.
    fn neighbour_occupied(&self, coord: Coordinate, dir: Direction, forward: bool) -> (r: bool)
        requires
            self.wf(),
        ensures
            r == self@.occupied(
                dir.shift(
                    coord.pos(),
                    if forward {
                        1int
                    } else {
                        -1int
                    },
                ),
            ),
    {
        let offset = dir.to_offset();
        if forward {
            if coord.x == isize::MAX || coord.y == isize::MAX {
                return false;
            }
            self.get_tile(coord + offset).is_some()
        } else {
            if coord.x <= 0 && coord.y <= 0 {
                // stepping back leaves the board on either axis
                return false;
            }
            if coord.x == isize::MIN || coord.y == isize::MIN {
                return false;
            }
            self.get_tile(coord - offset).is_some()
        }
    }

    /// The run through `coord` along `dir`: `coord` itself together with the
    /// tiles that adjoin it in an unbroken line on either side, first cell
    /// first.
    pub fn find_range(&self, coord: Coordinate, dir: Direction) -> (range: Vec<Coordinate>)
        requires
            self.wf(),
        ensures
            cells(range@) == self@.run(coord.pos(), dir),
    {
        let offset = dir.to_offset();
        let mut range_begin = coord;
        let mut range_end = coord;
        let ghost p = coord.pos();
        let ghost mut fwd: nat = 0;
        let ghost mut back: nat = 0;

        while self.neighbour_occupied(range_end, dir, true)
            invariant
                self.wf(),
                offset.pos() == dir.step(),
                range_end.pos() == dir.shift(p, fwd as int),
                forall|k: int| 1 <= k <= fwd ==> self@.occupied(#[trigger] dir.shift(p, k)),
            ensures
                !self@.occupied(dir.shift(p, fwd as int + 1)),
            decreases
                    (match dir {
                        Direction::Horizontal => self@.tiles.len() - range_end.x,
                        Direction::Vertical => crate::grid::grid_height(self@.tiles) - range_end.y,
                    }),
        {
            proof {
                assert(dir.shift(range_end.pos(), 1) == dir.shift(p, fwd as int + 1));
                fwd = fwd + 1;
            }
            range_end = range_end + offset;
        }

        while self.neighbour_occupied(range_begin, dir, false)
            invariant
                self.wf(),
                offset.pos() == dir.step(),
                range_begin.pos() == dir.shift(p, -(back as int)),
                forall|k: int| 1 <= k <= back ==> self@.occupied(#[trigger] dir.shift(p, -k)),
            ensures
                !self@.occupied(dir.shift(p, -(back + 1))),
            decreases
                    (match dir {
                        Direction::Horizontal => range_begin.x + 1,
                        Direction::Vertical => range_begin.y + 1,
                    }),
        {
            proof {
                assert(dir.shift(range_begin.pos(), -1) == dir.shift(p, -(back + 1)));
                back = back + 1;
            }
            range_begin = range_begin - offset;
        }

        proof {
            lemma_reach_forward_is(self@, p, dir, fwd);
            lemma_reach_backward_is(self@, p, dir, back);
        }
        let ghost start = range_begin.pos();
        let ghost len = back + 1 + fwd;
        let mut range: Vec<Coordinate> = Vec::new();
        let mut current = range_begin;
        loop
            invariant_except_break
                range@.len() < len,
                current.pos() == dir.shift(start, range@.len() as int),
            invariant
                offset.pos() == dir.step(),
                range_end.pos() == dir.shift(start, len - 1),
                forall|i: int| 0 <= i < range@.len() ==> (#[trigger] range@[i]).pos() == dir.shift(
                    start,
                    i,
                ),
            ensures
                range@.len() == len,
                forall|i: int| 0 <= i < range@.len() ==> (#[trigger] range@[i]).pos() == dir.shift(
                    start,
                    i,
                ),
            decreases len - range@.len(),
        {
            range.push(current);
            let done = match dir {
                Direction::Horizontal => current.x >= range_end.x,
                Direction::Vertical => current.y >= range_end.y,
            };
            if done {
                break ;
            }
            current = current + offset;
        }
        proof {
            assert(cells(range@) =~= self@.run(p, dir));
        }
        range
    }

    /// The first cell from `coord` on along `dir` that holds no tile. It may
    /// lie just off the board.
    pub fn skip_tiles(&self, coord: Coordinate, dir: Direction) -> (free: Coordinate)
        requires
            self.wf(),
        ensures
            free.pos() == self@.next_free(coord.pos(), dir),
    {
        let offset = dir.to_offset();
        let ghost p = coord.pos();
        let ghost mut k: nat = 0;
        let mut current = coord;
        while self.get_tile(current).is_some()
            invariant
                self.wf(),
                offset.pos() == dir.step(),
                current.pos() == dir.shift(p, k as int),
                forall|m: int| 0 <= m < k ==> self@.occupied(#[trigger] dir.shift(p, m)),
            decreases
                    (match dir {
                        Direction::Horizontal => self@.tiles.len() - current.x,
                        Direction::Vertical => crate::grid::grid_height(self@.tiles) - current.y,
                    }),
        {
            proof {
                k = k + 1;
            }
            current = current + offset;
        }
        proof {
            if k > 0 {
                assert(dir.shift(p, 0) == p);
                assert forall|m: int| 1 <= m <= k - 1 implies self@.occupied(
                    #[trigger] dir.shift(p, m),
                ) by {}
                lemma_reach_forward_is(self@, p, dir, (k - 1) as nat);
            } else {
                assert(dir.shift(p, 0) == p);
            }
        }
        current
    }
}

} // verus!
