//! The board: a layout of squares and the tiles that lie on it.

use crate::coordinate::Coordinate;
use crate::error::WordPlacementError;
use crate::grid::{
    grid_at, grid_get, grid_has, grid_height, grid_put, grid_view, is_grid, lemma_grid_put,
    lemma_grid_put_same, Grid,
};
use crate::layout::{standard_board_layout, standard_square, BoardLayout, Square};
use crate::tile::{BoardTile, Tile};
use vstd::prelude::*;

verus! {

/// The board as mathematics: its squares, its tiles, and how many tiles were
/// ever put down on it.
pub struct BoardView {
    pub squares: Grid<Square>,
    pub tiles: Grid<Option<BoardTile>>,
    pub placed: nat,
}

/// The number of tiles in a column.
pub open spec fn column_count(col: Seq<Option<BoardTile>>) -> nat
    decreases col.len(),
{
    if col.len() == 0 {
        0
    } else {
        column_count(col.drop_last()) + (if col.last() is Some {
            1nat
        } else {
            0nat
        })
    }
}

/// The number of tiles on a grid.
pub open spec fn tiles_count(g: Grid<Option<BoardTile>>) -> nat
    decreases g.len(),
{
    if g.len() == 0 {
        0
    } else {
        tiles_count(g.drop_last()) + column_count(g.last())
    }
}

impl BoardView {
    /// The number of columns.
    pub open spec fn width(self) -> nat {
        self.squares.len()
    }

    /// The number of rows.
    pub open spec fn height(self) -> nat {
        grid_height(self.squares)
    }

    /// The tiles cover the layout cell for cell, and the counter equals the
    /// number of tiles on the board.
    pub open spec fn wf(self) -> bool {
        &&& is_grid(self.squares)
        &&& is_grid(self.tiles)
        &&& self.tiles.len() == self.squares.len()
        &&& grid_height(self.tiles) == grid_height(self.squares)
        &&& self.placed == tiles_count(self.tiles)
    }

    /// Whether `p` lies on the board.
    pub open spec fn in_bounds(self, p: (int, int)) -> bool {
        grid_has(self.squares, p)
    }

    /// The square at `p`, if `p` lies on the board.
    pub open spec fn square_at(self, p: (int, int)) -> Option<Square> {
        grid_at(self.squares, p)
    }

    /// The tile at `p`; none off the board or on a free cell.
    pub open spec fn tile_at(self, p: (int, int)) -> Option<BoardTile> {
        match grid_at(self.tiles, p) {
            Some(t) => t,
            None => None,
        }
    }

    /// Whether the cell at `p` holds a tile.
    pub open spec fn occupied(self, p: (int, int)) -> bool {
        self.tile_at(p) is Some
    }

    /// Whether the cell at `p` holds a tile of the play in progress.
    pub open spec fn provisional(self, p: (int, int)) -> bool {
        self.tile_at(p) matches Some(t) && t.is_provisional
    }

    /// The board with the cell at `p` holding `t`, counted as one more tile
    /// if the cell was free.
    pub open spec fn with_tile(self, p: (int, int), t: BoardTile) -> BoardView {
        BoardView {
            tiles: grid_put(self.tiles, p, Some(t)),
            placed: if self.occupied(p) {
                self.placed
            } else {
                self.placed + 1
            },
            ..self
        }
    }

    /// What putting `tile` down at `p` does: the board with the tile on it,
    /// provisional and counted, or the reason why it cannot lie there.
    pub open spec fn place(self, tile: Tile, p: (int, int)) -> Result<
        BoardView,
        WordPlacementError,
    > {
        if !self.in_bounds(p) {
            Err(WordPlacementError::TileOutOufBounds)
        } else if self.occupied(p) {
            Err(WordPlacementError::TileOccupied)
        } else {
            Ok(self.with_tile(p, BoardTile { tile, is_provisional: true }))
        }
    }

    /// A board of the given layout with no tile on it.
    pub open spec fn is_empty_over(self, squares: Grid<Square>) -> bool {
        &&& self.wf()
        &&& self.squares == squares
        &&& self.placed == 0
        &&& forall|p: (int, int)| self.tile_at(p) is None
    }
}

/// A column holds no more tiles than it has cells.
pub proof fn lemma_column_count_bound(col: Seq<Option<BoardTile>>)
    ensures
        column_count(col) <= col.len(),
    decreases col.len(),
{
    if col.len() > 0 {
        lemma_column_count_bound(col.drop_last());
    }
}

/// A column of free cells holds no tile.
pub proof fn lemma_column_count_free(col: Seq<Option<BoardTile>>)
    requires
        forall|y: int| 0 <= y < col.len() ==> col[y] is None,
    ensures
        column_count(col) == 0,
    decreases col.len(),
{
    if col.len() > 0 {
        lemma_column_count_free(col.drop_last());
    }
}

/// Putting a tile on a free cell of a column adds one to its count; replacing
/// a tile by a tile keeps it.
pub proof fn lemma_column_count_update(col: Seq<Option<BoardTile>>, y: int, t: BoardTile)
    requires
        0 <= y < col.len(),
    ensures
        column_count(col.update(y, Some(t))) == column_count(col) + (if col[y] is Some {
            0nat
        } else {
            1nat
        }),
    decreases col.len(),
{
    let new = col.update(y, Some(t));
    if y == col.len() - 1 {
        assert(new.drop_last() == col.drop_last());
    } else {
        assert(new.drop_last() == col.drop_last().update(y, Some(t)));
        lemma_column_count_update(col.drop_last(), y, t);
    }
}

/// A grid whose columns have `h` cells holds at most `h` tiles per column.
pub proof fn lemma_tiles_count_bound(g: Grid<Option<BoardTile>>, h: nat)
    requires
        forall|x: int| 0 <= x < g.len() ==> (#[trigger] g[x]).len() == h,
    ensures
        tiles_count(g) <= g.len() * h,
    decreases g.len(),
{
    if g.len() > 0 {
        lemma_tiles_count_bound(g.drop_last(), h);
        lemma_column_count_bound(g.last());
        assert(g.len() * h == (g.len() - 1) * h + h) by (nonlinear_arith);
    } else {
        assert(g.len() * h == 0) by (nonlinear_arith)
            requires
                g.len() == 0,
        ;
    }
}

/// A grid of free cells holds no tile.
pub proof fn lemma_tiles_count_free(g: Grid<Option<BoardTile>>)
    requires
        forall|x: int, y: int| 0 <= x < g.len() && 0 <= y < g[x].len() ==> (#[trigger] g[x][y]) is None,
    ensures
        tiles_count(g) == 0,
    decreases g.len(),
{
    if g.len() > 0 {
        lemma_tiles_count_free(g.drop_last());
        lemma_column_count_free(g.last());
    }
}

/// Replacing a column changes the grid's count by the difference of the
/// column's counts.
pub proof fn lemma_tiles_count_update(g: Grid<Option<BoardTile>>, x: int, col: Seq<Option<BoardTile>>)
    requires
        0 <= x < g.len(),
    ensures
        tiles_count(g.update(x, col)) + column_count(g[x]) == tiles_count(g) + column_count(col),
    decreases g.len(),
{
    let new = g.update(x, col);
    if x == g.len() - 1 {
        assert(new.drop_last() == g.drop_last());
    } else {
        assert(new.drop_last() == g.drop_last().update(x, col));
        lemma_tiles_count_update(g.drop_last(), x, col);
    }
}

/// Putting a tile on a cell of a well-formed board gives a well-formed board
/// that differs in that cell alone, and whose count still fits the machine.
pub proof fn lemma_with_tile(b: BoardView, p: (int, int), t: BoardTile)
    requires
        b.wf(),
        b.in_bounds(p),
    ensures
        b.with_tile(p, t).wf(),
        b.with_tile(p, t).tile_at(p) == Some(t),
        forall|q: (int, int)| q != p ==> b.with_tile(p, t).tile_at(q) == b.tile_at(q),
        forall|q: (int, int)| b.with_tile(p, t).square_at(q) == b.square_at(q),
        b.with_tile(p, t).placed <= usize::MAX,
{
    lemma_grid_put(b.tiles, p, Some(t));
    let new = b.with_tile(p, t);
    lemma_column_count_update(b.tiles[p.0], p.1, t);
    lemma_tiles_count_update(b.tiles, p.0, b.tiles[p.0].update(p.1, Some(t)));
    assert(new.tiles == b.tiles.update(p.0, b.tiles[p.0].update(p.1, Some(t))));
    lemma_tiles_count_bound(new.tiles, grid_height(new.tiles));
    assert forall|q: (int, int)| q != p implies new.tile_at(q) == b.tile_at(q) by {
        assert(grid_at(new.tiles, q) == grid_at(b.tiles, q));
    }
}

/// A board in play.
#[derive(Clone, Debug)]
pub struct Board {
    layout: BoardLayout,
    tiles: Vec<Vec<Option<BoardTile>>>,
    provisionary_tiles_count: usize,
}

impl View for Board {
    type V = BoardView;

    closed spec fn view(&self) -> BoardView {
        BoardView {
            squares: self.layout@,
            tiles: grid_view(self.tiles),
            placed: self.provisionary_tiles_count as nat,
        }
    }
}

impl Board {
    /// The board is well-formed: see `BoardView::wf`.
    pub open spec fn wf(&self) -> bool {
        self@.wf()
    }

    /// An empty board over `layout`.
    pub fn from_layout(layout: BoardLayout) -> (board: Board)
        requires
            layout.wf(),
        ensures
            board@.is_empty_over(layout@),
    {
        let (width, height) = layout.dimensions();
        let mut tiles: Vec<Vec<Option<BoardTile>>> = Vec::new();
        let mut x: usize = 0;
        while x < width
            invariant
                x <= width,
                tiles@.len() == x,
                forall|i: int| 0 <= i < x ==> (#[trigger] tiles@[i])@.len() == height,
                forall|i: int, j: int|
                    0 <= i < x && 0 <= j < height ==> (#[trigger] tiles@[i]@[j]) is None,
            decreases width - x,
        {
            let mut col: Vec<Option<BoardTile>> = Vec::new();
            let mut y: usize = 0;
            while y < height
                invariant
                    y <= height,
                    col@.len() == y,
                    forall|j: int| 0 <= j < y ==> (#[trigger] col@[j]) is None,
                decreases height - y,
            {
                col.push(None);
                y += 1;
            }
            tiles.push(col);
            x += 1;
        }
        let board = Board { layout, tiles, provisionary_tiles_count: 0 };
        proof {
            let g = board@.tiles;
            assert forall|i: int| 0 <= i < g.len() implies (#[trigger] g[i]).len() == grid_height(
                g,
            ) by {
                assert(board.tiles@[i]@.len() == height);
                assert(board.tiles@[0]@.len() == height);
            }
            if width > 0 {
                assert(g[0].len() == height);
            }
            assert forall|i: int, j: int| 0 <= i < g.len() && 0 <= j < g[i].len() implies (
            #[trigger] g[i][j]) is None by {
                assert(board.tiles@[i]@[j] is None);
            }
            lemma_tiles_count_free(g);
        }
        board
    }

    /// An empty board over the standard layout of 15 columns and 15 rows.
    pub fn new() -> (board: Board)
        ensures
            board.wf(),
            board@.placed == 0,
            board@.width() == 15,
            board@.height() == 15,
            forall|p: (int, int)| board@.tile_at(p) is None,
            forall|p: (int, int)|
                board@.in_bounds(p) ==> board@.square_at(p) == Some(standard_square(p)),
    {
        let layout = BoardLayout::from_fn((15, 15), standard_board_layout);
        proof {
            assert forall|p: (int, int)| grid_has(layout@, p) implies grid_at(layout@, p) == Some(
                standard_square(p),
            ) by {
                let c = Coordinate { x: p.0 as isize, y: p.1 as isize };
                assert(call_ensures(standard_board_layout, (c,), layout@[c.x as int][c.y as int]));
            }
        }
        Board::from_layout(layout)
    }

    /// The square at `coord`, if `coord` lies on the board.
    pub fn get_square(&self, coord: Coordinate) -> (s: Option<Square>)
        requires
            self.wf(),
        ensures
            s == self@.square_at(coord.pos()),
    {
        self.layout.get(coord)
    }

    /// The tile at `coord`; none off the board or on a free cell.
    pub fn get_tile(&self, coord: Coordinate) -> (t: Option<BoardTile>)
        requires
            self.wf(),
        ensures
            t == self@.tile_at(coord.pos()),
    {
        match grid_get(&self.tiles, coord) {
            Some(t) => t,
            None => None,
        }
    }

    /// The numbers of columns and rows.
    pub fn dimensions(&self) -> (d: (usize, usize))
        requires
            self.wf(),
        ensures
            d.0 == self@.width(),
            d.1 == self@.height(),
    {
        self.layout.dimensions()
    }

    /// The cell at `coord`, to be written to; none off the board. Whoever
    /// writes to the cell has to keep the count of tiles in step.
    fn get_tile_mut(&mut self, coord: Coordinate) -> (r: Option<&mut Option<BoardTile>>)
        requires
            old(self).wf(),
        ensures
            match r {
                Some(cell) => {
                    &&& old(self)@.in_bounds(coord.pos())
                    &&& *cell == old(self)@.tile_at(coord.pos())
                    &&& final(self)@.tiles =~~= grid_put(
                        old(self)@.tiles,
                        coord.pos(),
                        *final(cell),
                    )
                    &&& final(self)@.squares == old(self)@.squares
                    &&& final(self)@.placed == old(self)@.placed
                },
                None => !old(self)@.in_bounds(coord.pos()) && *final(self) == *old(self),
            },
    {
        if coord.x < 0 || coord.y < 0 {
            return None;
        }
        let x: usize = coord.x as usize;
        let y: usize = coord.y as usize;
        if x >= self.tiles.len() {
            return None;
        }
        assert(grid_view(self.tiles)[x as int].len() == grid_height(grid_view(self.tiles)));
        if y >= self.tiles[x].len() {
            return None;
        }
        let cell = &mut self.tiles[x][y];
        Some(cell)
    }

    /// Makes the tile at `coord` permanent.
    pub(crate) fn settle(&mut self, coord: Coordinate)
        requires
            old(self).wf(),
            old(self)@.occupied(coord.pos()),
        ensures
            final(self).wf(),
            final(self)@ == old(self)@.with_tile(
                coord.pos(),
                old(self)@.tile_at(coord.pos()).unwrap().permanent(),
            ),
    {
        let ghost before = self@;
        match self.get_tile_mut(coord) {
            Some(cell) => match cell {
                Some(tile) => {
                    proof {
                        lemma_with_tile(before, coord.pos(), tile.permanent());
                    }
                    tile.is_provisional = false;
                },
                None => {},
            },
            None => {},
        }
    }

    /// Puts `tile` down at `coord` as part of the play in progress. Fails, and
    /// leaves the board as it was, off the board and on a cell that holds a
    /// tile.
    pub fn place(&mut self, tile: Tile, coord: Coordinate) -> (r: Result<(), WordPlacementError>)
        requires
            old(self).wf(),
        ensures
            final(self).wf(),
            match old(self)@.place(tile, coord.pos()) {
                Ok(b) => r is Ok && final(self)@ == b,
                Err(e) => r == Err::<(), WordPlacementError>(e) && final(self)@ == old(self)@,
            },
            r is Ok ==> final(self)@.tile_at(coord.pos()) == Some(
                BoardTile { tile, is_provisional: true },
            ),
            forall|q: (int, int)|
                q != coord.pos() ==> final(self)@.tile_at(q) == old(self)@.tile_at(q),
            forall|q: (int, int)| final(self)@.square_at(q) == old(self)@.square_at(q),
    {
        let ghost before = self@;
        let t = BoardTile { tile, is_provisional: true };
        match self.get_tile_mut(coord) {
            None => Err(WordPlacementError::TileOutOufBounds),
            Some(cell) => {
                if cell.is_some() {
                    proof {
                        assert(grid_put(before.tiles, coord.pos(), *cell) =~~= before.tiles) by {
                            lemma_grid_put_same(before.tiles, coord.pos());
                        }
                    }
                    return Err(WordPlacementError::TileOccupied);
                }
                proof {
                    lemma_with_tile(before, coord.pos(), t);
                }
                *cell = Some(t);
                self.provisionary_tiles_count = self.provisionary_tiles_count + 1;
                Ok(())
            },
        }
    }
}

} // verus!
