//! Rectangular grids addressed by column and row, the shape shared by a
//! layout's squares and a board's tiles.

use crate::coordinate::Coordinate;
use vstd::prelude::*;

verus! {

/// A grid as a sequence of columns: `g[x][y]` is the cell in column `x`, row `y`.
pub type Grid<T> = Seq<Seq<T>>;

/// The columns of a vector of vectors, each taken by its view.
pub open spec fn grid_view<T>(g: Vec<Vec<T>>) -> Grid<T> {
    Seq::new(g@.len(), |x: int| g@[x]@)
}

/// The number of rows: the length of the first column, or none without columns.
pub open spec fn grid_height<T>(g: Grid<T>) -> nat {
    if g.len() > 0 {
        g[0].len()
    } else {
        0
    }
}

/// Every column has the same length, every cell has a `Coordinate`, and the
/// number of cells fits the machine.
pub open spec fn is_grid<T>(g: Grid<T>) -> bool {
    &&& forall|x: int| 0 <= x < g.len() ==> (#[trigger] g[x]).len() == grid_height(g)
    &&& g.len() <= isize::MAX
    &&& grid_height(g) <= isize::MAX
    &&& g.len() * grid_height(g) <= usize::MAX
}

/// Whether `p` addresses a cell of the grid.
pub open spec fn grid_has<T>(g: Grid<T>, p: (int, int)) -> bool {
    0 <= p.0 < g.len() && 0 <= p.1 < grid_height(g)
}

/// The cell at `p`, if `p` lies within the grid.
pub open spec fn grid_at<T>(g: Grid<T>, p: (int, int)) -> Option<T> {
    if grid_has(g, p) {
        Some(g[p.0][p.1])
    } else {
        None
    }
}

/// The grid with the cell at `p` replaced.
pub open spec fn grid_put<T>(g: Grid<T>, p: (int, int), value: T) -> Grid<T> {
    g.update(p.0, g[p.0].update(p.1, value))
}

/// Replacing a cell of a grid leaves its shape and every other cell alone.
pub proof fn lemma_grid_put<T>(g: Grid<T>, p: (int, int), value: T)
    requires
        is_grid(g),
        grid_has(g, p),
    ensures
        is_grid(grid_put(g, p, value)),
        grid_put(g, p, value).len() == g.len(),
        grid_height(grid_put(g, p, value)) == grid_height(g),
        grid_at(grid_put(g, p, value), p) == Some(value),
        forall|q: (int, int)| q != p ==> grid_at(grid_put(g, p, value), q) == grid_at(g, q),
{
    let h = grid_put(g, p, value);
    assert(h[0].len() == g[0].len());
    assert forall|x: int| 0 <= x < h.len() implies (#[trigger] h[x]).len() == grid_height(h) by {
        assert(g[x].len() == grid_height(g));
    }
    assert forall|q: (int, int)| q != p implies grid_at(h, q) == grid_at(g, q) by {
        if grid_has(g, q) {
            if q.0 == p.0 {
                assert(h[q.0][q.1] == g[q.0][q.1]);
            } else {
                assert(h[q.0] == g[q.0]);
            }
        }
    }
}

/// Replacing a cell by what it holds changes nothing.
pub proof fn lemma_grid_put_same<T>(g: Grid<T>, p: (int, int))
    requires
        is_grid(g),
        grid_has(g, p),
    ensures
        grid_put(g, p, g[p.0][p.1]) =~~= g,
{
    assert(g[p.0].len() == grid_height(g));
    assert(g[p.0].update(p.1, g[p.0][p.1]) =~= g[p.0]);
}

/// Reads the cell at `c`, if `c` lies within the grid.
pub fn grid_get<T: Copy>(g: &Vec<Vec<T>>, c: Coordinate) -> (r: Option<T>)
    requires
        is_grid(grid_view(*g)),
    ensures
        r == grid_at(grid_view(*g), c.pos()),
{
    if c.x < 0 || c.y < 0 {
        return None;
    }
    let x: usize = c.x as usize;
    let y: usize = c.y as usize;
    if x >= g.len() {
        return None;
    }
    assert(grid_view(*g)[x as int].len() == grid_height(grid_view(*g)));
    if y >= g[x].len() {
        return None;
    }
    Some(g[x][y])
}

} // verus!
