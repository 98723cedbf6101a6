//! Premium squares and the layout of a board.

use crate::coordinate::Coordinate;
use crate::grid::{grid_at, grid_get, grid_height, grid_view, is_grid, Grid};
use vstd::prelude::*;

verus! {

/// What a cell of the board grants to a tile played on it.
#[derive(Copy, Clone, Debug, PartialEq, Eq, Structural)]
pub enum Square {
    Empty,
    CenterSquare,
    LetterMultiplier(i8),
    WordMultiplier(i8),
}

/// The premium squares of a board, fixed once built.
#[derive(Clone, Debug)]
pub struct BoardLayout {
    squares: Vec<Vec<Square>>,
}

impl View for BoardLayout {
    type V = Grid<Square>;

    closed spec fn view(&self) -> Grid<Square> {
        grid_view(self.squares)
    }
}

/// Reflects a line index of the standard board into its first half.
pub open spec fn fold_index(v: int) -> int {
    if v > 7 {
        14 - v
    } else {
        v
    }
}

/// The square at `p` on the standard 15 by 15 board: the centre, the
/// triple-word squares where both indices are multiples of seven, and
/// otherwise a table over one octant that the board's symmetries repeat.
pub open spec fn standard_square(p: (int, int)) -> Square {
    let a = fold_index(p.0);
    let b = fold_index(p.1);
    let hi = if b > a { b } else { a };
    let lo = if b > a { a } else { b };
    if p.0 == 7 && p.1 == 7 {
        Square::CenterSquare
    } else if p.0 % 7 == 0 && p.1 % 7 == 0 {
        Square::WordMultiplier(3)
    } else if (hi, lo) == (3int, 0int) || (hi, lo) == (6int, 2int) || (hi, lo) == (7int, 3int) || (
    hi, lo) == (6int, 6int) {
        Square::LetterMultiplier(2)
    } else if (hi, lo) == (5int, 1int) || (hi, lo) == (5int, 5int) {
        Square::LetterMultiplier(3)
    } else if hi == lo {
        Square::WordMultiplier(2)
    } else {
        Square::Empty
    }
}

/// Whether seven divides `v`.
fn is_multiple_of_seven(v: isize) -> (b: bool)
    ensures
        b == (v % 7 == 0),
{
    if v >= 0 {
        v % 7 == 0
    } else if v == isize::MIN {
        // -(v + 7) is representable and has the same remainder
        (-(v + 7)) % 7 == 0
    } else {
        (-v) % 7 == 0
    }
}

/// The generator of the standard board.
pub fn standard_board_layout(c: Coordinate) -> (s: Square)
    ensures
        s == standard_square(c.pos()),
{
    let mut x: isize = c.x;
    let mut y: isize = c.y;
    if x == 7 && y == 7 {
        return Square::CenterSquare;
    }
    if is_multiple_of_seven(x) && is_multiple_of_seven(y) {
        return Square::WordMultiplier(3);
    }
    if x > 7 {
        x = 14 - x;
    }
    if y > 7 {
        y = 14 - y;
    }
    if y > x {
        let t: isize = x;
        x = y;
        y = t;
    }
    if (x == 3 && y == 0) || (x == 6 && y == 2) || (x == 7 && y == 3) || (x == 6 && y == 6) {
        Square::LetterMultiplier(2)
    } else if (x == 5 && y == 1) || (x == 5 && y == 5) {
        Square::LetterMultiplier(3)
    } else if x == y {
        Square::WordMultiplier(2)
    } else {
        Square::Empty
    }
}

impl BoardLayout {
    /// The layout is rectangular and small enough to be addressed.
    pub open spec fn wf(&self) -> bool {
        is_grid(self@)
    }

    /// The number of columns.
    pub open spec fn width(&self) -> nat {
        self@.len()
    }

    /// The number of rows.
    pub open spec fn height(&self) -> nat {
        grid_height(self@)
    }

    /// The square at `c`, if `c` lies on the board.
    pub fn get(&self, index: Coordinate) -> (s: Option<Square>)
        requires
            self.wf(),
        ensures
            s == grid_at(self@, index.pos()),
    {
        grid_get(&self.squares, index)
    }

    /// The number of columns and of rows.
    pub fn dimensions(&self) -> (d: (usize, usize))
        ensures
            d.0 == self.width(),
            d.1 == self.height(),
    {
        let w: usize = self.squares.len();
        if w == 0 {
            (0, 0)
        } else {
            (w, self.squares[0].len())
        }
    }

    /// Builds a layout of the given numbers of columns and rows, asking `f`
    /// for the square of each cell.
    pub fn from_fn<F: Fn(Coordinate) -> Square>(dimensions: (usize, usize), f: F) -> (layout:
        BoardLayout)
        requires
            dimensions.0 <= isize::MAX,
            dimensions.1 <= isize::MAX,
            dimensions.0 * dimensions.1 <= usize::MAX,
            forall|c: Coordinate|
                0 <= c.x < dimensions.0 && 0 <= c.y < dimensions.1 ==> f.requires((c,)),
        ensures
            layout.wf(),
            layout.width() == dimensions.0,
            layout.height() == (if dimensions.0 == 0 {
                0
            } else {
                dimensions.1
            }),
            forall|c: Coordinate|
                0 <= c.x < dimensions.0 && 0 <= c.y < dimensions.1 ==> f.ensures(
                    (c,),
                    #[trigger] layout@[c.x as int][c.y as int],
                ),
    {
        let mut squares: Vec<Vec<Square>> = Vec::new();
        let mut x: usize = 0;
        while x < dimensions.0
            invariant
                x <= dimensions.0,
                dimensions.0 <= isize::MAX,
                dimensions.1 <= isize::MAX,
                squares@.len() == x,
                forall|i: int| 0 <= i < x ==> (#[trigger] squares@[i])@.len() == dimensions.1,
                forall|c: Coordinate|
                    0 <= c.x < dimensions.0 && 0 <= c.y < dimensions.1 ==> f.requires((c,)),
                forall|c: Coordinate|
                    0 <= c.x < x && 0 <= c.y < dimensions.1 ==> f.ensures(
                        (c,),
                        #[trigger] squares@[c.x as int]@[c.y as int],
                    ),
            decreases dimensions.0 - x,
        {
            let mut col: Vec<Square> = Vec::new();
            let mut y: usize = 0;
            while y < dimensions.1
                invariant
                    x < dimensions.0,
                    y <= dimensions.1,
                    dimensions.0 <= isize::MAX,
                    dimensions.1 <= isize::MAX,
                    col@.len() == y,
                    forall|c: Coordinate|
                        0 <= c.x < dimensions.0 && 0 <= c.y < dimensions.1 ==> f.requires((c,)),
                    forall|c: Coordinate|
                        c.x == x && 0 <= c.y < y ==> f.ensures((c,), #[trigger] col@[c.y as int]),
                decreases dimensions.1 - y,
            {
                let c = Coordinate { x: x as isize, y: y as isize };
                let s = f(c);
                col.push(s);
                y += 1;
            }
            squares.push(col);
            x += 1;
        }
        let layout = BoardLayout { squares };
        proof {
            let g = layout@;
            assert forall|i: int| 0 <= i < g.len() implies (#[trigger] g[i]).len() == grid_height(
                g,
            ) by {
                assert(layout.squares@[i]@.len() == dimensions.1);
                assert(layout.squares@[0]@.len() == dimensions.1);
            }
            if dimensions.0 > 0 {
                assert(g[0].len() == dimensions.1);
            }
        }
        layout
    }
}

/// The standard board reads the same when mirrored left to right, top to
/// bottom, or across its main diagonal.
pub proof fn lemma_standard_square_symmetric(x: int, y: int)
    requires
        0 <= x <= 14,
        0 <= y <= 14,
    ensures
        standard_square((14 - x, y)) == standard_square((x, y)),
        standard_square((x, 14 - y)) == standard_square((x, y)),
        standard_square((y, x)) == standard_square((x, y)),
{
}

} // verus!
