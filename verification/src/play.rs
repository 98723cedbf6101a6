//! Plays: which sets of freshly placed tiles form a legal play, what the play
//! is worth, and what committing it does to the board.

use crate::board::{Board, BoardView};
use crate::coordinate::{Coordinate, Direction};
use crate::error::WordPlacementError;
use crate::language::LetterValues;
use crate::layout::Square;
use crate::run::{cells, lemma_run_occupied};
use crate::tile::{BoardTile, HandTile, Tile};
use vstd::prelude::*;

verus! {

/// Whether `p` comes before `q` when the board is read column by column, each
/// column from its first row down.
pub open spec fn scan_lt(p: (int, int), q: (int, int)) -> bool {
    p.0 < q.0 || (p.0 == q.0 && p.1 < q.1)
}

/// Whether `v` can be held in an `isize`.
pub open spec fn fits(v: int) -> bool {
    isize::MIN <= v <= isize::MAX
}

/// What a tile is worth in a language: nothing for a joker, the letter's value
/// for any other tile, if the language has one.
pub open spec fn tile_value(values: Map<HandTile, usize>, tile: Tile) -> Option<int> {
    if tile.is_joker {
        Some(0)
    } else if values.contains_key(HandTile::Letter(tile.tile)) {
        Some(values[HandTile::Letter(tile.tile)] as int)
    } else {
        None
    }
}

/// The cell at `p` with what lies on it.
pub open spec fn cell_entry(b: BoardView, p: (int, int)) -> (Coordinate, Option<BoardTile>) {
    (Coordinate { x: p.0 as isize, y: p.1 as isize }, b.tile_at(p))
}

/// The first `n` cells of column `x`, from its first row down.
pub open spec fn column_entries(b: BoardView, x: int, n: nat) -> Seq<(Coordinate, Option<BoardTile>)> {
    Seq::new(n, |y: int| cell_entry(b, (x, y)))
}

/// The cells of the first `n` columns, column after column.
pub open spec fn board_entries(b: BoardView, n: nat) -> Seq<(Coordinate, Option<BoardTile>)>
    decreases n,
{
    if n == 0 {
        Seq::empty()
    } else {
        board_entries(b, (n - 1) as nat) + column_entries(b, n - 1, b.height())
    }
}

/// A tile once its play is committed.
pub open spec fn settled_tile(t: Option<BoardTile>) -> Option<BoardTile> {
    match t {
        Some(t) => Some(BoardTile { tile: t.tile, is_provisional: false }),
        None => None,
    }
}

impl BoardView {
    // ---- legality ----

    /// Whether any tile of a play in progress lies on the board.
    pub open spec fn has_provisional(self) -> bool {
        exists|p: (int, int)| self.provisional(p)
    }

    /// Whether `p` is the first provisional cell in reading order.
    pub open spec fn is_anchor(self, p: (int, int)) -> bool {
        &&& self.provisional(p)
        &&& forall|q: (int, int)| self.provisional(q) && q != p ==> scan_lt(p, q)
    }

    /// The first provisional cell in reading order.
    pub open spec fn anchor(self) -> (int, int) {
        choose|p: (int, int)| self.is_anchor(p)
    }

    /// Whether all provisional tiles lie in one column.
    pub open spec fn same_column(self) -> bool {
        forall|p: (int, int), q: (int, int)|
            self.provisional(p) && self.provisional(q) ==> p.0 == q.0
    }

    /// Whether all provisional tiles lie in one row.
    pub open spec fn same_row(self) -> bool {
        forall|p: (int, int), q: (int, int)|
            self.provisional(p) && self.provisional(q) ==> p.1 == q.1
    }

    /// The direction of the play: along the line that the provisional tiles
    /// share; for a single tile, along its longer run, and horizontal where
    /// its two runs are as long as each other. None where the tiles share no
    /// line.
    pub open spec fn play_direction(self) -> Option<Direction> {
        if self.same_column() && self.same_row() {
            if self.run_len(self.anchor(), Direction::Vertical) > self.run_len(
                self.anchor(),
                Direction::Horizontal,
            ) {
                Some(Direction::Vertical)
            } else {
                Some(Direction::Horizontal)
            }
        } else if self.same_column() {
            Some(Direction::Vertical)
        } else if self.same_row() {
            Some(Direction::Horizontal)
        } else {
            None
        }
    }

    /// Whether a provisional tile lies outside `run`.
    pub open spec fn scattered(self, run: Seq<(int, int)>) -> bool {
        exists|p: (int, int)| self.provisional(p) && !run.contains(p)
    }

    /// Whether every cell of `run` holds a provisional tile.
    pub open spec fn all_provisional(self, run: Seq<(int, int)>) -> bool {
        forall|i: int| 0 <= i < run.len() ==> self.provisional(#[trigger] run[i])
    }

    /// Whether some cell of `run` has a tile beside it across `dir`.
    pub open spec fn touches_neighbour(self, run: Seq<(int, int)>, dir: Direction) -> bool {
        exists|i: int| 0 <= i < run.len() && self.run_len(#[trigger] run[i], dir.flip()) > 1
    }

    /// Whether `run` covers a centre square.
    pub open spec fn covers_center(self, run: Seq<(int, int)>) -> bool {
        exists|i: int|
            0 <= i < run.len() && self.square_at(#[trigger] run[i]) == Some(Square::CenterSquare)
    }

    /// A word of new tiles only must touch a word across it or cover the
    /// centre; a word that holds an earlier tile is joined already.
    pub open spec fn connected(self, run: Seq<(int, int)>, dir: Direction) -> bool {
        ||| !self.all_provisional(run)
        ||| self.touches_neighbour(run, dir)
        ||| self.covers_center(run)
    }

    // ---- points ----

    /// The value of the tile at `p`; nothing where there is no tile or the
    /// tile has no value.
    pub open spec fn cell_value(self, values: Map<HandTile, usize>, p: (int, int)) -> int {
        match self.tile_at(p) {
            Some(t) => match tile_value(values, t.tile) {
                Some(v) => v,
                None => 0,
            },
            None => 0,
        }
    }

    /// Whether the cell at `p` holds a tile that has a value.
    pub open spec fn cell_valued(self, values: Map<HandTile, usize>, p: (int, int)) -> bool {
        self.tile_at(p) matches Some(t) && tile_value(values, t.tile) is Some
    }

    /// The factor that the square at `p` lends to the letter on it: that of a
    /// letter square under a new tile of the word played, one otherwise.
    pub open spec fn letter_factor(self, p: (int, int), primary: bool) -> int {
        if primary && self.provisional(p) {
            match self.square_at(p) {
                Some(Square::LetterMultiplier(m)) => m as int,
                _ => 1,
            }
        } else {
            1
        }
    }

    /// The factor that the square at `p` lends to the whole word: that of a
    /// word square, or two for the centre, under a new tile of the word
    /// played, one otherwise.
    pub open spec fn word_factor(self, p: (int, int), primary: bool) -> int {
        if primary && self.provisional(p) {
            match self.square_at(p) {
                Some(Square::WordMultiplier(m)) => m as int,
                Some(Square::CenterSquare) => 2,
                _ => 1,
            }
        } else {
            1
        }
    }

    /// The points of the letter at `p`: its value times its letter factor.
    pub open spec fn cell_points(
        self,
        values: Map<HandTile, usize>,
        p: (int, int),
        primary: bool,
    ) -> int {
        self.cell_value(values, p) * self.letter_factor(p, primary)
    }

    /// The sum of the letters of `run`, each times its letter factor.
    pub open spec fn letters_sum(
        self,
        values: Map<HandTile, usize>,
        run: Seq<(int, int)>,
        primary: bool,
    ) -> int
        decreases run.len(),
    {
        if run.len() == 0 {
            0
        } else {
            self.letters_sum(values, run.drop_last(), primary) + self.cell_points(
                values,
                run.last(),
                primary,
            )
        }
    }

    /// The product of the word factors of `run`.
    pub open spec fn word_product(self, run: Seq<(int, int)>, primary: bool) -> int
        decreases run.len(),
    {
        if run.len() == 0 {
            1
        } else {
            self.word_product(run.drop_last(), primary) * self.word_factor(run.last(), primary)
        }
    }

    /// What the word on `run` is worth: the sum of its letters times the
    /// product of its word factors. Squares count for the word played
    /// (`primary`) only.
    pub open spec fn run_score(
        self,
        values: Map<HandTile, usize>,
        run: Seq<(int, int)>,
        primary: bool,
    ) -> int {
        self.letters_sum(values, run, primary) * self.word_product(run, primary)
    }

    /// The word that crosses the played word at `p`.
    pub open spec fn crossing(self, p: (int, int), dir: Direction) -> Seq<(int, int)> {
        self.run(p, dir.flip())
    }

    /// What the word across `p` is worth: nothing if it is `p` alone.
    pub open spec fn crossing_score(
        self,
        values: Map<HandTile, usize>,
        p: (int, int),
        dir: Direction,
    ) -> int {
        if self.crossing(p, dir).len() > 1 {
            self.run_score(values, self.crossing(p, dir), false)
        } else {
            0
        }
    }

    /// The sum of what the words across the cells of `run` are worth.
    pub open spec fn crossings_sum(
        self,
        values: Map<HandTile, usize>,
        run: Seq<(int, int)>,
        dir: Direction,
    ) -> int
        decreases run.len(),
    {
        if run.len() == 0 {
            0
        } else {
            self.crossings_sum(values, run.drop_last(), dir) + self.crossing_score(
                values,
                run.last(),
                dir,
            )
        }
    }

    /// The points of a play: its word and every word of two or more tiles
    /// that crosses it.
    pub open spec fn turn_score(
        self,
        values: Map<HandTile, usize>,
        run: Seq<(int, int)>,
        dir: Direction,
    ) -> int {
        self.run_score(values, run, true) + self.crossings_sum(values, run, dir)
    }

    /// Whether every tile on `run` has a value.
    pub open spec fn run_valued(self, values: Map<HandTile, usize>, run: Seq<(int, int)>) -> bool {
        forall|i: int| 0 <= i < run.len() ==> self.cell_valued(values, #[trigger] run[i])
    }

    /// Whether every tile that a play scores has a value.
    pub open spec fn play_valued(
        self,
        values: Map<HandTile, usize>,
        run: Seq<(int, int)>,
        dir: Direction,
    ) -> bool {
        &&& self.run_valued(values, run)
        &&& forall|i: int|
            0 <= i < run.len() && self.crossing(#[trigger] run[i], dir).len() > 1
                ==> self.run_valued(values, self.crossing(run[i], dir))
    }

    /// Whether the word on `run` can be scored in an `isize`: each letter, each
    /// running sum and running product, and the result.
    pub open spec fn run_fits(
        self,
        values: Map<HandTile, usize>,
        run: Seq<(int, int)>,
        primary: bool,
    ) -> bool {
        &&& forall|k: int|
            0 <= k < run.len() ==> fits(self.cell_value(values, #[trigger] run[k])) && fits(
                self.cell_points(values, run[k], primary),
            )
        &&& forall|k: int|
            0 <= k <= run.len() ==> fits(self.letters_sum(values, #[trigger] run.take(k), primary))
                && fits(self.word_product(run.take(k), primary))
        &&& fits(self.run_score(values, run, primary))
    }

    /// Whether a play can be scored in an `isize`: its word, each word across
    /// it, and each running total.
    pub open spec fn play_fits(
        self,
        values: Map<HandTile, usize>,
        run: Seq<(int, int)>,
        dir: Direction,
    ) -> bool {
        &&& self.run_fits(values, run, true)
        &&& forall|i: int|
            0 <= i < run.len() && self.crossing(#[trigger] run[i], dir).len() > 1 ==> self.run_fits(
                values,
                self.crossing(run[i], dir),
                false,
            )
        &&& forall|k: int|
            0 <= k <= run.len() ==> fits(
                self.run_score(values, run, true) + self.crossings_sum(
                    values,
                    #[trigger] run.take(k),
                    dir,
                ),
            )
    }

    // ---- the verdict ----

    /// The word that the play in progress forms: the run through its first
    /// tile along its direction.
    pub open spec fn primary_run(self) -> Seq<(int, int)> {
        self.run(self.anchor(), self.play_direction().unwrap())
    }

    /// What committing the play in progress comes to: its points, or the
    /// first reason against it.
    pub open spec fn judge(self, values: Map<HandTile, usize>) -> Result<int, WordPlacementError> {
        if !self.has_provisional() {
            Err(WordPlacementError::PlayedWordEmpty)
        } else if self.play_direction() is None {
            Err(WordPlacementError::InvalidDirection)
        } else {
            let dir = self.play_direction().unwrap();
            let run = self.primary_run();
            if self.scattered(run) {
                Err(WordPlacementError::ScatteredProvisionalTile)
            } else if !self.connected(run, dir) {
                Err(WordPlacementError::WordNotAdjacent)
            } else if !self.play_valued(values, run, dir) {
                Err(WordPlacementError::UnknownLetter)
            } else if !self.play_fits(values, run, dir) {
                Err(WordPlacementError::ScoreOverflow)
            } else {
                Ok(self.turn_score(values, run, dir))
            }
        }
    }

    /// The board with every tile on `run` made permanent.
    pub open spec fn settled(self, run: Seq<(int, int)>) -> BoardView {
        BoardView {
            tiles: Seq::new(
                self.tiles.len(),
                |x: int|
                    Seq::new(
                        self.tiles[x].len(),
                        |y: int|
                            if run.contains((x, y)) {
                                settled_tile(self.tiles[x][y])
                            } else {
                                self.tiles[x][y]
                            },
                    ),
            ),
            ..self
        }
    }

    /// The board once the play in progress is committed.
    pub open spec fn committed(self) -> BoardView {
        self.settled(self.primary_run())
    }
}

/// A play that passed every check: where it starts, how it runs, the cells of
/// its word and its points.
#[derive(Debug)]
pub struct Play {
    pub anchor: Coordinate,
    pub direction: Direction,
    pub run: Vec<Coordinate>,
    pub points: isize,
}

/// Whether `c` is among `list`.
pub fn contains_coordinate(list: &Vec<Coordinate>, c: Coordinate) -> (b: bool)
    ensures
        b == cells(list@).contains(c.pos()),
{
    let mut i: usize = 0;
    while i < list.len()
        invariant
            i <= list@.len(),
            forall|j: int| 0 <= j < i ==> cells(list@)[j] != c.pos(),
        decreases list@.len() - i,
    {
        if list[i].x == c.x && list[i].y == c.y {
            assert(cells(list@)[i as int] == c.pos());
            return true;
        }
        i += 1;
    }
    false
}

impl Board {
    /// Every cell of the board with what lies on it, in reading order: column
    /// by column, each column from its first row down.
    pub fn tiles_with_coordinates(&self) -> (r: Vec<(Coordinate, Option<BoardTile>)>)
        requires
            self.wf(),
        ensures
            r@ == board_entries(self@, self@.width()),
    {
        let (width, height) = self.dimensions();
        let mut r: Vec<(Coordinate, Option<BoardTile>)> = Vec::new();
        let mut x: usize = 0;
        while x < width
            invariant
                self.wf(),
                width == self@.width(),
                height == self@.height(),
                x <= width,
                r@ == board_entries(self@, x as nat),
            decreases width - x,
        {
            let ghost before = r@;
            let mut y: usize = 0;
            assert(before + column_entries(self@, x as int, 0) == before);
            while y < height
                invariant
                    self.wf(),
                    width == self@.width(),
                    height == self@.height(),
                    x < width,
                    y <= height,
                    r@ == before + column_entries(self@, x as int, y as nat),
                decreases height - y,
            {
                let c = Coordinate { x: x as isize, y: y as isize };
                r.push((c, self.get_tile(c)));
                assert(r@ =~= before + column_entries(self@, x as int, (y + 1) as nat));
                y += 1;
            }
            x += 1;
        }
        r
    }

    /// The cells that hold a tile of the play in progress, in reading order:
    /// column by column, each column from its first row down.
    pub fn provisional_coordinates(&self) -> (r: Vec<Coordinate>)
        requires
            self.wf(),
        ensures
            forall|i: int| 0 <= i < r@.len() ==> self@.provisional(#[trigger] cells(r@)[i]),
            forall|p: (int, int)| self@.provisional(p) ==> cells(r@).contains(p),
            forall|i: int, j: int|
                0 <= i < j < r@.len() ==> scan_lt(#[trigger] cells(r@)[i], #[trigger] cells(r@)[j]),
    {
        let (width, height) = self.dimensions();
        let mut r: Vec<Coordinate> = Vec::new();
        let mut x: usize = 0;
        while x < width
            invariant
                self.wf(),
                width == self@.width(),
                height == self@.height(),
                x <= width,
                forall|i: int| 0 <= i < r@.len() ==> self@.provisional(#[trigger] cells(r@)[i]),
                forall|i: int| 0 <= i < r@.len() ==> (#[trigger] cells(r@)[i]).0 < x,
                forall|p: (int, int)| self@.provisional(p) && p.0 < x ==> cells(r@).contains(p),
                forall|i: int, j: int|
                    0 <= i < j < r@.len() ==> scan_lt(
                        #[trigger] cells(r@)[i],
                        #[trigger] cells(r@)[j],
                    ),
            decreases width - x,
        {
            let mut y: usize = 0;
            while y < height
                invariant
                    self.wf(),
                    width == self@.width(),
                    height == self@.height(),
                    x < width,
                    y <= height,
                    forall|i: int| 0 <= i < r@.len() ==> self@.provisional(#[trigger] cells(r@)[i]),
                    forall|i: int|
                        0 <= i < r@.len() ==> scan_lt(#[trigger] cells(r@)[i], (x as int, y as int)),
                    forall|p: (int, int)|
                        self@.provisional(p) && scan_lt(p, (x as int, y as int)) ==> cells(
                            r@,
                        ).contains(p),
                    forall|i: int, j: int|
                        0 <= i < j < r@.len() ==> scan_lt(
                            #[trigger] cells(r@)[i],
                            #[trigger] cells(r@)[j],
                        ),
                decreases height - y,
            {
                let c = Coordinate { x: x as isize, y: y as isize };
                let ghost before = r@;
                let found = match self.get_tile(c) {
                    Some(t) => t.is_provisional,
                    None => false,
                };
                if found {
                    r.push(c);
                }
                proof {
                    assert forall|p: (int, int)|
                        self@.provisional(p) && scan_lt(p, (x as int, y as int + 1)) implies cells(
                        r@,
                    ).contains(p) by {
                        if p == c.pos() {
                            assert(cells(r@)[before.len() as int] == p);
                        } else {
                            assert(cells(before).contains(p));
                            let i = choose|i: int| 0 <= i < before.len() && cells(before)[i] == p;
                            assert(cells(r@)[i] == p);
                        }
                    }
                    assert forall|i: int| 0 <= i < r@.len() implies self@.provisional(
                        #[trigger] cells(r@)[i],
                    ) by {
                        if i < before.len() {
                            assert(cells(r@)[i] == cells(before)[i]);
                        }
                    }
                    assert forall|i: int| 0 <= i < r@.len() implies scan_lt(
                        #[trigger] cells(r@)[i],
                        (x as int, y as int + 1),
                    ) by {
                        if i < before.len() {
                            assert(cells(r@)[i] == cells(before)[i]);
                        }
                    }
                    assert forall|i: int, j: int| 0 <= i < j < r@.len() implies scan_lt(
                        #[trigger] cells(r@)[i],
                        #[trigger] cells(r@)[j],
                    ) by {
                        assert(cells(r@)[i] == cells(before)[i]);
                        if j < before.len() {
                            assert(cells(r@)[j] == cells(before)[j]);
                        }
                    }
                }
                y += 1;
            }
            proof {
                assert forall|p: (int, int)| self@.provisional(p) && p.0 < x + 1 implies cells(
                    r@,
                ).contains(p) by {
                    assert(scan_lt(p, (x as int, y as int)));
                }
            }
            x += 1;
        }
        r
    }

    /// Whether every cell of `word` holds a tile that has a value.
    pub fn range_valued(&self, values: &LetterValues, word: &Vec<Coordinate>) -> (b: bool)
        requires
            self.wf(),
        ensures
            b == self@.run_valued(values@, cells(word@)),
    {
        let mut i: usize = 0;
        while i < word.len()
            invariant
                self.wf(),
                i <= word@.len(),
                forall|k: int| 0 <= k < i ==> self@.cell_valued(values@, #[trigger] cells(word@)[k]),
            decreases word@.len() - i,
        {
            let valued = match self.get_tile(word[i]) {
                Some(t) => t.tile.is_joker || values.contains(HandTile::Letter(t.tile.tile)),
                None => false,
            };
            if !valued {
                assert(!self@.cell_valued(values@, cells(word@)[i as int]));
                return false;
            }
            i += 1;
        }
        true
    }

    /// What the word on `word` is worth: the sum of its letters times the
    /// product of its word factors. The squares count under the new tiles of
    /// the word played, and not at all for a word across it
    /// (`is_adjacent_word`).
    pub fn score_range(
        &self,
        values: &LetterValues,
        word: &Vec<Coordinate>,
        is_adjacent_word: bool,
    ) -> (r: Result<isize, WordPlacementError>)
        requires
            self.wf(),
        ensures
            r == (if !self@.run_valued(values@, cells(word@)) {
                Err::<isize, WordPlacementError>(WordPlacementError::UnknownLetter)
            } else if !self@.run_fits(values@, cells(word@), !is_adjacent_word) {
                Err(WordPlacementError::ScoreOverflow)
            } else {
                Ok(self@.run_score(values@, cells(word@), !is_adjacent_word) as isize)
            }),
    {
        if !self.range_valued(values, word) {
            return Err(WordPlacementError::UnknownLetter);
        }
        let ghost run = cells(word@);
        let ghost primary = !is_adjacent_word;
        let mut total: isize = 0;
        let mut word_multiplier: isize = 1;
        let mut i: usize = 0;
        assert(run.take(0) == Seq::<(int, int)>::empty());
        while i < word.len()
            invariant
                self.wf(),
                run == cells(word@),
                primary == !is_adjacent_word,
                self@.run_valued(values@, run),
                i <= word@.len(),
                total == self@.letters_sum(values@, run.take(i as int), primary),
                word_multiplier == self@.word_product(run.take(i as int), primary),
                forall|k: int|
                    0 <= k < i ==> fits(self@.cell_value(values@, #[trigger] run[k])) && fits(
                        self@.cell_points(values@, run[k], primary),
                    ),
                forall|k: int|
                    0 <= k <= i ==> fits(
                        self@.letters_sum(values@, #[trigger] run.take(k), primary),
                    ) && fits(self@.word_product(run.take(k), primary)),
            decreases word@.len() - i,
        {
            let letter = word[i];
            proof {
                assert(run[i as int] == letter.pos());
                assert(self@.cell_valued(values@, run[i as int]));
                assert(run.take(i + 1).drop_last() == run.take(i as int));
                assert(run.take(i + 1).last() == run[i as int]);
            }
            let tile = match self.get_tile(letter) {
                Some(t) => t,
                None => {
                    return Err(WordPlacementError::UnknownLetter);
                },
            };
            let raw: usize = if tile.tile.is_joker {
                0
            } else {
                match values.lookup(HandTile::Letter(tile.tile.tile)) {
                    Some(v) => v,
                    None => {
                        return Err(WordPlacementError::UnknownLetter);
                    },
                }
            };
            assert(raw == self@.cell_value(values@, run[i as int]));
            if raw > isize::MAX as usize {
                return Err(WordPlacementError::ScoreOverflow);
            }
            let mut value: isize = raw as isize;
            let mut factor: isize = 1;
            if !is_adjacent_word && tile.is_provisional {
                match self.get_square(letter) {
                    Some(Square::CenterSquare) => {
                        factor = 2;
                    },
                    Some(Square::LetterMultiplier(m)) => {
                        match value.checked_mul(m as isize) {
                            Some(v) => {
                                value = v;
                            },
                            None => {
                                return Err(WordPlacementError::ScoreOverflow);
                            },
                        }
                    },
                    Some(Square::WordMultiplier(m)) => {
                        factor = m as isize;
                    },
                    _ => {},
                }
            }
            assert(value == self@.cell_points(values@, run[i as int], primary));
            assert(factor == self@.word_factor(run[i as int], primary));
            match word_multiplier.checked_mul(factor) {
                Some(m) => {
                    word_multiplier = m;
                },
                None => {
                    assert(!fits(self@.word_product(run.take(i + 1), primary)));
                    return Err(WordPlacementError::ScoreOverflow);
                },
            }
            match total.checked_add(value) {
                Some(t) => {
                    total = t;
                },
                None => {
                    assert(!fits(self@.letters_sum(values@, run.take(i + 1), primary)));
                    return Err(WordPlacementError::ScoreOverflow);
                },
            }
            i += 1;
        }
        assert(run.take(i as int) == run);
        match total.checked_mul(word_multiplier) {
            Some(score) => Ok(score),
            None => Err(WordPlacementError::ScoreOverflow),
        }
    }

    /// Whether every tile that a play on `word` along `dir` scores has a
    /// value: the tiles of the word, and those of each word of two or more
    /// tiles across it.
    pub fn play_valued(&self, values: &LetterValues, word: &Vec<Coordinate>, dir: Direction) -> (b:
        bool)
        requires
            self.wf(),
        ensures
            b == self@.play_valued(values@, cells(word@), dir),
    {
        if !self.range_valued(values, word) {
            return false;
        }
        let other_dir = dir.flip();
        let ghost run = cells(word@);
        let mut i: usize = 0;
        while i < word.len()
            invariant
                self.wf(),
                run == cells(word@),
                other_dir == dir.flip(),
                i <= word@.len(),
                forall|k: int|
                    0 <= k < i && self@.crossing(#[trigger] run[k], dir).len() > 1
                        ==> self@.run_valued(values@, self@.crossing(run[k], dir)),
            decreases word@.len() - i,
        {
            let cross = self.find_range(word[i], other_dir);
            assert(cells(cross@) == self@.crossing(run[i as int], dir));
            assert(cells(cross@).len() == cross@.len());
            if cross.len() > 1 && !self.range_valued(values, &cross) {
                return false;
            }
            i += 1;
        }
        true
    }

    /// The points of a play on `word` along `dir`: the word itself, with its
    /// squares, and every word of two or more tiles across it, without.
    pub fn score_word(&self, values: &LetterValues, word: &Vec<Coordinate>, dir: Direction) -> (r:
        Result<isize, WordPlacementError>)
        requires
            self.wf(),
        ensures
            r == (if !self@.play_valued(values@, cells(word@), dir) {
                Err::<isize, WordPlacementError>(WordPlacementError::UnknownLetter)
            } else if !self@.play_fits(values@, cells(word@), dir) {
                Err(WordPlacementError::ScoreOverflow)
            } else {
                Ok(self@.turn_score(values@, cells(word@), dir) as isize)
            }),
    {
        if !self.play_valued(values, word, dir) {
            return Err(WordPlacementError::UnknownLetter);
        }
        let other_dir = dir.flip();
        let ghost run = cells(word@);
        let mut total: isize = match self.score_range(values, word, false) {
            Ok(points) => points,
            Err(e) => {
                return Err(e);
            },
        };
        let ghost base = self@.run_score(values@, run, true);
        let mut i: usize = 0;
        assert(run.take(0) == Seq::<(int, int)>::empty());
        while i < word.len()
            invariant
                self.wf(),
                run == cells(word@),
                other_dir == dir.flip(),
                base == self@.run_score(values@, run, true),
                self@.play_valued(values@, run, dir),
                self@.run_fits(values@, run, true),
                i <= word@.len(),
                total == base + self@.crossings_sum(values@, run.take(i as int), dir),
                forall|k: int|
                    0 <= k < i && self@.crossing(#[trigger] run[k], dir).len() > 1
                        ==> self@.run_fits(values@, self@.crossing(run[k], dir), false),
                forall|k: int|
                    0 <= k <= i ==> fits(
                        base + self@.crossings_sum(values@, #[trigger] run.take(k), dir),
                    ),
            decreases word@.len() - i,
        {
            proof {
                assert(run.take(i + 1).drop_last() == run.take(i as int));
                assert(run.take(i + 1).last() == run[i as int]);
            }
            let cross = self.find_range(word[i], other_dir);
            assert(cells(cross@) == self@.crossing(run[i as int], dir));
            assert(cells(cross@).len() == cross@.len());
            if cross.len() > 1 {
                let points = match self.score_range(values, &cross, true) {
                    Ok(points) => points,
                    Err(e) => {
                        return Err(e);
                    },
                };
                match total.checked_add(points) {
                    Some(t) => {
                        total = t;
                    },
                    None => {
                        assert(!fits(base + self@.crossings_sum(values@, run.take(i + 1), dir)));
                        return Err(WordPlacementError::ScoreOverflow);
                    },
                }
            }
            i += 1;
        }
        assert(run.take(i as int) == run);
        Ok(total)
    }

    /// Whether every cell of `run` holds a tile of the play in progress.
    pub fn all_provisional(&self, run: &Vec<Coordinate>) -> (b: bool)
        requires
            self.wf(),
        ensures
            b == self@.all_provisional(cells(run@)),
    {
        let mut i: usize = 0;
        while i < run.len()
            invariant
                self.wf(),
                i <= run@.len(),
                forall|k: int| 0 <= k < i ==> self@.provisional(#[trigger] cells(run@)[k]),
            decreases run@.len() - i,
        {
            let provisional = match self.get_tile(run[i]) {
                Some(t) => t.is_provisional,
                None => false,
            };
            if !provisional {
                assert(!self@.provisional(cells(run@)[i as int]));
                return false;
            }
            i += 1;
        }
        true
    }

    /// Whether some cell of `run` has a tile beside it across `dir`.
    pub fn touches_neighbour(&self, run: &Vec<Coordinate>, dir: Direction) -> (b: bool)
        requires
            self.wf(),
        ensures
            b == self@.touches_neighbour(cells(run@), dir),
    {
        let other_dir = dir.flip();
        let mut i: usize = 0;
        while i < run.len()
            invariant
                self.wf(),
                other_dir == dir.flip(),
                i <= run@.len(),
                forall|k: int|
                    0 <= k < i ==> self@.run_len(#[trigger] cells(run@)[k], dir.flip()) <= 1,
            decreases run@.len() - i,
        {
            let cross = self.find_range(run[i], other_dir);
            assert(cells(cross@).len() == cross@.len());
            assert(cells(cross@).len() == self@.run_len(cells(run@)[i as int], dir.flip()));
            if cross.len() > 1 {
                return true;
            }
            i += 1;
        }
        false
    }

    /// Whether `run` covers a centre square.
    pub fn covers_center(&self, run: &Vec<Coordinate>) -> (b: bool)
        requires
            self.wf(),
        ensures
            b == self@.covers_center(cells(run@)),
    {
        let mut i: usize = 0;
        while i < run.len()
            invariant
                self.wf(),
                i <= run@.len(),
                forall|k: int|
                    0 <= k < i ==> self@.square_at(#[trigger] cells(run@)[k]) != Some(
                        Square::CenterSquare,
                    ),
            decreases run@.len() - i,
        {
            let center = match self.get_square(run[i]) {
                Some(Square::CenterSquare) => true,
                _ => false,
            };
            if center {
                assert(self@.square_at(cells(run@)[i as int]) == Some(Square::CenterSquare));
                return true;
            }
            i += 1;
        }
        false
    }
}

/// Whether the coordinates of `list` share their first component, and whether
/// they share their second.
fn shared_lines(list: &Vec<Coordinate>) -> (r: (bool, bool))
    ensures
        r.0 == (forall|i: int| 0 <= i < list@.len() ==> (#[trigger] cells(list@)[i]).0 == cells(
            list@,
        )[0].0),
        r.1 == (forall|i: int| 0 <= i < list@.len() ==> (#[trigger] cells(list@)[i]).1 == cells(
            list@,
        )[0].1),
{
    let mut same_x = true;
    let mut same_y = true;
    let mut i: usize = 0;
    while i < list.len()
        invariant
            i <= list@.len(),
            same_x == (forall|k: int| 0 <= k < i ==> (#[trigger] cells(list@)[k]).0 == cells(
                list@,
            )[0].0),
            same_y == (forall|k: int| 0 <= k < i ==> (#[trigger] cells(list@)[k]).1 == cells(
                list@,
            )[0].1),
        decreases list@.len() - i,
    {
        if list[i].x != list[0].x {
            assert(cells(list@)[i as int].0 != cells(list@)[0].0);
            same_x = false;
        }
        if list[i].y != list[0].y {
            assert(cells(list@)[i as int].1 != cells(list@)[0].1);
            same_y = false;
        }
        i += 1;
    }
    (same_x, same_y)
}

/// Whether some coordinate of `list` is missing from `run`.
fn any_outside(list: &Vec<Coordinate>, run: &Vec<Coordinate>) -> (b: bool)
    ensures
        b == (exists|i: int|
            0 <= i < list@.len() && !cells(run@).contains(#[trigger] cells(list@)[i])),
{
    let mut i: usize = 0;
    while i < list.len()
        invariant
            i <= list@.len(),
            forall|k: int| 0 <= k < i ==> cells(run@).contains(#[trigger] cells(list@)[k]),
        decreases list@.len() - i,
    {
        if !contains_coordinate(run, list[i]) {
            assert(!cells(run@).contains(cells(list@)[i as int]));
            return true;
        }
        i += 1;
    }
    false
}

/// Whether `list` holds the provisional cells of `b`, each once, in reading
/// order.
pub open spec fn lists_provisional(b: BoardView, list: Seq<(int, int)>) -> bool {
    &&& forall|i: int| 0 <= i < list.len() ==> b.provisional(#[trigger] list[i])
    &&& forall|p: (int, int)| b.provisional(p) ==> list.contains(p)
    &&& forall|i: int, j: int| 0 <= i < j < list.len() ==> scan_lt(#[trigger] list[i], #[trigger] list[j])
}

/// What the list of provisional cells tells of the play: whether there is
/// one, where it starts, and which lines its tiles share.
pub proof fn lemma_provisional_list(b: BoardView, list: Seq<(int, int)>)
    requires
        lists_provisional(b, list),
    ensures
        b.has_provisional() == (list.len() > 0),
        list.len() > 0 ==> b.is_anchor(list[0]) && b.anchor() == list[0],
        b.same_column() == (forall|i: int| 0 <= i < list.len() ==> (#[trigger] list[i]).0 == list[0].0),
        b.same_row() == (forall|i: int| 0 <= i < list.len() ==> (#[trigger] list[i]).1 == list[0].1),
{
    if list.len() > 0 {
        assert(b.provisional(list[0]));
        assert forall|q: (int, int)| b.provisional(q) && q != list[0] implies scan_lt(
            list[0],
            q,
        ) by {
            assert(list.contains(q));
            let j = choose|j: int| 0 <= j < list.len() && list[j] == q;
            assert(scan_lt(list[0], list[j]));
        }
        assert(b.is_anchor(list[0]));
        let a = b.anchor();
        assert(b.is_anchor(a));
        if a != list[0] {
            assert(scan_lt(a, list[0]));
            assert(scan_lt(list[0], a));
        }
    } else {
        if b.has_provisional() {
            let p = choose|p: (int, int)| b.provisional(p);
            assert(list.contains(p));
        }
    }
    if forall|i: int| 0 <= i < list.len() ==> (#[trigger] list[i]).0 == list[0].0 {
        assert forall|p: (int, int), q: (int, int)|
            b.provisional(p) && b.provisional(q) implies p.0 == q.0 by {
            assert(list.contains(p));
            assert(list.contains(q));
            let i = choose|i: int| 0 <= i < list.len() && list[i] == p;
            let j = choose|j: int| 0 <= j < list.len() && list[j] == q;
            assert(list[i].0 == list[0].0);
            assert(list[j].0 == list[0].0);
        }
    } else {
        let i = choose|i: int| 0 <= i < list.len() && (#[trigger] list[i]).0 != list[0].0;
        assert(b.provisional(list[i]) && b.provisional(list[0]));
    }
    if forall|i: int| 0 <= i < list.len() ==> (#[trigger] list[i]).1 == list[0].1 {
        assert forall|p: (int, int), q: (int, int)|
            b.provisional(p) && b.provisional(q) implies p.1 == q.1 by {
            assert(list.contains(p));
            assert(list.contains(q));
            let i = choose|i: int| 0 <= i < list.len() && list[i] == p;
            let j = choose|j: int| 0 <= j < list.len() && list[j] == q;
            assert(list[i].1 == list[0].1);
            assert(list[j].1 == list[0].1);
        }
    } else {
        let i = choose|i: int| 0 <= i < list.len() && (#[trigger] list[i]).1 != list[0].1;
        assert(b.provisional(list[i]) && b.provisional(list[0]));
    }
}

/// A provisional tile lies outside `run` exactly if a cell of the list does.
pub proof fn lemma_scattered_list(b: BoardView, list: Seq<(int, int)>, run: Seq<(int, int)>)
    requires
        lists_provisional(b, list),
    ensures
        b.scattered(run) == (exists|i: int| 0 <= i < list.len() && !run.contains(#[trigger] list[i])),
{
    if b.scattered(run) {
        let p = choose|p: (int, int)| b.provisional(p) && !run.contains(p);
        assert(list.contains(p));
        let i = choose|i: int| 0 <= i < list.len() && list[i] == p;
        assert(!run.contains(list[i]));
    }
    if exists|i: int| 0 <= i < list.len() && !run.contains(#[trigger] list[i]) {
        let i = choose|i: int| 0 <= i < list.len() && !run.contains(#[trigger] list[i]);
        assert(b.provisional(list[i]));
    }
}

impl Board {
    /// Where the play in progress starts and how it runs, together with the
    /// cells of its tiles.
    fn play_line(&self) -> (r: Result<(Vec<Coordinate>, Coordinate, Direction), WordPlacementError>)
        requires
            self.wf(),
        ensures
            match r {
                Ok((placed, first, dir)) => {
                    &&& lists_provisional(self@, cells(placed@))
                    &&& self@.has_provisional()
                    &&& first.pos() == self@.anchor()
                    &&& self@.play_direction() == Some(dir)
                },
                Err(e) => {
                    ||| e == WordPlacementError::PlayedWordEmpty && !self@.has_provisional()
                    ||| e == WordPlacementError::InvalidDirection && self@.has_provisional()
                        && self@.play_direction() is None
                },
            },
    {
        let placed = self.provisional_coordinates();
        proof {
            lemma_provisional_list(self@, cells(placed@));
        }
        if placed.len() == 0 {
            return Err(WordPlacementError::PlayedWordEmpty);
        }
        let first = placed[0];
        assert(first.pos() == cells(placed@)[0]);
        let (same_x, same_y) = shared_lines(&placed);
        assert(same_x == self@.same_column());
        assert(same_y == self@.same_row());
        let dir = if same_x && same_y {
            let h = self.find_range(first, Direction::Horizontal);
            let v = self.find_range(first, Direction::Vertical);
            assert(cells(h@).len() == h@.len());
            assert(cells(v@).len() == v@.len());
            if v.len() > h.len() {
                Direction::Vertical
            } else {
                Direction::Horizontal
            }
        } else if same_x {
            Direction::Vertical
        } else if same_y {
            Direction::Horizontal
        } else {
            return Err(WordPlacementError::InvalidDirection);
        };
        Ok((placed, first, dir))
    }

    /// The word of the play in progress, if no placed tile lies outside it and
    /// it is joined to the rest of the board.
    fn legal_run(&self, placed: &Vec<Coordinate>, first: Coordinate, dir: Direction) -> (r: Result<
        Vec<Coordinate>,
        WordPlacementError,
    >)
        requires
            self.wf(),
            lists_provisional(self@, cells(placed@)),
            first.pos() == self@.anchor(),
            self@.play_direction() == Some(dir),
        ensures
            match r {
                Ok(run) => {
                    &&& cells(run@) == self@.primary_run()
                    &&& !self@.scattered(self@.primary_run())
                    &&& self@.connected(self@.primary_run(), dir)
                },
                Err(e) => {
                    ||| e == WordPlacementError::ScatteredProvisionalTile && self@.scattered(
                        self@.primary_run(),
                    )
                    ||| e == WordPlacementError::WordNotAdjacent && !self@.scattered(
                        self@.primary_run(),
                    ) && !self@.connected(self@.primary_run(), dir)
                },
            },
    {
        let run = self.find_range(first, dir);
        proof {
            lemma_scattered_list(self@, cells(placed@), cells(run@));
        }
        if any_outside(placed, &run) {
            return Err(WordPlacementError::ScatteredProvisionalTile);
        }
        if self.all_provisional(&run) && !self.touches_neighbour(&run, dir) && !self.covers_center(
            &run,
        ) {
            return Err(WordPlacementError::WordNotAdjacent);
        }
        Ok(run)
    }

    /// Judges the play in progress without touching the board: the word it
    /// forms and its points, or the first reason against it.
    pub fn check_play(&self, values: &LetterValues) -> (r: Result<Play, WordPlacementError>)
        requires
            self.wf(),
        ensures
            match self@.judge(values@) {
                Ok(points) => r matches Ok(play) && play.points == points && Some(play.direction)
                    == self@.play_direction() && cells(play.run@) == self@.primary_run()
                    && play.anchor.pos() == self@.anchor(),
                Err(e) => r matches Err(x) && x == e,
            },
    {
        let (placed, first, dir) = match self.play_line() {
            Ok(line) => line,
            Err(e) => {
                return Err(e);
            },
        };
        let run = match self.legal_run(&placed, first, dir) {
            Ok(run) => run,
            Err(e) => {
                return Err(e);
            },
        };
        proof {
            let cs = cells(run@);
            assert(cs.take(cs.len() as int) == cs);
        }
        match self.score_word(values, &run, dir) {
            Ok(points) => Ok(Play { anchor: first, direction: dir, run, points }),
            Err(e) => Err(e),
        }
    }
}

/// Settling a run changes the tiles on it and nothing else: each becomes
/// permanent and keeps its letter.
pub proof fn lemma_settled(b: BoardView, run: Seq<(int, int)>)
    requires
        crate::grid::is_grid(b.tiles),
    ensures
        b.settled(run).squares == b.squares,
        b.settled(run).placed == b.placed,
        forall|q: (int, int)| b.settled(run).square_at(q) == b.square_at(q),
        forall|q: (int, int)|
            #[trigger] b.settled(run).tile_at(q) == (if run.contains(q) {
                settled_tile(b.tile_at(q))
            } else {
                b.tile_at(q)
            }),
        forall|q: (int, int)| b.settled(run).occupied(q) == b.occupied(q),
{
    let s = b.settled(run);
    assert forall|q: (int, int)|
        #[trigger] s.tile_at(q) == (if run.contains(q) {
            settled_tile(b.tile_at(q))
        } else {
            b.tile_at(q)
        }) by {
        if s.tiles.len() > 0 {
            assert(s.tiles[0].len() == b.tiles[0].len());
        }
        if crate::grid::grid_has(b.tiles, q) {
            assert(b.tiles[q.0].len() == crate::grid::grid_height(b.tiles));
            assert(s.tiles[q.0][q.1] == (if run.contains((q.0, q.1)) {
                settled_tile(b.tiles[q.0][q.1])
            } else {
                b.tiles[q.0][q.1]
            }));
            assert(q == (q.0, q.1));
        }
    }
    assert forall|q: (int, int)| s.occupied(q) == b.occupied(q) by {
        assert(s.tile_at(q) == (if run.contains(q) {
            settled_tile(b.tile_at(q))
        } else {
            b.tile_at(q)
        }));
    }
}

/// Settling nothing leaves the board as it is.
pub proof fn lemma_settled_none(b: BoardView)
    ensures
        b.settled(Seq::empty()) == b,
{
    let s = b.settled(Seq::empty());
    assert forall|x: int| 0 <= x < b.tiles.len() implies s.tiles[x] == b.tiles[x] by {
        assert forall|y: int| 0 <= y < b.tiles[x].len() implies s.tiles[x][y] == b.tiles[x][y] by {
            assert(!Seq::<(int, int)>::empty().contains((x, y)));
        }
        assert(s.tiles[x] =~= b.tiles[x]);
    }
    assert(s.tiles =~= b.tiles);
}

/// Settling one more cell of a run is settling the tile on that cell.
pub proof fn lemma_settled_step(b: BoardView, run: Seq<(int, int)>, i: int)
    requires
        crate::grid::is_grid(b.tiles),
        0 <= i < run.len(),
        b.occupied(run[i]),
    ensures
        b.settled(run.take(i)).occupied(run[i]),
        b.settled(run.take(i + 1)) == b.settled(run.take(i)).with_tile(
            run[i],
            b.settled(run.take(i)).tile_at(run[i]).unwrap().permanent(),
        ),
{
    let before = b.settled(run.take(i));
    let after = b.settled(run.take(i + 1));
    let p = run[i];
    lemma_settled(b, run.take(i));
    assert(before.occupied(p) == b.occupied(p));
    assert(before.tile_at(p) == (if run.take(i).contains(p) {
        settled_tile(b.tile_at(p))
    } else {
        b.tile_at(p)
    }));
    let t = before.tile_at(p).unwrap().permanent();
    let stepped = before.with_tile(p, t);
    assert(run.take(i + 1)[i] == p);
    assert(b.tiles[p.0].len() == crate::grid::grid_height(b.tiles));
    assert forall|x: int| 0 <= x < b.tiles.len() implies stepped.tiles[x] == after.tiles[x] by {
        assert forall|y: int| 0 <= y < b.tiles[x].len() implies stepped.tiles[x][y]
            == after.tiles[x][y] by {
            if (x, y) == p {
                assert(run.take(i + 1).contains((x, y)));
            } else {
                let longer = run.take(i + 1);
                let shorter = run.take(i);
                if longer.contains((x, y)) {
                    let k = choose|k: int| 0 <= k < longer.len() && longer[k] == (x, y);
                    assert(shorter[k] == (x, y));
                }
                if shorter.contains((x, y)) {
                    let k = choose|k: int| 0 <= k < shorter.len() && shorter[k] == (x, y);
                    assert(longer[k] == (x, y));
                }
            }
        }
        assert(stepped.tiles[x] =~= after.tiles[x]);
    }
    assert(stepped.tiles =~= after.tiles);
}

impl Board {
    /// Makes the tiles on `run` permanent.
    pub(crate) fn promote(&mut self, run: &Vec<Coordinate>)
        requires
            old(self).wf(),
            forall|i: int| 0 <= i < run@.len() ==> old(self)@.occupied(#[trigger] cells(run@)[i]),
        ensures
            final(self).wf(),
            final(self)@ == old(self)@.settled(cells(run@)),
    {
        let ghost b = self@;
        let ghost cs = cells(run@);
        let mut i: usize = 0;
        proof {
            lemma_settled_none(b);
            assert(cs.take(0) == Seq::<(int, int)>::empty());
        }
        while i < run.len()
            invariant
                b.wf(),
                self.wf(),
                cs == cells(run@),
                i <= run@.len(),
                forall|k: int| 0 <= k < cs.len() ==> b.occupied(#[trigger] cs[k]),
                self@ == b.settled(cs.take(i as int)),
            decreases run@.len() - i,
        {
            proof {
                lemma_settled_step(b, cs, i as int);
                assert(cs[i as int] == run@[i as int].pos());
            }
            self.settle(run[i]);
            i += 1;
        }
        assert(cs.take(i as int) == cs);
    }

    /// Commits the play in progress: checks it, makes its tiles permanent and
    /// returns its points. Where the play is refused, the board stays as it
    /// was.
    pub fn commit(&mut self, values: &LetterValues) -> (r: Result<isize, WordPlacementError>)
        requires
            old(self).wf(),
        ensures
            final(self).wf(),
            match old(self)@.judge(values@) {
                Ok(points) => r == Ok::<isize, WordPlacementError>(points as isize) && fits(points)
                    && final(self)@ == old(self)@.committed(),
                Err(e) => r == Err::<isize, WordPlacementError>(e) && final(self)@ == old(self)@,
            },
    {
        match self.check_play(values) {
            Ok(play) => {
                proof {
                    lemma_primary_run_occupied(self@);
                }
                self.promote(&play.run);
                Ok(play.points)
            },
            Err(e) => Err(e),
        }
    }
}

/// Where there is a play in progress along a line, every cell of its word
/// holds a tile.
pub proof fn lemma_primary_run_occupied(b: BoardView)
    requires
        b.has_provisional(),
        b.play_direction() is Some,
    ensures
        forall|i: int| 0 <= i < b.primary_run().len() ==> b.occupied(#[trigger] b.primary_run()[i]),
{
    lemma_anchor_exists(b);
    lemma_run_occupied(b, b.anchor(), b.play_direction().unwrap());
}

/// A board with provisional tiles has a first one.
pub proof fn lemma_anchor_exists(b: BoardView)
    requires
        b.has_provisional(),
    ensures
        b.is_anchor(b.anchor()),
{
    let p = choose|p: (int, int)| b.provisional(p);
    lemma_first_provisional(b, p);
}

/// Among the provisional cells up to `p` in reading order there is a first
/// one.
proof fn lemma_first_provisional(b: BoardView, p: (int, int))
    requires
        b.provisional(p),
    ensures
        exists|a: (int, int)| b.is_anchor(a),
    decreases p.0, p.1,
{
    if b.is_anchor(p) {
    } else {
        let q = choose|q: (int, int)| b.provisional(q) && q != p && !scan_lt(p, q);
        assert(scan_lt(q, p));
        assert(b.tile_at(q) is Some);
        assert(crate::grid::grid_has(b.tiles, q));
        lemma_first_provisional(b, q);
    }
}

} // verus!
