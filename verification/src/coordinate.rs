//! Board addresses and the two directions in which words run.

use std::ops::{Add, Sub};
use vstd::prelude::*;
use vstd::std_specs::ops::{AddSpecImpl, SubSpecImpl};

verus! {

/// A cell address. Nothing confines it to a board: the board decides what
/// lies within its extent.
#[derive(Clone, Copy, Debug, PartialEq, Eq, Hash, Structural)]
pub struct Coordinate {
    pub x: isize,
    pub y: isize,
}

/// The axis along which a word is laid out.
#[derive(Clone, Copy, Debug, PartialEq, Eq, Structural)]
pub enum Direction {
    Horizontal,
    Vertical,
}

impl Coordinate {
    /// The coordinate as a pair of mathematical integers.
    pub open spec fn pos(self) -> (int, int) {
        (self.x as int, self.y as int)
    }

    /// The coordinate of column `x` and row `y`.
    pub fn new(x: isize, y: isize) -> (c: Coordinate)
        ensures
            c.x == x,
            c.y == y,
    {
        Coordinate { x, y }
    }

    /// Component-wise difference, when neither component of `other` exceeds
    /// that of `self` and both differences are representable.
    pub open spec fn spec_checked_sub(self, other: Coordinate) -> Option<Coordinate> {
        if other.x <= self.x && other.y <= self.y && self.x - other.x <= isize::MAX && self.y
            - other.y <= isize::MAX {
            Some(Coordinate { x: (self.x - other.x) as isize, y: (self.y - other.y) as isize })
        } else {
            None
        }
    }

    /// Component-wise difference; none where a component of `other` exceeds
    /// that of `self` or a difference cannot be represented.
    pub fn checked_sub(self, other: Coordinate) -> (r: Option<Coordinate>)
        ensures
            r == self.spec_checked_sub(other),
    {
        if other.x > self.x || other.y > self.y {
            return None;
        }
        match (self.x.checked_sub(other.x), self.y.checked_sub(other.y)) {
            (Some(x), Some(y)) => Some(Coordinate { x, y }),
            _ => None,
        }
    }

    /// Moves the coordinate by `rhs` in place.
    pub fn add_assign(&mut self, rhs: Coordinate)
        requires
            isize::MIN <= old(self).x + rhs.x <= isize::MAX,
            isize::MIN <= old(self).y + rhs.y <= isize::MAX,
        ensures
            final(self).x == old(self).x + rhs.x,
            final(self).y == old(self).y + rhs.y,
    {
        self.x = self.x + rhs.x;
        self.y = self.y + rhs.y;
    }
}

impl Add for Coordinate {
    type Output = Coordinate;

    fn add(self, other: Coordinate) -> (r: Coordinate) {
        Coordinate { x: self.x + other.x, y: self.y + other.y }
    }
}

impl AddSpecImpl for Coordinate {
    open spec fn obeys_add_spec() -> bool {
        true
    }

    open spec fn add_req(self, other: Coordinate) -> bool {
        &&& isize::MIN <= self.x + other.x <= isize::MAX
        &&& isize::MIN <= self.y + other.y <= isize::MAX
    }

    open spec fn add_spec(self, other: Coordinate) -> Coordinate {
        Coordinate { x: (self.x + other.x) as isize, y: (self.y + other.y) as isize }
    }
}

impl Sub for Coordinate {
    type Output = Coordinate;

    fn sub(self, other: Coordinate) -> (r: Coordinate) {
        Coordinate { x: self.x - other.x, y: self.y - other.y }
    }
}

impl SubSpecImpl for Coordinate {
    open spec fn obeys_sub_spec() -> bool {
        true
    }

    open spec fn sub_req(self, other: Coordinate) -> bool {
        &&& isize::MIN <= self.x - other.x <= isize::MAX
        &&& isize::MIN <= self.y - other.y <= isize::MAX
    }

    open spec fn sub_spec(self, other: Coordinate) -> Coordinate {
        Coordinate { x: (self.x - other.x) as isize, y: (self.y - other.y) as isize }
    }
}

impl Direction {
    /// The unit step along the direction, as integers.
    pub open spec fn step(self) -> (int, int) {
        match self {
            Direction::Horizontal => (1, 0),
            Direction::Vertical => (0, 1),
        }
    }

    /// The cell `k` steps from `p` along the direction; backwards for
    /// negative `k`.
    pub open spec fn shift(self, p: (int, int), k: int) -> (int, int) {
        match self {
            Direction::Horizontal => (p.0 + k, p.1),
            Direction::Vertical => (p.0, p.1 + k),
        }
    }

    /// The other direction.
    pub open spec fn spec_flip(self) -> Direction {
        match self {
            Direction::Horizontal => Direction::Vertical,
            Direction::Vertical => Direction::Horizontal,
        }
    }

    /// The unit step along the direction, as a coordinate.
    pub fn to_offset(self) -> (c: Coordinate)
        ensures
            c.pos() == self.step(),
    {
        match self {
            Direction::Horizontal => Coordinate { x: 1, y: 0 },
            Direction::Vertical => Coordinate { x: 0, y: 1 },
        }
    }

    /// The other direction.
    #[verifier::when_used_as_spec(spec_flip)]
    pub fn flip(self) -> (d: Direction)
        ensures
            d == self.spec_flip(),
    {
        match self {
            Direction::Horizontal => Direction::Vertical,
            Direction::Vertical => Direction::Horizontal,
        }
    }
}

/// Flipping a direction twice gives it back.
pub proof fn lemma_flip_involutive(d: Direction)
    ensures
        d.flip().flip() == d,
{
}

} // verus!
