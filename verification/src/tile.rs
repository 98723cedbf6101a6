//! Letter tiles: as they lie on the board, and as they sit on a rack.

use vstd::prelude::*;

verus! {

/// A letter as played. A joker shows the letter chosen for it when it was
/// played and is worth nothing.
#[derive(Clone, Copy, PartialEq, Eq, Debug, Hash, Structural)]
pub struct Tile {
    pub tile: char,
    pub is_joker: bool,
}

/// A tile on the board. It is provisional from the moment it is placed until
/// the play it belongs to has been committed.
#[derive(Clone, Copy, PartialEq, Eq, Debug, Structural)]
pub struct BoardTile {
    pub tile: Tile,
    pub is_provisional: bool,
}

/// A tile on a rack or in the bag. A joker has no letter until it is played.
#[derive(Clone, Copy, PartialEq, Eq, Debug, Hash, Structural)]
pub enum HandTile {
    Joker,
    Letter(char),
}

/// The tiles a player holds, in the order in which they were drawn.
#[derive(Debug)]
pub struct Hand {
    pub letters: Vec<HandTile>,
}

/// The number of tiles a rack is filled up to.
pub const HAND_SIZE: usize = 7;

impl Tile {
    /// A tile that shows `tile`.
    pub fn new(tile: char, is_joker: bool) -> (t: Tile)
        ensures
            t.tile == tile,
            t.is_joker == is_joker,
    {
        Tile { tile, is_joker }
    }

    /// The rack tile that this tile was played from.
    pub open spec fn spec_hand_tile(self) -> HandTile {
        if self.is_joker {
            HandTile::Joker
        } else {
            HandTile::Letter(self.tile)
        }
    }

    /// The rack tile that this tile was played from.
    #[verifier::when_used_as_spec(spec_hand_tile)]
    pub fn hand_tile(self) -> (h: HandTile)
        ensures
            h == self.spec_hand_tile(),
    {
        if self.is_joker {
            HandTile::Joker
        } else {
            HandTile::Letter(self.tile)
        }
    }
}

impl BoardTile {
    /// The tile once its play is committed.
    pub open spec fn spec_permanent(self) -> BoardTile {
        BoardTile { tile: self.tile, is_provisional: false }
    }

    /// The tile once its play is committed.
    #[verifier::when_used_as_spec(spec_permanent)]
    pub fn permanent(self) -> (t: BoardTile)
        ensures
            t == self.spec_permanent(),
    {
        BoardTile { tile: self.tile, is_provisional: false }
    }
}

impl HandTile {
    /// The character a rack tile is shown as: its letter, or `*` for a joker.
    pub open spec fn spec_symbol(self) -> char {
        match self {
            HandTile::Joker => '*',
            HandTile::Letter(l) => l,
        }
    }

    /// The character a rack tile is shown as: its letter, or `*` for a joker.
    #[verifier::when_used_as_spec(spec_symbol)]
    pub fn symbol(self) -> (c: char)
        ensures
            c == self.spec_symbol(),
    {
        match self {
            HandTile::Joker => '*',
            HandTile::Letter(l) => l,
        }
    }
}

impl View for Hand {
    type V = Seq<HandTile>;

    open spec fn view(&self) -> Seq<HandTile> {
        self.letters@
    }
}

impl Hand {
    /// A rack without tiles.
    pub fn empty() -> (h: Hand)
        ensures
            h@ == Seq::<HandTile>::empty(),
    {
        Hand { letters: Vec::new() }
    }

    /// The number of tiles on the rack.
    pub fn len(&self) -> (n: usize)
        ensures
            n == self@.len(),
    {
        self.letters.len()
    }

    /// Whether the rack holds no tile.
    pub fn is_empty(&self) -> (b: bool)
        ensures
            b == (self@.len() == 0),
    {
        self.letters.len() == 0
    }

    /// Takes the first tile equal to `tile` off the rack, and says whether
    /// there was one.
    pub fn remove(&mut self, tile: HandTile) -> (found: bool)
        ensures
            found == old(self)@.contains(tile),
            final(self)@ == old(self)@.remove_value(tile),
    {
        let mut i: usize = 0;
        while i < self.letters.len()
            invariant
                i <= self.letters.len(),
                self.letters@ == old(self)@,
                forall|j: int| 0 <= j < i ==> old(self)@[j] != tile,
            decreases self.letters.len() - i,
        {
            if self.letters[i] == tile {
                proof {
                    assert(old(self)@[i as int] == tile);
                    old(self)@.index_of_first_ensures(tile);
                }
                self.letters.remove(i);
                return true;
            }
            i += 1;
        }
        proof {
            old(self)@.index_of_first_ensures(tile);
        }
        false
    }
}

} // verus!
