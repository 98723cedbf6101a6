//! The bag: the tiles not yet drawn.

use crate::language::{declared, expand, Distribution};
use crate::tile::HandTile;
use rand::rngs::ThreadRng;
use rand::seq::SliceRandom;
use rand::Rng;

use vstd::prelude::*;
use vstd::seq_lib::{lemma_multiset_commutative, to_multiset_build, to_multiset_update};

verus! {

/// The generator that `rand::thread_rng` hands out. Nothing is known of what
/// it holds.
#[verifier::external_type_specification]
#[verifier::external_body]
pub struct ExThreadRng(ThreadRng);

/// `rand::thread_rng`: the calling thread's generator, seeded by the system.
/// Nothing is claimed of it.
pub assume_specification[ rand::thread_rng ]() -> (rng: ThreadRng)
;

/// `SliceRandom::shuffle` on the tiles: it only swaps elements, so the same
/// tiles are there afterwards, each as often as before, in an order that
/// depends on the generator.
#[verifier::external_body]
fn shuffle_tiles(tiles: &mut Vec<HandTile>, rng: &mut ThreadRng)
    ensures
        final(tiles)@.to_multiset() == old(tiles)@.to_multiset(),
{
    tiles.shuffle(rng);
}

/// `Rng::gen_range` on `0..n`: some index below `n`, which depends on the
/// generator. The range must not be empty.
#[verifier::external_body]
fn random_below(rng: &mut ThreadRng, n: usize) -> (i: usize)
    requires
        n > 0,
    ensures
        i < n,
{
    rng.gen_range(0..n)
}

/// The tiles not yet drawn. The last tile of the sequence is drawn first.
#[derive(Debug)]
pub struct Bag {
    tiles: Vec<HandTile>,
}

impl View for Bag {
    type V = Seq<HandTile>;

    closed spec fn view(&self) -> Seq<HandTile> {
        self.tiles@
    }
}

/// The tiles in the order in which they leave a bag that is drawn empty.
pub open spec fn drawn_out(bag: Seq<HandTile>) -> Seq<HandTile>
    decreases bag.len(),
{
    if bag.len() == 0 {
        Seq::empty()
    } else {
        seq![bag.last()] + drawn_out(bag.drop_last())
    }
}

impl Bag {
    /// A bag without tiles.
    pub fn empty() -> (bag: Bag)
        ensures
            bag@ == Seq::<HandTile>::empty(),
    {
        Bag { tiles: Vec::new() }
    }

    /// A bag with every tile of `distribution`, row after row.
    pub fn full(distribution: &Distribution) -> (bag: Bag)
        ensures
            bag@ == expand(distribution@),
    {
        let rows = distribution.iter();
        let mut tiles: Vec<HandTile> = Vec::new();
        let mut i: usize = 0;
        assert(rows@.take(0) == Seq::<(HandTile, usize)>::empty());
        while i < rows.len()
            invariant
                i <= rows@.len(),
                tiles@ == expand(rows@.take(i as int)),
            decreases rows@.len() - i,
        {
            let (tile, amount) = rows[i];
            let ghost before = tiles@;
            let mut j: usize = 0;
            while j < amount
                invariant
                    j <= amount,
                    tiles@ == before + Seq::new(j as nat, |k: int| tile),
                decreases amount - j,
            {
                tiles.push(tile);
                j += 1;
            }
            proof {
                assert(rows@.take(i + 1).drop_last() == rows@.take(i as int));
                assert(rows@.take(i + 1).last() == (tile, amount));
            }
            i += 1;
        }
        assert(rows@.take(i as int) == rows@);
        Bag { tiles }
    }

    /// Puts the tiles in a random order.
    pub fn shuffle(&mut self)
        ensures
            final(self)@.to_multiset() == old(self)@.to_multiset(),
    {
        let mut rng = rand::thread_rng();
        shuffle_tiles(&mut self.tiles, &mut rng);
    }

    /// Draws a tile: the last of the sequence. None from an empty bag.
    pub fn take(&mut self) -> (tile: Option<HandTile>)
        ensures
            old(self)@.len() == 0 ==> tile is None && final(self)@ == old(self)@,
            old(self)@.len() > 0 ==> tile == Some(old(self)@.last()) && final(self)@ == old(
                self,
            )@.drop_last(),
    {
        self.tiles.pop()
    }

    /// Puts a tile back, at a random place.
    pub fn put(&mut self, tile: HandTile)
        ensures
            final(self)@.to_multiset() == old(self)@.to_multiset().insert(tile),
    {
        self.tiles.push(tile);
        let mut rng = rand::thread_rng();
        let idx: usize = random_below(&mut rng, self.tiles.len());
        let final_idx: usize = self.tiles.len() - 1;
        let ghost pushed = self.tiles@;
        let a = self.tiles[idx];
        let b = self.tiles[final_idx];
        self.tiles.set(idx, b);
        let ghost half = self.tiles@;
        self.tiles.set(final_idx, a);
        proof {
            to_multiset_build(old(self)@, tile);
            to_multiset_update(pushed, idx as int, b);
            to_multiset_update(half, final_idx as int, a);
            assert(half[final_idx as int] == b);
            assert(pushed.contains(a));
            assert(pushed.contains(b));
            vstd::seq_lib::to_multiset_contains(pushed, a);
            vstd::seq_lib::to_multiset_contains(pushed, b);
            let m = pushed.to_multiset();
            assert(m.insert(b).remove(a).insert(a).remove(b) =~= m) by {
                broadcast use vstd::multiset::group_multiset_axioms;

            }
        }
    }

    /// Whether the bag holds no tile.
    pub fn is_empty(&self) -> (b: bool)
        ensures
            b == (self@.len() == 0),
    {
        self.tiles.len() == 0
    }

    /// The number of tiles in the bag.
    pub fn len(&self) -> (n: usize)
        ensures
            n == self@.len(),
    {
        self.tiles.len()
    }
}

/// A run of `n` equal tiles holds that tile `n` times and no other.
pub proof fn lemma_repeat_count(tile: HandTile, n: nat, other: HandTile)
    ensures
        Seq::new(n, |k: int| tile).to_multiset().count(other) == (if other == tile {
            n
        } else {
            0
        }),
    decreases n,
{
    let s = Seq::new(n, |k: int| tile);
    if n == 0 {
        assert(s.to_multiset().len() == 0) by {
            vstd::seq_lib::to_multiset_len(s);
        }
    } else {
        let shorter = Seq::new((n - 1) as nat, |k: int| tile);
        assert(s == shorter.push(tile));
        to_multiset_build(shorter, tile);
        lemma_repeat_count(tile, (n - 1) as nat, other);
    }
}

/// A full bag holds of each kind of tile as many as the distribution's rows
/// declare.
pub proof fn lemma_expand_count(rows: Seq<(HandTile, usize)>, tile: HandTile)
    ensures
        expand(rows).to_multiset().count(tile) == declared(rows, tile),
    decreases rows.len(),
{
    if rows.len() == 0 {
        assert(expand(rows).to_multiset().len() == 0) by {
            vstd::seq_lib::to_multiset_len(expand(rows));
        }
    } else {
        let head = expand(rows.drop_last());
        let tail = Seq::new(rows.last().1 as nat, |i: int| rows.last().0);
        lemma_expand_count(rows.drop_last(), tile);
        lemma_repeat_count(rows.last().0, rows.last().1 as nat, tile);
        lemma_multiset_commutative(head, tail);
    }
}

/// Drawing a bag empty brings out the tiles that were in it, each as often as
/// it was there.
pub proof fn lemma_drawn_out(bag: Seq<HandTile>)
    ensures
        drawn_out(bag).to_multiset() == bag.to_multiset(),
        drawn_out(bag).len() == bag.len(),
    decreases bag.len(),
{
    if bag.len() == 0 {
        assert(drawn_out(bag) == bag);
    } else {
        let rest = bag.drop_last();
        lemma_drawn_out(rest);
        lemma_multiset_commutative(seq![bag.last()], drawn_out(rest));
        assert(bag == rest.push(bag.last()));
        to_multiset_build(rest, bag.last());
        assert(seq![bag.last()] == Seq::<HandTile>::empty().push(bag.last()));
        to_multiset_build(Seq::<HandTile>::empty(), bag.last());
        assert(Seq::<HandTile>::empty().to_multiset().len() == 0) by {
            vstd::seq_lib::to_multiset_len(Seq::<HandTile>::empty());
        }
        assert(drawn_out(bag).to_multiset() =~= bag.to_multiset());
    }
}

/// A bag filled from a distribution and drawn empty yields of each kind of
/// tile exactly as many as the distribution declares.
pub proof fn lemma_full_bag_round_trip(rows: Seq<(HandTile, usize)>, tile: HandTile)
    ensures
        drawn_out(expand(rows)).to_multiset().count(tile) == declared(rows, tile),
{
    lemma_drawn_out(expand(rows));
    lemma_expand_count(rows, tile);
}

} // verus!
