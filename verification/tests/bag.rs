use crabble::bag::Bag;
use crabble::language::{Distribution, Language};
use crabble::tile::HandTile;

fn count(bag: &mut Bag, tile: HandTile) -> usize {
    let mut n = 0;
    while !bag.is_empty() {
        if bag.take() == Some(tile) {
            n += 1;
        }
    }
    n
}

#[test]
fn test_english() {
    let lang = Language::by_name("english").unwrap();
    let mut bag = Bag::full(&lang.distribution);

    let mut number_of_e = 0;
    while !bag.is_empty() {
        if let Some(HandTile::Letter('e')) = bag.take() {
            number_of_e += 1;
        }
    }

    assert_eq!(number_of_e, 12);
    assert_eq!(lang.values.get(HandTile::Letter('q')), 10);
}

#[test]
fn test_dutch() {
    let lang = Language::by_name("dutch").unwrap();
    let mut bag = Bag::full(&lang.distribution);

    let mut number_of_e = 0;
    while !bag.is_empty() {
        if let Some(HandTile::Letter('e')) = bag.take() {
            number_of_e += 1;
        }
    }

    assert_eq!(number_of_e, 18);
    assert_eq!(lang.values.get(HandTile::Letter('y')), 8);
}

#[test]
fn full_english_bag_has_a_hundred_tiles() {
    let lang = Language::by_name("english").unwrap();
    let bag = Bag::full(&lang.distribution);
    assert_eq!(bag.len(), 100);
}

#[test]
fn full_dutch_bag_has_a_hundred_and_two_tiles() {
    let lang = Language::by_name("dutch").unwrap();
    let bag = Bag::full(&lang.distribution);
    assert_eq!(bag.len(), 102);
}

#[test]
fn full_bag_lists_rows_in_order() {
    let mut d = Distribution::new();
    d.push(HandTile::Letter('a'), 2);
    d.push(HandTile::Joker, 1);
    d.push(HandTile::Letter('a'), 1);
    let mut bag = Bag::full(&d);
    assert_eq!(bag.len(), 4);
    // the last tile of the sequence is drawn first
    assert_eq!(bag.take(), Some(HandTile::Letter('a')));
    assert_eq!(bag.take(), Some(HandTile::Joker));
    assert_eq!(bag.take(), Some(HandTile::Letter('a')));
    assert_eq!(bag.take(), Some(HandTile::Letter('a')));
    assert_eq!(bag.take(), None);
    assert!(bag.is_empty());
}

#[test]
fn drained_bag_matches_every_declared_count() {
    let lang = Language::by_name("english").unwrap();
    for (tile, _) in lang.distribution.iter() {
        let declared: usize = lang
            .distribution
            .iter()
            .iter()
            .filter(|(t, _)| *t == tile)
            .map(|(_, n)| *n)
            .sum();
        let mut bag = Bag::full(&lang.distribution);
        assert_eq!(count(&mut bag, tile), declared);
    }
}

#[test]
fn shuffle_keeps_the_tiles() {
    let lang = Language::by_name("english").unwrap();
    let mut bag = Bag::full(&lang.distribution);
    bag.shuffle();
    assert_eq!(bag.len(), 100);
    let mut e = 0;
    let mut jokers = 0;
    while let Some(t) = bag.take() {
        match t {
            HandTile::Letter('e') => e += 1,
            HandTile::Joker => jokers += 1,
            _ => {}
        }
    }
    assert_eq!(e, 12);
    assert_eq!(jokers, 2);
}

#[test]
fn shuffle_changes_the_order_of_a_full_bag() {
    // A full bag comes sorted by rows; a hundred tiles stay that way under a
    // shuffle about once in 10^110 tries.
    let lang = Language::by_name("english").unwrap();
    let mut sorted = Bag::full(&lang.distribution);
    let mut shuffled = Bag::full(&lang.distribution);
    shuffled.shuffle();
    let mut same = true;
    while let Some(t) = sorted.take() {
        if shuffled.take() != Some(t) {
            same = false;
        }
    }
    assert!(!same);
}

#[test]
fn put_adds_one_tile() {
    let mut bag = Bag::empty();
    assert!(bag.is_empty());
    bag.put(HandTile::Letter('x'));
    assert_eq!(bag.len(), 1);
    bag.put(HandTile::Joker);
    bag.put(HandTile::Letter('x'));
    assert_eq!(bag.len(), 3);
    assert_eq!(count(&mut bag, HandTile::Letter('x')), 2);
}

#[test]
fn put_keeps_the_other_tiles() {
    let mut d = Distribution::new();
    d.push(HandTile::Letter('a'), 5);
    let mut bag = Bag::full(&d);
    bag.put(HandTile::Letter('b'));
    assert_eq!(bag.len(), 6);
    let mut a = 0;
    let mut b = 0;
    while let Some(t) = bag.take() {
        match t {
            HandTile::Letter('a') => a += 1,
            HandTile::Letter('b') => b += 1,
            _ => panic!("a tile that was never put in"),
        }
    }
    assert_eq!((a, b), (5, 1));
}

#[test]
fn take_from_empty_bag_gives_none() {
    let mut bag = Bag::empty();
    assert_eq!(bag.take(), None);
    assert!(bag.is_empty());
}
