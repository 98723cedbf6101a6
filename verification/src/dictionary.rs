//! The dictionary: a sorted list of words, and whether the words of a play
//! are in it.

use crate::board::{Board, BoardView};
use crate::coordinate::{Coordinate, Direction};
use crate::run::{cells, lemma_run_occupied};
use crate::text::{chars_of, lemma_split_len, pieces_view, split, split_chars, text_lines};
use crate::tile::BoardTile;
use vstd::prelude::*;

verus! {

/// Whether `k` is where `a` and `b` part: they agree before `k`, and at `k`
/// they differ or one of them ends.
pub open spec fn part_at(a: Seq<char>, b: Seq<char>, k: int) -> bool {
    &&& 0 <= k <= a.len()
    &&& k <= b.len()
    &&& forall|j: int| 0 <= j < k ==> a[j] == b[j]
    &&& (k == a.len() || k == b.len() || a[k] != b[k])
}

/// Whether `a` comes before `b` in the order of the dictionary: where they
/// part, `a` ends and `b` goes on, or `a` has the lesser character.
pub open spec fn word_lt(a: Seq<char>, b: Seq<char>) -> bool {
    exists|k: int| part_at(a, b, k) && k < b.len() && (k == a.len() || a[k] < b[k])
}

/// Two words part at one place only.
pub proof fn lemma_part_unique(a: Seq<char>, b: Seq<char>, k: int, m: int)
    requires
        part_at(a, b, k),
        part_at(a, b, m),
    ensures
        k == m,
{
    if k < m {
        assert(a[k] == b[k]);
    }
    if m < k {
        assert(a[m] == b[m]);
    }
}

/// No word comes before itself.
pub proof fn lemma_word_lt_irreflexive(a: Seq<char>)
    ensures
        !word_lt(a, a),
{
    if word_lt(a, a) {
        let k = choose|k: int| part_at(a, a, k) && k < a.len() && (k == a.len() || a[k] < a[k]);
        assert(false);
    }
}

/// The order of the dictionary is transitive.
pub proof fn lemma_word_lt_transitive(a: Seq<char>, b: Seq<char>, c: Seq<char>)
    requires
        word_lt(a, b),
        word_lt(b, c),
    ensures
        word_lt(a, c),
{
    let k = choose|k: int| part_at(a, b, k) && k < b.len() && (k == a.len() || a[k] < b[k]);
    let m = choose|m: int| part_at(b, c, m) && m < c.len() && (m == b.len() || b[m] < c[m]);
    let n = if k <= m {
        k
    } else {
        m
    };
    assert forall|j: int| 0 <= j < n implies a[j] == c[j] by {
        assert(a[j] == b[j]);
        assert(b[j] == c[j]);
    }
    if k < m {
        assert(b[k] == c[k]);
    }
    if m < k {
        assert(a[m] == b[m]);
    }
    assert(part_at(a, c, n) && n < c.len() && (n == a.len() || a[n] < c[n]));
}

/// Whether the words stand in the order of the dictionary, none twice.
pub open spec fn sorted(words: Seq<Seq<char>>) -> bool {
    forall|i: int, j: int| 0 <= i < j < words.len() ==> word_lt(#[trigger] words[i], #[trigger] words[j])
}

/// The lines of a text as `str::lines` gives them: the pieces between line
/// feeds, each without a carriage return before its line feed, and no empty
/// last line.
pub open spec fn str_lines(text: Seq<char>) -> Seq<Seq<char>> {
    let lines = text_lines(text);
    if lines.len() > 0 && lines.last().len() == 0 {
        lines.drop_last()
    } else {
        lines
    }
}

/// How two words stand to each other.
#[derive(Clone, Copy, Debug, PartialEq, Eq, Structural)]
pub enum Rank {
    Before,
    Same,
    After,
}

/// Compares two words in the order of the dictionary.
pub fn rank(a: &Vec<char>, b: &Vec<char>) -> (r: Rank)
    ensures
        r == Rank::Before <==> word_lt(a@, b@),
        r == Rank::Same <==> a@ == b@,
        r == Rank::After <==> word_lt(b@, a@),
{
    let mut i: usize = 0;
    while i < a.len() && i < b.len() && a[i] == b[i]
        invariant
            i <= a@.len(),
            i <= b@.len(),
            forall|j: int| 0 <= j < i ==> a@[j] == b@[j],
        decreases a@.len() - i,
    {
        i += 1;
    }
    assert(part_at(a@, b@, i as int));
    assert(part_at(b@, a@, i as int));
    proof {
        if word_lt(a@, b@) {
            let k = choose|k: int|
                part_at(a@, b@, k) && k < b@.len() && (k == a@.len() || a@[k] < b@[k]);
            lemma_part_unique(a@, b@, k, i as int);
        }
        if word_lt(b@, a@) {
            let k = choose|k: int|
                part_at(b@, a@, k) && k < a@.len() && (k == b@.len() || b@[k] < a@[k]);
            lemma_part_unique(b@, a@, k, i as int);
        }
        if a@ == b@ {
            lemma_word_lt_irreflexive(a@);
        }
    }
    if i == a.len() && i == b.len() {
        assert(a@ =~= b@);
        Rank::Same
    } else if i == a.len() {
        Rank::Before
    } else if i == b.len() {
        Rank::After
    } else if a[i] < b[i] {
        Rank::Before
    } else {
        Rank::After
    }
}

/// A list of words.
#[derive(Debug)]
pub struct Dictionary {
    words: Vec<Vec<char>>,
}

impl View for Dictionary {
    type V = Seq<Seq<char>>;

    closed spec fn view(&self) -> Seq<Seq<char>> {
        pieces_view(self.words@)
    }
}

impl Dictionary {
    /// The dictionary of the lines of `text`, a word to a line.
    pub fn from_text(text: &str) -> (d: Dictionary)
        ensures
            d@ == str_lines(text@),
    {
        let s = chars_of(text);
        let mut pieces = split_chars(&s, '\n');
        proof {
            lemma_split_len(s@, '\n');
            assert(pieces_view(pieces@).len() == pieces@.len());
        }
        let n: usize = pieces.len();
        let mut words: Vec<Vec<char>> = Vec::new();
        let mut i: usize = 0;
        while i < n
            invariant
                n == pieces@.len(),
                i <= n,
                pieces_view(pieces@) == split(text@, '\n'),
                pieces_view(words@) == text_lines(text@).take(i as int),
            decreases n - i,
        {
            let piece = &pieces[i];
            let mut m: usize = piece.len();
            if i < n - 1 && m > 0 && piece[m - 1] == '\r' {
                m = m - 1;
            }
            let mut word: Vec<char> = Vec::new();
            let mut k: usize = 0;
            while k < m
                invariant
                    k <= m <= piece@.len(),
                    word@ == piece@.take(k as int),
                decreases m - k,
            {
                word.push(piece[k]);
                assert(piece@.take(k + 1) == piece@.take(k as int).push(piece@[k as int]));
                k += 1;
            }
            proof {
                assert(pieces_view(pieces@)[i as int] == piece@);
                assert(piece@.take(piece@.len() as int) == piece@);
                assert(word@ == text_lines(text@)[i as int]);
            }
            let ghost before = pieces_view(words@);
            words.push(word);
            proof {
                assert(pieces_view(words@) =~= before.push(text_lines(text@)[i as int]));
                assert(text_lines(text@).take(i + 1) =~= text_lines(text@).take(i as int).push(
                    text_lines(text@)[i as int],
                ));
            }
            i += 1;
        }
        proof {
            assert(text_lines(text@).take(n as int) == text_lines(text@));
            assert(pieces_view(words@).len() == words@.len());
        }
        if words.len() > 0 && words[words.len() - 1].len() == 0 {
            let ghost before = pieces_view(words@);
            assert(before.last() == words@[words@.len() - 1]@);
            words.pop();
            assert(pieces_view(words@) =~= before.drop_last());
        } else {
            if words.len() > 0 {
                assert(pieces_view(words@).last() == words@[words@.len() - 1]@);
            }
        }
        Dictionary { words }
    }

    /// Whether the words stand in the order of the dictionary.
    pub fn is_sorted(&self) -> (b: bool)
        ensures
            b == sorted(self@),
    {
        if self.words.len() < 2 {
            return true;
        }
        let mut i: usize = 1;
        while i < self.words.len()
            invariant
                1 <= i <= self.words@.len(),
                forall|j: int| 0 <= j < i - 1 ==> word_lt(#[trigger] self@[j], self@[j + 1]),
            decreases self.words@.len() - i,
        {
            assert(self@[i - 1] == self.words@[i - 1]@);
            assert(self@[i as int] == self.words@[i as int]@);
            match rank(&self.words[i - 1], &self.words[i]) {
                Rank::Before => {},
                _ => {
                    assert(!word_lt(self@[i - 1], self@[i as int]));
                    return false;
                },
            }
            i += 1;
        }
        proof {
            assert(self@.len() == self.words@.len());
            lemma_neighbours_sorted(self@);
        }
        true
    }

    /// Whether `word` is in the dictionary, found by halving. In a dictionary
    /// that is not sorted a word that is there may be missed.
    pub fn contains(&self, word: &Vec<char>) -> (b: bool)
        ensures
            b ==> self@.contains(word@),
            sorted(self@) ==> b == self@.contains(word@),
    {
        let mut low: usize = 0;
        let mut high: usize = self.words.len();
        proof {
            assert(self@.len() == self.words@.len());
        }
        while low < high
            invariant
                low <= high <= self.words@.len(),
                self@.len() == self.words@.len(),
                sorted(self@) ==> forall|j: int| 0 <= j < low ==> #[trigger] self@[j] != word@,
                sorted(self@) ==> forall|j: int|
                    high <= j < self@.len() ==> #[trigger] self@[j] != word@,
            decreases high - low,
        {
            let mid: usize = low + (high - low) / 2;
            assert(self@[mid as int] == self.words@[mid as int]@);
            match rank(&self.words[mid], word) {
                Rank::Same => {
                    return true;
                },
                Rank::Before => {
                    proof {
                        if sorted(self@) {
                            assert forall|j: int| 0 <= j < mid + 1 implies #[trigger] self@[j]
                                != word@ by {
                                if j < mid {
                                    lemma_word_lt_transitive(self@[j], self@[mid as int], word@);
                                }
                                lemma_word_lt_irreflexive(word@);
                            }
                        }
                    }
                    low = mid + 1;
                },
                Rank::After => {
                    proof {
                        if sorted(self@) {
                            assert forall|j: int| mid <= j < self@.len() implies #[trigger] self@[j]
                                != word@ by {
                                if mid < j {
                                    lemma_word_lt_transitive(word@, self@[mid as int], self@[j]);
                                }
                                lemma_word_lt_irreflexive(word@);
                            }
                        }
                    }
                    high = mid;
                },
            }
        }
        false
    }
}

/// Words of which each comes before the next stand in order.
pub proof fn lemma_neighbours_sorted(words: Seq<Seq<char>>)
    requires
        forall|j: int| 0 <= j < words.len() - 1 ==> word_lt(#[trigger] words[j], words[j + 1]),
    ensures
        sorted(words),
{
    assert forall|i: int, j: int| 0 <= i < j < words.len() implies word_lt(
        #[trigger] words[i],
        #[trigger] words[j],
    ) by {
        lemma_neighbours_reach(words, i, j);
    }
}

proof fn lemma_neighbours_reach(words: Seq<Seq<char>>, i: int, j: int)
    requires
        forall|k: int| 0 <= k < words.len() - 1 ==> word_lt(#[trigger] words[k], words[k + 1]),
        0 <= i < j < words.len(),
    ensures
        word_lt(words[i], words[j]),
    decreases j - i,
{
    if j > i + 1 {
        lemma_neighbours_reach(words, i, j - 1);
        assert(word_lt(words[j - 1], words[j - 1 + 1]));
        lemma_word_lt_transitive(words[i], words[j - 1], words[j]);
    } else {
        assert(word_lt(words[i], words[i + 1]));
    }
}

/// The letters shown by tiles.
pub open spec fn letters_of(tiles: Seq<BoardTile>) -> Seq<char> {
    tiles.map_values(|t: BoardTile| t.tile.tile)
}

/// Whether the letters of the tiles spell a word: they are not none, and the
/// dictionary holds them.
pub open spec fn is_word(dictionary: Seq<Seq<char>>, tiles: Seq<BoardTile>) -> bool {
    tiles.len() > 0 && dictionary.contains(letters_of(tiles))
}

/// Whether the letters of `word` spell a word of a sorted dictionary.
pub fn check_if_valid(dictionary: &Dictionary, word: &Vec<BoardTile>) -> (b: bool)
    ensures
        b ==> is_word(dictionary@, word@),
        sorted(dictionary@) ==> b == is_word(dictionary@, word@),
{
    let mut letters: Vec<char> = Vec::new();
    let mut i: usize = 0;
    while i < word.len()
        invariant
            i <= word@.len(),
            letters@ == letters_of(word@).take(i as int),
        decreases word@.len() - i,
    {
        letters.push(word[i].tile.tile);
        assert(letters_of(word@).take(i + 1) =~= letters_of(word@).take(i as int).push(
            letters_of(word@)[i as int],
        ));
        i += 1;
    }
    assert(letters_of(word@).take(i as int) == letters_of(word@));
    if letters.len() == 0 {
        return false;
    }
    dictionary.contains(&letters)
}

impl BoardView {
    /// The tiles on `run`.
    pub open spec fn tiles_on(self, run: Seq<(int, int)>) -> Seq<BoardTile> {
        run.map_values(|p: (int, int)| self.tile_at(p).unwrap())
    }

    /// Whether a word on `word` along `dir` stands a challenge: it and the
    /// run across each of its cells spell words.
    pub open spec fn stands(self, dictionary: Seq<Seq<char>>, word: Seq<(int, int)>, dir: Direction) -> bool {
        &&& is_word(dictionary, self.tiles_on(word))
        &&& forall|i: int|
            0 <= i < word.len() ==> is_word(
                dictionary,
                self.tiles_on(self.run(#[trigger] word[i], dir.flip())),
            )
    }
}

impl Board {
    /// The tiles on the cells of `run`, each of which must hold one.
    pub fn tiles_on(&self, run: &Vec<Coordinate>) -> (tiles: Vec<BoardTile>)
        requires
            self.wf(),
            forall|i: int| 0 <= i < run@.len() ==> self@.occupied(#[trigger] cells(run@)[i]),
        ensures
            tiles@ == self@.tiles_on(cells(run@)),
    {
        let mut tiles: Vec<BoardTile> = Vec::new();
        let mut i: usize = 0;
        while i < run.len()
            invariant
                self.wf(),
                i <= run@.len(),
                forall|k: int| 0 <= k < run@.len() ==> self@.occupied(#[trigger] cells(run@)[k]),
                tiles@ == self@.tiles_on(cells(run@)).take(i as int),
            decreases run@.len() - i,
        {
            assert(self@.occupied(cells(run@)[i as int]));
            match self.get_tile(run[i]) {
                Some(t) => {
                    tiles.push(t);
                },
                None => {},
            }
            assert(self@.tiles_on(cells(run@)).take(i + 1) =~= self@.tiles_on(cells(run@)).take(
                i as int,
            ).push(self@.tiles_on(cells(run@))[i as int]));
            i += 1;
        }
        assert(self@.tiles_on(cells(run@)).take(i as int) == self@.tiles_on(cells(run@)));
        tiles
    }
}

/// Whether the play on `word` along `dir` stands a challenge against a sorted
/// dictionary: the word itself and the run across each of its cells must
/// spell words. Every cell of `word` must hold a tile.
pub fn challenge(board: &Board, word: &Vec<Coordinate>, dir: Direction, dictionary: &Dictionary) -> (b:
    bool)
    requires
        board.wf(),
        forall|i: int| 0 <= i < word@.len() ==> board@.occupied(#[trigger] cells(word@)[i]),
    ensures
        b ==> board@.stands(dictionary@, cells(word@), dir),
        sorted(dictionary@) ==> b == board@.stands(dictionary@, cells(word@), dir),
{
    let tiles = board.tiles_on(word);
    if !check_if_valid(dictionary, &tiles) {
        return false;
    }
    let other_dir = dir.flip();
    let mut i: usize = 0;
    while i < word.len()
        invariant
            board.wf(),
            other_dir == dir.flip(),
            i <= word@.len(),
            forall|k: int| 0 <= k < word@.len() ==> board@.occupied(#[trigger] cells(word@)[k]),
            forall|k: int|
                0 <= k < i ==> is_word(
                    dictionary@,
                    board@.tiles_on(board@.run(#[trigger] cells(word@)[k], dir.flip())),
                ),
        decreases word@.len() - i,
    {
        let cross = board.find_range(word[i], other_dir);
        proof {
            assert(cells(word@)[i as int] == word@[i as int].pos());
            lemma_run_occupied(board@, cells(word@)[i as int], other_dir);
        }
        let crossing = board.tiles_on(&cross);
        if !check_if_valid(dictionary, &crossing) {
            return false;
        }
        i += 1;
    }
    true
}

} // verus!
