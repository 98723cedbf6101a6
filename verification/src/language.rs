//! Languages: how many tiles of each letter a bag holds, and what each
//! letter is worth.

use crate::error::CrabbleError;
use crate::text::{
    chars_eq, chars_of, lemma_split_len, parse_number, parse_usize, pieces_view, split,
    split_chars, text_lines,
};
use crate::tile::HandTile;
use vstd::prelude::*;

verus! {

/// The map that a list of letters and values stands for: where a letter is
/// listed more than once, its last entry counts.
pub open spec fn entries_map(s: Seq<(HandTile, usize)>) -> Map<HandTile, usize>
    decreases s.len(),
{
    if s.len() == 0 {
        Map::empty()
    } else {
        entries_map(s.drop_last()).insert(s.last().0, s.last().1)
    }
}

/// The entry of a letter that no later entry repeats gives the letter's value.
pub proof fn lemma_entries_map_last_match(s: Seq<(HandTile, usize)>, i: int, tile: HandTile)
    requires
        0 <= i < s.len(),
        s[i].0 == tile,
        forall|j: int| i < j < s.len() ==> s[j].0 != tile,
    ensures
        entries_map(s).contains_key(tile),
        entries_map(s)[tile] == s[i].1,
    decreases s.len(),
{
    if i < s.len() - 1 {
        lemma_entries_map_last_match(s.drop_last(), i, tile);
    }
}

/// A letter that no entry lists has no value.
pub proof fn lemma_entries_map_no_match(s: Seq<(HandTile, usize)>, tile: HandTile)
    requires
        forall|j: int| 0 <= j < s.len() ==> s[j].0 != tile,
    ensures
        !entries_map(s).contains_key(tile),
    decreases s.len(),
{
    if s.len() > 0 {
        lemma_entries_map_no_match(s.drop_last(), tile);
    }
}

/// Every letter with a value is listed by some entry.
pub proof fn lemma_entries_map_dom(s: Seq<(HandTile, usize)>, tile: HandTile)
    requires
        entries_map(s).contains_key(tile),
    ensures
        exists|j: int| 0 <= j < s.len() && s[j].0 == tile,
{
    if forall|j: int| 0 <= j < s.len() ==> s[j].0 != tile {
        lemma_entries_map_no_match(s, tile);
    }
}

/// What each tile of a language is worth.
#[derive(Debug)]
pub struct LetterValues {
    entries: Vec<(HandTile, usize)>,
}

impl View for LetterValues {
    type V = Map<HandTile, usize>;

    closed spec fn view(&self) -> Map<HandTile, usize> {
        entries_map(self.entries@)
    }
}

impl LetterValues {
    /// A table without entries.
    pub fn new() -> (values: LetterValues)
        ensures
            values@ == Map::<HandTile, usize>::empty(),
    {
        LetterValues { entries: Vec::new() }
    }

    /// Sets the value of `tile`, in place of an earlier one if there was one.
    pub fn insert(&mut self, tile: HandTile, value: usize)
        ensures
            final(self)@ == old(self)@.insert(tile, value),
    {
        self.entries.push((tile, value));
        assert(self.entries@.drop_last() == old(self).entries@);
    }

    /// The value of `tile`, if the table has one.
    pub fn lookup(&self, tile: HandTile) -> (v: Option<usize>)
        ensures
            v == (if self@.contains_key(tile) {
                Some(self@[tile])
            } else {
                None
            }),
    {
        let mut i: usize = self.entries.len();
        while i > 0
            invariant
                i <= self.entries@.len(),
                forall|j: int| i <= j < self.entries@.len() ==> self.entries@[j].0 != tile,
            decreases i,
        {
            i -= 1;
            if self.entries[i].0 == tile {
                proof {
                    lemma_entries_map_last_match(self.entries@, i as int, tile);
                }
                return Some(self.entries[i].1);
            }
        }
        proof {
            lemma_entries_map_no_match(self.entries@, tile);
        }
        None
    }

    /// Whether the table has a value for `tile`.
    pub fn contains(&self, tile: HandTile) -> (b: bool)
        ensures
            b == self@.contains_key(tile),
    {
        self.lookup(tile).is_some()
    }

    /// The value of `tile`, which the table must hold.
    pub fn get(&self, tile: HandTile) -> (v: usize)
        requires
            self@.contains_key(tile),
        ensures
            v == self@[tile],
    {
        match self.lookup(tile) {
            Some(v) => v,
            None => 0,
        }
    }
}

/// How many tiles of each kind a full bag holds, row by row as the language's
/// table lists them.
#[derive(Debug)]
pub struct Distribution {
    rows: Vec<(HandTile, usize)>,
}

impl View for Distribution {
    type V = Seq<(HandTile, usize)>;

    closed spec fn view(&self) -> Seq<(HandTile, usize)> {
        self.rows@
    }
}

/// The tiles that the rows of a distribution stand for: each row's tile as
/// often as the row says, the rows in order.
pub open spec fn expand(rows: Seq<(HandTile, usize)>) -> Seq<HandTile>
    decreases rows.len(),
{
    if rows.len() == 0 {
        Seq::empty()
    } else {
        expand(rows.drop_last()) + Seq::new(rows.last().1 as nat, |i: int| rows.last().0)
    }
}

/// How many tiles of the kind `tile` the rows of a distribution declare.
pub open spec fn declared(rows: Seq<(HandTile, usize)>, tile: HandTile) -> nat
    decreases rows.len(),
{
    if rows.len() == 0 {
        0
    } else {
        declared(rows.drop_last(), tile) + (if rows.last().0 == tile {
            rows.last().1 as nat
        } else {
            0nat
        })
    }
}

/// The first rows of a distribution stand for no more tiles than all of them.
pub proof fn lemma_expand_prefix(rows: Seq<(HandTile, usize)>, k: int)
    requires
        0 <= k <= rows.len(),
    ensures
        expand(rows.take(k)).len() <= expand(rows).len(),
    decreases rows.len(),
{
    if k == rows.len() {
        assert(rows.take(k) == rows);
    } else {
        assert(rows.drop_last().take(k) == rows.take(k));
        lemma_expand_prefix(rows.drop_last(), k);
    }
}

impl Distribution {
    /// A distribution without rows.
    pub fn new() -> (d: Distribution)
        ensures
            d@ == Seq::<(HandTile, usize)>::empty(),
    {
        Distribution { rows: Vec::new() }
    }

    /// Adds a row: `amount` tiles of the kind `tile`.
    pub fn push(&mut self, tile: HandTile, amount: usize)
        ensures
            final(self)@ == old(self)@.push((tile, amount)),
    {
        self.rows.push((tile, amount));
    }

    /// The number of tiles of all kinds together, if it fits a `usize`.
    pub fn total(&self) -> (n: Option<usize>)
        ensures
            n == (if expand(self@).len() <= usize::MAX {
                Some(expand(self@).len() as usize)
            } else {
                None
            }),
    {
        let mut n: usize = 0;
        let mut i: usize = 0;
        assert(self.rows@.take(0) == Seq::<(HandTile, usize)>::empty());
        while i < self.rows.len()
            invariant
                i <= self.rows@.len(),
                n == expand(self.rows@.take(i as int)).len(),
            decreases self.rows@.len() - i,
        {
            proof {
                assert(self.rows@.take(i + 1).drop_last() == self.rows@.take(i as int));
                assert(self.rows@.take(i + 1).last() == self.rows@[i as int]);
                lemma_expand_prefix(self.rows@, i + 1);
            }
            n = match n.checked_add(self.rows[i].1) {
                Some(n) => n,
                None => {
                    return None;
                },
            };
            i += 1;
        }
        assert(self.rows@.take(i as int) == self.rows@);
        Some(n)
    }

    /// The rows, in order.
    pub fn iter(&self) -> (rows: Vec<(HandTile, usize)>)
        ensures
            rows@ == self@,
    {
        let mut rows: Vec<(HandTile, usize)> = Vec::new();
        let mut i: usize = 0;
        while i < self.rows.len()
            invariant
                i <= self.rows@.len(),
                rows@ == self.rows@.take(i as int),
            decreases self.rows@.len() - i,
        {
            rows.push(self.rows[i]);
            assert(self.rows@.take(i + 1) == self.rows@.take(i as int).push(self.rows@[i as int]));
            i += 1;
        }
        assert(self.rows@.take(i as int) == self.rows@);
        rows
    }
}

/// A language as mathematics: its name, the rows of its distribution and the
/// value of each tile.
pub struct LanguageView {
    pub name: Seq<char>,
    pub distribution: Seq<(HandTile, usize)>,
    pub values: Map<HandTile, usize>,
}

/// A language: how many tiles of each letter there are and what each is worth.
#[derive(Debug)]
pub struct Language {
    pub name: String,
    pub distribution: Distribution,
    pub values: LetterValues,
}

impl View for Language {
    type V = LanguageView;

    open spec fn view(&self) -> LanguageView {
        LanguageView {
            name: self.name@,
            distribution: self.distribution@,
            values: self.values@,
        }
    }
}

/// The letter table of English: 100 tiles.
pub const ENGLISH_LETTERS: &'static str = "letter,amount,value\n ,2,0\na,9,1\nb,2,3\nc,2,3\nd,4,2\ne,12,1\nf,2,4\ng,3,2\nh,2,4\ni,9,1\nj,1,8\nk,1,5\nl,4,1\nm,2,3\nn,6,1\no,8,1\np,2,3\nq,1,10\nr,6,1\ns,4,1\nt,6,1\nu,4,1\nv,2,4\nw,2,4\nx,1,8\ny,2,4\nz,1,10\n";

/// The letter table of Dutch: 102 tiles.
pub const DUTCH_LETTERS: &'static str = "letter,amount,value\n ,2,0\na,6,1\nb,2,3\nc,2,5\nd,5,2\ne,18,1\nf,2,4\ng,3,3\nh,2,4\ni,4,1\nj,2,4\nk,3,3\nl,3,3\nm,3,3\nn,10,1\no,6,1\np,2,3\nq,1,10\nr,5,2\ns,5,2\nt,5,2\nu,3,4\nv,2,4\nw,2,5\nx,1,8\ny,1,8\nz,2,4\n";

/// The letter table of the language called `name`, if there is one.
pub open spec fn language_table(name: Seq<char>) -> Option<Seq<char>> {
    if name == "english"@ {
        Some(ENGLISH_LETTERS@)
    } else if name == "dutch"@ {
        Some(DUTCH_LETTERS@)
    } else {
        None
    }
}

/// The tile that the first field of a row names: a joker for a single space,
/// a letter for any other single character.
pub open spec fn parse_letter(field: Seq<char>) -> Option<HandTile> {
    if field.len() != 1 {
        None
    } else if field[0] == ' ' {
        Some(HandTile::Joker)
    } else {
        Some(HandTile::Letter(field[0]))
    }
}

/// The tile, amount and value that a row of a letter table holds: three
/// fields between commas.
pub open spec fn parse_row(line: Seq<char>) -> Option<(HandTile, usize, usize)> {
    let fields = split(line, ',');
    if fields.len() != 3 {
        None
    } else {
        match (parse_letter(fields[0]), parse_number(fields[1]), parse_number(fields[2])) {
            (Some(tile), Some(amount), Some(value)) => Some((tile, amount, value)),
            _ => None,
        }
    }
}

/// The rows that the lines hold, empty lines left out; nothing if a line is
/// no row.
pub open spec fn parse_rows(lines: Seq<Seq<char>>) -> Option<Seq<(HandTile, usize, usize)>>
    decreases lines.len(),
{
    if lines.len() == 0 {
        Some(Seq::empty())
    } else {
        match parse_rows(lines.drop_last()) {
            None => None,
            Some(rows) => if lines.last().len() == 0 {
                Some(rows)
            } else {
                match parse_row(lines.last()) {
                    Some(row) => Some(rows.push(row)),
                    None => None,
                }
            },
        }
    }
}

/// The rows of a letter table: those of its lines after the first, which is
/// the header.
pub open spec fn parse_table(csv: Seq<char>) -> Option<Seq<(HandTile, usize, usize)>> {
    parse_rows(text_lines(csv).drop_first())
}

/// The language that a table's rows describe.
pub open spec fn language_of(name: Seq<char>, rows: Seq<(HandTile, usize, usize)>) -> LanguageView {
    LanguageView {
        name,
        distribution: rows.map_values(|r: (HandTile, usize, usize)| (r.0, r.1)),
        values: entries_map(rows.map_values(|r: (HandTile, usize, usize)| (r.0, r.2))),
    }
}

/// Every letter that an entry lists has a value.
pub proof fn lemma_entries_map_listed(s: Seq<(HandTile, usize)>, i: int)
    requires
        0 <= i < s.len(),
    ensures
        entries_map(s).contains_key(s[i].0),
    decreases s.len(),
{
    if i < s.len() - 1 {
        lemma_entries_map_listed(s.drop_last(), i);
    }
}

/// Whether each of the tiles has a value.
pub open spec fn all_valued(tiles: Seq<HandTile>, values: Map<HandTile, usize>) -> bool {
    forall|i: int| 0 <= i < tiles.len() ==> values.contains_key(#[trigger] tiles[i])
}

/// Where every row's tile has a value, every tile of the full bag has one.
pub proof fn lemma_expand_valued(rows: Seq<(HandTile, usize)>, values: Map<HandTile, usize>)
    requires
        forall|i: int| 0 <= i < rows.len() ==> values.contains_key((#[trigger] rows[i]).0),
    ensures
        all_valued(expand(rows), values),
    decreases rows.len(),
{
    if rows.len() > 0 {
        assert forall|i: int| 0 <= i < rows.drop_last().len() implies values.contains_key(
            (#[trigger] rows.drop_last()[i]).0,
        ) by {
            assert(rows.drop_last()[i] == rows[i]);
        }
        lemma_expand_valued(rows.drop_last(), values);
        assert(values.contains_key(rows[rows.len() - 1].0));
    }
}

/// A language read from a table has a value for every tile of its bag.
pub proof fn lemma_table_language_valued(name: Seq<char>, rows: Seq<(HandTile, usize, usize)>)
    ensures
        all_valued(expand(language_of(name, rows).distribution), language_of(name, rows).values),
{
    let l = language_of(name, rows);
    let entries = rows.map_values(|r: (HandTile, usize, usize)| (r.0, r.2));
    assert forall|i: int| 0 <= i < l.distribution.len() implies l.values.contains_key(
        (#[trigger] l.distribution[i]).0,
    ) by {
        lemma_entries_map_listed(entries, i);
    }
    lemma_expand_valued(l.distribution, l.values);
}

/// Lines of which a beginning holds a bad row hold a bad row.
pub proof fn lemma_parse_rows_prefix(lines: Seq<Seq<char>>, k: int)
    requires
        0 <= k <= lines.len(),
        parse_rows(lines.take(k)) is None,
    ensures
        parse_rows(lines) is None,
    decreases lines.len(),
{
    if k == lines.len() {
        assert(lines.take(k) == lines);
    } else {
        assert(lines.drop_last().take(k) == lines.take(k));
        lemma_parse_rows_prefix(lines.drop_last(), k);
    }
}

/// The first `n` characters of `v`.
fn prefix_of(v: &Vec<char>, n: usize) -> (r: Vec<char>)
    requires
        n <= v@.len(),
    ensures
        r@ == v@.take(n as int),
{
    let mut r: Vec<char> = Vec::new();
    let mut i: usize = 0;
    while i < n
        invariant
            i <= n <= v@.len(),
            r@ == v@.take(i as int),
        decreases n - i,
    {
        r.push(v[i]);
        assert(v@.take(i + 1) == v@.take(i as int).push(v@[i as int]));
        i += 1;
    }
    r
}

/// Reads one row of a letter table.
pub fn read_row(line: &Vec<char>) -> (r: Option<(HandTile, usize, usize)>)
    ensures
        r == parse_row(line@),
{
    let fields = split_chars(line, ',');
    if fields.len() != 3 {
        assert(pieces_view(fields@).len() == fields@.len());
        return None;
    }
    proof {
        assert(pieces_view(fields@)[0] == fields@[0]@);
        assert(pieces_view(fields@)[1] == fields@[1]@);
        assert(pieces_view(fields@)[2] == fields@[2]@);
    }
    let tile = if fields[0].len() != 1 {
        return None;
    } else if fields[0][0] == ' ' {
        HandTile::Joker
    } else {
        HandTile::Letter(fields[0][0])
    };
    let amount = match parse_usize(&fields[1]) {
        Some(n) => n,
        None => {
            return None;
        },
    };
    let value = match parse_usize(&fields[2]) {
        Some(n) => n,
        None => {
            return None;
        },
    };
    Some((tile, amount, value))
}

impl Language {
    /// Reads a language from its letter table: a header line, then a row of
    /// tile, amount and value for each kind of tile. Any line that is neither
    /// empty nor such a row makes the whole table invalid.
    pub fn parse_csv(name: &str, csv: &str) -> (r: Result<Language, CrabbleError>)
        ensures
            match parse_table(csv@) {
                Some(rows) => r matches Ok(lang) && lang@ == language_of(name@, rows),
                None => r matches Err(e) && e == CrabbleError::InvalidLanguage,
            },
    {
        let text = chars_of(csv);
        let pieces = split_chars(&text, '\n');
        let ghost lines = text_lines(csv@).drop_first();
        let mut distribution = Distribution::new();
        let mut values = LetterValues::new();
        let ghost mut rows: Seq<(HandTile, usize, usize)> = Seq::empty();
        proof {
            lemma_split_len(csv@, '\n');
            assert(pieces_view(pieces@).len() == pieces@.len());
            assert(lines.take(0) == Seq::<Seq<char>>::empty());
            assert(rows.map_values(|r: (HandTile, usize, usize)| (r.0, r.1)) == Seq::<
                (HandTile, usize),
            >::empty());
            assert(rows.map_values(|r: (HandTile, usize, usize)| (r.0, r.2)) == Seq::<
                (HandTile, usize),
            >::empty());
        }
        let mut i: usize = 1;
        while i < pieces.len()
            invariant
                1 <= i,
                pieces_view(pieces@) == split(csv@, '\n'),
                lines == text_lines(csv@).drop_first(),
                lines.len() == pieces@.len() - 1,
                i <= pieces@.len(),
                parse_rows(lines.take(i - 1)) == Some(rows),
                distribution@ == rows.map_values(|r: (HandTile, usize, usize)| (r.0, r.1)),
                values@ == entries_map(rows.map_values(|r: (HandTile, usize, usize)| (r.0, r.2))),
            decreases pieces@.len() - i,
        {
            let piece = &pieces[i];
            let mut n: usize = piece.len();
            if i < pieces.len() - 1 && n > 0 && piece[n - 1] == '\r' {
                n = n - 1;
            }
            let line = prefix_of(piece, n);
            proof {
                assert(pieces_view(pieces@)[i as int] == piece@);
                assert(line@ == lines[i - 1]) by {
                    assert(piece@.take(piece@.len() as int) == piece@);
                }
                assert(lines.take(i as int).drop_last() == lines.take(i - 1));
                assert(lines.take(i as int).last() == line@);
            }
            if line.len() > 0 {
                match read_row(&line) {
                    Some((tile, amount, value)) => {
                        let ghost old_rows = rows;
                        distribution.push(tile, amount);
                        values.insert(tile, value);
                        proof {
                            rows = rows.push((tile, amount, value));
                            assert(rows.map_values(|r: (HandTile, usize, usize)| (r.0, r.1))
                                == old_rows.map_values(
                                |r: (HandTile, usize, usize)| (r.0, r.1),
                            ).push((tile, amount)));
                            let entries = rows.map_values(
                                |r: (HandTile, usize, usize)| (r.0, r.2),
                            );
                            assert(entries.drop_last() == old_rows.map_values(
                                |r: (HandTile, usize, usize)| (r.0, r.2),
                            ));
                        }
                    },
                    None => {
                        proof {
                            lemma_parse_rows_prefix(lines, i as int);
                        }
                        return Err(CrabbleError::InvalidLanguage);
                    },
                }
            }
            i += 1;
        }
        proof {
            assert(lines.take(i - 1) == lines);
        }
        Ok(Language { name: name.to_owned(), distribution, values })
    }

    /// The language called `lang`: `english` or `dutch`.
    pub fn by_name(lang: &str) -> (r: Result<Language, CrabbleError>)
        ensures
            match language_table(lang@) {
                Some(csv) => match parse_table(csv) {
                    Some(rows) => r matches Ok(l) && l@ == language_of(lang@, rows),
                    None => r matches Err(e) && e == CrabbleError::InvalidLanguage,
                },
                None => r matches Err(e) && e == CrabbleError::InvalidLanguage,
            },
    {
        let name = chars_of(lang);
        if chars_eq(&name, &chars_of("english")) {
            Language::parse_csv(lang, ENGLISH_LETTERS)
        } else if chars_eq(&name, &chars_of("dutch")) {
            Language::parse_csv(lang, DUTCH_LETTERS)
        } else {
            Err(CrabbleError::InvalidLanguage)
        }
    }
}

} // verus!
