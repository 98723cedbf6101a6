//! What the engine reports when it turns a request down.

use vstd::prelude::*;
use vstd::string::StringExecFns;

verus! {

/// Why a tile could not be put down or a play could not be committed.
#[derive(Clone, Copy, Debug, PartialEq, Eq, Structural)]
pub enum WordPlacementError {
    /// The cell already holds a tile.
    TileOccupied,
    /// Nothing was placed since the last committed play.
    PlayedWordEmpty,
    /// The placed tiles share neither a column nor a row.
    InvalidDirection,
    /// A placed tile lies outside the word that the play forms.
    ScatteredProvisionalTile,
    /// The word touches no other word and does not cover the centre.
    WordNotAdjacent,
    /// The coordinate is not on the board.
    TileOutOufBounds,
    /// A letter of a scored word has no value in the language.
    UnknownLetter,
    /// The points of the play do not fit the machine's integers.
    ScoreOverflow,
}

/// Every failure of the game's operations.
#[derive(Clone, Copy, Debug, PartialEq, Eq, Structural)]
pub enum CrabbleError {
    TileOccupied,
    PlayedWordEmpty,
    InvalidDirection,
    ScatteredProvisionalTile,
    WordNotAdjacent,
    TileOutOufBounds,
    UnknownLetter,
    ScoreOverflow,
    /// The bag ran out before a rack was full.
    BagEmpty,
    /// No such language, or its letter table is malformed.
    InvalidLanguage,
    /// The number of players is not a number from one to four.
    InvalidNumberPlayers,
    /// A play was to be made in a game that is over.
    GameOver,
}

/// What an error says of itself.
pub open spec fn error_text(e: CrabbleError) -> Seq<char> {
    match e {
        CrabbleError::TileOccupied => "tile occupied"@,
        CrabbleError::PlayedWordEmpty => "played word empty"@,
        CrabbleError::InvalidDirection => "invalid direction"@,
        CrabbleError::ScatteredProvisionalTile => "scattered provisional tile"@,
        CrabbleError::WordNotAdjacent => "word not adjacent"@,
        CrabbleError::TileOutOufBounds => "tile out of bounds"@,
        CrabbleError::UnknownLetter => "unknown letter"@,
        CrabbleError::ScoreOverflow => "score overflow"@,
        CrabbleError::BagEmpty => "bag empty"@,
        CrabbleError::InvalidLanguage => "invalid language"@,
        CrabbleError::InvalidNumberPlayers => "invalid number of players"@,
        CrabbleError::GameOver => "game over"@,
    }
}

impl CrabbleError {
    /// What the error says of itself.
    pub fn to_string(&self) -> (s: String)
        ensures
            s@ == error_text(*self),
    {
        match self {
            CrabbleError::TileOccupied => String::from_str("tile occupied"),
            CrabbleError::PlayedWordEmpty => String::from_str("played word empty"),
            CrabbleError::InvalidDirection => String::from_str("invalid direction"),
            CrabbleError::ScatteredProvisionalTile => String::from_str(
                "scattered provisional tile",
            ),
            CrabbleError::WordNotAdjacent => String::from_str("word not adjacent"),
            CrabbleError::TileOutOufBounds => String::from_str("tile out of bounds"),
            CrabbleError::UnknownLetter => String::from_str("unknown letter"),
            CrabbleError::ScoreOverflow => String::from_str("score overflow"),
            CrabbleError::BagEmpty => String::from_str("bag empty"),
            CrabbleError::InvalidLanguage => String::from_str("invalid language"),
            CrabbleError::InvalidNumberPlayers => String::from_str("invalid number of players"),
            CrabbleError::GameOver => String::from_str("game over"),
        }
    }

    /// The game-level error that stands for a board-level one.
    pub open spec fn spec_from_placement(e: WordPlacementError) -> CrabbleError {
        match e {
            WordPlacementError::TileOccupied => CrabbleError::TileOccupied,
            WordPlacementError::PlayedWordEmpty => CrabbleError::PlayedWordEmpty,
            WordPlacementError::InvalidDirection => CrabbleError::InvalidDirection,
            WordPlacementError::ScatteredProvisionalTile => CrabbleError::ScatteredProvisionalTile,
            WordPlacementError::WordNotAdjacent => CrabbleError::WordNotAdjacent,
            WordPlacementError::TileOutOufBounds => CrabbleError::TileOutOufBounds,
            WordPlacementError::UnknownLetter => CrabbleError::UnknownLetter,
            WordPlacementError::ScoreOverflow => CrabbleError::ScoreOverflow,
        }
    }

    /// The game-level error that stands for a board-level one.
    #[verifier::when_used_as_spec(spec_from_placement)]
    pub fn from_placement(e: WordPlacementError) -> (r: CrabbleError)
        ensures
            r == CrabbleError::spec_from_placement(e),
    {
        match e {
            WordPlacementError::TileOccupied => CrabbleError::TileOccupied,
            WordPlacementError::PlayedWordEmpty => CrabbleError::PlayedWordEmpty,
            WordPlacementError::InvalidDirection => CrabbleError::InvalidDirection,
            WordPlacementError::ScatteredProvisionalTile => CrabbleError::ScatteredProvisionalTile,
            WordPlacementError::WordNotAdjacent => CrabbleError::WordNotAdjacent,
            WordPlacementError::TileOutOufBounds => CrabbleError::TileOutOufBounds,
            WordPlacementError::UnknownLetter => CrabbleError::UnknownLetter,
            WordPlacementError::ScoreOverflow => CrabbleError::ScoreOverflow,
        }
    }
}

} // verus!
