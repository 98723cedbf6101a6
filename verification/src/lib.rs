//! A rules engine for Crabble, a Scrabble-like word game: a tiled board over a
//! layout of premium squares, legality checking and scoring of plays, a tile
//! bag, per-language letter tables and the turn state machine of a game.
//!
//! Every executable function carries a contract over the mathematical views
//! of the types ([`board::BoardView`], [`game::GameView`] and the like), and
//! [`laws`] states what follows from those contracts whatever is played.

pub mod asn;
pub mod bag;
pub mod board;
pub mod coordinate;
pub mod dictionary;
pub mod error;
pub mod game;
pub mod grid;
pub mod language;
pub mod laws;
pub mod layout;
pub mod play;
pub mod render;
pub mod run;
pub mod text;
pub mod tile;
pub mod ui;

pub use board::Board;
pub use coordinate::{Coordinate, Direction};
pub use dictionary::{challenge, check_if_valid};
pub use error::{CrabbleError, WordPlacementError};
pub use layout::{standard_board_layout, BoardLayout, Square};
pub use tile::{BoardTile, Hand, HandTile, Tile};
