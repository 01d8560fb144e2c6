//! A terminal word-guessing game library.
//!
//! A secret five-letter target word is drawn from a dictionary; the player
//! submits guesses, each of which is scored letter by letter against the
//! target and folded into a cumulative per-letter status board.

pub mod color;
pub mod text;
pub mod dict;
pub mod scoring;
pub mod game;



