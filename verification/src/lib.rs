//! Rock-paper-scissors against an opponent that learns.
//!
//! The crate holds the rules of the game and the strategies a player can
//! follow:
//!
//! - [`moves`]: the three moves and the cycle in which they defeat each
//!   other;
//! - [`outcome`]: who wins a round;
//! - [`player`]: what a player can be asked to do, and a player that moves
//!   at random;
//! - [`table`]: the table in which windows of moves are counted;
//! - [`ngrams`]: the player that counts the windows of moves its opponent
//!   has produced and answers the move it expects next;
//! - [`windows`]: the list of all windows of a given length;
//! - [`game`]: one round between two players, and the score over many.

pub mod game;
pub mod moves;
pub mod ngrams;
pub mod outcome;
pub mod player;
pub mod table;
pub mod windows;
