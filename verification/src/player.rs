//! What a player of the game can be asked to do.

use crate::moves::RPS;
use crate::outcome::GameResult;
use vstd::prelude::*;

verus! {

/// Why a player could not go on.
#[derive(Debug, PartialEq, Eq)]
pub enum PlayerError {
    /// The player's move could not be read; the text says why.
    InputError(String),
    /// None of the three counts equals what was taken for their maximum.
    InvariantViolation { max: usize, count_r: usize, count_p: usize, count_s: usize },
}

/// A strategy for the game: it is asked for a move, and told afterwards what
/// the opponent played and how the round ended.
///
/// What a player promises of its two methods it says in four predicates.
/// Each of them is `true` unless the player defines it: a player that
/// defines none can be in any state, has room for every move, and may answer
/// anything.
pub trait Player {
    /// The states a player can be in between two calls.
    open spec fn valid(&self) -> bool {
        true
    }

    /// Whether the player has room to take note of `opponent_choice`.
    open spec fn accepts(&self, opponent_choice: RPS) -> bool {
        true
    }

    /// Whether `turn`, called in the state `self`, may answer `answer` and
    /// leave the player in the state `next`.
    open spec fn may_play(&self, next: &Self, answer: Result<RPS, PlayerError>) -> bool {
        true
    }

    /// Whether `post_turn`, called in the state `self` with `opponent_choice`
    /// and `outcome`, may answer `answer` and leave the player in the state
    /// `next`.
    open spec fn may_note(
        &self,
        opponent_choice: RPS,
        outcome: GameResult,
        next: &Self,
        answer: Result<(), PlayerError>,
    ) -> bool {
        true
    }

    /// The player's move for the round that begins. To choose a move takes
    /// up no room for the moves of the opponent.
    fn turn(&mut self) -> (answer: Result<RPS, PlayerError>)
        requires
            old(self).valid(),
        ensures
            final(self).valid(),
            old(self).may_play(final(self), answer),
            forall|m: RPS| old(self).accepts(m) ==> final(self).accepts(m),
    ;

    /// Tells the player what its opponent played in the round that ends, and
    /// how the round ended.
    fn post_turn(&mut self, opponent_choice: RPS, outcome: GameResult) -> (answer: Result<
        (),
        PlayerError,
    >)
        requires
            old(self).valid(),
            old(self).accepts(opponent_choice),
        ensures
            final(self).valid(),
            old(self).may_note(opponent_choice, outcome, final(self), answer),
    ;
}

/// A player that makes each move at random and learns nothing.
pub struct RNGPlayer {}

impl Player for RNGPlayer {
    /// To choose a move never fails and leaves the player as it was. Which
    /// move comes is left open: it is drawn anew at every call.
    open spec fn may_play(&self, next: &Self, answer: Result<RPS, PlayerError>) -> bool {
        &&& *next == *self
        &&& answer is Ok
    }

    /// To take note never fails.
    open spec fn may_note(
        &self,
        opponent_choice: RPS,
        outcome: GameResult,
        next: &Self,
        answer: Result<(), PlayerError>,
    ) -> bool {
        answer is Ok
    }

    fn turn(&mut self) -> (answer: Result<RPS, PlayerError>) {
        Ok(RPS::rand())
    }

    fn post_turn(&mut self, _opponent_choice: RPS, _outcome: GameResult) -> (answer: Result<
        (),
        PlayerError,
    >) {
        Ok(())
    }
}

} // verus!
