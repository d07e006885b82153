//! Who wins a round.

use crate::moves::RPS;
use std::cmp::Ordering;
use vstd::prelude::*;

verus! {

/// How a round between the human and the computer ended.
#[derive(Debug, Clone, Copy, PartialEq, Eq, Hash, Structural)]
pub enum GameResult {
    /// The human's move defeated the computer's.
    Human,
    /// The computer's move defeated the human's.
    CPU,
    /// Both made the same move.
    Tie,
}

/// The result of a round in which the human plays `human` and the computer
/// plays `cpu`: equal moves tie, otherwise the player whose move defeats the
/// other's wins.
pub open spec fn outcome(human: RPS, cpu: RPS) -> GameResult {
    if human == cpu {
        GameResult::Tie
    } else if human.spec_beats(cpu) {
        GameResult::Human
    } else {
        GameResult::CPU
    }
}

impl GameResult {
    /// What `name` spells for each result.
    pub open spec fn spec_name(self) -> Seq<char> {
        match self {
            GameResult::Human => "Human"@,
            GameResult::CPU => "CPU"@,
            GameResult::Tie => "Tie"@,
        }
    }

    /// The winner's name, or `Tie`.
    pub fn name(self) -> (s: &'static str)
        ensures
            s@ == self.spec_name(),
    {
        match self {
            GameResult::Human => "Human",
            GameResult::CPU => "CPU",
            GameResult::Tie => "Tie",
        }
    }
}

/// Decides a round by comparing the two moves in the cyclic order of
/// [`RPS`], in which the lesser move loses.
pub fn evaluate(human: RPS, cpu: RPS) -> (result: GameResult)
    ensures
        result == outcome(human, cpu),
{
    match human.cmp(&cpu) {
        Ordering::Equal => GameResult::Tie,
        Ordering::Less => GameResult::CPU,
        Ordering::Greater => GameResult::Human,
    }
}

/// The human wins exactly when the human's move defeats the computer's, the
/// computer wins exactly when its move defeats the human's, and the round is
/// tied exactly when the moves are equal.
pub proof fn lemma_outcome_follows_beats(a: RPS, b: RPS)
    ensures
        outcome(a, b) == GameResult::Human <==> a.spec_beats(b),
        outcome(a, b) == GameResult::CPU <==> b.spec_beats(a),
        outcome(a, b) == GameResult::Tie <==> a == b,
{
}

/// Swapping the two players swaps the winner and keeps a tie.
pub proof fn lemma_outcome_mirrored(a: RPS, b: RPS)
    ensures
        outcome(a, b) == GameResult::Human <==> outcome(b, a) == GameResult::CPU,
        outcome(a, b) == GameResult::Tie <==> outcome(b, a) == GameResult::Tie,
{
}

} // verus!
