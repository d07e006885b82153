//! One round between two players, and the score over many rounds.

use crate::moves::RPS;
use crate::outcome::{evaluate, outcome, GameResult};
use crate::player::{Player, PlayerError};
use vstd::prelude::*;

verus! {

/// What happened in a round: the two moves and who won.
#[derive(Debug, Clone, Copy, PartialEq, Eq, Structural)]
pub struct Round {
    pub human: RPS,
    pub cpu: RPS,
    pub outcome: GameResult,
}

/// Whether a round that begins with the players in the states `human` and
/// `cpu` may go to its end as `round` and leave them in the states
/// `human_after` and `cpu_after`: both players choose, the human first; the
/// moves decide the outcome; and both take note of the other's move and of
/// the outcome, the human first.
pub open spec fn played<P1: Player, P2: Player>(
    human: P1,
    cpu: P2,
    round: Round,
    human_after: P1,
    cpu_after: P2,
) -> bool {
    exists|human_mid: P1, cpu_mid: P2|
        {
            &&& #[trigger] human.may_play(&human_mid, Ok(round.human))
            &&& #[trigger] cpu.may_play(&cpu_mid, Ok(round.cpu))
            &&& round.outcome == outcome(round.human, round.cpu)
            &&& human_mid.may_note(round.cpu, round.outcome, &human_after, Ok(()))
            &&& cpu_mid.may_note(round.human, round.outcome, &cpu_after, Ok(()))
        }
}

/// Whether a round that begins with the players in the states `human` and
/// `cpu` may stop with `error` and leave them in the states `human_after`
/// and `cpu_after`. A round stops at the first step that fails, and the
/// steps after it are not taken: the human's choice, the computer's choice,
/// the human's taking note, the computer's taking note.
pub open spec fn stopped<P1: Player, P2: Player>(
    human: P1,
    cpu: P2,
    error: PlayerError,
    human_after: P1,
    cpu_after: P2,
) -> bool {
    ||| human.may_play(&human_after, Err(error)) && cpu_after == cpu
    ||| exists|h: RPS|
        {
            &&& #[trigger] human.may_play(&human_after, Ok(h))
            &&& cpu.may_play(&cpu_after, Err(error))
        }
    ||| exists|h: RPS, c: RPS, human_mid: P1|
        {
            &&& #[trigger] human.may_play(&human_mid, Ok(h))
            &&& #[trigger] cpu.may_play(&cpu_after, Ok(c))
            &&& human_mid.may_note(c, outcome(h, c), &human_after, Err(error))
        }
    ||| exists|h: RPS, c: RPS, human_mid: P1, cpu_mid: P2|
        {
            &&& #[trigger] human.may_play(&human_mid, Ok(h))
            &&& #[trigger] cpu.may_play(&cpu_mid, Ok(c))
            &&& human_mid.may_note(c, outcome(h, c), &human_after, Ok(()))
            &&& cpu_mid.may_note(h, outcome(h, c), &cpu_after, Err(error))
        }
}

/// Plays one round: asks the human and then the computer for a move, decides
/// the outcome, and tells first the human and then the computer what the
/// other played and how the round ended. The first failure of a player ends
/// the round and is returned.
pub fn turn<P1: Player, P2: Player>(human: &mut P1, cpu: &mut P2) -> (result: Result<
    Round,
    PlayerError,
>)
    requires
        old(human).valid(),
        old(cpu).valid(),
        forall|m: RPS| old(human).accepts(m),
        forall|m: RPS| old(cpu).accepts(m),
    ensures
        final(human).valid(),
        final(cpu).valid(),
        match result {
            Ok(round) => played(*old(human), *old(cpu), round, *final(human), *final(cpu)),
            Err(error) => stopped(*old(human), *old(cpu), error, *final(human), *final(cpu)),
        },
{
    let ghost human_start = *human;
    let ghost cpu_start = *cpu;
    let human_choice = match human.turn() {
        Ok(m) => m,
        Err(error) => {
            return Err(error);
        },
    };
    let ghost human_mid = *human;
    let cpu_choice = match cpu.turn() {
        Ok(m) => m,
        Err(error) => {
            return Err(error);
        },
    };
    let ghost cpu_mid = *cpu;
    let result = evaluate(human_choice, cpu_choice);
    let human_noted = human.post_turn(cpu_choice, result);
    match human_noted {
        Ok(()) => {},
        Err(error) => {
            return Err(error);
        },
    }
    let cpu_noted = cpu.post_turn(human_choice, result);
    match cpu_noted {
        Ok(()) => {},
        Err(error) => {
            proof {
                assert(human_noted->Ok_0 == ());
            }
            return Err(error);
        },
    }
    let round = Round { human: human_choice, cpu: cpu_choice, outcome: result };
    proof {
        assert(human_noted->Ok_0 == ());
        assert(cpu_noted->Ok_0 == ());
    }
    Ok(round)
}

/// How many of `results` the human won.
pub open spec fn wins(results: Seq<GameResult>) -> nat
    decreases results.len(),
{
    if results.len() == 0 {
        0
    } else {
        wins(results.drop_last()) + if results.last() == GameResult::Human {
            1nat
        } else {
            0nat
        }
    }
}

/// How many of `results` had a winner, that is, were not tied.
pub open spec fn decided(results: Seq<GameResult>) -> nat
    decreases results.len(),
{
    if results.len() == 0 {
        0
    } else {
        decided(results.drop_last()) + if results.last() == GameResult::Tie {
            0nat
        } else {
            1nat
        }
    }
}

/// The human never won more rounds than had a winner, and no more rounds had
/// a winner than were played.
pub proof fn lemma_wins_among_decided(results: Seq<GameResult>)
    ensures
        wins(results) <= decided(results) <= results.len(),
    decreases results.len(),
{
    if results.len() > 0 {
        lemma_wins_among_decided(results.drop_last());
    }
}

/// The score over `results`: the rounds that the human won, and the rounds
/// that had a winner. Their quotient is the human's rate of wins.
pub fn win_counts(results: &Vec<GameResult>) -> (score: (usize, usize))
    ensures
        score.0 == wins(results@),
        score.1 == decided(results@),
{
    let mut won: usize = 0;
    let mut total: usize = 0;
    let mut i: usize = 0;
    while i < results.len()
        invariant
            i <= results.len(),
            won == wins(results@.take(i as int)),
            total == decided(results@.take(i as int)),
        decreases results.len() - i,
    {
        proof {
            assert(results@.take(i + 1).drop_last() =~= results@.take(i as int));
            assert(results@.take(i + 1).last() == results@[i as int]);
            lemma_wins_among_decided(results@.take(i as int));
        }
        match results[i] {
            GameResult::Human => {
                won = won + 1;
                total = total + 1;
            },
            GameResult::CPU => {
                total = total + 1;
            },
            GameResult::Tie => {},
        }
        i += 1;
    }
    assert(results@.take(results@.len() as int) =~= results@);
    (won, total)
}

} // verus!
