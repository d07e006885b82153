use roshambo::moves::RPS;
use roshambo::outcome::{evaluate, GameResult};

use RPS::{Paper, Rock, Scissors};

const MOVES: [RPS; 3] = [RPS::Rock, RPS::Paper, RPS::Scissors];

#[test]
fn evaluate_decides_all_nine_pairs() {
    assert_eq!(evaluate(Rock, Rock), GameResult::Tie);
    assert_eq!(evaluate(Rock, Paper), GameResult::CPU);
    assert_eq!(evaluate(Rock, Scissors), GameResult::Human);
    assert_eq!(evaluate(Paper, Rock), GameResult::Human);
    assert_eq!(evaluate(Paper, Paper), GameResult::Tie);
    assert_eq!(evaluate(Paper, Scissors), GameResult::CPU);
    assert_eq!(evaluate(Scissors, Rock), GameResult::CPU);
    assert_eq!(evaluate(Scissors, Paper), GameResult::Human);
    assert_eq!(evaluate(Scissors, Scissors), GameResult::Tie);
}

#[test]
fn evaluate_follows_beats() {
    for a in MOVES {
        for b in MOVES {
            let result = evaluate(a, b);
            assert_eq!(result == GameResult::Human, a.beats(b));
            assert_eq!(result == GameResult::CPU, b.beats(a));
            assert_eq!(result == GameResult::Tie, a == b);
        }
    }
}

#[test]
fn swapping_the_players_swaps_the_winner() {
    for a in MOVES {
        for b in MOVES {
            let mirrored = match evaluate(a, b) {
                GameResult::Human => GameResult::CPU,
                GameResult::CPU => GameResult::Human,
                GameResult::Tie => GameResult::Tie,
            };
            assert_eq!(evaluate(b, a), mirrored);
        }
    }
}

#[test]
fn results_have_their_names() {
    assert_eq!(GameResult::Human.name(), "Human");
    assert_eq!(GameResult::CPU.name(), "CPU");
    assert_eq!(GameResult::Tie.name(), "Tie");
}
