use roshambo::game::{turn, win_counts, Round};
use roshambo::moves::RPS;
use roshambo::ngrams::NGramsPlayer;
use roshambo::outcome::GameResult;
use roshambo::player::{Player, PlayerError, RNGPlayer};

use RPS::{Paper, Rock, Scissors};

/// A player that plays what it was told to and writes down what it is told.
struct Scripted {
    moves: Vec<Result<RPS, PlayerError>>,
    asked: usize,
    seen: Vec<(RPS, GameResult)>,
    fail_on_note: bool,
}

impl Scripted {
    fn new(moves: Vec<Result<RPS, PlayerError>>) -> Scripted {
        Scripted { moves, asked: 0, seen: vec![], fail_on_note: false }
    }
}

impl Player for Scripted {
    fn turn(&mut self) -> Result<RPS, PlayerError> {
        let answer = match &self.moves[self.asked] {
            Ok(m) => Ok(*m),
            Err(PlayerError::InputError(why)) => Err(PlayerError::InputError(why.clone())),
            Err(PlayerError::InvariantViolation { max, count_r, count_p, count_s }) => {
                Err(PlayerError::InvariantViolation {
                    max: *max,
                    count_r: *count_r,
                    count_p: *count_p,
                    count_s: *count_s,
                })
            }
        };
        self.asked += 1;
        answer
    }

    fn post_turn(&mut self, opponent_choice: RPS, outcome: GameResult) -> Result<(), PlayerError> {
        if self.fail_on_note {
            return Err(PlayerError::InputError(String::from("cannot take note")));
        }
        self.seen.push((opponent_choice, outcome));
        Ok(())
    }
}

fn closed() -> PlayerError {
    PlayerError::InputError(String::from("input closed"))
}

#[test]
fn a_round_asks_both_and_tells_both() {
    let mut human = Scripted::new(vec![Ok(Paper)]);
    let mut cpu = Scripted::new(vec![Ok(Rock)]);
    let round = turn(&mut human, &mut cpu);
    assert_eq!(round, Ok(Round { human: Paper, cpu: Rock, outcome: GameResult::Human }));
    assert_eq!(human.asked, 1);
    assert_eq!(cpu.asked, 1);
    assert_eq!(human.seen, vec![(Rock, GameResult::Human)]);
    assert_eq!(cpu.seen, vec![(Paper, GameResult::Human)]);
}

#[test]
fn a_round_decides_every_pair_of_moves() {
    for h in [Rock, Paper, Scissors] {
        for c in [Rock, Paper, Scissors] {
            let mut human = Scripted::new(vec![Ok(h)]);
            let mut cpu = Scripted::new(vec![Ok(c)]);
            let round = turn(&mut human, &mut cpu).unwrap();
            assert_eq!(round.human, h);
            assert_eq!(round.cpu, c);
            let expected = if h == c {
                GameResult::Tie
            } else if h.beats(c) {
                GameResult::Human
            } else {
                GameResult::CPU
            };
            assert_eq!(round.outcome, expected);
            assert_eq!(human.seen, vec![(c, expected)]);
            assert_eq!(cpu.seen, vec![(h, expected)]);
        }
    }
}

#[test]
fn a_round_stops_when_the_human_cannot_move() {
    let mut human = Scripted::new(vec![Err(closed())]);
    let mut cpu = Scripted::new(vec![Ok(Rock)]);
    assert_eq!(turn(&mut human, &mut cpu), Err(closed()));
    assert_eq!(cpu.asked, 0);
    assert!(human.seen.is_empty());
    assert!(cpu.seen.is_empty());
}

#[test]
fn a_round_stops_when_the_computer_cannot_move() {
    let failure = PlayerError::InvariantViolation { max: 9, count_r: 1, count_p: 2, count_s: 3 };
    let mut human = Scripted::new(vec![Ok(Scissors)]);
    let mut cpu = Scripted::new(vec![Err(PlayerError::InvariantViolation {
        max: 9,
        count_r: 1,
        count_p: 2,
        count_s: 3,
    })]);
    assert_eq!(turn(&mut human, &mut cpu), Err(failure));
    assert_eq!(human.asked, 1);
    assert_eq!(cpu.asked, 1);
    assert!(human.seen.is_empty());
    assert!(cpu.seen.is_empty());
}

#[test]
fn a_round_stops_when_the_human_cannot_take_note() {
    let mut human = Scripted::new(vec![Ok(Scissors)]);
    human.fail_on_note = true;
    let mut cpu = Scripted::new(vec![Ok(Rock)]);
    assert_eq!(
        turn(&mut human, &mut cpu),
        Err(PlayerError::InputError(String::from("cannot take note")))
    );
    assert!(cpu.seen.is_empty());
}

#[test]
fn a_round_stops_when_the_computer_cannot_take_note() {
    let mut human = Scripted::new(vec![Ok(Scissors)]);
    let mut cpu = Scripted::new(vec![Ok(Rock)]);
    cpu.fail_on_note = true;
    assert_eq!(
        turn(&mut human, &mut cpu),
        Err(PlayerError::InputError(String::from("cannot take note")))
    );
    assert_eq!(human.seen, vec![(Rock, GameResult::CPU)]);
}

#[test]
fn the_predictor_learns_from_the_rounds_it_plays() {
    let mut human = Scripted::new(vec![Ok(Rock), Ok(Rock), Ok(Rock), Ok(Rock)]);
    let mut cpu = NGramsPlayer::new(1);
    let first = turn(&mut human, &mut cpu).unwrap();
    assert_eq!(first.human, Rock);
    assert_eq!(cpu.history(), vec![Rock]);
    assert!(cpu.table().is_empty());
    for round in 1..4 {
        let played = turn(&mut human, &mut cpu).unwrap();
        assert_eq!(played, Round { human: Rock, cpu: Paper, outcome: GameResult::CPU });
        assert_eq!(cpu.count(&vec![Rock]), round);
    }
    assert_eq!(human.seen.len(), 4);
    assert_eq!(human.seen[3], (Paper, GameResult::CPU));
}

#[test]
fn the_random_player_always_has_a_move() {
    let mut player = RNGPlayer {};
    for _ in 0..100 {
        let m = player.turn().unwrap();
        assert!(RPS::all().contains(&m));
        assert_eq!(player.post_turn(m, GameResult::Tie), Ok(()));
    }
}

#[test]
fn two_random_players_play_a_round() {
    let mut human = RNGPlayer {};
    let mut cpu = RNGPlayer {};
    for _ in 0..100 {
        let round = turn(&mut human, &mut cpu).unwrap();
        assert_eq!(round.outcome == GameResult::Human, round.human.beats(round.cpu));
        assert_eq!(round.outcome == GameResult::CPU, round.cpu.beats(round.human));
        assert_eq!(round.outcome == GameResult::Tie, round.human == round.cpu);
    }
}

#[test]
fn win_counts_of_no_rounds() {
    assert_eq!(win_counts(&vec![]), (0, 0));
}

#[test]
fn win_counts_leave_ties_out() {
    let results = vec![
        GameResult::Human,
        GameResult::CPU,
        GameResult::Tie,
        GameResult::Human,
        GameResult::Tie,
        GameResult::CPU,
        GameResult::CPU,
    ];
    assert_eq!(win_counts(&results), (2, 5));
    assert_eq!(win_counts(&vec![GameResult::Tie, GameResult::Tie]), (0, 0));
    assert_eq!(win_counts(&vec![GameResult::Human]), (1, 1));
    assert_eq!(win_counts(&vec![GameResult::CPU]), (0, 1));
}
