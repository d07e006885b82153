use roshambo::moves::RPS;
use roshambo::ngrams::NGramsPlayer;
use roshambo::windows::MAX_NGRAM;

use RPS::{Paper, Rock, Scissors};

#[test]
fn the_only_window_of_no_moves_is_the_empty_one() {
    assert_eq!(NGramsPlayer::ngrams(0), vec![Vec::<RPS>::new()]);
}

#[test]
fn the_windows_of_one_move_are_the_moves() {
    assert_eq!(NGramsPlayer::ngrams(1), vec![vec![Rock], vec![Paper], vec![Scissors]]);
}

#[test]
fn the_windows_of_two_moves_in_their_order() {
    assert_eq!(
        NGramsPlayer::ngrams(2),
        vec![
            vec![Rock, Rock],
            vec![Rock, Paper],
            vec![Paper, Rock],
            vec![Rock, Scissors],
            vec![Scissors, Rock],
            vec![Paper, Paper],
            vec![Paper, Scissors],
            vec![Scissors, Paper],
            vec![Scissors, Scissors],
        ]
    );
}

#[test]
fn every_window_is_listed_once() {
    let mut expected = 1;
    for n in 0..7 {
        let list = NGramsPlayer::ngrams(n);
        assert_eq!(list.len(), expected);
        for (i, window) in list.iter().enumerate() {
            assert_eq!(window.len(), n);
            for other in &list[i + 1..] {
                assert_ne!(window, other);
            }
        }
        expected *= 3;
    }
}

#[test]
fn the_windows_of_three_moves_begin_with_rock_three_times() {
    let list = NGramsPlayer::ngrams(3);
    assert_eq!(list.len(), 27);
    assert_eq!(list[0], vec![Rock, Rock, Rock]);
    assert_eq!(list[1], vec![Rock, Rock, Paper]);
    assert_eq!(list[2], vec![Rock, Paper, Rock]);
    assert_eq!(list[3], vec![Paper, Rock, Rock]);
    assert_eq!(list[26], vec![Scissors, Scissors, Scissors]);
}

#[test]
fn the_longest_window_listed_has_eleven_moves() {
    assert_eq!(MAX_NGRAM, 11);
}
