//! The player that counts windows of its opponent's moves and answers the
//! move it expects next.
//!
//! The opponent's moves are kept newest first, at most `n` of them. From the
//! round on in which `n` moves are already held, each new move completes a
//! window of the `n` newest moves, and that window is counted. To choose its
//! own move the player asks which of rock, paper and scissors, put in front
//! of the `n - 1` newest moves, makes the window counted most often, and
//! plays what defeats that move.

use crate::moves::RPS;
use crate::outcome::GameResult;
use crate::player::{Player, PlayerError};
use crate::table::Table;
use std::collections::VecDeque;
use vstd::multiset::*;
use vstd::prelude::*;

verus! {

/// The moves held after `m` is put in front of `history`: the `n` newest,
/// newest first.
pub open spec fn pushed(history: Seq<RPS>, n: nat, m: RPS) -> Seq<RPS> {
    let longer = seq![m] + history;
    if longer.len() > n {
        longer.take(n as int)
    } else {
        longer
    }
}

/// The counts after `m` arrives while `history` is held: where `history`
/// already holds `n` moves the window that `m` completes is counted once
/// more, otherwise nothing is.
pub open spec fn noted(table: Multiset<Seq<RPS>>, history: Seq<RPS>, n: nat, m: RPS) -> Multiset<
    Seq<RPS>,
> {
    if history.len() + 1 > n {
        table.insert(pushed(history, n, m))
    } else {
        table
    }
}

/// The window that the opponent would complete by playing `m` next: `m` in
/// front of the `n - 1` newest moves.
pub open spec fn candidate(history: Seq<RPS>, n: nat, m: RPS) -> Seq<RPS> {
    seq![m] + history.take(n - 1)
}

/// The largest of three numbers.
pub open spec fn max3(a: int, b: int, c: int) -> int {
    if a >= b && a >= c {
        a
    } else if b >= c {
        b
    } else {
        c
    }
}

/// The move expected of the opponent, given how often the windows that
/// rock, paper and scissors would complete were counted: the first of the
/// three, in that order, whose count is the largest.
pub open spec fn expected(count_r: nat, count_p: nat, count_s: nat) -> RPS {
    if count_r >= count_p && count_r >= count_s {
        RPS::Rock
    } else if count_p >= count_s {
        RPS::Paper
    } else {
        RPS::Scissors
    }
}

/// The move expected of an opponent whose newest moves are `history`.
pub open spec fn prediction(table: Multiset<Seq<RPS>>, history: Seq<RPS>, n: nat) -> RPS {
    expected(
        table.count(candidate(history, n, RPS::Rock)),
        table.count(candidate(history, n, RPS::Paper)),
        table.count(candidate(history, n, RPS::Scissors)),
    )
}

/// The move that defeats the one expected of the opponent.
pub open spec fn reply(table: Multiset<Seq<RPS>>, history: Seq<RPS>, n: nat) -> RPS {
    prediction(table, history, n).spec_counter()
}

/// What `answer_for` returns: the move that defeats the first of rock, paper
/// and scissors whose count equals `max`, and an error where none does.
pub open spec fn spec_answer_for(count_r: usize, count_p: usize, count_s: usize, max: usize) -> Result<
    RPS,
    PlayerError,
> {
    if count_r == max {
        Ok(RPS::Paper)
    } else if count_p == max {
        Ok(RPS::Scissors)
    } else if count_s == max {
        Ok(RPS::Rock)
    } else {
        Err(PlayerError::InvariantViolation { max, count_r, count_p, count_s })
    }
}

/// The largest of three counts.
pub fn largest(a: usize, b: usize, c: usize) -> (max: usize)
    ensures
        max == max3(a as int, b as int, c as int),
{
    let mut max: usize = a;
    if b > max {
        max = b;
    }
    if c > max {
        max = c;
    }
    max
}

/// The answer to the counts of the windows that rock, paper and scissors
/// would complete, where `max` is taken for the largest of the three: the
/// move that defeats the first candidate whose count equals `max`. Where no
/// count equals `max` the answer is `InvariantViolation`, with the numbers
/// that were handed in.
pub fn answer_for(count_r: usize, count_p: usize, count_s: usize, max: usize) -> (answer: Result<
    RPS,
    PlayerError,
>)
    ensures
        answer == spec_answer_for(count_r, count_p, count_s, max),
{
    if count_r == max {
        Ok(RPS::Paper)
    } else if count_p == max {
        Ok(RPS::Scissors)
    } else if count_s == max {
        Ok(RPS::Rock)
    } else {
        Err(PlayerError::InvariantViolation { max, count_r, count_p, count_s })
    }
}

/// With the largest of the three counts for `max`, `answer_for` never fails:
/// it returns the move that defeats the expected one.
pub proof fn lemma_answer_for_largest(count_r: usize, count_p: usize, count_s: usize)
    ensures
        spec_answer_for(
            count_r,
            count_p,
            count_s,
            max3(count_r as int, count_p as int, count_s as int) as usize,
        ) == Ok::<RPS, PlayerError>(
            expected(count_r as nat, count_p as nat, count_s as nat).spec_counter(),
        ),
{
}

/// A player that learns which move follows which in its opponent's play.
pub struct NGramsPlayer {
    n: usize,
    history: VecDeque<RPS>,
    table: Table,
}

impl NGramsPlayer {
    /// The length of the windows that the player counts.
    pub closed spec fn window(&self) -> nat {
        self.n as nat
    }

    /// The opponent's moves that the player holds, newest first.
    pub closed spec fn past(&self) -> Seq<RPS> {
        self.history@
    }

    /// The windows counted so far, each as often as it was counted.
    pub closed spec fn counts(&self) -> Multiset<Seq<RPS>> {
        self.table@
    }

    /// What holds of a player between two calls: its windows hold at least
    /// one move, it holds no more moves than a window has, and it has counted
    /// nothing but full windows.
    pub closed spec fn wf(&self) -> bool {
        &&& self.n >= 1
        &&& self.history@.len() <= self.n
        &&& self.table.wf()
        &&& forall|key: Seq<RPS>| self.table@.count(key) > 0 ==> key.len() == self.n
    }

    /// A player that counts windows of `n` moves and has seen nothing yet.
    pub fn new(n: usize) -> (player: NGramsPlayer)
        requires
            n >= 1,
        ensures
            player.wf(),
            player.window() == n,
            player.past() == Seq::<RPS>::empty(),
            player.counts() == Multiset::<Seq<RPS>>::empty(),
    {
        NGramsPlayer { n: n, history: VecDeque::new(), table: Table::new() }
    }

    /// The length of the windows that the player counts.
    pub fn n(&self) -> (n: usize)
        ensures
            n == self.window(),
    {
        self.n
    }

    /// The opponent's moves that the player holds, newest first.
    pub fn history(&self) -> (moves: Vec<RPS>)
        ensures
            moves@ == self.past(),
    {
        let mut moves: Vec<RPS> = Vec::new();
        let mut i: usize = 0;
        while i < self.history.len()
            invariant
                i <= self.history@.len(),
                moves@ == self.history@.take(i as int),
            decreases self.history@.len() - i,
        {
            moves.push(self.history[i]);
            assert(self.history@.take(i + 1) =~= self.history@.take(i as int).push(
                self.history@[i as int],
            ));
            i += 1;
        }
        assert(self.history@.take(self.history@.len() as int) =~= self.history@);
        moves
    }

    /// How often the window `key` was counted.
    pub fn count(&self, key: &Vec<RPS>) -> (count: usize)
        requires
            self.wf(),
        ensures
            count == self.counts().count(key@),
    {
        self.table.get(key)
    }

    /// Every window that was counted, once, with its count.
    pub fn table(&self) -> (list: Vec<(Vec<RPS>, usize)>)
        requires
            self.wf(),
        ensures
            forall|i: int|
                0 <= i < list@.len() ==> (#[trigger] list@[i]).1 >= 1 && self.counts().count(
                    list@[i].0@,
                ) == list@[i].1,
            forall|i: int, j: int|
                0 <= i < j < list@.len() ==> (#[trigger] list@[i]).0@ != (#[trigger] list@[j]).0@,
            forall|key: Seq<RPS>|
                self.counts().count(key) > 0 ==> exists|i: int|
                    0 <= i < list@.len() && (#[trigger] list@[i]).0@ == key,
    {
        self.table.entries()
    }

    /// The window that the opponent would complete by playing `m` next.
    fn candidate_key(&self, m: RPS) -> (key: Vec<RPS>)
        requires
            1 <= self.n <= self.history@.len(),
        ensures
            key@ == candidate(self.history@, self.n as nat, m),
    {
        let mut key: Vec<RPS> = Vec::new();
        key.push(m);
        let mut i: usize = 0;
        while i < self.n - 1
            invariant
                1 <= self.n <= self.history@.len(),
                i <= self.n - 1,
                key@ == seq![m] + self.history@.take(i as int),
            decreases self.n - 1 - i,
        {
            key.push(self.history[i]);
            assert(self.history@.take(i + 1) =~= self.history@.take(i as int).push(
                self.history@[i as int],
            ));
            assert(seq![m] + self.history@.take(i + 1) =~= (seq![m] + self.history@.take(
                i as int,
            )).push(self.history@[i as int]));
            i += 1;
        }
        key
    }
}

impl Player for NGramsPlayer {
    open spec fn valid(&self) -> bool {
        self.wf()
    }

    /// The player has room for `opponent_choice` unless the window that the
    /// move completes was already counted as often as a count can say.
    open spec fn accepts(&self, opponent_choice: RPS) -> bool {
        self.past().len() + 1 > self.window() ==> self.counts().count(
            pushed(self.past(), self.window(), opponent_choice),
        ) < usize::MAX
    }

    /// To choose a move changes nothing and never fails. A player that holds
    /// a full window of moves answers the move that defeats the expected one;
    /// before that any move may come.
    open spec fn may_play(&self, next: &Self, answer: Result<RPS, PlayerError>) -> bool {
        &&& *next == *self
        &&& answer is Ok
        &&& self.past().len() >= self.window() ==> answer == Ok::<RPS, PlayerError>(
            reply(self.counts(), self.past(), self.window()),
        )
    }

    /// To take note of a move never fails: the move is put in front of those
    /// held, the oldest is dropped where there would be more than a window
    /// has, and where a move was dropped the window now held is counted.
    open spec fn may_note(
        &self,
        opponent_choice: RPS,
        outcome: GameResult,
        next: &Self,
        answer: Result<(), PlayerError>,
    ) -> bool {
        &&& answer is Ok
        &&& next.window() == self.window()
        &&& next.past() == pushed(self.past(), self.window(), opponent_choice)
        &&& next.counts() == noted(self.counts(), self.past(), self.window(), opponent_choice)
    }

    /// A move at random while fewer moves are held than a window has;
    /// after that the move that defeats the one expected of the opponent.
    fn turn(&mut self) -> (answer: Result<RPS, PlayerError>) {
        if self.history.len() < self.n {
            Ok(RPS::rand())
        } else {
            let key_r = self.candidate_key(RPS::Rock);
            let key_p = self.candidate_key(RPS::Paper);
            let key_s = self.candidate_key(RPS::Scissors);

            let count_r: usize = self.table.get(&key_r);
            let count_p: usize = self.table.get(&key_p);
            let count_s: usize = self.table.get(&key_s);
            let max: usize = largest(count_r, count_p, count_s);

            proof {
                lemma_answer_for_largest(count_r, count_p, count_s);
            }
            answer_for(count_r, count_p, count_s, max)
        }
    }

    /// Puts `opponent_choice` in front of the moves held and, where that
    /// makes one too many, drops the oldest and counts the window that is
    /// left. The outcome of the round plays no part.
    fn post_turn(&mut self, opponent_choice: RPS, _outcome: GameResult) -> (answer: Result<
        (),
        PlayerError,
    >) {
        self.history.push_front(opponent_choice);
        if self.history.len() > self.n {
            self.history.truncate(self.n);
            let key = self.history();
            self.table.increment(key);
        }
        Ok(())
    }
}

/// The `k` newest of `moves`, newest first, where `moves` is in the order of
/// play.
pub open spec fn newest(moves: Seq<RPS>, k: nat) -> Seq<RPS> {
    Seq::new(k, |i: int| moves[moves.len() - 1 - i])
}

/// The moves that a player with windows of `n` moves holds once its opponent
/// has played `moves`, in that order, from the start.
pub open spec fn held_after(n: nat, moves: Seq<RPS>) -> Seq<RPS>
    decreases moves.len(),
{
    if moves.len() == 0 {
        Seq::empty()
    } else {
        pushed(held_after(n, moves.drop_last()), n, moves.last())
    }
}

/// The windows that a player with windows of `n` moves has counted once its
/// opponent has played `moves`, in that order, from the start.
pub open spec fn counted_after(n: nat, moves: Seq<RPS>) -> Multiset<Seq<RPS>>
    decreases moves.len(),
{
    if moves.len() == 0 {
        Multiset::empty()
    } else {
        noted(
            counted_after(n, moves.drop_last()),
            held_after(n, moves.drop_last()),
            n,
            moves.last(),
        )
    }
}

/// A player between two calls holds no more moves than a window has, its
/// windows hold at least one move, and every window it has counted is a full
/// one.
pub proof fn lemma_player_bounds(player: NGramsPlayer)
    requires
        player.wf(),
    ensures
        player.window() >= 1,
        player.past().len() <= player.window(),
        forall|key: Seq<RPS>| player.counts().count(key) > 0 ==> key.len() == player.window(),
{
}

/// A player that holds and has counted what `moves` lead to, and then takes
/// note of `m`, holds and has counted what `moves` followed by `m` lead to.
pub proof fn lemma_one_more_round(
    before: NGramsPlayer,
    moves: Seq<RPS>,
    m: RPS,
    outcome: GameResult,
    after: NGramsPlayer,
    answer: Result<(), PlayerError>,
)
    requires
        before.past() == held_after(before.window(), moves),
        before.counts() == counted_after(before.window(), moves),
        before.may_note(m, outcome, &after, answer),
    ensures
        after.window() == before.window(),
        after.past() == held_after(after.window(), moves.push(m)),
        after.counts() == counted_after(after.window(), moves.push(m)),
{
    assert(moves.push(m).drop_last() =~= moves);
    assert(moves.push(m).last() == m);
}

/// A new move goes in front of those held and moves each of them one place
/// back; the player then holds one move more, but never more than a window
/// has.
pub proof fn lemma_pushed(history: Seq<RPS>, n: nat, m: RPS)
    requires
        history.len() <= n,
    ensures
        pushed(history, n, m).len() == if history.len() < n {
            history.len() + 1
        } else {
            n
        },
        n >= 1 ==> pushed(history, n, m)[0] == m,
        forall|i: int|
            1 <= i < pushed(history, n, m).len() ==> #[trigger] pushed(history, n, m)[i] == history[i
                - 1],
{
}

/// After any number of rounds the player holds the newest moves of its
/// opponent, newest first: all of them while they are fewer than a window
/// has, and from then on exactly as many as a window has.
pub proof fn lemma_held_after(n: nat, moves: Seq<RPS>)
    ensures
        held_after(n, moves) == newest(
            moves,
            if moves.len() < n {
                moves.len()
            } else {
                n
            },
        ),
        moves.len() >= n ==> held_after(n, moves).len() == n,
    decreases moves.len(),
{
    let k = if moves.len() < n {
        moves.len()
    } else {
        n
    };
    if moves.len() > 0 {
        let before = moves.drop_last();
        lemma_held_after(n, before);
        lemma_pushed(held_after(n, before), n, moves.last());
        assert forall|i: int| 0 <= i < k implies #[trigger] held_after(n, moves)[i] == newest(
            moves,
            k,
        )[i] by {
            if i >= 1 {
                assert(held_after(n, moves)[i] == held_after(n, before)[i - 1]);
                assert(before[before.len() - 1 - (i - 1)] == moves[moves.len() - 1 - i]);
            }
        }
    }
    assert(held_after(n, moves) =~= newest(moves, k));
}

/// A move that arrives never lowers a count. Where the player already holds
/// a full window, exactly one count rises, that of the window held
/// afterwards, and it rises by one; before that no count changes.
pub proof fn lemma_noted(table: Multiset<Seq<RPS>>, history: Seq<RPS>, n: nat, m: RPS)
    ensures
        forall|key: Seq<RPS>| #[trigger] noted(table, history, n, m).count(key) >= table.count(key),
        history.len() >= n ==> forall|key: Seq<RPS>| #[trigger]
            noted(table, history, n, m).count(key) == table.count(key) + if key == pushed(
                history,
                n,
                m,
            ) {
                1nat
            } else {
                0nat
            },
        history.len() < n ==> noted(table, history, n, m) == table,
{
    broadcast use group_multiset_axioms;

}

/// The number of windows counted after any number of rounds: none during
/// the first `n` rounds, and one in every round after them.
pub proof fn lemma_counted_after(n: nat, moves: Seq<RPS>)
    ensures
        counted_after(n, moves).len() == if moves.len() > n {
            moves.len() - n
        } else {
            0
        },
        forall|key: Seq<RPS>| counted_after(n, moves).count(key) > 0 ==> key.len() == n,
    decreases moves.len(),
{
    broadcast use group_multiset_axioms;

    if moves.len() > 0 {
        let before = moves.drop_last();
        lemma_counted_after(n, before);
        lemma_held_after(n, before);
        lemma_held_after(n, moves);
        if held_after(n, before).len() + 1 > n {
            lemma_insert_len(counted_after(n, before), held_after(n, moves));
        }
    }
}

/// The expected move is one whose window was counted most often, and the
/// first of these in the order rock, paper, scissors.
pub proof fn lemma_expected(count_r: nat, count_p: nat, count_s: nat)
    ensures
        match expected(count_r, count_p, count_s) {
            RPS::Rock => count_r >= count_p && count_r >= count_s,
            RPS::Paper => count_p > count_r && count_p >= count_s,
            RPS::Scissors => count_s > count_r && count_s > count_p,
        },
{
}

/// Where the three windows were counted equally often, be it never, rock is
/// expected and paper is the answer.
pub proof fn lemma_tie_expects_rock(table: Multiset<Seq<RPS>>, history: Seq<RPS>, n: nat)
    requires
        table.count(candidate(history, n, RPS::Rock)) == table.count(
            candidate(history, n, RPS::Paper),
        ),
        table.count(candidate(history, n, RPS::Paper)) == table.count(
            candidate(history, n, RPS::Scissors),
        ),
    ensures
        prediction(table, history, n) == RPS::Rock,
        reply(table, history, n) == RPS::Paper,
{
}

} // verus!
