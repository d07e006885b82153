//! The three moves and the cycle in which they defeat each other.

use rand::seq::SliceRandom;
use std::cmp::Ordering;
use vstd::prelude::*;
use vstd::std_specs::cmp::PartialOrdSpec;
use vstd::std_specs::cmp::PartialOrdSpecImpl;

verus! {

/// A move of the game.
#[derive(Debug, Clone, Copy, PartialEq, Eq, Hash, Structural)]
pub enum RPS {
    Rock,
    Paper,
    Scissors,
}

/// The moves in the order in which they are offered and tried: rock, paper,
/// scissors.
pub open spec fn all_moves() -> Seq<RPS> {
    seq![RPS::Rock, RPS::Paper, RPS::Scissors]
}

/// One of `moves`, drawn by `SliceRandom::choose` of the crate `rand` with
/// the generator that `rand::thread_rng` hands to the calling thread.
///
/// Trusted, not proved: `choose` answers `None` for an empty slice and
/// otherwise an element of the slice. Which element is left open, as it is
/// drawn anew at every call. The generator is seeded by the system when a
/// thread first asks for it, and `rand` gives up where the system cannot.
#[verifier::external_body]
fn draw(moves: &Vec<RPS>) -> (pick: Option<RPS>)
    ensures
        moves@.len() == 0 ==> pick is None,
        moves@.len() > 0 ==> pick is Some && moves@.contains(pick->0),
{
    moves.choose(&mut rand::thread_rng()).copied()
}

impl RPS {
    /// The move that defeats `self`: paper wraps rock, scissors cut paper,
    /// rock blunts scissors.
    pub open spec fn spec_counter(self) -> RPS {
        match self {
            RPS::Rock => RPS::Paper,
            RPS::Paper => RPS::Scissors,
            RPS::Scissors => RPS::Rock,
        }
    }

    /// Whether `self` defeats `other`.
    pub open spec fn spec_beats(self, other: RPS) -> bool {
        self == other.spec_counter()
    }

    /// What `name` spells for each move.
    pub open spec fn spec_name(self) -> Seq<char> {
        match self {
            RPS::Rock => "Rock"@,
            RPS::Paper => "Paper"@,
            RPS::Scissors => "Scissors"@,
        }
    }

    /// Every move, once: rock, paper, scissors.
    pub fn all() -> (moves: Vec<RPS>)
        ensures
            moves@ == all_moves(),
    {
        vec![RPS::Rock, RPS::Paper, RPS::Scissors]
    }

    /// A move drawn at random, each of the three being as likely as the
    /// others.
    pub fn rand() -> (m: RPS)
        ensures
            all_moves().contains(m),
    {
        let moves = RPS::all();
        draw(&moves).unwrap()
    }

    /// The move that defeats `self`.
    #[verifier::when_used_as_spec(spec_counter)]
    pub fn counter(self) -> (c: RPS)
        ensures
            c == self.spec_counter(),
    {
        match self {
            RPS::Rock => RPS::Paper,
            RPS::Paper => RPS::Scissors,
            RPS::Scissors => RPS::Rock,
        }
    }

    /// Whether `self` defeats `other`.
    #[verifier::when_used_as_spec(spec_beats)]
    pub fn beats(self, other: RPS) -> (b: bool)
        ensures
            b == self.spec_beats(other),
    {
        self == other.counter()
    }

    /// How `self` compares with `other` in the cyclic order of the moves,
    /// in which less means "loses to".
    pub fn cmp(&self, other: &RPS) -> (o: Ordering)
        ensures
            Some(o) == PartialOrdSpec::partial_cmp_spec(self, other),
    {
        self.partial_cmp(other).unwrap()
    }

    /// The move's name, capitalised.
    pub fn name(self) -> (s: &'static str)
        ensures
            s@ == self.spec_name(),
    {
        match self {
            RPS::Rock => "Rock",
            RPS::Paper => "Paper",
            RPS::Scissors => "Scissors",
        }
    }
}

impl PartialOrd for RPS {
    /// The cyclic order in which less means "loses to": rock is less than
    /// paper, paper less than scissors, scissors less than rock. Each move
    /// equals itself, and every pair is ordered.
    fn partial_cmp(&self, other: &Self) -> (o: Option<Ordering>) {
        Some(
            match (self, other) {
                (RPS::Rock, RPS::Rock) => Ordering::Equal,
                (RPS::Rock, RPS::Paper) => Ordering::Less,
                (RPS::Rock, RPS::Scissors) => Ordering::Greater,
                (RPS::Paper, RPS::Rock) => Ordering::Greater,
                (RPS::Paper, RPS::Paper) => Ordering::Equal,
                (RPS::Paper, RPS::Scissors) => Ordering::Less,
                (RPS::Scissors, RPS::Rock) => Ordering::Less,
                (RPS::Scissors, RPS::Paper) => Ordering::Greater,
                (RPS::Scissors, RPS::Scissors) => Ordering::Equal,
            },
        )
    }
}

impl PartialOrdSpecImpl for RPS {
    open spec fn obeys_partial_cmp_spec() -> bool {
        true
    }

    open spec fn partial_cmp_spec(&self, other: &RPS) -> Option<Ordering> {
        Some(
            if *self == *other {
                Ordering::Equal
            } else if other.spec_beats(*self) {
                Ordering::Less
            } else {
                Ordering::Greater
            },
        )
    }
}

/// The moves defeat each other in one cycle of three: paper defeats rock,
/// scissors defeat paper, rock defeats scissors. No move defeats itself, of
/// two different moves exactly one defeats the other, and the counter of the
/// counter of the counter of a move is that move again.
pub proof fn lemma_beats_is_one_cycle()
    ensures
        RPS::Paper.spec_beats(RPS::Rock),
        RPS::Scissors.spec_beats(RPS::Paper),
        RPS::Rock.spec_beats(RPS::Scissors),
        forall|m: RPS| !m.spec_beats(m),
        forall|a: RPS, b: RPS| a != b ==> (a.spec_beats(b) <==> !b.spec_beats(a)),
        forall|m: RPS|
            #![trigger m.spec_counter()]
            m.spec_counter() != m && m.spec_counter().spec_counter() != m
                && m.spec_counter().spec_counter().spec_counter() == m,
{
}

/// In the order of [`RPS`] a move is less than another exactly when it loses
/// to it, and equal exactly when the two are the same move.
pub proof fn lemma_order_follows_beats(a: RPS, b: RPS)
    ensures
        PartialOrdSpec::partial_cmp_spec(&a, &b) == Some(Ordering::Less) <==> b.spec_beats(a),
        PartialOrdSpec::partial_cmp_spec(&a, &b) == Some(Ordering::Greater) <==> a.spec_beats(b),
        PartialOrdSpec::partial_cmp_spec(&a, &b) == Some(Ordering::Equal) <==> a == b,
{
}

} // verus!
