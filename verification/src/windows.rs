//! Every window of a given length, listed once.
//!
//! The list is put together from adaptors of the crate `itertools`: the
//! combinations with replacement of the three moves, every arrangement of
//! each combination, and of all these the first occurrence of each window.

use crate::moves::{all_moves, RPS};
use crate::ngrams::NGramsPlayer;
use crate::table::copy_window;
use itertools::Itertools;
use vstd::prelude::*;

verus! {

/// The longest window that `ngrams` lists. The arrangements of one
/// combination are held in one list, and of more moves than these there are
/// more arrangements than a list can hold where addresses have 32 bits.
pub const MAX_NGRAM: usize = 11;

/// The windows of a list, each as the sequence of its moves.
pub open spec fn windows_of(list: Seq<Vec<RPS>>) -> Seq<Seq<RPS>> {
    list.map_values(|window: Vec<RPS>| window@)
}

/// What `combinations_with_replacement` of `itertools` yields, in order, for
/// `items` and the length `k`.
pub uninterp spec fn combinations_with_replacement_of(items: Seq<RPS>, k: nat) -> Seq<Seq<RPS>>;

/// What `permutations` of `itertools` yields, in order, for `items` and the
/// length `k`.
pub uninterp spec fn permutations_of(items: Seq<RPS>, k: nat) -> Seq<Seq<RPS>>;

/// The windows of `list` without those that occurred earlier in it, in the
/// order in which they first occur.
pub open spec fn first_occurrences(list: Seq<Seq<RPS>>) -> Seq<Seq<RPS>>
    decreases list.len(),
{
    if list.len() == 0 {
        Seq::empty()
    } else if list.drop_last().contains(list.last()) {
        first_occurrences(list.drop_last())
    } else {
        first_occurrences(list.drop_last()).push(list.last())
    }
}

/// The arrangements of `k` moves of each of `combos`, one combination after
/// the other.
pub open spec fn arrangements(combos: Seq<Seq<RPS>>, k: nat) -> Seq<Seq<RPS>>
    decreases combos.len(),
{
    if combos.len() == 0 {
        Seq::empty()
    } else {
        arrangements(combos.drop_last(), k) + permutations_of(combos.last(), k)
    }
}

/// Whether `list` holds every order in which the moves of `combo` can be
/// put.
pub open spec fn holds_arrangements(list: Seq<Seq<RPS>>, combo: Seq<RPS>) -> bool {
    forall|window: Seq<RPS>|
        window.to_multiset() == combo.to_multiset() ==> #[trigger] list.contains(window)
}

/// The list that `ngrams` returns for windows of `n` moves.
pub open spec fn spec_ngrams(n: nat) -> Seq<Seq<RPS>> {
    first_occurrences(arrangements(combinations_with_replacement_of(all_moves(), n), n))
}

/// The combinations of `k` of `items` in which an item may be taken more
/// than once, collected from `Itertools::combinations_with_replacement`.
///
/// Trusted, not proved: the list is a function of `items` and `k` alone;
/// each combination in it holds `k` items; and whichever `k` of the items
/// one takes, repeated or not, the list has a combination that holds just
/// these, each as often. With no more than `MAX_NGRAM` items and `k` no
/// larger, the combinations are few enough for one list.
#[verifier::external_body]
fn combinations_with_replacement(items: Vec<RPS>, k: usize) -> (combos: Vec<Vec<RPS>>)
    requires
        items@.len() <= MAX_NGRAM,
        k <= MAX_NGRAM,
    ensures
        windows_of(combos@) == combinations_with_replacement_of(items@, k as nat),
        forall|i: int| 0 <= i < combos@.len() ==> (#[trigger] combos@[i])@.len() == k,
        forall|window: Seq<RPS>|
            window.len() == k && (forall|i: int|
                0 <= i < window.len() ==> items@.contains(#[trigger] window[i])) ==> exists|
                j: int,
            |
                0 <= j < combos@.len() && (#[trigger] combos@[j])@.to_multiset()
                    == window.to_multiset(),
{
    items.into_iter().combinations_with_replacement(k).collect()
}

/// The arrangements of `k` of `items`, collected from
/// `Itertools::permutations`.
///
/// Trusted, not proved: the list is a function of `items` and `k` alone;
/// each arrangement in it holds `k` items; and where `k` is the number of
/// the items, every order in which the items can be put is in the list. Of
/// no more than `MAX_NGRAM` items the arrangements are few enough for one
/// list.
#[verifier::external_body]
fn permutations(items: Vec<RPS>, k: usize) -> (perms: Vec<Vec<RPS>>)
    requires
        items@.len() <= MAX_NGRAM,
    ensures
        windows_of(perms@) == permutations_of(items@, k as nat),
        forall|i: int| 0 <= i < perms@.len() ==> (#[trigger] perms@[i])@.len() == k,
        k == items@.len() ==> forall|window: Seq<RPS>|
            window.to_multiset() == items@.to_multiset() ==> #[trigger] windows_of(
                perms@,
            ).contains(window),
{
    items.into_iter().permutations(k).collect()
}

/// The windows of `list` without those that occurred earlier in it,
/// collected from `Itertools::unique`.
///
/// Trusted, not proved: the adaptor keeps the first of equal items and
/// the order of those it keeps. It tells windows apart by the equality and
/// the hash that are derived for `RPS`, under which two windows are equal
/// where they hold the same moves in the same order.
#[verifier::external_body]
fn unique(list: Vec<Vec<RPS>>) -> (firsts: Vec<Vec<RPS>>)
    ensures
        windows_of(firsts@) == first_occurrences(windows_of(list@)),
{
    list.into_iter().unique().collect()
}

/// The first occurrences of a list hold the windows that the list holds,
/// and none of them twice.
pub proof fn lemma_first_occurrences(list: Seq<Seq<RPS>>)
    ensures
        forall|window: Seq<RPS>|
            first_occurrences(list).contains(window) <==> list.contains(window),
        first_occurrences(list).no_duplicates(),
    decreases list.len(),
{
    let firsts = first_occurrences(list);
    if list.len() > 0 {
        let init = list.drop_last();
        let last = list.last();
        let before = first_occurrences(init);
        lemma_first_occurrences(init);
        assert forall|window: Seq<RPS>| firsts.contains(window) <==> list.contains(window) by {
            if list.contains(window) {
                let i = choose|i: int| 0 <= i < list.len() && list[i] == window;
                if i < init.len() {
                    assert(init[i] == window);
                    assert(init.contains(window));
                    assert(before.contains(window));
                    let j = choose|j: int| 0 <= j < before.len() && before[j] == window;
                    assert(firsts[j] == window);
                } else {
                    assert(window == last);
                    if init.contains(last) {
                        assert(before.contains(window));
                    } else {
                        assert(firsts[before.len() as int] == window);
                    }
                }
            }
            if firsts.contains(window) {
                let j = choose|j: int| 0 <= j < firsts.len() && firsts[j] == window;
                if j < before.len() {
                    assert(before[j] == window);
                    assert(before.contains(window));
                    assert(init.contains(window));
                    let i = choose|i: int| 0 <= i < init.len() && init[i] == window;
                    assert(list[i] == window);
                } else {
                    assert(window == last);
                    assert(list[list.len() - 1] == window);
                }
            }
        }
        if !init.contains(last) {
            assert forall|i: int, j: int|
                0 <= i < firsts.len() && 0 <= j < firsts.len() && i != j implies firsts[i]
                != firsts[j] by {
                if i < before.len() && j < before.len() {
                    assert(before[i] != before[j]);
                } else if i < before.len() {
                    assert(before[i] == firsts[i]);
                    assert(before.contains(firsts[i]));
                } else {
                    assert(before[j] == firsts[j]);
                    assert(before.contains(firsts[j]));
                }
            }
        }
    }
}

/// A list without a window that occurs twice is its own list of first
/// occurrences.
pub proof fn lemma_first_occurrences_of_distinct(list: Seq<Seq<RPS>>)
    requires
        list.no_duplicates(),
    ensures
        first_occurrences(list) == list,
    decreases list.len(),
{
    if list.len() > 0 {
        let init = list.drop_last();
        lemma_first_occurrences_of_distinct(init);
        if init.contains(list.last()) {
            let i = choose|i: int| 0 <= i < init.len() && init[i] == list.last();
            assert(list[i] == list[list.len() - 1]);
        }
        assert(init.push(list.last()) =~= list);
    }
}

/// To take the first occurrences of the front of a list before the whole
/// list's changes nothing.
pub proof fn lemma_first_occurrences_in_steps(front: Seq<Seq<RPS>>, back: Seq<Seq<RPS>>)
    ensures
        first_occurrences(first_occurrences(front) + back) == first_occurrences(front + back),
    decreases back.len(),
{
    lemma_first_occurrences(front);
    if back.len() == 0 {
        assert(first_occurrences(front) + back =~= first_occurrences(front));
        assert(front + back =~= front);
        lemma_first_occurrences_of_distinct(first_occurrences(front));
    } else {
        let init = back.drop_last();
        let last = back.last();
        let short = first_occurrences(front) + init;
        let long = front + init;
        lemma_first_occurrences_in_steps(front, init);
        assert((first_occurrences(front) + back).drop_last() =~= short);
        assert((front + back).drop_last() =~= long);
        assert((first_occurrences(front) + back).last() == last);
        assert((front + back).last() == last);
        assert(short.contains(last) <==> long.contains(last)) by {
            if short.contains(last) {
                let i = choose|i: int| 0 <= i < short.len() && short[i] == last;
                if i < first_occurrences(front).len() {
                    assert(first_occurrences(front)[i] == last);
                    assert(first_occurrences(front).contains(last));
                    assert(front.contains(last));
                    let j = choose|j: int| 0 <= j < front.len() && front[j] == last;
                    assert(long[j] == last);
                } else {
                    assert(long[front.len() + (i - first_occurrences(front).len())] == last);
                }
            }
            if long.contains(last) {
                let i = choose|i: int| 0 <= i < long.len() && long[i] == last;
                if i < front.len() {
                    assert(front[i] == last);
                    assert(front.contains(last));
                    assert(first_occurrences(front).contains(last));
                    let j = choose|j: int|
                        0 <= j < first_occurrences(front).len() && first_occurrences(front)[j]
                            == last;
                    assert(short[j] == last);
                } else {
                    assert(short[first_occurrences(front).len() + (i - front.len())] == last);
                }
            }
        }
    }
}

impl NGramsPlayer {
    /// Every window of `n` moves, once. The windows come in the order in
    /// which the arrangements of the combinations of `n` moves, taken from
    /// rock, paper and scissors with repetition, first show them.
    pub fn ngrams(n: usize) -> (list: Vec<Vec<RPS>>)
        requires
            n <= MAX_NGRAM,
        ensures
            windows_of(list@) == spec_ngrams(n as nat),
            windows_of(list@).no_duplicates(),
            forall|i: int| 0 <= i < list@.len() ==> (#[trigger] list@[i])@.len() == n,
            forall|window: Seq<RPS>|
                window.len() == n <==> #[trigger] windows_of(list@).contains(window),
    {
        let combos = combinations_with_replacement(RPS::all(), n);
        let mut list: Vec<Vec<RPS>> = Vec::new();
        let mut i: usize = 0;
        proof {
            assert(windows_of(combos@).take(0) =~= Seq::<Seq<RPS>>::empty());
            assert(windows_of(list@) =~= Seq::<Seq<RPS>>::empty());
        }
        while i < combos.len()
            invariant
                n <= MAX_NGRAM,
                i <= combos@.len(),
                forall|j: int| 0 <= j < combos@.len() ==> (#[trigger] combos@[j])@.len() == n,
                windows_of(list@) == first_occurrences(
                    arrangements(windows_of(combos@).take(i as int), n as nat),
                ),
                forall|j: int| 0 <= j < list@.len() ==> (#[trigger] list@[j])@.len() == n,
                forall|j: int|
                    0 <= j < i ==> holds_arrangements(windows_of(list@), (#[trigger] combos@[j])@),
            decreases combos@.len() - i,
        {
            let ghost seen = arrangements(windows_of(combos@).take(i as int), n as nat);
            let ghost held = list@;
            let mut perms = permutations(copy_window(&combos[i]), n);
            let ghost more = perms@;
            list.append(&mut perms);
            let ghost joined = list@;
            list = unique(list);
            proof {
                let upto = windows_of(combos@).take(i + 1);
                assert(upto.drop_last() =~= windows_of(combos@).take(i as int));
                assert(upto.last() == combos@[i as int]@);
                assert(windows_of(joined) =~= windows_of(held) + windows_of(more));
                lemma_first_occurrences_in_steps(seen, windows_of(more));
                lemma_first_occurrences(windows_of(joined));
                assert forall|j: int| 0 <= j < list@.len() implies (#[trigger] list@[j])@.len()
                    == n by {
                    let window = windows_of(list@)[j];
                    assert(window == list@[j]@);
                    assert(windows_of(list@).contains(window));
                    assert(windows_of(joined).contains(window));
                    let k = choose|k: int|
                        0 <= k < windows_of(joined).len() && windows_of(joined)[k] == window;
                    assert(joined[k]@ == window);
                    if k < held.len() {
                        assert(joined[k] == held[k]);
                    } else {
                        assert(joined[k] == more[k - held.len()]);
                    }
                }
                assert forall|j: int| 0 <= j < i + 1 implies holds_arrangements(
                    windows_of(list@),
                    (#[trigger] combos@[j])@,
                ) by {
                    assert forall|window: Seq<RPS>|
                        window.to_multiset() == combos@[j]@.to_multiset() implies #[trigger] windows_of(
                        list@,
                    ).contains(window) by {
                        if j < i {
                            assert(holds_arrangements(windows_of(held), combos@[j]@));
                            assert(windows_of(held).contains(window));
                            let k = choose|k: int|
                                0 <= k < windows_of(held).len() && windows_of(held)[k] == window;
                            assert(windows_of(joined)[k] == window);
                        } else {
                            assert(windows_of(more).contains(window));
                            let k = choose|k: int|
                                0 <= k < windows_of(more).len() && windows_of(more)[k] == window;
                            assert(windows_of(joined)[held.len() + k] == window);
                        }
                        assert(windows_of(joined).contains(window));
                    }
                }
            }
            i += 1;
        }
        proof {
            assert(windows_of(combos@).take(combos@.len() as int) =~= windows_of(combos@));
            lemma_first_occurrences(arrangements(windows_of(combos@), n as nat));
            assert forall|window: Seq<RPS>| window.len() == n implies #[trigger] windows_of(
                list@,
            ).contains(window) by {
                assert forall|k: int| 0 <= k < window.len() implies all_moves().contains(
                    #[trigger] window[k],
                ) by {
                    match window[k] {
                        RPS::Rock => assert(all_moves()[0] == window[k]),
                        RPS::Paper => assert(all_moves()[1] == window[k]),
                        RPS::Scissors => assert(all_moves()[2] == window[k]),
                    }
                }
                let j = choose|j: int|
                    0 <= j < combos@.len() && (#[trigger] combos@[j])@.to_multiset()
                        == window.to_multiset();
                assert(holds_arrangements(windows_of(list@), combos@[j]@));
            }
            assert forall|window: Seq<RPS>| #[trigger]
                windows_of(list@).contains(window) implies window.len() == n by {
                let k = choose|k: int|
                    0 <= k < windows_of(list@).len() && windows_of(list@)[k] == window;
                assert(list@[k]@ == window);
            }
        }
        list
    }
}

} // verus!
