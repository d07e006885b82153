//! The table in which a predictor counts the windows it has seen.

use crate::moves::RPS;
use vstd::multiset::*;
use vstd::prelude::*;

verus! {

/// Whether two windows hold the same moves in the same order.
pub fn same_window(a: &Vec<RPS>, b: &Vec<RPS>) -> (same: bool)
    ensures
        same == (a@ == b@),
{
    if a.len() != b.len() {
        return false;
    }
    let mut i: usize = 0;
    while i < a.len()
        invariant
            a.len() == b.len(),
            i <= a.len(),
            forall|j: int| 0 <= j < i ==> a@[j] == b@[j],
        decreases a.len() - i,
    {
        if a[i] != b[i] {
            return false;
        }
        i += 1;
    }
    assert(a@ =~= b@);
    true
}

/// A copy of `window`.
pub fn copy_window(window: &Vec<RPS>) -> (copy: Vec<RPS>)
    ensures
        copy@ == window@,
{
    let mut copy: Vec<RPS> = Vec::new();
    let mut i: usize = 0;
    while i < window.len()
        invariant
            i <= window.len(),
            copy@ == window@.take(i as int),
        decreases window.len() - i,
    {
        copy.push(window[i]);
        assert(window@.take(i + 1) =~= window@.take(i as int).push(window@[i as int]));
        i += 1;
    }
    assert(window@.take(window@.len() as int) =~= window@);
    copy
}

/// A window and the number of times it was counted.
struct Entry {
    key: Vec<RPS>,
    count: usize,
}

/// The windows with their counts, taken one entry after the other.
spec fn bag(entries: Seq<Entry>) -> Multiset<Seq<RPS>>
    decreases entries.len(),
{
    if entries.len() == 0 {
        Multiset::empty()
    } else {
        bag(entries.drop_last()).update(entries.last().key@, entries.last().count as nat)
    }
}

/// No window has two entries, and no entry counts nothing.
spec fn tidy(entries: Seq<Entry>) -> bool {
    &&& forall|i: int, j: int|
        0 <= i < j < entries.len() ==> (#[trigger] entries[i]).key@ != (#[trigger] entries[j]).key@
    &&& forall|i: int| 0 <= i < entries.len() ==> (#[trigger] entries[i]).count >= 1
}

/// In a tidy list a window counts what its entry says, and nothing where it
/// has no entry.
proof fn lemma_bag_count(entries: Seq<Entry>, key: Seq<RPS>)
    requires
        tidy(entries),
    ensures
        forall|i: int|
            0 <= i < entries.len() && (#[trigger] entries[i]).key@ == key ==> bag(entries).count(key)
                == entries[i].count,
        (forall|i: int| 0 <= i < entries.len() ==> (#[trigger] entries[i]).key@ != key) ==> bag(
            entries,
        ).count(key) == 0,
    decreases entries.len(),
{
    broadcast use group_multiset_axioms;

    if entries.len() > 0 {
        let init = entries.drop_last();
        let last = entries.last();
        assert(last == entries[entries.len() - 1]);
        assert(tidy(init)) by {
            assert forall|i: int| 0 <= i < init.len() implies #[trigger] init[i] == entries[i] by {}
        }
        lemma_bag_count(init, key);
        if last.key@ == key {
            lemma_update_same(bag(init), key, last.count as nat);
        } else {
            lemma_update_different(bag(init), last.key@, last.count as nat, key);
        }
        assert forall|i: int|
            0 <= i < entries.len() && (#[trigger] entries[i]).key@ == key implies bag(
            entries,
        ).count(key) == entries[i].count by {
            if i < entries.len() - 1 {
                assert(init[i] == entries[i]);
            }
        }
        if forall|i: int| 0 <= i < entries.len() ==> (#[trigger] entries[i]).key@ != key {
            assert forall|i: int| 0 <= i < init.len() implies (#[trigger] init[i]).key@ != key by {
                assert(init[i] == entries[i]);
            }
        }
    }
}

/// Raising the count of one entry by one counts its window once more.
proof fn lemma_bag_raised(before: Seq<Entry>, after: Seq<Entry>, at: int)
    requires
        tidy(before),
        0 <= at < before.len(),
        after.len() == before.len(),
        forall|i: int| 0 <= i < before.len() ==> (#[trigger] after[i]).key@ == before[i].key@,
        forall|i: int| 0 <= i < before.len() && i != at ==> (#[trigger] after[i]).count == before[i].count,
        after[at].count == before[at].count + 1,
    ensures
        tidy(after),
        bag(after) == bag(before).insert(before[at].key@),
{
    broadcast use group_multiset_axioms;

    let key = before[at].key@;
    assert(tidy(after)) by {
        assert forall|i: int, j: int| 0 <= i < j < after.len() implies (#[trigger] after[i]).key@ != (
        #[trigger] after[j]).key@ by {
            assert(before[i].key@ != before[j].key@);
        }
        assert forall|i: int| 0 <= i < after.len() implies (#[trigger] after[i]).count >= 1 by {
            assert(before[i].count >= 1);
        }
    }
    assert forall|k: Seq<RPS>| #[trigger] bag(after).count(k) == bag(before).insert(key).count(k) by {
        lemma_bag_count(before, k);
        lemma_bag_count(after, k);
        if exists|i: int| 0 <= i < before.len() && (#[trigger] before[i]).key@ == k {
            let i = choose|i: int| 0 <= i < before.len() && (#[trigger] before[i]).key@ == k;
            assert(after[i].key@ == k);
            if i != at {
                assert(before[i].key@ != before[at].key@);
            }
        } else {
            assert forall|i: int| 0 <= i < after.len() implies (#[trigger] after[i]).key@ != k by {
                assert(before[i].key@ != k);
            }
        }
    }
    assert(bag(after) =~= bag(before).insert(key));
}

/// A new entry with the count one counts its window for the first time.
proof fn lemma_bag_extended(before: Seq<Entry>, entry: Entry)
    requires
        tidy(before),
        bag(before).count(entry.key@) == 0,
        entry.count == 1,
    ensures
        tidy(before.push(entry)),
        bag(before.push(entry)) == bag(before).insert(entry.key@),
{
    broadcast use group_multiset_axioms;

    let after = before.push(entry);
    assert(after.drop_last() =~= before);
    assert(after.last() == entry);
    assert(tidy(after)) by {
        assert forall|i: int, j: int| 0 <= i < j < after.len() implies (#[trigger] after[i]).key@ != (
        #[trigger] after[j]).key@ by {
            if j == before.len() {
                lemma_bag_count(before, entry.key@);
                assert(before[i].count >= 1);
            } else {
                assert(before[i].key@ != before[j].key@);
            }
        }
    }
    assert forall|k: Seq<RPS>| #[trigger] bag(after).count(k) == bag(before).insert(entry.key@).count(k) by {
        if k == entry.key@ {
            lemma_update_same(bag(before), k, 1);
        } else {
            lemma_update_different(bag(before), entry.key@, 1, k);
        }
    }
    assert(bag(after) =~= bag(before).insert(entry.key@));
}

/// A table of windows, each with the number of times it was counted. A
/// window that was never counted has the count zero.
pub struct Table {
    entries: Vec<Entry>,
}

impl View for Table {
    type V = Multiset<Seq<RPS>>;

    /// The windows that were counted, each as often as it was counted.
    closed spec fn view(&self) -> Multiset<Seq<RPS>> {
        bag(self.entries@)
    }
}

impl Table {
    /// What the table's methods need and keep.
    pub closed spec fn wf(&self) -> bool {
        tidy(self.entries@)
    }

    /// A table in which nothing was counted.
    pub fn new() -> (table: Table)
        ensures
            table.wf(),
            table@ == Multiset::<Seq<RPS>>::empty(),
    {
        Table { entries: Vec::new() }
    }

    /// Where `key` has its entry, if it has one.
    fn position(&self, key: &Vec<RPS>) -> (at: Option<usize>)
        requires
            self.wf(),
        ensures
            match at {
                Some(i) => i < self.entries@.len() && self.entries@[i as int].key@ == key@
                    && self@.count(key@) == self.entries@[i as int].count,
                None => self@.count(key@) == 0,
            },
    {
        let mut i: usize = 0;
        while i < self.entries.len()
            invariant
                self.wf(),
                i <= self.entries@.len(),
                forall|j: int| 0 <= j < i ==> (#[trigger] self.entries@[j]).key@ != key@,
            decreases self.entries@.len() - i,
        {
            if same_window(&self.entries[i].key, key) {
                proof {
                    lemma_bag_count(self.entries@, key@);
                }
                return Some(i);
            }
            i += 1;
        }
        proof {
            lemma_bag_count(self.entries@, key@);
        }
        None
    }

    /// How often `key` was counted.
    pub fn get(&self, key: &Vec<RPS>) -> (count: usize)
        requires
            self.wf(),
        ensures
            count == self@.count(key@),
    {
        match self.position(key) {
            Some(i) => self.entries[i].count,
            None => 0,
        }
    }

    /// Counts `key` once more.
    pub fn increment(&mut self, key: Vec<RPS>)
        requires
            old(self).wf(),
            old(self)@.count(key@) < usize::MAX,
        ensures
            final(self).wf(),
            final(self)@ == old(self)@.insert(key@),
    {
        match self.position(&key) {
            Some(i) => {
                let ghost before = self.entries@;
                self.entries[i].count = self.entries[i].count + 1;
                proof {
                    lemma_bag_raised(before, self.entries@, i as int);
                }
            },
            None => {
                let ghost before = self.entries@;
                let entry = Entry { key, count: 1 };
                self.entries.push(entry);
                proof {
                    lemma_bag_extended(before, entry);
                }
            },
        }
    }

    /// Every window that was counted, once, with its count, in no order
    /// that a caller may rely on.
    pub fn entries(&self) -> (list: Vec<(Vec<RPS>, usize)>)
        requires
            self.wf(),
        ensures
            forall|i: int|
                0 <= i < list@.len() ==> (#[trigger] list@[i]).1 >= 1 && self@.count(list@[i].0@)
                    == list@[i].1,
            forall|i: int, j: int|
                0 <= i < j < list@.len() ==> (#[trigger] list@[i]).0@ != (#[trigger] list@[j]).0@,
            forall|key: Seq<RPS>|
                self@.count(key) > 0 ==> exists|i: int|
                    0 <= i < list@.len() && (#[trigger] list@[i]).0@ == key,
    {
        let mut list: Vec<(Vec<RPS>, usize)> = Vec::new();
        let mut i: usize = 0;
        while i < self.entries.len()
            invariant
                i <= self.entries@.len(),
                list@.len() == i,
                forall|j: int|
                    0 <= j < i ==> (#[trigger] list@[j]).0@ == self.entries@[j].key@ && list@[j].1
                        == self.entries@[j].count,
            decreases self.entries@.len() - i,
        {
            list.push((copy_window(&self.entries[i].key), self.entries[i].count));
            i += 1;
        }
        proof {
            assert forall|j: int| 0 <= j < list@.len() implies (#[trigger] list@[j]).1 >= 1
                && self@.count(list@[j].0@) == list@[j].1 by {
                lemma_bag_count(self.entries@, self.entries@[j].key@);
            }
            assert forall|j: int, k: int| 0 <= j < k < list@.len() implies (#[trigger] list@[j]).0@ != (
            #[trigger] list@[k]).0@ by {
                assert(self.entries@[j].key@ != self.entries@[k].key@);
            }
            assert forall|key: Seq<RPS>| self@.count(key) > 0 implies exists|j: int|
                0 <= j < list@.len() && (#[trigger] list@[j]).0@ == key by {
                lemma_bag_count(self.entries@, key);
                let j = choose|j: int| 0 <= j < self.entries@.len() && (#[trigger] self.entries@[j]).key@ == key;
                assert(list@[j].0@ == key);
            }
        }
        list
    }
}

} // verus!
