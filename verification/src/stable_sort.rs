//! A stable sort by a two-part rank, with its meaning stated as a
//! function on sequences.

use vstd::prelude::*;
use vstd::seq_lib::{to_multiset_build, to_multiset_insert};

verus! {

/// Things ordered by a rank of two numbers, the first weighing more.
pub trait Ranked {
    /// The rank by which the value is ordered.
    spec fn rank(&self) -> (int, int);

    /// The rank, computed.
    fn rank_of(&self) -> (r: (u64, u64))
        ensures
            (r.0 as int, r.1 as int) == self.rank(),
    ;
}

/// Whether rank `a` comes strictly after rank `b`.
pub open spec fn ranks_after(a: (int, int), b: (int, int)) -> bool {
    a.0 > b.0 || (a.0 == b.0 && a.1 > b.1)
}

/// Where a new item goes in an ordered sequence: before the first item
/// that ranks strictly after it, and so behind every item of its own
/// rank.
pub open spec fn slot<T: Ranked>(ordered: Seq<T>, item: T) -> int
    decreases ordered.len(),
{
    if ordered.len() == 0 {
        0
    } else if ranks_after(ordered[0].rank(), item.rank()) {
        0
    } else {
        1 + slot(ordered.skip(1), item)
    }
}

/// A sequence sorted by rank, items of equal rank in their first order.
pub open spec fn stable_sorted<T: Ranked>(items: Seq<T>) -> Seq<T>
    decreases items.len(),
{
    if items.len() == 0 {
        Seq::empty()
    } else {
        let before = stable_sorted(items.drop_last());
        before.insert(slot(before, items.last()), items.last())
    }
}

/// Whether no item ranks strictly after a later one.
pub open spec fn ordered_by_rank<T: Ranked>(items: Seq<T>) -> bool {
    forall|a: int, b: int|
        0 <= a < b < items.len() ==> !ranks_after(
            (#[trigger] items[a]).rank(),
            (#[trigger] items[b]).rank(),
        )
}

/// The slot lies within the sequence; nothing before it ranks after the
/// item, and the item at it does.
pub proof fn lemma_slot<T: Ranked>(ordered: Seq<T>, item: T)
    ensures
        0 <= slot(ordered, item) <= ordered.len(),
        forall|j: int|
            0 <= j < slot(ordered, item) ==> !ranks_after((#[trigger] ordered[j]).rank(), item.rank()),
        slot(ordered, item) < ordered.len() ==> ranks_after(
            ordered[slot(ordered, item)].rank(),
            item.rank(),
        ),
    decreases ordered.len(),
{
    if ordered.len() > 0 && !ranks_after(ordered[0].rank(), item.rank()) {
        let rest = ordered.skip(1);
        lemma_slot(rest, item);
        assert forall|j: int| 0 <= j < slot(ordered, item) implies !ranks_after(
            (#[trigger] ordered[j]).rank(),
            item.rank(),
        ) by {
            if j > 0 {
                assert(ordered[j] == rest[j - 1]);
            }
        }
        if slot(ordered, item) < ordered.len() {
            assert(ordered[slot(ordered, item)] == rest[slot(rest, item)]);
        }
    }
}

/// A position that the item at it outranks, and before which nothing
/// does, is the slot; so is the length where nothing outranks the item.
pub proof fn lemma_slot_is<T: Ranked>(ordered: Seq<T>, item: T, at: int)
    requires
        0 <= at <= ordered.len(),
        forall|j: int| 0 <= j < at ==> !ranks_after((#[trigger] ordered[j]).rank(), item.rank()),
        at < ordered.len() ==> ranks_after(ordered[at].rank(), item.rank()),
    ensures
        slot(ordered, item) == at,
{
    lemma_slot(ordered, item);
    let p = slot(ordered, item);
    if p < at {
        assert(!ranks_after(ordered[p].rank(), item.rank()));
    } else if at < p {
        assert(!ranks_after(ordered[at].rank(), item.rank()));
    }
}

/// Sorting orders the items by rank.
pub proof fn lemma_stable_sorted_is_ordered<T: Ranked>(items: Seq<T>)
    ensures
        ordered_by_rank(stable_sorted(items)),
        stable_sorted(items).len() == items.len(),
    decreases items.len(),
{
    if items.len() > 0 {
        let before = stable_sorted(items.drop_last());
        let item = items.last();
        lemma_stable_sorted_is_ordered(items.drop_last());
        lemma_slot(before, item);
        let p = slot(before, item);
        let after = before.insert(p, item);
        assert forall|a: int, b: int| 0 <= a < b < after.len() implies !ranks_after(
            (#[trigger] after[a]).rank(),
            (#[trigger] after[b]).rank(),
        ) by {
            if b < p {
                assert(after[a] == before[a] && after[b] == before[b]);
            } else if b == p {
                assert(after[a] == before[a]);
            } else if a < p {
                assert(after[a] == before[a] && after[b] == before[b - 1]);
            } else if a == p {
                assert(after[b] == before[b - 1]);
                if p < b - 1 {
                    assert(!ranks_after(before[p].rank(), before[b - 1].rank()));
                }
            } else {
                assert(after[a] == before[a - 1] && after[b] == before[b - 1]);
            }
        }
    }
}

/// Sorting keeps every item, as often as it occurred.
pub proof fn lemma_stable_sorted_permutes<T: Ranked>(items: Seq<T>)
    ensures
        stable_sorted(items).to_multiset() == items.to_multiset(),
    decreases items.len(),
{
    if items.len() > 0 {
        let before = stable_sorted(items.drop_last());
        let item = items.last();
        lemma_stable_sorted_permutes(items.drop_last());
        lemma_slot(before, item);
        to_multiset_insert(before, slot(before, item), item);
        to_multiset_build(items.drop_last(), item);
        assert(items.drop_last().push(item) =~= items);
    } else {
        assert(stable_sorted(items) =~= items);
    }
}

/// Whether `sorted` holds the items of `items` in another order:
/// `from` names, for each place of `sorted`, the place in `items` that its
/// item came from, and no place of `items` is named twice.
pub open spec fn rearranges<T>(sorted: Seq<T>, items: Seq<T>, from: Seq<int>) -> bool {
    &&& sorted.len() == items.len()
    &&& from.len() == items.len()
    &&& forall|i: int|
        0 <= i < sorted.len() ==> 0 <= #[trigger] from[i] < items.len() && sorted[i] == items[from[i]]
    &&& forall|i: int, j: int| 0 <= i < j < from.len() ==> #[trigger] from[i] != #[trigger] from[j]
}

/// Sorting neither adds, loses nor changes an item: it rearranges.
pub proof fn lemma_stable_sorted_rearranges<T: Ranked>(items: Seq<T>) -> (from: Seq<int>)
    ensures
        rearranges(stable_sorted(items), items, from),
    decreases items.len(),
{
    if items.len() == 0 {
        Seq::empty()
    } else {
        let shorter = items.drop_last();
        let before = stable_sorted(shorter);
        let item = items.last();
        let from_before = lemma_stable_sorted_rearranges(shorter);
        lemma_slot(before, item);
        let p = slot(before, item);
        let sorted = before.insert(p, item);
        let from = from_before.insert(p, items.len() - 1);
        assert forall|i: int| 0 <= i < sorted.len() implies 0 <= #[trigger] from[i] < items.len()
            && sorted[i] == items[from[i]] by {
            if i < p {
                assert(from[i] == from_before[i] && sorted[i] == before[i]);
                assert(shorter[from_before[i]] == items[from_before[i]]);
            } else if i > p {
                assert(from[i] == from_before[i - 1] && sorted[i] == before[i - 1]);
                assert(shorter[from_before[i - 1]] == items[from_before[i - 1]]);
            }
        }
        assert forall|i: int, j: int| 0 <= i < j < from.len() implies #[trigger] from[i]
            != #[trigger] from[j] by {
            let ki = if i < p {
                i
            } else {
                i - 1
            };
            let kj = if j < p {
                j
            } else {
                j - 1
            };
            if i == p {
                assert(from[j] == from_before[kj]);
            } else if j == p {
                assert(from[i] == from_before[ki]);
            } else {
                assert(from[i] == from_before[ki] && from[j] == from_before[kj]);
            }
        }
        from
    }
}

/// Finds the slot of an item in an ordered vector.
pub fn find_slot<T: Ranked>(ordered: &Vec<T>, item: &T) -> (at: usize)
    ensures
        at as int == slot(ordered@, *item),
        at <= ordered@.len(),
{
    let rank = item.rank_of();
    let n: usize = ordered.len();
    let mut i: usize = 0;
    while i < n
        invariant
            i <= n,
            n == ordered@.len(),
            (rank.0 as int, rank.1 as int) == item.rank(),
            forall|j: int| 0 <= j < i ==> !ranks_after((#[trigger] ordered@[j]).rank(), item.rank()),
        decreases n - i,
    {
        let other = ordered[i].rank_of();
        if other.0 > rank.0 || (other.0 == rank.0 && other.1 > rank.1) {
            proof {
                lemma_slot_is(ordered@, *item, i as int);
            }
            return i;
        }
        i += 1;
    }
    proof {
        lemma_slot_is(ordered@, *item, n as int);
    }
    n
}

/// Sorts by rank, keeping items of equal rank in the order they came.
pub fn sort_stable<T: Ranked>(items: Vec<T>) -> (sorted: Vec<T>)
    ensures
        sorted@ == stable_sorted(items@),
{
    let mut rest = items;
    let mut sorted: Vec<T> = Vec::new();
    let ghost all = rest@;
    let ghost done: int = 0;
    assert(all.take(0) =~= Seq::<T>::empty());
    while rest.len() > 0
        invariant
            0 <= done <= all.len(),
            rest@ == all.skip(done),
            sorted@ == stable_sorted(all.take(done)),
        decreases rest@.len(),
    {
        let item = rest.remove(0);
        let at = find_slot(&sorted, &item);
        sorted.insert(at, item);
        proof {
            assert(item == all[done]);
            assert(all.take(done + 1).drop_last() =~= all.take(done));
            assert(all.take(done + 1).last() == item);
            assert(rest@ =~= all.skip(done + 1));
            done = done + 1;
        }
    }
    proof {
        assert(all.take(done) =~= all);
    }
    sorted
}

} // verus!
