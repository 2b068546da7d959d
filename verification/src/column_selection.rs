//! Which of the blobs and columns that the execution layer supplies are worth importing.

use crate::primitives::ColumnIndex;
use std::collections::HashSet;
use vstd::prelude::*;

verus! {

broadcast use vstd::std_specs::hash::group_hash_axioms;

/// A blob or a column, with its index.
#[derive(Clone, Debug)]
pub struct Indexed<I> {
    pub index: u64,
    pub item: I,
}

/// The items whose index is wanted, in order.
pub open spec fn selected<I>(items: Seq<Indexed<I>>, wanted: Set<u64>) -> Seq<Indexed<I>>
    decreases items.len(),
{
    if items.len() == 0 {
        Seq::empty()
    } else {
        let earlier = selected(items.drop_last(), wanted);
        if wanted.contains(items.last().index) {
            earlier.push(items.last())
        } else {
            earlier
        }
    }
}

/// Selected items are wanted, and come from the items.
pub proof fn law_selected_are_wanted<I>(items: Seq<Indexed<I>>, wanted: Set<u64>)
    ensures
        selected(items, wanted).len() <= items.len(),
        forall|k: int|
            0 <= k < selected(items, wanted).len() ==> wanted.contains(
                (#[trigger] selected(items, wanted)[k]).index,
            ) && items.contains(selected(items, wanted)[k]),
    decreases items.len(),
{
    if items.len() > 0 {
        let init = items.drop_last();
        let earlier = selected(init, wanted);
        law_selected_are_wanted(init, wanted);
        assert forall|k: int| 0 <= k < selected(items, wanted).len() implies wanted.contains(
            (#[trigger] selected(items, wanted)[k]).index,
        ) && items.contains(selected(items, wanted)[k]) by {
            if k < earlier.len() {
                assert(selected(items, wanted)[k] == earlier[k]);
                let j = init.index_of(earlier[k]);
                assert(items[j] == earlier[k]);
            } else {
                assert(items[items.len() - 1] == selected(items, wanted)[k]);
            }
        }
    }
}

/// No wanted item is left out.
pub proof fn law_wanted_are_selected<I>(items: Seq<Indexed<I>>, wanted: Set<u64>, k: int)
    requires
        0 <= k < items.len(),
        wanted.contains(items[k].index),
    ensures
        selected(items, wanted).contains(items[k]),
    decreases items.len(),
{
    let all = selected(items, wanted);
    if k == items.len() - 1 {
        assert(all[all.len() - 1] == items[k]);
    } else {
        let init = items.drop_last();
        law_wanted_are_selected(init, wanted, k);
        let j = selected(init, wanted).index_of(items[k]);
        assert(all[j] == items[k]);
    }
}

/// Selecting twice is selecting what both want.
pub proof fn law_selections_combine<I>(items: Seq<Indexed<I>>, first: Set<u64>, second: Set<u64>)
    ensures
        selected(selected(items, first), second) == selected(items, first.intersect(second)),
    decreases items.len(),
{
    if items.len() > 0 {
        let init = items.drop_last();
        law_selections_combine(init, first, second);
        if first.contains(items.last().index) {
            assert(selected(items, first).drop_last() =~= selected(init, first));
        }
    }
}

/// Selecting is filtering by what is wanted: the items that are wanted, all of them, each as often
/// as it was there, in their order.
pub proof fn law_selection_is_a_filter<I>(
    items: Seq<Indexed<I>>,
    wanted: Set<u64>,
    is_wanted: spec_fn(Indexed<I>) -> bool,
)
    requires
        forall|i: int|
            0 <= i < items.len() ==> #[trigger] is_wanted(items[i]) == wanted.contains(
                items[i].index,
            ),
    ensures
        selected(items, wanted) == items.filter(is_wanted),
    decreases items.len(),
{
    reveal(Seq::filter);
    if items.len() > 0 {
        let init = items.drop_last();
        assert forall|i: int| 0 <= i < init.len() implies #[trigger] is_wanted(init[i])
            == wanted.contains(init[i].index) by {
            assert(is_wanted(items[i]) == wanted.contains(items[i].index));
        }
        law_selection_is_a_filter(init, wanted, is_wanted);
        assert(is_wanted(items[items.len() - 1]) == wanted.contains(items.last().index));
    }
}

/// Nothing speaks against an index exactly where it is not known which were seen, or it was not.
pub proof fn law_only_what_was_seen_is_dropped(seen: Option<Set<u64>>, index: u64)
    ensures
        not_seen(seen).contains(index) <==> (seen is Some ==> !seen->0.contains(index)),
{
}

/// The indices that nothing speaks against: all but those that were seen, where it is known which
/// were.
pub open spec fn not_seen(seen: Option<Set<u64>>) -> Set<u64> {
    match seen {
        Some(seen) => seen.complement(),
        None => Set::full(),
    }
}

/// Selecting from what nothing speaks against leaves everything.
proof fn lemma_select_all<I>(items: Seq<Indexed<I>>)
    ensures
        selected(items, Set::full()) == items,
    decreases items.len(),
{
    if items.len() > 0 {
        lemma_select_all(items.drop_last());
        assert(items.drop_last().push(items.last()) =~= items);
    } else {
        assert(selected(items, Set::full()) =~= items);
    }
}

/// Keeps the items whose index is wanted, in order; `is_wanted` decides membership of `wanted`.
fn keep_wanted<I, F: Fn(u64) -> bool>(
    items: Vec<Indexed<I>>,
    is_wanted: F,
    Ghost(wanted): Ghost<Set<u64>>,
) -> (result: Vec<Indexed<I>>)
    requires
        forall|index: u64| call_requires(is_wanted, (index,)),
        forall|index: u64, answer: bool| #[trigger]
            call_ensures(is_wanted, (index,), answer) ==> answer == wanted.contains(index),
    ensures
        result@ == selected(items@, wanted),
{
    let ghost all = items@;
    let mut kept: Vec<Indexed<I>> = Vec::new();
    for item in it: items
        invariant
            it.seq() == all,
            forall|index: u64| call_requires(is_wanted, (index,)),
            forall|index: u64, answer: bool| #[trigger]
                call_ensures(is_wanted, (index,), answer) ==> answer == wanted.contains(index),
            kept@ == selected(all.take(it.index() as int), wanted),
            all.take(all.len() as int) == all,
    {
        assert(all.take(it.index() + 1).drop_last() =~= all.take(it.index() as int));
        if is_wanted(item.index) {
            kept.push(item);
        }
    }
    kept
}

/// The set of some indices.
pub open spec fn set_of(indices: Option<Vec<u64>>) -> Option<Set<u64>> {
    match indices {
        Some(indices) => Some(indices@.to_set()),
        None => None,
    }
}

/// The set of some observed indices.
pub open spec fn observed_set(indices: Option<HashSet<u64>>) -> Option<Set<u64>> {
    match indices {
        Some(indices) => Some(indices@),
        None => None,
    }
}

/// Whether indices contain an index.
pub fn contains_index(indices: &Vec<u64>, index: u64) -> (result: bool)
    ensures
        result == indices@.to_set().contains(index),
        result == indices@.contains(index),
{
    let mut k: usize = 0;
    while k < indices.len()
        invariant
            k <= indices@.len(),
            forall|j: int| 0 <= j < k ==> indices@[j] != index,
        decreases indices@.len() - k,
    {
        if indices[k] == index {
            assert(indices@.contains(index));
            return true;
        }
        k += 1;
    }
    false
}

/// Counts the distinct indices.
pub fn count_distinct(indices: &Vec<u64>) -> (result: usize)
    ensures
        result == indices@.to_set().len(),
{
    let mut seen: Vec<u64> = Vec::new();
    let mut k: usize = 0;
    while k < indices.len()
        invariant
            k <= indices@.len(),
            seen@.no_duplicates(),
            seen@.to_set() == indices@.take(k as int).to_set(),
        decreases indices@.len() - k,
    {
        let index: u64 = indices[k];
        proof {
            assert(indices@.take(k + 1) =~= indices@.take(k as int).push(index));
            indices@.take(k as int).lemma_push_to_set_commute(index);
            seen@.lemma_push_to_set_commute(index);
        }
        if !contains_index(&seen, index) {
            seen.push(index);
        } else {
            assert(seen@.to_set().insert(index) =~= seen@.to_set());
        }
        k += 1;
    }
    proof {
        assert(indices@.take(k as int) =~= indices@);
        seen@.unique_seq_to_set();
    }
    seen.len()
}

/// Drops the items that were observed on gossip.
pub fn drop_observed<I>(items: Vec<Indexed<I>>, observed: &Option<HashSet<u64>>) -> (result: Vec<
    Indexed<I>,
>)
    ensures
        result@ == selected(items@, not_seen(observed_set(*observed))),
        match *observed {
            Some(seen) => result@ == items@.filter(|i: Indexed<I>| !seen@.contains(i.index)),
            None => result@ == items@,
        },
{
    proof {
        match observed {
            Some(seen) => {
                law_selection_is_a_filter(
                    items@,
                    not_seen(observed_set(*observed)),
                    |i: Indexed<I>| !seen@.contains(i.index),
                );
            },
            None => {
                lemma_select_all(items@);
            },
        }
    }
    match observed {
        Some(observed) => {
            let is_new = |index: u64| -> (answer: bool)
                ensures
                    answer == observed@.complement().contains(index),
            { !observed.contains(&index) };
            keep_wanted(items, is_new, Ghost(observed@.complement()))
        },
        None => items,
    }
}

/// Drops the items that are known already.
pub fn drop_known<I>(items: Vec<Indexed<I>>, known: &Option<Vec<u64>>) -> (result: Vec<Indexed<I>>)
    ensures
        result@ == selected(items@, not_seen(set_of(*known))),
        match *known {
            Some(seen) => result@ == items@.filter(|i: Indexed<I>| !seen@.contains(i.index)),
            None => result@ == items@,
        },
{
    proof {
        match known {
            Some(seen) => {
                law_selection_is_a_filter(
                    items@,
                    not_seen(set_of(*known)),
                    |i: Indexed<I>| !seen@.contains(i.index),
                );
            },
            None => {
                lemma_select_all(items@);
            },
        }
    }
    match known {
        Some(known) => {
            let is_new = |index: u64| -> (answer: bool)
                ensures
                    answer == known@.to_set().complement().contains(index),
            { !contains_index(known, index) };
            keep_wanted(items, is_new, Ghost(known@.to_set().complement()))
        },
        None => items,
    }
}

/// Keeps the columns that a node has custody of.
pub fn keep_custody<I>(
    columns: Vec<Indexed<I>>,
    custody_columns: &Vec<ColumnIndex>,
) -> (result: Vec<Indexed<I>>)
    ensures
        result@ == selected(columns@, custody_columns@.to_set()),
        result@ == columns@.filter(|c: Indexed<I>| custody_columns@.contains(c.index)),
{
    proof {
        law_selection_is_a_filter(
            columns@,
            custody_columns@.to_set(),
            |c: Indexed<I>| custody_columns@.contains(c.index),
        );
    }
    let in_custody = |index: u64| -> (answer: bool)
        ensures
            answer == custody_columns@.to_set().contains(index),
    { contains_index(custody_columns, index) };
    keep_wanted(columns, in_custody, Ghost(custody_columns@.to_set()))
}

} // verus!
