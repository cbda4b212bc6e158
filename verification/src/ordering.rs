//! Ordering guide items within a file by the row where they start, and
//! numbering them across the review.

use vstd::prelude::*;

verus! {

/// An entry to order: a value and the key it is ordered by.
pub type KeyedEntry = (usize, usize);

/// Where an entry with `key` goes in `sorted`: before the first entry whose
/// key is greater.
pub open spec fn first_greater(sorted: Seq<KeyedEntry>, key: usize) -> int
    decreases sorted.len(),
{
    if sorted.len() == 0 {
        0
    } else if sorted[0].1 > key {
        0
    } else {
        1 + first_greater(sorted.drop_first(), key)
    }
}

/// `entries` ordered by key; entries with equal keys keep their order.
pub open spec fn key_sorted(entries: Seq<KeyedEntry>) -> Seq<KeyedEntry>
    decreases entries.len(),
{
    if entries.len() == 0 {
        entries
    } else {
        let sorted = key_sorted(entries.drop_last());
        sorted.insert(first_greater(sorted, entries.last().1), entries.last())
    }
}

/// Whether the keys of `entries` never decrease.
pub open spec fn keys_ascend(entries: Seq<KeyedEntry>) -> bool {
    forall|i: int, j: int| 0 <= i <= j < entries.len() ==> entries[i].1 <= entries[j].1
}

proof fn lemma_first_greater_is(sorted: Seq<KeyedEntry>, key: usize, at: int)
    requires
        0 <= at <= sorted.len(),
        forall|j: int| 0 <= j < at ==> #[trigger] sorted[j].1 <= key,
        at < sorted.len() ==> sorted[at].1 > key,
    ensures
        first_greater(sorted, key) == at,
    decreases at,
{
    if at > 0 {
        let rest = sorted.drop_first();
        assert forall|j: int| 0 <= j < at - 1 implies #[trigger] rest[j].1 <= key by {
            assert(rest[j] == sorted[j + 1]);
        }
        if at < sorted.len() {
            assert(rest[at - 1] == sorted[at]);
        }
        lemma_first_greater_is(rest, key, at - 1);
    }
}

proof fn lemma_first_greater_bounds(sorted: Seq<KeyedEntry>, key: usize)
    ensures
        0 <= first_greater(sorted, key) <= sorted.len(),
        forall|j: int| 0 <= j < first_greater(sorted, key) ==> #[trigger] sorted[j].1 <= key,
        first_greater(sorted, key) < sorted.len() ==> sorted[first_greater(sorted, key)].1 > key,
    decreases sorted.len(),
{
    if sorted.len() > 0 && sorted[0].1 <= key {
        let rest = sorted.drop_first();
        lemma_first_greater_bounds(rest, key);
        assert forall|j: int| 0 <= j < first_greater(sorted, key) implies #[trigger] sorted[j].1 <= key by {
            if j > 0 {
                assert(sorted[j] == rest[j - 1]);
            }
        }
        if first_greater(sorted, key) < sorted.len() {
            assert(sorted[first_greater(sorted, key)] == rest[first_greater(rest, key)]);
        }
    }
}

/// `entries` ordered by key, stably.
pub fn sort_by_key(entries: &Vec<KeyedEntry>) -> (sorted: Vec<KeyedEntry>)
    ensures
        sorted@ == key_sorted(entries@),
{
    let mut sorted: Vec<KeyedEntry> = Vec::new();
    let mut i: usize = 0;
    while i < entries.len()
        invariant
            i <= entries@.len(),
            sorted@ == key_sorted(entries@.take(i as int)),
            sorted@.len() == i,
        decreases entries@.len() - i,
    {
        let entry = entries[i];
        let mut at: usize = 0;
        while at < sorted.len() && sorted[at].1 <= entry.1
            invariant
                at <= sorted@.len(),
                forall|j: int| 0 <= j < at ==> #[trigger] sorted@[j].1 <= entry.1,
            decreases sorted@.len() - at,
        {
            at += 1;
        }
        proof {
            lemma_first_greater_is(sorted@, entry.1, at as int);
            let taken = entries@.take(i + 1);
            assert(taken.drop_last() =~= entries@.take(i as int));
            assert(taken.last() == entry);
        }
        sorted.insert(at, entry);
        i += 1;
    }
    assert(entries@.take(entries@.len() as int) =~= entries@);
    sorted
}

/// Sorting leaves every key no greater than the keys after it.
pub proof fn law_sorted_keys_ascend(entries: Seq<KeyedEntry>)
    ensures
        keys_ascend(key_sorted(entries)),
        key_sorted(entries).len() == entries.len(),
    decreases entries.len(),
{
    if entries.len() > 0 {
        let sorted = key_sorted(entries.drop_last());
        law_sorted_keys_ascend(entries.drop_last());
        let entry = entries.last();
        lemma_first_greater_bounds(sorted, entry.1);
        let at = first_greater(sorted, entry.1);
        let result = sorted.insert(at, entry);
        assert forall|i: int, j: int| 0 <= i <= j < result.len() implies result[i].1 <= result[j].1 by {
            if i < at && j < at {
            } else if i < at && j == at {
            } else if i < at {
                assert(result[j] == sorted[j - 1]);
            } else if i == at && j == at {
            } else if i == at {
                assert(result[j] == sorted[j - 1]);
                assert(sorted[at].1 > entry.1);
                assert(sorted[at].1 <= sorted[j - 1].1);
            } else {
                assert(result[i] == sorted[i - 1]);
                assert(result[j] == sorted[j - 1]);
            }
        }
    }
}

/// Sorting keeps exactly the entries it was given.
pub proof fn law_sorting_keeps_the_entries(entries: Seq<KeyedEntry>)
    ensures
        key_sorted(entries).to_multiset() == entries.to_multiset(),
    decreases entries.len(),
{
    broadcast use vstd::seq_lib::to_multiset_insert, vstd::seq_lib::to_multiset_build;

    if entries.len() > 0 {
        let rest = entries.drop_last();
        law_sorting_keeps_the_entries(rest);
        let sorted = key_sorted(rest);
        lemma_first_greater_bounds(sorted, entries.last().1);
        assert(rest.push(entries.last()) =~= entries);
    }
}

/// Entries whose keys already ascend are left as they are.
pub proof fn law_sorting_sorted_entries_changes_nothing(entries: Seq<KeyedEntry>)
    requires
        keys_ascend(entries),
    ensures
        key_sorted(entries) == entries,
    decreases entries.len(),
{
    if entries.len() > 0 {
        let rest = entries.drop_last();
        law_sorting_sorted_entries_changes_nothing(rest);
        lemma_first_greater_is(rest, entries.last().1, rest.len() as int);
        assert(rest.insert(rest.len() as int, entries.last()) =~= entries);
    }
}

/// The number of a guide item among all ordered items, and their count.
#[derive(Clone, Copy, Debug, PartialEq, Eq, Structural)]
pub struct GuideCounter {
    pub number: usize,
    pub total: usize,
}

/// The entries of every batch, each batch ordered by key, one after
/// another.
pub open spec fn ordered_batches(batches: Seq<Seq<KeyedEntry>>) -> Seq<KeyedEntry>
    decreases batches.len(),
{
    if batches.len() == 0 {
        seq![]
    } else {
        ordered_batches(batches.drop_last()) + key_sorted(batches.last())
    }
}

/// The last position of an entry for `item` in `ordered`.
pub open spec fn last_slot(ordered: Seq<KeyedEntry>, item: usize) -> Option<int>
    decreases ordered.len(),
{
    if ordered.len() == 0 {
        None
    } else if ordered.last().0 == item {
        Some(ordered.len() - 1)
    } else {
        last_slot(ordered.drop_last(), item)
    }
}

/// The counter of `item`: its position, counted from one, among the
/// ordered entries, and their number.
pub open spec fn counter_of(ordered: Seq<KeyedEntry>, item: usize) -> Option<GuideCounter> {
    match last_slot(ordered, item) {
        Some(slot) => Some(GuideCounter { number: (slot + 1) as usize, total: ordered.len() as usize }),
        None => None,
    }
}

proof fn lemma_last_slot_bounds(ordered: Seq<KeyedEntry>, item: usize)
    ensures
        last_slot(ordered, item) matches Some(slot) ==> 0 <= slot < ordered.len(),
    decreases ordered.len(),
{
    if ordered.len() > 0 {
        lemma_last_slot_bounds(ordered.drop_last(), item);
    }
}

/// Numbers the guide items of a review. Each batch holds, for one file in
/// review order, its items in guide order with the row each starts on as
/// the key; the items of a file are numbered by row, and files one after
/// another. Items in no batch get no counter.
pub fn guide_counters(batches: &Vec<Vec<KeyedEntry>>, item_count: usize) -> (counters: Vec<
    Option<GuideCounter>,
>)
    requires
        forall|b: int, i: int|
            0 <= b < batches@.len() && 0 <= i < batches@[b]@.len() ==> #[trigger] batches@[b]@[i].0
                < item_count,
    ensures
        counters@.len() == item_count,
        forall|item: int|
            0 <= item < item_count ==> #[trigger] counters@[item] == counter_of(
                ordered_batches(batches@.map_values(|batch: Vec<KeyedEntry>| batch@)),
                item as usize,
            ),
{
    let ghost views = batches@.map_values(|batch: Vec<KeyedEntry>| batch@);
    let mut ordered: Vec<KeyedEntry> = Vec::new();
    let mut b: usize = 0;
    while b < batches.len()
        invariant
            b <= batches@.len(),
            views == batches@.map_values(|batch: Vec<KeyedEntry>| batch@),
            ordered@ == ordered_batches(views.take(b as int)),
            forall|b: int, i: int|
                0 <= b < batches@.len() && 0 <= i < batches@[b]@.len() ==> #[trigger] batches@[b]@[i].0
                    < item_count,
            forall|i: int| 0 <= i < ordered@.len() ==> #[trigger] ordered@[i].0 < item_count,
        decreases batches@.len() - b,
    {
        let sorted = sort_by_key(&batches[b]);
        proof {
            law_sorting_keeps_the_entries(batches@[b as int]@);
            assert forall|i: int| 0 <= i < sorted@.len() implies #[trigger] sorted@[i].0 < item_count by {
                broadcast use vstd::seq_lib::to_multiset_contains;

                assert(sorted@.contains(sorted@[i]));
                assert(sorted@.to_multiset().count(sorted@[i]) > 0);
                assert(batches@[b as int]@.contains(sorted@[i]));
            }
        }
        let ghost before = ordered@;
        let mut k: usize = 0;
        while k < sorted.len()
            invariant
                k <= sorted@.len(),
                ordered@ == before + sorted@.take(k as int),
                forall|i: int| 0 <= i < before.len() ==> #[trigger] before[i].0 < item_count,
                forall|i: int| 0 <= i < sorted@.len() ==> #[trigger] sorted@[i].0 < item_count,
                forall|i: int| 0 <= i < ordered@.len() ==> #[trigger] ordered@[i].0 < item_count,
            decreases sorted@.len() - k,
        {
            ordered.push(sorted[k]);
            k += 1;
            assert(ordered@ =~= before + sorted@.take(k as int));
        }
        proof {
            let taken = views.take(b + 1);
            assert(taken.drop_last() =~= views.take(b as int));
            assert(taken.last() == batches@[b as int]@);
            assert(sorted@.take(sorted@.len() as int) =~= sorted@);
        }
        b += 1;
    }
    assert(views.take(batches@.len() as int) =~= views);
    let total = ordered.len();
    let mut counters: Vec<Option<GuideCounter>> = Vec::new();
    let mut c: usize = 0;
    while c < item_count
        invariant
            c <= item_count,
            counters@.len() == c,
            forall|item: int| 0 <= item < c ==> #[trigger] counters@[item] == None::<GuideCounter>,
        decreases item_count - c,
    {
        counters.push(None);
        c += 1;
    }
    let mut offset: usize = 0;
    while offset < total
        invariant
            offset <= total == ordered@.len(),
            counters@.len() == item_count,
            forall|i: int| 0 <= i < ordered@.len() ==> #[trigger] ordered@[i].0 < item_count,
            forall|item: int|
                0 <= item < item_count ==> #[trigger] counters@[item] == match last_slot(
                    ordered@.take(offset as int),
                    item as usize,
                ) {
                    Some(slot) => Some(GuideCounter { number: (slot + 1) as usize, total }),
                    None => None,
                },
        decreases total - offset,
    {
        let item = ordered[offset].0;
        counters.set(item, Some(GuideCounter { number: offset + 1, total }));
        proof {
            let taken = ordered@.take(offset + 1);
            assert(taken.drop_last() =~= ordered@.take(offset as int));
        }
        offset += 1;
    }
    proof {
        assert(ordered@.take(total as int) =~= ordered@);
        assert forall|item: int| 0 <= item < item_count implies #[trigger] counters@[item] == counter_of(
            ordered@,
            item as usize,
        ) by {
            lemma_last_slot_bounds(ordered@, item as usize);
        }
    }
    counters
}

} // verus!
