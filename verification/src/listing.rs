//! The listing of a container: which of the names that it lists are worked
//! on.

use crate::entries::filter_entries;
use crate::entries::is_content;
use crate::entries::remove_root_entry;
use crate::entries::without_root;
use crate::entries::Entry;
use vstd::prelude::*;

verus! {

/// The entries that a listing names, each with its place in the listing. A
/// place whose name could not be read gives no entry.
pub open spec fn listed(listing: Seq<Option<String>>) -> Seq<Entry>
    decreases listing.len(),
{
    if listing.len() == 0 {
        Seq::empty()
    } else {
        match listing.last() {
            Some(name) => listed(listing.drop_last()).push(
                Entry { index: (listing.len() - 1) as usize, uri: name },
            ),
            None => listed(listing.drop_last()),
        }
    }
}

/// The entries of `listing` to work on: those that are no noise and not the
/// directory that wraps the others.
pub open spec fn selected(listing: Seq<Option<String>>) -> Seq<Entry> {
    without_root(listed(listing).filter(is_content()))
}

/// Whether `entry` stands for a name of `listing`: its index is a place of
/// the listing, and its name the one listed there.
pub open spec fn is_listed(listing: Seq<Option<String>>, entry: Entry) -> bool {
    entry.index < listing.len() && listing[entry.index as int] == Some(entry.uri)
}

/// Whether the entries of `entries` stand in the order of their indices.
pub open spec fn is_in_order(entries: Seq<Entry>) -> bool {
    forall|i: int, j: int| 0 <= i < j < entries.len() ==> entries[i].index < entries[j].index
}

/// Dropping the wrapping directory leaves no more entries than there were.
pub proof fn lemma_without_root_len(entries: Seq<Entry>)
    ensures
        without_root(entries).len() <= entries.len(),
    decreases entries.len(),
{
    if entries.len() > 0 {
        lemma_without_root_len(entries.drop_last());
    }
}

/// What the search keeps is among what it was given.
proof fn lemma_without_root_members(entries: Seq<Entry>, at: int)
    requires
        0 <= at < without_root(entries).len(),
    ensures
        entries.contains(without_root(entries)[at]),
    decreases entries.len(),
{
    let init = entries.drop_last();
    if at < without_root(init).len() {
        lemma_without_root_members(init, at);
        let k = choose|k: int| 0 <= k < init.len() && init[k] == without_root(init)[at];
        assert(entries[k] == without_root(entries)[at]);
    } else {
        assert(entries[entries.len() - 1] == without_root(entries)[at]);
    }
}

/// The search keeps the order of the entries.
proof fn lemma_without_root_in_order(entries: Seq<Entry>)
    requires
        is_in_order(entries),
    ensures
        is_in_order(without_root(entries)),
    decreases entries.len(),
{
    if entries.len() > 0 {
        let init = entries.drop_last();
        let kept = without_root(entries);
        assert forall|i: int, j: int| 0 <= i < j < init.len() implies init[i].index
            < init[j].index by {
            assert(init[i] == entries[i] && init[j] == entries[j]);
        }
        lemma_without_root_in_order(init);
        assert forall|i: int, j: int| 0 <= i < j < kept.len() implies kept[i].index
            < kept[j].index by {
            if j < without_root(init).len() {
                assert(kept[i] == without_root(init)[i] && kept[j] == without_root(init)[j]);
            } else {
                lemma_without_root_members(init, i);
                let k = choose|k: int| 0 <= k < init.len() && init[k] == without_root(init)[i];
                assert(entries[k] == kept[i]);
                assert(entries[entries.len() - 1] == kept[j]);
            }
        }
    }
}

/// Dropping the noise keeps the order of the entries.
proof fn lemma_content_in_order(entries: Seq<Entry>)
    requires
        is_in_order(entries),
    ensures
        is_in_order(entries.filter(is_content())),
    decreases entries.len(),
{
    if entries.len() > 0 {
        let init = entries.drop_last();
        let kept = entries.filter(is_content());
        assert(entries =~= init.push(entries.last()));
        Seq::lemma_filter_push(init, entries.last(), is_content());
        assert forall|i: int, j: int| 0 <= i < j < init.len() implies init[i].index
            < init[j].index by {
            assert(init[i] == entries[i] && init[j] == entries[j]);
        }
        lemma_content_in_order(init);
        let before = init.filter(is_content());
        assert forall|i: int, j: int| 0 <= i < j < kept.len() implies kept[i].index
            < kept[j].index by {
            if j < before.len() {
                assert(kept[i] == before[i] && kept[j] == before[j]);
            } else {
                assert(before.contains(before[i]));
                init.lemma_filter_contains_rev(is_content(), before[i]);
                let k = choose|k: int| 0 <= k < init.len() && init[k] == before[i];
                assert(entries[k] == kept[i]);
                assert(entries[entries.len() - 1] == kept[j]);
            }
        }
    }
}

/// The entries that a listing names stand for its names, in its order.
proof fn lemma_listed(listing: Seq<Option<String>>)
    requires
        listing.len() <= usize::MAX,
    ensures
        is_in_order(listed(listing)),
        listed(listing).len() <= listing.len(),
        forall|i: int|
            0 <= i < listed(listing).len() ==> is_listed(listing, #[trigger] listed(listing)[i]),
    decreases listing.len(),
{
    if listing.len() > 0 {
        let init = listing.drop_last();
        lemma_listed(init);
        let all = listed(listing);
        assert forall|i: int| 0 <= i < all.len() implies is_listed(listing, #[trigger] all[i]) by {
            if i < listed(init).len() {
                assert(is_listed(init, listed(init)[i]));
                assert(init[listed(init)[i].index as int] == listing[listed(init)[i].index as int]);
            }
        }
        assert forall|i: int, j: int| 0 <= i < j < all.len() implies all[i].index
            < all[j].index by {
            if j < listed(init).len() {
                assert(all[i] == listed(init)[i] && all[j] == listed(init)[j]);
            } else {
                assert(all[i] == listed(init)[i]);
                assert(is_listed(init, listed(init)[i]));
            }
        }
    }
}

/// The entries to work on are names of the listing, each at its place, and
/// they stand in the order of the listing.
pub proof fn lemma_selected_are_listed(listing: Seq<Option<String>>)
    requires
        listing.len() <= usize::MAX,
    ensures
        is_in_order(selected(listing)),
        forall|i: int|
            0 <= i < selected(listing).len() ==> is_listed(listing, #[trigger] selected(listing)[i]),
{
    lemma_listed(listing);
    let all = listed(listing);
    let content = all.filter(is_content());
    lemma_content_in_order(all);
    lemma_without_root_in_order(content);
    assert forall|i: int| 0 <= i < selected(listing).len() implies is_listed(
        listing,
        #[trigger] selected(listing)[i],
    ) by {
        lemma_without_root_members(content, i);
        all.lemma_filter_contains_rev(is_content(), selected(listing)[i]);
        let k = choose|k: int| 0 <= k < all.len() && all[k] == selected(listing)[i];
        assert(is_listed(listing, all[k]));
    }
}

/// The entries of a container to work on, and the number of all its
/// entries. `listing` holds the names as the container lists them, with
/// nothing in the place of a name that could not be read.
pub fn select_entries(listing: &Vec<Option<String>>) -> (chosen: (Vec<Entry>, usize))
    ensures
        chosen.0@ == selected(listing@),
        chosen.1 == listing@.len(),
        chosen.0@.len() <= chosen.1,
        is_in_order(chosen.0@),
        forall|i: int| 0 <= i < chosen.0@.len() ==> is_listed(listing@, #[trigger] chosen.0@[i]),
{
    let mut all: Vec<Entry> = Vec::new();
    let mut k: usize = 0;
    assert(listing@.take(0) =~= Seq::<Option<String>>::empty());
    while k < listing.len()
        invariant
            0 <= k <= listing@.len(),
            all@ == listed(listing@.take(k as int)),
            all@.len() <= k,
        decreases listing.len() - k,
    {
        proof {
            assert(listing@.take(k + 1).drop_last() =~= listing@.take(k as int));
            assert(listing@.take(k + 1).last() == listing@[k as int]);
        }
        match &listing[k] {
            Some(name) => {
                all.push(Entry { index: k, uri: name.clone() });
            },
            None => {},
        }
        k += 1;
    }
    assert(listing@.take(listing@.len() as int) =~= listing@);
    let content = filter_entries(&all);
    let chosen = remove_root_entry(&content);
    proof {
        all@.lemma_filter_len(is_content());
        lemma_without_root_len(content@);
        lemma_selected_are_listed(listing@);
    }
    (chosen, listing.len())
}

/// Where the progress of a file stands before its first entry is worked on:
/// the entries that were set aside count as done.
pub fn initial_position(total_entries: usize, entries: usize) -> (position: usize)
    requires
        entries <= total_entries,
    ensures
        position == total_entries - entries,
{
    total_entries - entries
}

} // verus!
