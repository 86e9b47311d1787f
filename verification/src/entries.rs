//! The entries of a container: which are noise, and which is the directory
//! that merely wraps all the others.

use crate::path::components;
use crate::path::extension;
use crate::path::extension_of;
use crate::path::file_name;
use crate::path::file_name_of;
use crate::path::first_part;
use crate::path::first_part_of;
use crate::path::last_part_of;
use crate::path::lead;
use crate::path::names;
use crate::path::parts;
use crate::path::SEPARATOR;
use crate::text::chars_of;
use crate::text::same_text;
use vstd::prelude::*;

verus! {

/// One entry of a container: its place in the container's listing, and its
/// name.
#[derive(Debug, Clone, PartialEq, Eq, PartialOrd, Ord, Hash)]
pub struct Entry {
    pub index: usize,
    pub uri: String,
}

impl From<(usize, String)> for Entry {
    fn from(pair: (usize, String)) -> (entry: Entry) {
        Entry { index: pair.0, uri: pair.1 }
    }
}

impl vstd::std_specs::convert::FromSpecImpl<(usize, String)> for Entry {
    open spec fn obeys_from_spec() -> bool {
        true
    }

    open spec fn from_spec(pair: (usize, String)) -> Entry {
        Entry { index: pair.0, uri: pair.1 }
    }
}

impl Entry {
    /// The same entry once more.
    pub fn duplicate(&self) -> (copy: Entry)
        ensures
            copy == *self,
    {
        Entry { index: self.index, uri: self.uri.clone() }
    }
}

/// Whether `part` is the name of a hidden file: a dot, and more behind it.
pub open spec fn is_hidden(part: Seq<char>) -> bool {
    part.len() > 1 && part[0] == '.'
}

/// Whether an entry called `name` is noise: a directory marker, a thumbnail
/// cache or a desktop metadata file, anything under a directory of such
/// files, or a hidden file.
pub open spec fn is_noise(name: Seq<char>) -> bool {
    ||| name.len() > 0 && name.last() == SEPARATOR
    ||| last_part_of(name) == Some("Thumbs.db"@)
    ||| file_name_of(name) == Some(".DS_Store"@)
    ||| parts(name).contains("__MACOSX"@)
    ||| last_part_of(name) is Some && is_hidden(last_part_of(name)->0)
}

/// Holds of the entries that are no noise.
pub open spec fn is_content() -> spec_fn(Entry) -> bool {
    |entry: Entry| !is_noise(entry.uri@)
}

/// Whether an entry called `name` is noise.
pub fn is_noise_name(name: &str) -> (noise: bool)
    ensures
        noise == is_noise(name@),
{
    let chars = chars_of(name);
    if chars.len() > 0 && chars[chars.len() - 1] == SEPARATOR {
        return true;
    }
    let found = components(name);
    let ghost all = parts(name@);
    if found.len() == 0 {
        proof {
            assert(!all.contains("__MACOSX"@));
            assert(file_name_of(name@) is None);
        }
        return false;
    }
    let last = found[found.len() - 1];
    if same_text(last, "Thumbs.db") {
        return true;
    }
    match file_name(name) {
        Some(base) => {
            if same_text(base, ".DS_Store") {
                return true;
            }
        },
        None => {},
    }
    let last_chars = chars_of(last);
    if last_chars.len() > 1 && last_chars[0] == '.' {
        return true;
    }
    let mut k: usize = 0;
    while k < found.len()
        invariant
            all == parts(name@),
            found@.len() == all.len(),
            forall|i: int| 0 <= i < found@.len() ==> (#[trigger] found@[i])@ == all[i],
            0 <= k <= found@.len(),
            forall|i: int| 0 <= i < k ==> all[i] != "__MACOSX"@,
        decreases found.len() - k,
    {
        if same_text(found[k], "__MACOSX") {
            assert(all[k as int] == "__MACOSX"@);
            return true;
        }
        k += 1;
    }
    assert(!all.contains("__MACOSX"@));
    false
}

/// The entries that are worth converting: `entries` in their order, without
/// the noise.
pub fn filter_entries(entries: &Vec<Entry>) -> (kept: Vec<Entry>)
    ensures
        kept@ == entries@.filter(is_content()),
        forall|i: int| 0 <= i < kept@.len() ==> !is_noise((#[trigger] kept@[i]).uri@),
{
    let mut kept: Vec<Entry> = Vec::new();
    let mut k: usize = 0;
    assert(entries@.take(0).filter(is_content()) =~= Seq::<Entry>::empty());
    while k < entries.len()
        invariant
            0 <= k <= entries@.len(),
            kept@ == entries@.take(k as int).filter(is_content()),
            forall|i: int| 0 <= i < kept@.len() ==> !is_noise((#[trigger] kept@[i]).uri@),
        decreases entries.len() - k,
    {
        let entry = &entries[k];
        proof {
            assert(entries@.take(k + 1) =~= entries@.take(k as int).push(*entry));
            Seq::lemma_filter_push(entries@.take(k as int), *entry, is_content());
        }
        if !is_noise_name(entry.uri.as_str()) {
            kept.push(entry.duplicate());
        }
        k += 1;
    }
    assert(entries@.take(entries@.len() as int) =~= entries@);
    kept
}

/// A directory marker, a file called `Thumbs.db` or `.DS_Store`, and
/// whatever lies under a directory called `__MACOSX` are noise.
pub proof fn lemma_noise_kinds(name: Seq<char>)
    ensures
        name.len() > 0 && name.last() == SEPARATOR ==> is_noise(name),
        file_name_of(name) == Some("Thumbs.db"@) ==> is_noise(name),
        file_name_of(name) == Some(".DS_Store"@) ==> is_noise(name),
        (exists|i: int| 0 <= i < names(name).len() && names(name)[i] == "__MACOSX"@) ==> is_noise(
            name,
        ),
{
    if file_name_of(name) == Some("Thumbs.db"@) {
        assert(parts(name).last() == names(name).last());
    }
    if exists|i: int| 0 <= i < names(name).len() && names(name)[i] == "__MACOSX"@ {
        let i = choose|i: int| 0 <= i < names(name).len() && names(name)[i] == "__MACOSX"@;
        assert(parts(name)[lead(name).len() + i] == "__MACOSX"@);
    }
}

/// Noise is never among the entries that are kept, wherever it stands among
/// the entries that are given.
pub proof fn lemma_noise_is_dropped(entries: Seq<Entry>, at: int)
    requires
        0 <= at < entries.len(),
        is_noise(entries[at].uri@),
    ensures
        !entries.filter(is_content()).contains(entries[at]),
{
    let kept = entries.filter(is_content());
    if kept.contains(entries[at]) {
        let k = choose|k: int| 0 <= k < kept.len() && kept[k] == entries[at];
        entries.lemma_filter_pred(is_content(), k);
    }
}

/// How far the search for the wrapping directory has come.
#[verifier::ext_equal]
pub enum RootState {
    /// No first part without an extension has been seen.
    NoRootSeen,
    /// The first part without an extension that was seen last.
    CandidateSeen(Seq<char>),
    /// The first part that was seen twice in a row: the wrapping directory.
    RootConfirmed(Seq<char>),
}

/// The search for the wrapping directory, one name after the other.
#[derive(Debug, Clone)]
pub enum RootSearch {
    NoRootSeen,
    CandidateSeen(String),
    RootConfirmed(String),
}

impl View for RootSearch {
    type V = RootState;

    open spec fn view(&self) -> RootState {
        match self {
            RootSearch::NoRootSeen => RootState::NoRootSeen,
            RootSearch::CandidateSeen(name) => RootState::CandidateSeen(name@),
            RootSearch::RootConfirmed(name) => RootState::RootConfirmed(name@),
        }
    }
}

/// The state after `name` has been seen in `state`.
///
/// Once the wrapping directory is known nothing changes. Before that, a name
/// whose first part has no extension makes that part the candidate, or the
/// wrapping directory where it was the candidate already.
pub open spec fn next_state(state: RootState, name: Seq<char>) -> RootState {
    match state {
        RootState::RootConfirmed(_) => state,
        _ => match first_part_of(name) {
            Some(first) => if extension_of(first) is Some {
                state
            } else if state == RootState::CandidateSeen(first) {
                RootState::RootConfirmed(first)
            } else {
                RootState::CandidateSeen(first)
            },
            None => state,
        },
    }
}

/// Whether `name`, seen in `state`, stays among the entries: a name without
/// any part is dropped, and so is the wrapping directory itself once it is
/// known.
pub open spec fn stays(state: RootState, name: Seq<char>) -> bool {
    match state {
        RootState::RootConfirmed(root) => name != root,
        _ => match first_part_of(name) {
            Some(_) => match next_state(state, name) {
                RootState::RootConfirmed(root) => name != root,
                _ => true,
            },
            None => false,
        },
    }
}

/// The state of the search after all of `entries` have been seen, in order.
pub open spec fn search_after(entries: Seq<Entry>) -> RootState
    decreases entries.len(),
{
    if entries.len() == 0 {
        RootState::NoRootSeen
    } else {
        next_state(search_after(entries.drop_last()), entries.last().uri@)
    }
}

/// `entries` in their order, without those that the search drops.
pub open spec fn without_root(entries: Seq<Entry>) -> Seq<Entry>
    decreases entries.len(),
{
    if entries.len() == 0 {
        Seq::empty()
    } else if stays(search_after(entries.drop_last()), entries.last().uri@) {
        without_root(entries.drop_last()).push(entries.last())
    } else {
        without_root(entries.drop_last())
    }
}

impl RootSearch {
    /// A search that has seen nothing.
    pub fn new() -> (search: RootSearch)
        ensures
            search@ == RootState::NoRootSeen,
    {
        RootSearch::NoRootSeen
    }

    /// Takes note of `name`, and says whether it stays among the entries.
    pub fn observe(&mut self, name: &str) -> (keep: bool)
        ensures
            final(self)@ == next_state(old(self)@, name@),
            keep == stays(old(self)@, name@),
    {
        if let RootSearch::RootConfirmed(root) = self {
            return !same_text(name, root.as_str());
        }
        let first = match first_part(name) {
            Some(found) => found,
            None => {
                return false;
            },
        };
        if extension(first).is_some() {
            return true;
        }
        let confirmed = match self {
            RootSearch::CandidateSeen(candidate) => same_text(candidate.as_str(), first),
            _ => false,
        };
        if confirmed {
            *self = RootSearch::RootConfirmed(first.to_owned());
            !same_text(name, first)
        } else {
            *self = RootSearch::CandidateSeen(first.to_owned());
            true
        }
    }
}

/// Looks for the directory that wraps all entries, in one pass, and drops the
/// entry that is that directory itself.
///
/// The first part of a name is a candidate where it has no extension; the
/// candidate that comes twice in a row is the wrapping directory. Entries
/// before that point are never dropped for being it.
pub fn remove_root_entry(entries: &Vec<Entry>) -> (kept: Vec<Entry>)
    ensures
        kept@ == without_root(entries@),
{
    let mut kept: Vec<Entry> = Vec::new();
    let mut search = RootSearch::new();
    let mut k: usize = 0;
    assert(entries@.take(0) =~= Seq::<Entry>::empty());
    while k < entries.len()
        invariant
            0 <= k <= entries@.len(),
            search@ == search_after(entries@.take(k as int)),
            kept@ == without_root(entries@.take(k as int)),
        decreases entries.len() - k,
    {
        let entry = &entries[k];
        proof {
            assert(entries@.take(k + 1).drop_last() =~= entries@.take(k as int));
            assert(entries@.take(k + 1).last() == *entry);
        }
        if search.observe(entry.uri.as_str()) {
            kept.push(entry.duplicate());
        }
        k += 1;
    }
    assert(entries@.take(entries@.len() as int) =~= entries@);
    kept
}

/// Holds of the entries that are not called `root`.
pub open spec fn is_not_called(root: Seq<char>) -> spec_fn(Entry) -> bool {
    |entry: Entry| entry.uri@ != root
}

/// Where the names of at least two entries all start with the same part
/// `root`, which has no extension, and the first entry is not called `root`
/// itself, the search drops the entries called `root` and no others.
pub proof fn lemma_wrapping_directory_is_removed(entries: Seq<Entry>, root: Seq<char>)
    requires
        entries.len() >= 2,
        extension_of(root) is None,
        forall|i: int| 0 <= i < entries.len() ==> first_part_of(entries[i].uri@) == Some(root),
        entries[0].uri@ != root,
    ensures
        without_root(entries) == entries.filter(is_not_called(root)),
        search_after(entries) == RootState::RootConfirmed(root),
{
    lemma_wrapped(entries, root);
}

proof fn lemma_wrapped(entries: Seq<Entry>, root: Seq<char>)
    requires
        entries.len() >= 1,
        extension_of(root) is None,
        forall|i: int| 0 <= i < entries.len() ==> first_part_of(entries[i].uri@) == Some(root),
        entries[0].uri@ != root,
    ensures
        without_root(entries) == entries.filter(is_not_called(root)),
        search_after(entries) == if entries.len() == 1 {
            RootState::CandidateSeen(root)
        } else {
            RootState::RootConfirmed(root)
        },
    decreases entries.len(),
{
    let init = entries.drop_last();
    let last = entries.last();
    assert(entries =~= init.push(last));
    Seq::lemma_filter_push(init, last, is_not_called(root));
    if entries.len() == 1 {
        assert(init =~= Seq::<Entry>::empty());
        assert(init.filter(is_not_called(root)) =~= Seq::<Entry>::empty());
        assert(search_after(init) == RootState::NoRootSeen);
        assert(without_root(init) =~= Seq::<Entry>::empty());
    } else {
        assert forall|i: int| 0 <= i < init.len() implies first_part_of(init[i].uri@) == Some(
            root,
        ) by {
            assert(init[i] == entries[i]);
        }
        assert(init[0] == entries[0]);
        lemma_wrapped(init, root);
    }
}

/// Whether the name of `entry` starts with a part that has no extension.
pub open spec fn has_candidate(entry: Entry) -> bool {
    first_part_of(entry.uri@) is Some && extension_of(first_part_of(entry.uri@)->0) is None
}

/// Whether the entries at `i` and `j` follow each other among the entries
/// whose names start with a part without an extension.
pub open spec fn are_successive(entries: Seq<Entry>, i: int, j: int) -> bool {
    &&& 0 <= i < j < entries.len()
    &&& has_candidate(entries[i])
    &&& has_candidate(entries[j])
    &&& forall|k: int| i < k < j ==> !has_candidate(#[trigger] entries[k])
}

/// The index of the last entry whose name starts with a part without an
/// extension, or -1 where there is none.
pub open spec fn last_candidate(entries: Seq<Entry>) -> int
    decreases entries.len(),
{
    if entries.len() == 0 {
        -1
    } else if has_candidate(entries.last()) {
        entries.len() - 1
    } else {
        last_candidate(entries.drop_last())
    }
}

/// Where every name has a first part, and no two first parts without an
/// extension that follow each other are equal, the search finds no wrapping
/// directory and drops nothing: a directory goes unnoticed unless it comes
/// twice in a row. The search then stands at the last of those parts.
pub proof fn lemma_single_wrapper_is_kept(entries: Seq<Entry>)
    requires
        forall|i: int| 0 <= i < entries.len() ==> first_part_of(entries[i].uri@) is Some,
        forall|i: int, j: int| #[trigger]
            are_successive(entries, i, j) ==> first_part_of(entries[i].uri@) != first_part_of(
                entries[j].uri@,
            ),
    ensures
        without_root(entries) == entries,
        -1 <= last_candidate(entries) < entries.len(),
        last_candidate(entries) >= 0 ==> has_candidate(entries[last_candidate(entries)]),
        forall|k: int|
            last_candidate(entries) < k < entries.len() ==> !has_candidate(#[trigger] entries[k]),
        search_after(entries) == if last_candidate(entries) < 0 {
            RootState::NoRootSeen
        } else {
            RootState::CandidateSeen(first_part_of(entries[last_candidate(entries)].uri@)->0)
        },
    decreases entries.len(),
{
    if entries.len() > 0 {
        let init = entries.drop_last();
        let last = entries.last();
        let end = entries.len() - 1;
        assert forall|i: int| 0 <= i < init.len() implies first_part_of(init[i].uri@) is Some by {
            assert(init[i] == entries[i]);
        }
        assert forall|i: int, j: int| #[trigger] are_successive(init, i, j) implies first_part_of(
            init[i].uri@,
        ) != first_part_of(init[j].uri@) by {
            assert(init[i] == entries[i] && init[j] == entries[j]);
            assert forall|k: int| i < k < j implies !has_candidate(#[trigger] entries[k]) by {
                assert(init[k] == entries[k]);
            }
            assert(are_successive(entries, i, j));
        }
        lemma_single_wrapper_is_kept(init);
        let found = last_candidate(init);
        assert forall|k: int| last_candidate(entries) < k < entries.len() implies !has_candidate(
            #[trigger] entries[k],
        ) by {
            if k < end {
                assert(init[k] == entries[k]);
            }
        }
        if found >= 0 {
            assert(init[found] == entries[found]);
            if has_candidate(last) {
                assert forall|k: int| found < k < end implies !has_candidate(
                    #[trigger] entries[k],
                ) by {
                    assert(init[k] == entries[k]);
                }
                assert(are_successive(entries, found, end));
            }
        }
        assert(entries =~= init.push(last));
    }
}

} // verus!
