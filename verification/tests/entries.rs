use archive_transcode::entries::filter_entries;
use archive_transcode::entries::is_noise_name;
use archive_transcode::entries::remove_root_entry;
use archive_transcode::entries::Entry;
use archive_transcode::entries::RootSearch;
use archive_transcode::listing::initial_position;
use archive_transcode::listing::select_entries;

fn entries_of(names: &[&str]) -> Vec<Entry> {
    names.iter().enumerate().map(|(index, name)| Entry { index, uri: name.to_string() }).collect()
}

fn names_of(entries: &[Entry]) -> Vec<&str> {
    entries.iter().map(|entry| entry.uri.as_str()).collect()
}

#[test]
fn entry_from_pair() {
    let entry = Entry::from((3, String::from("a/b.png")));
    assert_eq!(entry, Entry { index: 3, uri: String::from("a/b.png") });
    assert_eq!(entry.duplicate(), entry);
}

#[test]
fn noise_names() {
    for name in [
        "dir/", "/", "a/b/", "Thumbs.db", "a/Thumbs.db", "a/b/Thumbs.db", ".DS_Store",
        "a/.DS_Store", "__MACOSX/a.png", "a/__MACOSX/b.png", "__MACOSX", "a/__MACOSX",
        ".hidden", "a/.hidden.png", "a/..", "..",
    ] {
        assert!(is_noise_name(name), "{name:?}");
    }
}

#[test]
fn content_names() {
    for name in [
        "a.png", "a/b.png", "book/page1.png", "a/thumbs.db", "a/Thumbs.db.png", "a/DS_Store",
        "a/x__MACOSX/b.png", ".", "a/.", "./a", ".a/b", "", "a/b.", "é.png",
    ] {
        assert!(!is_noise_name(name), "{name:?}");
    }
}

#[test]
fn filter_keeps_order_and_indices() {
    let entries = entries_of(&["a/", "a/1.png", "Thumbs.db", "a/2.png", "__MACOSX/a/1.png", "a/.x"]);
    let kept = filter_entries(&entries);
    assert_eq!(
        kept,
        vec![
            Entry { index: 1, uri: String::from("a/1.png") },
            Entry { index: 3, uri: String::from("a/2.png") },
        ]
    );
}

fn permutations(items: &[&'static str]) -> Vec<Vec<&'static str>> {
    if items.len() <= 1 {
        return vec![items.to_vec()];
    }
    let mut all = Vec::new();
    for i in 0..items.len() {
        let mut rest = items.to_vec();
        let first = rest.remove(i);
        for mut tail in permutations(&rest) {
            tail.insert(0, first);
            all.push(tail);
        }
    }
    all
}

#[test]
fn noise_is_dropped_in_every_order() {
    let names = ["dir/", "Thumbs.db", "x/.DS_Store", "__MACOSX/p.png", "p1.png", "d/p2.png"];
    for order in permutations(&names) {
        let kept = filter_entries(&entries_of(&order));
        let mut kept_names = names_of(&kept);
        kept_names.sort();
        assert_eq!(kept_names, vec!["d/p2.png", "p1.png"], "{order:?}");
    }
}

#[test]
fn wrapping_directory_is_removed() {
    let entries = entries_of(&["book/page1.png", "book", "book/page2.png", "book", "book/x/y.png"]);
    let kept = remove_root_entry(&entries);
    assert_eq!(names_of(&kept), vec!["book/page1.png", "book/page2.png", "book/x/y.png"]);
    assert_eq!(kept[1].index, 2);
}

#[test]
fn wrapping_directory_seen_once_is_kept() {
    let entries = entries_of(&["book", "cover.png", "page1.png"]);
    assert_eq!(names_of(&remove_root_entry(&entries)), vec!["book", "cover.png", "page1.png"]);
    let entries = entries_of(&["book/page1.png", "other/page2.png", "third/x.png"]);
    assert_eq!(remove_root_entry(&entries), entries);
}

#[test]
fn wrapping_directory_in_front_is_kept() {
    let entries = entries_of(&["book", "book/page1.png", "book", "book/page2.png"]);
    let kept = remove_root_entry(&entries);
    assert_eq!(names_of(&kept), vec!["book", "book/page1.png", "book/page2.png"]);
}

#[test]
fn candidate_changes_with_each_other_first_part() {
    let entries = entries_of(&["a/1.png", "b/1.png", "a", "a/2.png", "a/3.png", "a"]);
    let kept = remove_root_entry(&entries);
    assert_eq!(names_of(&kept), vec!["a/1.png", "b/1.png", "a", "a/2.png", "a/3.png"]);
}

#[test]
fn first_part_with_extension_is_no_candidate() {
    let entries = entries_of(&["a.d/1.png", "a.d/2.png", "a.d"]);
    assert_eq!(remove_root_entry(&entries), entries);
}

#[test]
fn empty_name_is_dropped() {
    let entries = entries_of(&["", "a.png", ""]);
    assert_eq!(names_of(&remove_root_entry(&entries)), vec!["a.png"]);
}

#[test]
fn root_search_states() {
    let mut search = RootSearch::new();
    assert!(matches!(search, RootSearch::NoRootSeen));
    assert!(search.observe("page.png"));
    assert!(matches!(search, RootSearch::NoRootSeen));
    assert!(search.observe("book/1.png"));
    assert!(matches!(&search, RootSearch::CandidateSeen(name) if name == "book"));
    assert!(search.observe("tome/1.png"));
    assert!(matches!(&search, RootSearch::CandidateSeen(name) if name == "tome"));
    assert!(search.observe("tome/2.png"));
    assert!(matches!(&search, RootSearch::RootConfirmed(name) if name == "tome"));
    assert!(!search.observe("tome"));
    assert!(search.observe("book"));
    assert!(search.observe("tome/"));
    assert!(matches!(&search, RootSearch::RootConfirmed(name) if name == "tome"));
}

#[test]
fn root_search_drops_the_second_sighting_itself() {
    let mut search = RootSearch::new();
    assert!(search.observe("book/1.png"));
    assert!(!search.observe("book"));
    assert!(matches!(&search, RootSearch::RootConfirmed(name) if name == "book"));
}

#[test]
fn book_with_directory_marker() {
    let listing: Vec<Option<String>> = ["book/page1.png", "book/page2.png", "book/book/"]
        .iter()
        .map(|name| Some(name.to_string()))
        .collect();
    let (entries, total) = select_entries(&listing);
    assert_eq!(total, 3);
    assert_eq!(names_of(&entries), vec!["book/page1.png", "book/page2.png"]);
    assert_eq!(initial_position(total, entries.len()), 1);
}

#[test]
fn unreadable_names_count_but_give_no_entry() {
    let listing = vec![
        Some(String::from("a/1.png")),
        None,
        Some(String::from("a/")),
        Some(String::from("a/2.png")),
        Some(String::from("a")),
    ];
    let (entries, total) = select_entries(&listing);
    assert_eq!(total, 5);
    assert_eq!(
        entries,
        vec![
            Entry { index: 0, uri: String::from("a/1.png") },
            Entry { index: 3, uri: String::from("a/2.png") },
        ]
    );
}
