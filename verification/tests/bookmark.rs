use bookrat::bookmark::{Bookmark, Bookmarks, Timestamp};

#[test]
fn a_new_store_is_empty() {
    let store = Bookmarks::new();
    assert_eq!(store.get_bookmark("book.epub"), None);
    assert_eq!(store.get_bookmark(""), None);
}

#[test]
fn an_update_is_found_again() {
    let mut store = Bookmarks::new();
    store.update_bookmark("./book.epub", 3, 120);
    let found = store.get_bookmark("./book.epub").expect("a bookmark");
    assert_eq!(found.chapter, 3);
    assert_eq!(found.scroll_offset, 120);
    assert_eq!(store.get_bookmark("./other.epub"), None);
    assert_eq!(store.get_bookmark("./book.epu"), None);
}

#[test]
fn an_update_replaces_the_bookmark() {
    let mut store = Bookmarks::new();
    store.update_bookmark("a", 1, 10);
    store.update_bookmark("b", 2, 20);
    store.update_bookmark("a", 5, 0);
    let a = store.get_bookmark("a").expect("a bookmark");
    assert_eq!((a.chapter, a.scroll_offset), (5, 0));
    let b = store.get_bookmark("b").expect("a bookmark");
    assert_eq!((b.chapter, b.scroll_offset), (2, 20));
}

#[test]
fn an_update_is_stamped_with_the_present() {
    let mut store = Bookmarks::new();
    store.update_bookmark("a", 1, 10);
    let first = store.get_bookmark("a").expect("a bookmark").last_read;
    // Later than the first day of 2020, and the nanoseconds are those of a
    // second or of a leap second.
    assert!(first.secs > 1_577_836_800);
    assert!(first.nanos < 2_000_000_000);
    store.update_bookmark("a", 1, 11);
    let second = store.get_bookmark("a").expect("a bookmark").last_read;
    assert!((second.secs, second.nanos) >= (first.secs, first.nanos));
}

#[test]
fn a_record_keeps_its_time() {
    let mut store = Bookmarks::new();
    let at = Timestamp { secs: 1_700_000_000, nanos: 5 };
    store.record("a", 3, 120, at);
    assert_eq!(
        store.get_bookmark("a"),
        Some(&Bookmark { chapter: 3, scroll_offset: 120, last_read: at })
    );
}

#[test]
fn entries_are_read_back() {
    let mut store = Bookmarks::new();
    store.record("a", 3, 120, Timestamp { secs: 1_700_000_000, nanos: 5 });
    store.record("b", 0, 0, Timestamp { secs: -1, nanos: 999_999_999 });
    store.record("a", 4, 7, Timestamp { secs: 1_700_000_100, nanos: 0 });

    let entries = store.entries();
    assert_eq!(entries.len(), 2);
    let restored = Bookmarks::from_entries(&entries);
    for id in ["a", "b", "c"] {
        assert_eq!(restored.get_bookmark(id), store.get_bookmark(id));
    }
    assert_eq!(
        restored.get_bookmark("a"),
        Some(&Bookmark {
            chapter: 4,
            scroll_offset: 7,
            last_read: Timestamp { secs: 1_700_000_100, nanos: 0 }
        })
    );
    assert_eq!(Bookmarks::from_entries(&Vec::new()).entries(), Vec::new());
}

#[test]
fn a_later_entry_stands() {
    let at = Timestamp { secs: 0, nanos: 0 };
    let first = Bookmark { chapter: 1, scroll_offset: 1, last_read: at };
    let second = Bookmark { chapter: 2, scroll_offset: 2, last_read: at };
    let store = Bookmarks::from_entries(&vec![
        ("a".to_string(), first),
        ("b".to_string(), first),
        ("a".to_string(), second),
    ]);
    assert_eq!(store.get_bookmark("a"), Some(&second));
    assert_eq!(store.get_bookmark("b"), Some(&first));
    assert_eq!(store.entries().len(), 2);
}

#[test]
fn a_position_survives_saving_and_loading() {
    let mut store = Bookmarks::new();
    store.update_bookmark("./book.epub", 3, 120);
    let loaded = Bookmarks::from_entries(&store.entries());
    let found = loaded.get_bookmark("./book.epub").expect("a bookmark");
    assert_eq!((found.chapter, found.scroll_offset), (3, 120));
}
