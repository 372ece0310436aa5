//! Bookmarks: for each book, the chapter and scroll offset where reading
//! stopped, and when.
//!
//! A book is known by its identifier, the path it was opened from. The
//! store holds at most one bookmark per identifier; recording a position
//! replaces what was there.

use vstd::prelude::*;
use vstd::string::StringExecFns;

verus! {

/// A point in time: whole seconds since the start of 1970 in UTC, and the
/// nanoseconds into that second.
#[derive(Clone, Copy, PartialEq, Eq, Structural, Debug)]
pub struct Timestamp {
    pub secs: i64,
    pub nanos: u32,
}

/// Where reading stopped in one book.
#[derive(Clone, Copy, PartialEq, Eq, Structural, Debug)]
pub struct Bookmark {
    pub chapter: usize,
    pub scroll_offset: usize,
    pub last_read: Timestamp,
}

/// The present time, read from `chrono::Utc::now`, as seconds and
/// nanoseconds. Nothing is claimed of it: it is whatever the clock says.
#[verifier::external_body]
fn utc_now() -> Timestamp {
    let now = chrono::Utc::now();
    Timestamp { secs: now.timestamp(), nanos: now.timestamp_subsec_nanos() }
}

/// The bookmarks of all books, by identifier.
pub struct Bookmarks {
    books: Vec<(String, Bookmark)>,
}

/// Whether some entry of `books` has the identifier `id`.
pub open spec fn has_entry(books: Seq<(String, Bookmark)>, id: Seq<char>) -> bool {
    exists|i: int| 0 <= i < books.len() && (#[trigger] books[i]).0@ == id
}

/// The bookmark that the entries of `books` give for the identifier `id`.
pub open spec fn entry_for(books: Seq<(String, Bookmark)>, id: Seq<char>) -> Bookmark {
    let i = choose|i: int| 0 <= i < books.len() && (#[trigger] books[i]).0@ == id;
    books[i].1
}

/// The map that a list of entries stands for, where no identifier occurs
/// twice.
pub open spec fn entries_map(books: Seq<(String, Bookmark)>) -> Map<Seq<char>, Bookmark> {
    Map::new(|id: Seq<char>| has_entry(books, id), |id: Seq<char>| entry_for(books, id))
}

/// Whether no identifier occurs twice in `books`.
pub open spec fn distinct_ids(books: Seq<(String, Bookmark)>) -> bool {
    forall|i: int, j: int|
        0 <= i < j < books.len() ==> (#[trigger] books[i]).0@ != (#[trigger] books[j]).0@
}

/// Putting another bookmark in the place of an entry, under the same
/// identifier, is an insertion into the map.
proof fn lemma_entry_replaced(
    before: Seq<(String, Bookmark)>,
    after: Seq<(String, Bookmark)>,
    i: int,
)
    requires
        distinct_ids(before),
        0 <= i < before.len(),
        after.len() == before.len(),
        after[i].0@ == before[i].0@,
        forall|k: int| 0 <= k < before.len() && k != i ==> after[k] == before[k],
    ensures
        distinct_ids(after),
        entries_map(after) == entries_map(before).insert(after[i].0@, after[i].1),
{
    let id = after[i].0@;
    let bookmark = after[i].1;
    assert forall|k: int| 0 <= k < after.len() implies (#[trigger] after[k]).0@
        == before[k].0@ by {}
    assert forall|key: Seq<char>| has_entry(after, key) == has_entry(before, key) by {
        if has_entry(before, key) {
            let k = choose|k: int| 0 <= k < before.len() && (#[trigger] before[k]).0@ == key;
            assert(after[k].0@ == key);
        }
        if has_entry(after, key) {
            let k = choose|k: int| 0 <= k < after.len() && (#[trigger] after[k]).0@ == key;
            assert(before[k].0@ == key);
        }
    }
    assert(has_entry(before, id)) by {
        assert(before[i].0@ == id);
    }
    assert forall|key: Seq<char>| has_entry(after, key) implies entry_for(after, key) == (if key
        == id {
        bookmark
    } else {
        entry_for(before, key)
    }) by {
        let ka = choose|k: int| 0 <= k < after.len() && (#[trigger] after[k]).0@ == key;
        let kb = choose|k: int| 0 <= k < before.len() && (#[trigger] before[k]).0@ == key;
        assert(before[ka].0@ == key);
        assert(ka == kb);
        if key == id {
            assert(ka == i);
        }
    }
    assert(entries_map(after) =~= entries_map(before).insert(id, bookmark));
}

/// Adding an entry under an identifier that no entry has is an insertion
/// into the map.
proof fn lemma_entry_added(before: Seq<(String, Bookmark)>, after: Seq<(String, Bookmark)>)
    requires
        distinct_ids(before),
        after.len() == before.len() + 1,
        forall|k: int| 0 <= k < before.len() ==> after[k] == before[k],
        !has_entry(before, after[before.len() as int].0@),
    ensures
        distinct_ids(after),
        entries_map(after) == entries_map(before).insert(
            after[before.len() as int].0@,
            after[before.len() as int].1,
        ),
{
    let n = before.len() as int;
    let id = after[n].0@;
    let bookmark = after[n].1;
    assert forall|i: int, j: int| 0 <= i < j < after.len() implies (#[trigger] after[i]).0@ != (
    #[trigger] after[j]).0@ by {
        if j == n {
            assert(before[i].0@ != id);
        } else {
            assert(before[i].0@ != before[j].0@);
        }
    }
    assert forall|key: Seq<char>| has_entry(after, key) == (key == id || has_entry(
        before,
        key,
    )) by {
        if has_entry(before, key) {
            let k = choose|k: int| 0 <= k < before.len() && (#[trigger] before[k]).0@ == key;
            assert(after[k].0@ == key);
        }
        if has_entry(after, key) {
            let k = choose|k: int| 0 <= k < after.len() && (#[trigger] after[k]).0@ == key;
            if k < n {
                assert(before[k].0@ == key);
            }
        }
        if key == id {
            assert(after[n].0@ == key);
        }
    }
    assert forall|key: Seq<char>| has_entry(after, key) implies entry_for(after, key) == (if key
        == id {
        bookmark
    } else {
        entry_for(before, key)
    }) by {
        let ka = choose|k: int| 0 <= k < after.len() && (#[trigger] after[k]).0@ == key;
        if key == id {
            if ka < n {
                assert(before[ka].0@ == key);
            }
            assert(ka == n);
        } else {
            let kb = choose|k: int| 0 <= k < before.len() && (#[trigger] before[k]).0@ == key;
            assert(ka < n);
            assert(before[ka].0@ == key);
            assert(ka == kb);
        }
    }
    assert(entries_map(after) =~= entries_map(before).insert(id, bookmark));
}

/// The map that recording the entries of `books` one after the other
/// gives: where an identifier occurs twice, the later entry stands.
pub open spec fn recorded_all(books: Seq<(String, Bookmark)>) -> Map<Seq<char>, Bookmark>
    decreases books.len(),
{
    if books.len() == 0 {
        Map::empty()
    } else {
        recorded_all(books.drop_last()).insert(books.last().0@, books.last().1)
    }
}

/// A list of entries in which no identifier occurs twice is read back as
/// the map it stands for: a store that is rebuilt from its own entries
/// holds what it held.
pub proof fn lemma_entries_round_trip(books: Seq<(String, Bookmark)>)
    requires
        distinct_ids(books),
    ensures
        recorded_all(books) == entries_map(books),
    decreases books.len(),
{
    if books.len() == 0 {
        assert(entries_map(books) =~= Map::<Seq<char>, Bookmark>::empty());
    } else {
        let before = books.drop_last();
        let n = before.len() as int;
        lemma_entries_round_trip(before);
        assert(!has_entry(before, books[n].0@)) by {
            if has_entry(before, books[n].0@) {
                let k = choose|k: int|
                    0 <= k < before.len() && (#[trigger] before[k]).0@ == books[n].0@;
                assert(books[k].0@ != books[n].0@);
            }
        }
        lemma_entry_added(before, books);
    }
}

impl View for Bookmarks {
    type V = Map<Seq<char>, Bookmark>;

    closed spec fn view(&self) -> Map<Seq<char>, Bookmark> {
        entries_map(self.books@)
    }
}

impl Bookmarks {
    /// No identifier is held twice.
    pub closed spec fn wf(&self) -> bool {
        distinct_ids(self.books@)
    }

    /// A store without bookmarks.
    pub fn new() -> (store: Bookmarks)
        ensures
            store.wf(),
            store@ == Map::<Seq<char>, Bookmark>::empty(),
    {
        let store = Bookmarks { books: Vec::new() };
        proof {
            assert(store@ =~= Map::<Seq<char>, Bookmark>::empty());
        }
        store
    }

    fn position(&self, id: &String) -> (r: Option<usize>)
        requires
            self.wf(),
        ensures
            match r {
                Some(i) => i < self.books@.len() && self.books@[i as int].0@ == id@,
                None => !has_entry(self.books@, id@),
            },
    {
        let mut i: usize = 0;
        while i < self.books.len()
            invariant
                i <= self.books@.len(),
                forall|j: int| 0 <= j < i ==> (#[trigger] self.books@[j]).0@ != id@,
            decreases self.books@.len() - i,
        {
            if self.books[i].0 == *id {
                return Some(i);
            }
            i += 1;
        }
        None
    }

    /// The bookmark of the book `path`, where there is one.
    pub fn get_bookmark(&self, path: &str) -> (r: Option<&Bookmark>)
        requires
            self.wf(),
        ensures
            match r {
                Some(b) => self@.contains_key(path@) && *b == self@[path@],
                None => !self@.contains_key(path@),
            },
    {
        let id = String::from_str(path);
        match self.position(&id) {
            Some(i) => {
                proof {
                    assert(has_entry(self.books@, path@));
                }
                Some(&self.books[i].1)
            },
            None => None,
        }
    }

    /// Records for the book `path` the position `chapter`, `scroll_offset`
    /// as read at the time `at`, in place of what was recorded before.
    pub fn record(&mut self, path: &str, chapter: usize, scroll_offset: usize, at: Timestamp)
        requires
            old(self).wf(),
        ensures
            final(self).wf(),
            final(self)@ == old(self)@.insert(
                path@,
                Bookmark { chapter, scroll_offset, last_read: at },
            ),
    {
        let id = String::from_str(path);
        let bookmark = Bookmark { chapter, scroll_offset, last_read: at };
        let ghost before = self.books@;
        match self.position(&id) {
            Some(i) => {
                self.books.set(i, (id, bookmark));
                proof {
                    lemma_entry_replaced(before, self.books@, i as int);
                }
            },
            None => {
                self.books.push((id, bookmark));
                proof {
                    lemma_entry_added(before, self.books@);
                }
            },
        }
    }

    /// Records for the book `path` the position `chapter`, `scroll_offset`
    /// as read now, in place of what was recorded before. Every other
    /// book's bookmark stays as it was.
    pub fn update_bookmark(&mut self, path: &str, chapter: usize, scroll_offset: usize)
        requires
            old(self).wf(),
        ensures
            final(self).wf(),
            final(self)@.dom() == old(self)@.dom().insert(path@),
            final(self)@[path@].chapter == chapter,
            final(self)@[path@].scroll_offset == scroll_offset,
            forall|other: Seq<char>|
                other != path@ && old(self)@.contains_key(other) ==> final(self)@[other] == old(
                    self,
                )@[other],
    {
        let at = utc_now();
        self.record(path, chapter, scroll_offset, at);
    }

    /// The store's bookmarks as a list, each identifier once: what is
    /// written out when the bookmarks are saved.
    pub fn entries(&self) -> (out: Vec<(String, Bookmark)>)
        requires
            self.wf(),
        ensures
            distinct_ids(out@),
            entries_map(out@) == self@,
    {
        let mut out: Vec<(String, Bookmark)> = Vec::new();
        let mut i: usize = 0;
        while i < self.books.len()
            invariant
                i <= self.books@.len(),
                out@.len() == i,
                forall|k: int|
                    0 <= k < i ==> (#[trigger] out@[k]).0@ == self.books@[k].0@ && out@[k].1
                        == self.books@[k].1,
            decreases self.books@.len() - i,
        {
            out.push((self.books[i].0.clone(), self.books[i].1));
            i += 1;
        }
        proof {
            lemma_same_entries(self.books@, out@);
        }
        out
    }

    /// The store that holds the bookmarks of `entries`: what is built when
    /// the bookmarks are loaded. Where an identifier occurs twice, the
    /// later entry stands.
    pub fn from_entries(entries: &Vec<(String, Bookmark)>) -> (store: Bookmarks)
        ensures
            store.wf(),
            store@ == recorded_all(entries@),
    {
        let mut store = Bookmarks::new();
        let mut i: usize = 0;
        proof {
            assert(entries@.take(0) =~= Seq::<(String, Bookmark)>::empty());
        }
        while i < entries.len()
            invariant
                i <= entries@.len(),
                store.wf(),
                store@ == recorded_all(entries@.take(i as int)),
            decreases entries@.len() - i,
        {
            let b = entries[i].1;
            proof {
                let next = entries@.take(i + 1);
                assert(next.drop_last() =~= entries@.take(i as int));
                assert(next.last() == entries@[i as int]);
            }
            store.record(entries[i].0.as_str(), b.chapter, b.scroll_offset, b.last_read);
            i += 1;
        }
        proof {
            assert(entries@.take(entries@.len() as int) =~= entries@);
        }
        store
    }
}

/// Two lists with the same identifiers and bookmarks at the same places
/// stand for the same map.
proof fn lemma_same_entries(a: Seq<(String, Bookmark)>, b: Seq<(String, Bookmark)>)
    requires
        distinct_ids(a),
        a.len() == b.len(),
        forall|k: int| 0 <= k < a.len() ==> (#[trigger] b[k]).0@ == a[k].0@ && b[k].1 == a[k].1,
    ensures
        distinct_ids(b),
        entries_map(b) == entries_map(a),
{
    assert forall|i: int, j: int| 0 <= i < j < b.len() implies (#[trigger] b[i]).0@ != (
    #[trigger] b[j]).0@ by {
        assert(a[i].0@ != a[j].0@);
    }
    assert forall|key: Seq<char>| has_entry(b, key) == has_entry(a, key) by {
        if has_entry(a, key) {
            let k = choose|k: int| 0 <= k < a.len() && (#[trigger] a[k]).0@ == key;
            assert(b[k].0@ == key);
        }
        if has_entry(b, key) {
            let k = choose|k: int| 0 <= k < b.len() && (#[trigger] b[k]).0@ == key;
            assert(a[k].0@ == key);
        }
    }
    assert forall|key: Seq<char>| has_entry(b, key) implies entry_for(b, key) == entry_for(
        a,
        key,
    ) by {
        let kb = choose|k: int| 0 <= k < b.len() && (#[trigger] b[k]).0@ == key;
        let ka = choose|k: int| 0 <= k < a.len() && (#[trigger] a[k]).0@ == key;
        assert(a[kb].0@ == key);
        assert(ka == kb);
    }
    assert(entries_map(b) =~= entries_map(a));
}

} // verus!
