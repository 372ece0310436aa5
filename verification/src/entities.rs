//! Character references: a fixed table of named references and the text
//! each one stands for.
//!
//! Decoding scans from left to right. Where a reference of the table stands,
//! it is replaced by its text and the scan goes on behind it, so decoded
//! text is never decoded a second time.

use vstd::prelude::*;
use crate::text::{append_chars, is_whitespace, matches_at, starts_with_at};

verus! {

/// The references of the table, each from `&` to `;`.
pub open spec fn entity_names() -> Seq<Seq<char>> {
    seq![
        seq!['&', 'n', 'b', 's', 'p', ';'],
        seq!['&', 'a', 'm', 'p', ';'],
        seq!['&', 'l', 't', ';'],
        seq!['&', 'g', 't', ';'],
        seq!['&', 'q', 'u', 'o', 't', ';'],
        seq!['&', 'a', 'p', 'o', 's', ';'],
        seq!['&', 'm', 'd', 'a', 's', 'h', ';'],
        seq!['&', 'n', 'd', 'a', 's', 'h', ';'],
        seq!['&', 'h', 'e', 'l', 'l', 'i', 'p', ';'],
        seq!['&', 'l', 'd', 'q', 'u', 'o', ';'],
        seq!['&', 'r', 'd', 'q', 'u', 'o', ';'],
        seq!['&', 'l', 's', 'q', 'u', 'o', ';'],
        seq!['&', 'r', 's', 'q', 'u', 'o', ';'],
    ]
}

/// The text that each reference of [`entity_names`] stands for, in the same
/// order: a space, `&`, `<`, `>`, `"`, `'`, an em dash, an en dash, three
/// full stops, and the curly double and single quotes.
pub open spec fn entity_texts() -> Seq<Seq<char>> {
    seq![
        seq![' '],
        seq!['&'],
        seq!['<'],
        seq!['>'],
        seq!['"'],
        seq!['\''],
        seq!['\u{2014}'],
        seq!['\u{2013}'],
        seq!['.', '.', '.'],
        seq!['\u{201c}'],
        seq!['\u{201d}'],
        seq!['\u{2018}'],
        seq!['\u{2019}'],
    ]
}

/// The first reference of the table from entry `k` on that stands in `s` at
/// index `i`, by its place in the table.
pub open spec fn entity_from(s: Seq<char>, i: int, k: int) -> Option<int>
    decreases entity_names().len() - k,
{
    if k < 0 || k >= entity_names().len() {
        None
    } else if matches_at(s, i, entity_names()[k]) {
        Some(k)
    } else {
        entity_from(s, i, k + 1)
    }
}

/// The reference of the table that stands in `s` at index `i`, by its place
/// in the table.
pub open spec fn entity_at(s: Seq<char>, i: int) -> Option<int> {
    entity_from(s, i, 0)
}

/// `s` from index `i` on, with every reference of the table replaced by its
/// text.
pub open spec fn decoded_from(s: Seq<char>, i: int) -> Seq<char>
    decreases s.len() - i,
{
    if i < 0 || i >= s.len() {
        Seq::empty()
    } else {
        match entity_at(s, i) {
            Some(k) if 0 <= k < entity_names().len() && i < i + entity_names()[k].len()
                <= s.len() => {
                entity_texts()[k] + decoded_from(s, i + entity_names()[k].len())
            },
            _ => seq![s[i]] + decoded_from(s, i + 1),
        }
    }
}

/// `s` with every reference of the table replaced by its text.
pub open spec fn decoded(s: Seq<char>) -> Seq<char> {
    decoded_from(s, 0)
}

/// The table of references with their texts.
pub struct EntityTable {
    names: Vec<Vec<char>>,
    texts: Vec<Vec<char>>,
}

impl EntityTable {
    /// The table holds exactly the references of [`entity_names`] and the
    /// texts of [`entity_texts`].
    pub closed spec fn wf(&self) -> bool {
        &&& self.names@.len() == entity_names().len()
        &&& self.texts@.len() == entity_texts().len()
        &&& forall|k: int|
            0 <= k < self.names@.len() ==> (#[trigger] self.names@[k])@ == entity_names()[k]
        &&& forall|k: int|
            0 <= k < self.texts@.len() ==> (#[trigger] self.texts@[k])@ == entity_texts()[k]
    }

    /// Builds the table.
    pub fn new() -> (t: EntityTable)
        ensures
            t.wf(),
    {
        let names: Vec<Vec<char>> = vec![
            vec!['&', 'n', 'b', 's', 'p', ';'],
            vec!['&', 'a', 'm', 'p', ';'],
            vec!['&', 'l', 't', ';'],
            vec!['&', 'g', 't', ';'],
            vec!['&', 'q', 'u', 'o', 't', ';'],
            vec!['&', 'a', 'p', 'o', 's', ';'],
            vec!['&', 'm', 'd', 'a', 's', 'h', ';'],
            vec!['&', 'n', 'd', 'a', 's', 'h', ';'],
            vec!['&', 'h', 'e', 'l', 'l', 'i', 'p', ';'],
            vec!['&', 'l', 'd', 'q', 'u', 'o', ';'],
            vec!['&', 'r', 'd', 'q', 'u', 'o', ';'],
            vec!['&', 'l', 's', 'q', 'u', 'o', ';'],
            vec!['&', 'r', 's', 'q', 'u', 'o', ';'],
        ];
        let texts: Vec<Vec<char>> = vec![
            vec![' '],
            vec!['&'],
            vec!['<'],
            vec!['>'],
            vec!['"'],
            vec!['\''],
            vec!['\u{2014}'],
            vec!['\u{2013}'],
            vec!['.', '.', '.'],
            vec!['\u{201c}'],
            vec!['\u{201d}'],
            vec!['\u{2018}'],
            vec!['\u{2019}'],
        ];
        proof {
            assert forall|k: int| 0 <= k < names@.len() implies (#[trigger] names@[k])@
                == entity_names()[k] by {
                assert(names@[k]@ =~= entity_names()[k]);
            }
            assert forall|k: int| 0 <= k < texts@.len() implies (#[trigger] texts@[k])@
                == entity_texts()[k] by {
                assert(texts@[k]@ =~= entity_texts()[k]);
            }
        }
        EntityTable { names, texts }
    }

    /// Looks for a reference of the table at index `i` of `s`.
    pub fn find_at(&self, s: &Vec<char>, i: usize) -> (r: Option<usize>)
        requires
            self.wf(),
            i <= s.len(),
        ensures
            match r {
                Some(k) => entity_at(s@, i as int) == Some(k as int) && k < entity_names().len(),
                None => entity_at(s@, i as int) is None,
            },
    {
        let mut k: usize = 0;
        while k < self.names.len()
            invariant
                self.wf(),
                i <= s.len(),
                k <= self.names@.len(),
                entity_from(s@, i as int, k as int) == entity_at(s@, i as int),
            decreases self.names@.len() - k,
        {
            if starts_with_at(s, i, &self.names[k]) {
                return Some(k);
            }
            k += 1;
        }
        None
    }

    /// Replaces every reference of the table in `s` by its text.
    pub fn decode(&self, s: &Vec<char>) -> (out: Vec<char>)
        requires
            self.wf(),
        ensures
            out@ == decoded(s@),
    {
        let mut out: Vec<char> = Vec::new();
        let mut i: usize = 0;
        while i < s.len()
            invariant
                self.wf(),
                i <= s.len(),
                out@ + decoded_from(s@, i as int) == decoded(s@),
            decreases s.len() - i,
        {
            match self.find_at(s, i) {
                Some(k) => {
                    let name = &self.names[k];
                    let text = &self.texts[k];
                    proof {
                        assert(matches_at(s@, i as int, entity_names()[k as int])) by {
                            lemma_entity_from_matches(s@, i as int, 0);
                        }
                        assert((out@ + text@) + decoded_from(s@, i + name@.len()) =~= out@ + (
                        text@ + decoded_from(s@, i + name@.len())));
                    }
                    append_chars(&mut out, text);
                    i += name.len();
                },
                None => {
                    proof {
                        assert(out@.push(s@[i as int]) + decoded_from(s@, i + 1) =~= out@ + (
                        seq![s@[i as int]] + decoded_from(s@, i + 1)));
                    }
                    out.push(s[i]);
                    i += 1;
                },
            }
        }
        proof {
            assert(out@ + Seq::<char>::empty() =~= out@);
        }
        out
    }
}

/// The reference that [`entity_from`] finds does stand at the index.
pub proof fn lemma_entity_from_matches(s: Seq<char>, i: int, k: int)
    requires
        0 <= k,
    ensures
        entity_from(s, i, k) matches Some(j) ==> k <= j < entity_names().len() && matches_at(
            s,
            i,
            entity_names()[j],
        ),
    decreases entity_names().len() - k,
{
    if k < entity_names().len() && !matches_at(s, i, entity_names()[k]) {
        lemma_entity_from_matches(s, i, k + 1);
    }
}

/// How the references of the table are made: each starts with `&`, ends
/// with `;`, and holds neither anywhere else; and no two are alike in their
/// second and third characters.
pub proof fn lemma_entity_shape(k: int)
    requires
        0 <= k < entity_names().len(),
    ensures
        entity_names().len() == entity_texts().len(),
        entity_names()[k].len() >= 4,
        entity_names()[k][0] == '&',
        entity_names()[k][entity_names()[k].len() - 1] == ';',
        forall|m: int| 1 <= m < entity_names()[k].len() ==> entity_names()[k][m] != '&',
        forall|m: int| 0 <= m < entity_names()[k].len() - 1 ==> entity_names()[k][m] != ';',
        forall|m: int|
            0 <= m < entity_names()[k].len() ==> !is_whitespace(#[trigger] entity_names()[k][m]),
        forall|j: int|
            0 <= j < entity_names().len() && entity_names()[j][1] == entity_names()[k][1]
                && entity_names()[j][2] == entity_names()[k][2] ==> j == k,
{
}

/// Whether `s` holds no `&`.
pub open spec fn ampersand_free(s: Seq<char>) -> bool {
    forall|k: int| 0 <= k < s.len() ==> s[k] != '&'
}

/// No reference stands at an index that does not hold `&`.
pub proof fn lemma_entity_needs_ampersand(s: Seq<char>, i: int)
    requires
        0 <= i < s.len(),
        s[i] != '&',
    ensures
        entity_at(s, i) is None,
{
    lemma_entity_from_matches(s, i, 0);
    if entity_at(s, i) is Some {
        let j = entity_at(s, i)->0;
        lemma_entity_shape(j);
        let name = entity_names()[j];
        assert(s.subrange(i, i + name.len())[0] == name[0]);
    }
}

/// Text without `&` is not altered: from any index on, decoding returns
/// the text as it is.
pub proof fn lemma_decode_plain_from(s: Seq<char>, i: int)
    requires
        ampersand_free(s),
        0 <= i <= s.len(),
    ensures
        decoded_from(s, i) == s.skip(i),
    decreases s.len() - i,
{
    if i < s.len() {
        lemma_entity_needs_ampersand(s, i);
        lemma_decode_plain_from(s, i + 1);
        assert(seq![s[i]] + s.skip(i + 1) =~= s.skip(i));
    } else {
        assert(s.skip(i) =~= Seq::<char>::empty());
    }
}

/// Whether no reference of the table stands anywhere in `s`.
pub open spec fn entity_free(s: Seq<char>) -> bool {
    forall|i: int| 0 <= i < s.len() ==> (#[trigger] entity_at(s, i)) is None
}

/// Text in which no reference stands is not altered: from any index on,
/// decoding returns the text as it is.
pub proof fn lemma_decode_unmatched(s: Seq<char>, i: int)
    requires
        entity_free(s),
        0 <= i <= s.len(),
    ensures
        decoded_from(s, i) == s.skip(i),
    decreases s.len() - i,
{
    if i < s.len() {
        assert(entity_at(s, i) is None);
        lemma_decode_unmatched(s, i + 1);
        assert(seq![s[i]] + s.skip(i + 1) =~= s.skip(i));
    } else {
        assert(s.skip(i) =~= Seq::<char>::empty());
    }
}

/// Text in which no reference stands is not altered by decoding.
pub proof fn lemma_decode_entity_free(s: Seq<char>)
    requires
        entity_free(s),
    ensures
        decoded(s) == s,
{
    lemma_decode_unmatched(s, 0);
    assert(s.skip(0) =~= s);
}

/// Text without `&` is not altered by decoding.
pub proof fn lemma_decode_plain(s: Seq<char>)
    requires
        ampersand_free(s),
    ensures
        decoded(s) == s,
{
    lemma_decode_plain_from(s, 0);
    assert(s.skip(0) =~= s);
}

/// Whether a reference stands at an index of `a` does not depend on what
/// follows `a`, where that starts with `&` or is empty.
proof fn lemma_entity_in_prefix(a: Seq<char>, rest: Seq<char>, i: int, k: int)
    requires
        0 <= i < a.len(),
        0 <= k,
        rest.len() > 0 ==> rest[0] == '&',
    ensures
        entity_from(a + rest, i, k) == entity_from(a, i, k),
    decreases entity_names().len() - k,
{
    let s = a + rest;
    if k < entity_names().len() {
        lemma_entity_shape(k);
        let name = entity_names()[k];
        if i + name.len() <= a.len() {
            assert(s.subrange(i, i + name.len()) =~= a.subrange(i, i + name.len()));
        } else if matches_at(s, i, name) {
            let m = a.len() - i;
            assert(s.subrange(i, i + name.len())[m] == s[a.len() as int]);
            assert(false);
        }
        lemma_entity_in_prefix(a, rest, i, k + 1);
    }
}

/// Decoding `a` followed by more text decodes `a` by itself first, where
/// what follows starts with `&` or is empty.
proof fn lemma_decode_prefix(a: Seq<char>, rest: Seq<char>, i: int)
    requires
        0 <= i <= a.len(),
        rest.len() > 0 ==> rest[0] == '&',
    ensures
        decoded_from(a + rest, i) == decoded_from(a, i) + decoded_from(a + rest, a.len() as int),
    decreases a.len() - i,
{
    let s = a + rest;
    let tail = decoded_from(s, a.len() as int);
    if i < a.len() {
        lemma_entity_in_prefix(a, rest, i, 0);
        lemma_entity_from_matches(a, i, 0);
        match entity_at(a, i) {
            Some(k) => {
                let step = entity_names()[k].len() as int;
                lemma_entity_shape(k);
                lemma_decode_prefix(a, rest, i + step);
                assert((entity_texts()[k] + decoded_from(a, i + step)) + tail =~= entity_texts()[k]
                    + (decoded_from(a, i + step) + tail));
            },
            None => {
                lemma_decode_prefix(a, rest, i + 1);
                assert((seq![a[i]] + decoded_from(a, i + 1)) + tail =~= seq![s[i]] + (
                decoded_from(a, i + 1) + tail));
            },
        }
    } else {
        assert(decoded_from(a, i) + tail =~= tail);
    }
}

/// Decoding from an index behind `p` does not depend on `p`.
proof fn lemma_decode_suffix(p: Seq<char>, b: Seq<char>, i: int)
    requires
        0 <= i <= b.len(),
    ensures
        decoded_from(p + b, p.len() + i) == decoded_from(b, i),
    decreases b.len() - i,
{
    let s = p + b;
    let n = p.len() as int;
    if i < b.len() {
        lemma_entity_suffix(p, b, i, 0);
        lemma_entity_from_matches(b, i, 0);
        match entity_at(b, i) {
            Some(k) => {
                lemma_entity_shape(k);
                lemma_decode_suffix(p, b, i + entity_names()[k].len());
            },
            None => {
                lemma_decode_suffix(p, b, i + 1);
            },
        }
    }
}

/// Whether a reference stands at an index behind `p` does not depend on
/// `p`.
proof fn lemma_entity_suffix(p: Seq<char>, b: Seq<char>, i: int, k: int)
    requires
        0 <= i <= b.len(),
        0 <= k,
    ensures
        entity_from(p + b, p.len() + i, k) == entity_from(b, i, k),
    decreases entity_names().len() - k,
{
    if k < entity_names().len() {
        let name = entity_names()[k];
        if i + name.len() <= b.len() {
            assert((p + b).subrange(p.len() + i, p.len() + i + name.len()) =~= b.subrange(
                i,
                i + name.len(),
            ));
        }
        lemma_entity_suffix(p, b, i, k + 1);
    }
}

/// Where the reference `k` of the table stands at an index, it is the one
/// that is found there.
pub proof fn lemma_entity_found(s: Seq<char>, i: int, k: int)
    requires
        0 <= k < entity_names().len(),
        matches_at(s, i, entity_names()[k]),
    ensures
        entity_at(s, i) == Some(k),
{
    lemma_entity_from_matches(s, i, 0);
    lemma_entity_reaches(s, i, 0, k);
    let j = entity_at(s, i)->0;
    lemma_entity_shape(k);
    lemma_entity_shape(j);
    let found = entity_names()[j];
    let name = entity_names()[k];
    assert(s.subrange(i, i + found.len())[1] == found[1]);
    assert(s.subrange(i, i + found.len())[2] == found[2]);
    assert(s.subrange(i, i + name.len())[1] == name[1]);
    assert(s.subrange(i, i + name.len())[2] == name[2]);
}

/// Where a reference at or behind entry `from` of the table stands at an
/// index, the search from `from` finds one.
proof fn lemma_entity_reaches(s: Seq<char>, i: int, from: int, k: int)
    requires
        0 <= from <= k < entity_names().len(),
        matches_at(s, i, entity_names()[k]),
    ensures
        entity_from(s, i, from) is Some,
    decreases k - from,
{
    if from < k && !matches_at(s, i, entity_names()[from]) {
        lemma_entity_reaches(s, i, from + 1, k);
    }
}

/// Decoding a reference of the table yields the text it stands for and
/// alters nothing else: between any `before` and `after` the reference
/// becomes its text, and `before` and `after` are decoded as they are by
/// themselves.
pub proof fn lemma_decode_around(before: Seq<char>, k: int, after: Seq<char>)
    requires
        0 <= k < entity_names().len(),
    ensures
        decoded(before + entity_names()[k] + after) == decoded(before) + entity_texts()[k]
            + decoded(after),
{
    let name = entity_names()[k];
    let rest = name + after;
    let s = before + rest;
    let n = before.len() as int;
    lemma_entity_shape(k);
    assert(before + name + after =~= s);
    assert(rest[0] == name[0]);
    lemma_decode_prefix(before, rest, 0);
    assert(s.subrange(n, n + name.len()) =~= name);
    lemma_entity_found(s, n, k);
    assert(s =~= (before + name) + after);
    lemma_decode_suffix(before + name, after, 0);
    assert(decoded_from(s, n) == entity_texts()[k] + decoded(after));
    assert(decoded(before) + (entity_texts()[k] + decoded(after)) =~= decoded(before)
        + entity_texts()[k] + decoded(after));
}

/// Decoding a reference of the table by itself yields exactly the text it
/// stands for.
pub proof fn lemma_decode_entity(k: int)
    requires
        0 <= k < entity_names().len(),
    ensures
        decoded(entity_names()[k]) == entity_texts()[k],
{
    let none = Seq::<char>::empty();
    lemma_decode_around(none, k, none);
    assert(none + entity_names()[k] + none =~= entity_names()[k]);
    assert(decoded(none) =~= none);
    assert(none + entity_texts()[k] + none =~= entity_texts()[k]);
}

/// Replaces every reference of the table in `s` by its text.
pub fn decode_entities(s: &Vec<char>) -> (out: Vec<char>)
    ensures
        out@ == decoded(s@),
{
    let table = EntityTable::new();
    table.decode(s)
}

} // verus!
