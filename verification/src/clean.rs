//! Clean text: text in which the markup passes find nothing.
//!
//! Text is clean when it holds no tag, no character reference of the table
//! and no style rule. Taking white space out of clean text leaves it clean.

use vstd::prelude::*;
use crate::entities::{
    entity_at, entity_free, entity_names, lemma_entity_found, lemma_entity_from_matches,
    lemma_entity_shape,
};
use crate::pattern::Pattern;
use crate::text::{find_char, is_whitespace, lemma_find_char, lemma_run_end, run_end, CharClass};
use crate::thin::{lemma_thins_gap, lemma_thins_in_order, lemma_thins_word, thins};

verus! {

/// Whether no `>` follows a `<` in `s`: the text holds no tag.
pub open spec fn tag_free(s: Seq<char>) -> bool {
    forall|i: int, j: int|
        0 <= i < j < s.len() ==> !(#[trigger] s[i] == '<' && #[trigger] s[j] == '>')
}

/// Whether `s` holds no tag, no character reference of the table and no
/// style rule.
pub open spec fn is_clean(s: Seq<char>) -> bool {
    tag_free(s) && entity_free(s) && Pattern::StyleRule.absent(s)
}

/// Whether a style rule lies in `s` with the last character of its
/// selector at `a`, its opening brace at `q` and a closing brace at `c`.
pub open spec fn is_rule_at(s: Seq<char>, a: int, q: int, c: int) -> bool {
    &&& 0 <= a < q < c < s.len()
    &&& CharClass::Selector.holds(s[a])
    &&& s[q] == '{'
    &&& s[c] == '}'
    &&& forall|n: int| a < n < q ==> is_whitespace(#[trigger] s[n])
}

/// Whether a style rule lies somewhere in `s`.
pub open spec fn has_rule(s: Seq<char>) -> bool {
    exists|a: int, q: int, c: int| is_rule_at(s, a, q, c)
}

/// Where the style rule pattern matches, a style rule lies in the text.
pub proof fn lemma_match_is_rule(s: Seq<char>, k: int)
    requires
        Pattern::StyleRule.match_end(s, k) is Some,
    ensures
        has_rule(s),
{
    let j = run_end(s, CharClass::Selector, k);
    let q = run_end(s, CharClass::Whitespace, j);
    let c = find_char(s, '}', q + 1);
    lemma_run_end(s, CharClass::Selector, k);
    lemma_run_end(s, CharClass::Whitespace, j);
    lemma_find_char(s, '}', q + 1);
    assert(CharClass::Selector.holds(s[j - 1]));
    assert(is_rule_at(s, j - 1, q, c));
}

/// A run that starts at `from` ends at `to`, where every character from
/// `from` to `to` is of the class and the one at `to` is not.
proof fn lemma_run_ends_at(s: Seq<char>, class: CharClass, from: int, to: int)
    requires
        0 <= from <= to <= s.len(),
        forall|n: int| from <= n < to ==> class.holds(#[trigger] s[n]),
        to < s.len() ==> !class.holds(s[to]),
    ensures
        run_end(s, class, from) == to,
    decreases to - from,
{
    if from < to {
        assert(class.holds(s[from]));
        lemma_run_ends_at(s, class, from + 1, to);
    }
}

/// Where a style rule lies in the text, the style rule pattern matches.
pub proof fn lemma_rule_is_matched(s: Seq<char>, a: int, q: int, c: int)
    requires
        is_rule_at(s, a, q, c),
    ensures
        Pattern::StyleRule.match_end(s, a) is Some,
{
    assert forall|n: int| a + 1 <= n < q implies CharClass::Whitespace.holds(#[trigger] s[n]) by {
        assert(is_whitespace(s[n]));
    }
    if a + 1 < q {
        assert(is_whitespace(s[a + 1]));
    }
    lemma_run_ends_at(s, CharClass::Selector, a + 1, a + 1);
    assert(run_end(s, CharClass::Selector, a) == a + 1);
    lemma_run_ends_at(s, CharClass::Whitespace, a + 1, q);
    lemma_find_char(s, '}', q + 1);
}

/// No rule lies in text in which the style rule pattern matches nowhere,
/// and the other way round.
pub proof fn lemma_rule_free(s: Seq<char>)
    ensures
        Pattern::StyleRule.absent(s) <==> !has_rule(s),
{
    if has_rule(s) {
        let (a, q, c) = choose|a: int, q: int, c: int| is_rule_at(s, a, q, c);
        lemma_rule_is_matched(s, a, q, c);
    }
    if !Pattern::StyleRule.absent(s) {
        let k = choose|k: int|
            0 <= k < s.len() && !((#[trigger] Pattern::StyleRule.match_end(s, k)) is None);
        lemma_match_is_rule(s, k);
    }
}

/// Thinned text is clean where the text it is taken from is clean.
pub proof fn lemma_thinned_stays_clean(s: Seq<char>, r: Seq<char>, from: Seq<int>)
    requires
        thins(s, r, from),
        is_clean(s),
    ensures
        is_clean(r),
{
    assert forall|i: int, j: int| 0 <= i < j < r.len() implies !(#[trigger] r[i] == '<'
        && #[trigger] r[j] == '>') by {
        lemma_thins_in_order(s, r, from, i, j);
        assert(r[i] == s[from[i]] && r[j] == s[from[j]]);
    }
    assert forall|i: int| 0 <= i < r.len() implies (#[trigger] entity_at(r, i)) is None by {
        if entity_at(r, i) is Some {
            let k = entity_at(r, i)->0;
            lemma_entity_from_matches(r, i, 0);
            lemma_entity_shape(k);
            let name = entity_names()[k];
            let len = name.len() as int;
            let word = r.subrange(i, i + len);
            assert forall|m: int| i <= m < i + len implies !is_whitespace(#[trigger] r[m]) by {
                assert(word[m - i] == r[m]);
                assert(!is_whitespace(name[m - i]));
            }
            assert forall|t: int| 0 <= t < len implies s[from[i] + t] == name[t] by {
                lemma_thins_word(s, r, from, i, len, t);
                assert(r[i + t] == s[from[i + t]]);
                assert(word[t] == r[i + t]);
            }
            lemma_thins_word(s, r, from, i, len, len - 1);
            assert(s.subrange(from[i], from[i] + len) =~= name);
            lemma_entity_found(s, from[i], k);
            assert(entity_at(s, from[i]) is None);
        }
    }
    lemma_rule_free(s);
    lemma_rule_free(r);
    if has_rule(r) {
        let (a, q, c) = choose|a: int, q: int, c: int| is_rule_at(r, a, q, c);
        lemma_thins_in_order(s, r, from, a, q);
        lemma_thins_in_order(s, r, from, q, c);
        assert(r[a] == s[from[a]] && r[q] == s[from[q]] && r[c] == s[from[c]]);
        assert forall|n: int| from[a] < n < from[q] implies is_whitespace(#[trigger] s[n]) by {
            lemma_thins_gap(s, r, from, a, q, n);
        }
        assert(is_rule_at(s, from[a], from[q], from[c]));
    }
}

} // verus!
