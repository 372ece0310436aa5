//! Thinning: what is left of a text when white space is taken out of it.
//!
//! The white space passes only ever take white space out: each keeps the
//! characters that are not white space, in their order, and never joins
//! two of them that white space kept apart.

use vstd::prelude::*;
use crate::pattern::{rewritten, rewritten_from, Pattern};
use crate::text::{is_whitespace, lemma_run_end, CharClass};
use crate::tidy::lemma_last_break;

verus! {

/// Whether `r` is `s` thinned, where `from[k]` is the index in `s` that the
/// character `k` of `r` is taken from: the characters of `r` are characters
/// of `s` in their order, what lies between two of them in `s` is white
/// space, and where something lies between them, the first of the two is
/// white space itself.
pub open spec fn thins(s: Seq<char>, r: Seq<char>, from: Seq<int>) -> bool {
    &&& from.len() == r.len()
    &&& forall|k: int|
        0 <= k < r.len() ==> 0 <= (#[trigger] from[k]) < s.len() && r[k] == s[from[k]]
    &&& forall|k: int|
        0 <= k && k + 1 < r.len() ==> (#[trigger] from[k]) < from[k + 1] && (from[k + 1] == from[k]
            + 1 || is_whitespace(r[k]))
    &&& forall|k: int, n: int|
        0 <= k && k + 1 < r.len() && (#[trigger] from[k]) < n < from[k + 1] ==> is_whitespace(
            #[trigger] s[n],
        )
}

/// The indices that a thinned text is taken from are in order.
pub proof fn lemma_thins_in_order(s: Seq<char>, r: Seq<char>, from: Seq<int>, a: int, b: int)
    requires
        thins(s, r, from),
        0 <= a < b < r.len(),
    ensures
        from[a] < from[b],
    decreases b - a,
{
    if a + 1 < b {
        lemma_thins_in_order(s, r, from, a + 1, b);
    }
    assert(from[a] < from[a + 1]);
}

/// Where only white space stands between two characters of a thinned text,
/// only white space stands between the two in the text it is taken from.
pub proof fn lemma_thins_gap(
    s: Seq<char>,
    r: Seq<char>,
    from: Seq<int>,
    a: int,
    b: int,
    n: int,
)
    requires
        thins(s, r, from),
        0 <= a < b < r.len(),
        forall|k: int| a < k < b ==> is_whitespace(#[trigger] r[k]),
        from[a] < n < from[b],
    ensures
        is_whitespace(s[n]),
    decreases b - a,
{
    assert(from[a] < from[a + 1]);
    if n < from[a + 1] {
    } else if n == from[a + 1] {
        assert(r[a + 1] == s[from[a + 1]]);
        assert(is_whitespace(r[a + 1]));
    } else {
        lemma_thins_gap(s, r, from, a + 1, b, n);
    }
}

/// A stretch of a thinned text that holds no white space is a stretch of
/// the text it is taken from.
pub proof fn lemma_thins_word(
    s: Seq<char>,
    r: Seq<char>,
    from: Seq<int>,
    k: int,
    len: int,
    t: int,
)
    requires
        thins(s, r, from),
        0 <= k,
        k + len <= r.len(),
        0 <= t < len,
        forall|m: int| k <= m < k + len ==> !is_whitespace(#[trigger] r[m]),
    ensures
        from[k + t] == from[k] + t,
    decreases t,
{
    if t > 0 {
        lemma_thins_word(s, r, from, k, len, t - 1);
        assert(from[k + t - 1] < from[k + t - 1 + 1]);
        assert(!is_whitespace(r[k + t - 1]));
    }
}

/// The character that stands in place of a match of the pattern, where the
/// pattern matches white space only and keeps the first character of each
/// match.
pub open spec fn squeezed_to(p: Pattern) -> Option<char> {
    match p {
        Pattern::Spaces => Some(' '),
        Pattern::IndentSpaces => Some('\n'),
        Pattern::LineBreaks => Some('\n'),
        _ => None,
    }
}

/// A match of a squeezing pattern is white space and starts with the
/// character that the pattern keeps.
pub proof fn lemma_squeezed_match(p: Pattern, s: Seq<char>, j: int)
    requires
        squeezed_to(p) is Some,
        p.match_end(s, j) is Some,
    ensures
        0 <= j < p.match_end(s, j)->0 <= s.len(),
        s[j] == squeezed_to(p)->0,
        forall|n: int| j <= n < p.match_end(s, j)->0 ==> is_whitespace(#[trigger] s[n]),
{
    p.lemma_match_bounds(s, j);
    match p {
        Pattern::Spaces => {
            lemma_run_end(s, CharClass::Space, j);
        },
        Pattern::IndentSpaces => {
            lemma_run_end(s, CharClass::Space, j + 1);
        },
        Pattern::LineBreaks => {
            lemma_last_break(s, j + 1, j);
        },
        _ => {},
    }
}

/// For each character of `s` rewritten from index `i` on, the index in `s`
/// that it is taken from: its own where it is kept, the start of the match
/// where it stands for a match.
pub open spec fn origins_from(s: Seq<char>, p: Pattern, i: int) -> Seq<int>
    decreases s.len() - i,
{
    if i < 0 || i >= s.len() {
        Seq::empty()
    } else {
        match p.match_end(s, i) {
            Some(e) if i < e <= s.len() => seq![i] + origins_from(s, p, e),
            _ => seq![i] + origins_from(s, p, i + 1),
        }
    }
}

/// Rewriting with a squeezing pattern thins the text from index `i` on.
proof fn lemma_origins(s: Seq<char>, p: Pattern, i: int)
    requires
        squeezed_to(p) is Some,
        0 <= i <= s.len(),
    ensures
        ({
            let r = rewritten_from(s, p, seq![squeezed_to(p)->0], i);
            let from = origins_from(s, p, i);
            &&& from.len() == r.len()
            &&& i < s.len() ==> from.len() > 0 && from[0] == i
            &&& forall|k: int|
                0 <= k < r.len() ==> i <= (#[trigger] from[k]) < s.len() && r[k] == s[from[k]]
            &&& forall|k: int|
                0 <= k && k + 1 < r.len() ==> (#[trigger] from[k]) < from[k + 1] && (from[k + 1]
                    == from[k] + 1 || is_whitespace(r[k]))
            &&& forall|k: int, n: int|
                0 <= k && k + 1 < r.len() && (#[trigger] from[k]) < n < from[k + 1]
                    ==> is_whitespace(#[trigger] s[n])
        }),
    decreases s.len() - i,
{
    let c = squeezed_to(p)->0;
    let r = rewritten_from(s, p, seq![c], i);
    let from = origins_from(s, p, i);
    if i < s.len() {
        p.lemma_match_bounds(s, i);
        let next = match p.match_end(s, i) {
            Some(e) => e,
            None => i + 1,
        };
        if p.match_end(s, i) is Some {
            lemma_squeezed_match(p, s, i);
        }
        lemma_origins(s, p, next);
        let rest = rewritten_from(s, p, seq![c], next);
        let later = origins_from(s, p, next);
        assert(r == seq![r[0]] + rest);
        assert(from == seq![i] + later);
        assert(r[0] == s[i]);
        assert forall|k: int| 0 <= k < r.len() implies i <= (#[trigger] from[k]) < s.len() && r[k]
            == s[from[k]] by {
            if k > 0 {
                assert(from[k] == later[k - 1]);
                assert(r[k] == rest[k - 1]);
            }
        }
        assert forall|k: int| 0 <= k && k + 1 < r.len() implies (#[trigger] from[k]) < from[k + 1]
            && (from[k + 1] == from[k] + 1 || is_whitespace(r[k])) by {
            assert(from[k + 1] == later[k]);
            if k > 0 {
                assert(from[k] == later[k - 1]);
                assert(r[k] == rest[k - 1]);
            } else {
                assert(later[0] == next);
            }
        }
        assert forall|k: int, n: int|
            0 <= k && k + 1 < r.len() && (#[trigger] from[k]) < n < from[k + 1] implies is_whitespace(
            #[trigger] s[n],
        ) by {
            assert(from[k + 1] == later[k]);
            if k > 0 {
                assert(from[k] == later[k - 1]);
            } else {
                assert(later[0] == next);
            }
        }
    }
}

/// Rewriting with a squeezing pattern thins the text.
pub proof fn lemma_squeezing_thins(s: Seq<char>, p: Pattern)
    requires
        squeezed_to(p) is Some,
    ensures
        thins(s, rewritten(s, p, seq![squeezed_to(p)->0]), origins_from(s, p, 0)),
{
    lemma_origins(s, p, 0);
}

/// A stretch of a text thins the text.
pub proof fn lemma_stretch_thins(s: Seq<char>, a: int, b: int)
    requires
        0 <= a <= b <= s.len(),
    ensures
        thins(s, s.subrange(a, b), Seq::new((b - a) as nat, |k: int| a + k)),
{
}

} // verus!
