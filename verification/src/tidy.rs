//! Tidy text: what the white space passes leave behind, and why passing
//! over tidy text again changes nothing.
//!
//! Text is tidy when no two spaces stand side by side, no space follows a
//! line break, no two line breaks have only white space between them, and
//! neither end of the text is white space.

use vstd::prelude::*;
use crate::pattern::{
    last_break, lemma_rewrite_absent, lemma_rewrite_neighbours, rewritten_from, Pattern,
};
use crate::text::{is_whitespace, lemma_run_end, CharClass};
use crate::whitespace::{breaks_collapsed, collapsed, trim_end, trim_start, trimmed};

verus! {

/// No two spaces stand side by side.
pub open spec fn no_double_space(s: Seq<char>) -> bool {
    forall|i: int| 0 <= i && i + 1 < s.len() ==> !((#[trigger] s[i]) == ' ' && s[i + 1] == ' ')
}

/// No space follows a line break.
pub open spec fn no_indent_space(s: Seq<char>) -> bool {
    forall|i: int| 0 <= i && i + 1 < s.len() ==> !((#[trigger] s[i]) == '\n' && s[i + 1] == ' ')
}

/// Between any two line breaks stands a character that is not white space:
/// the text holds no blank line, not even one of white space.
pub open spec fn no_blank_line(s: Seq<char>) -> bool {
    forall|i: int, j: int|
        0 <= i < j < s.len() && #[trigger] s[i] == '\n' && #[trigger] s[j] == '\n' ==> exists|
            k: int,
        |
            i < k < j && !is_whitespace(#[trigger] s[k])
}

/// Neither the first nor the last character is white space.
pub open spec fn is_trimmed(s: Seq<char>) -> bool {
    s.len() > 0 ==> !is_whitespace(s[0]) && !is_whitespace(s[s.len() - 1])
}

/// The text is tidy.
pub open spec fn is_tidy(s: Seq<char>) -> bool {
    &&& no_double_space(s)
    &&& no_indent_space(s)
    &&& no_blank_line(s)
    &&& is_trimmed(s)
}

/// Whether the white space that starts at index `i` holds a line break.
pub open spec fn break_ahead(s: Seq<char>, i: int) -> bool
    decreases s.len() - i,
{
    if 0 <= i < s.len() && is_whitespace(s[i]) {
        s[i] == '\n' || break_ahead(s, i + 1)
    } else {
        false
    }
}

/// [`last_break`] finds the last line break of the white space at `i`
/// where that holds one, and returns `last` where it holds none.
pub proof fn lemma_last_break(s: Seq<char>, i: int, last: int)
    requires
        0 <= i <= s.len(),
        last < i,
    ensures
        ({
            let r = last_break(s, i, last);
            if break_ahead(s, i) {
                &&& i <= r < s.len()
                &&& s[r] == '\n'
                &&& forall|k: int| i <= k <= r ==> is_whitespace(#[trigger] s[k])
                &&& !break_ahead(s, r + 1)
            } else {
                r == last
            }
        }),
    decreases s.len() - i,
{
    if i < s.len() && is_whitespace(s[i]) {
        let seen = if s[i] == '\n' {
            i
        } else {
            last
        };
        lemma_last_break(s, i + 1, seen);
    }
}

/// A line break that only white space leads up to is ahead.
proof fn lemma_break_reached(s: Seq<char>, a: int, j: int)
    requires
        0 <= a <= j < s.len(),
        s[j] == '\n',
        forall|k: int| a <= k < j ==> is_whitespace(#[trigger] s[k]),
    ensures
        break_ahead(s, a),
    decreases j - a,
{
    if a < j {
        assert(is_whitespace(s[a]));
        lemma_break_reached(s, a + 1, j);
    }
}

/// Where a line break is ahead, there is one that only white space leads
/// up to.
pub proof fn lemma_break_found(s: Seq<char>, a: int) -> (j: int)
    requires
        break_ahead(s, a),
    ensures
        a <= j < s.len(),
        s[j] == '\n',
        forall|k: int| a <= k < j ==> is_whitespace(#[trigger] s[k]),
    decreases s.len() - a,
{
    if s[a] == '\n' {
        a
    } else {
        lemma_break_found(s, a + 1)
    }
}

/// Text in which runs of line breaks match nowhere holds no blank line.
pub proof fn lemma_unmatched_breaks_leave_no_blank_line(s: Seq<char>)
    requires
        Pattern::LineBreaks.absent(s),
    ensures
        no_blank_line(s),
{
    assert forall|i: int, j: int|
        0 <= i < j < s.len() && #[trigger] s[i] == '\n' && #[trigger] s[j] == '\n' implies exists|
        k: int,
    |
        i < k < j && !is_whitespace(#[trigger] s[k]) by {
        if forall|k: int| i < k < j ==> is_whitespace(#[trigger] s[k]) {
            lemma_break_reached(s, i + 1, j);
            lemma_last_break(s, i + 1, i);
            assert(Pattern::LineBreaks.match_end(s, i) is None);
            assert(false);
        }
    }
}

/// In text without a blank line, runs of line breaks match nowhere.
pub proof fn lemma_no_blank_line_leaves_breaks_unmatched(s: Seq<char>)
    requires
        no_blank_line(s),
    ensures
        Pattern::LineBreaks.absent(s),
{
    assert forall|i: int| 0 <= i < s.len() implies (#[trigger] Pattern::LineBreaks.match_end(
        s,
        i,
    )) is None by {
        if s[i] == '\n' {
            lemma_last_break(s, i + 1, i);
            if break_ahead(s, i + 1) {
                let j = lemma_break_found(s, i + 1);
                assert(s[i] == '\n' && s[j] == '\n');
                let k = choose|k: int| i < k < j && !is_whitespace(#[trigger] s[k]);
                assert(is_whitespace(s[k]));
                assert(false);
            }
        }
    }
}

/// What stands ahead of an index does not depend on the character put
/// before the text.
proof fn lemma_break_ahead_shift(c: char, t: Seq<char>, k: int)
    requires
        0 <= k <= t.len(),
    ensures
        break_ahead(seq![c] + t, k + 1) == break_ahead(t, k),
    decreases t.len() - k,
{
    let s = seq![c] + t;
    if k < t.len() {
        assert(s[k + 1] == t[k]);
        lemma_break_ahead_shift(c, t, k + 1);
    }
}

/// What collapsing line breaks from index `i` on leaves: the text starts
/// as before, a line break is ahead of it where one was, and no line break
/// of it has another ahead.
proof fn lemma_collapse_from(s: Seq<char>, i: int)
    requires
        0 <= i <= s.len(),
    ensures
        ({
            let r = rewritten_from(s, Pattern::LineBreaks, seq!['\n'], i);
            &&& i < s.len() ==> r.len() > 0 && r[0] == s[i]
            &&& break_ahead(r, 0) == break_ahead(s, i)
            &&& forall|k: int|
                0 <= k < r.len() && (#[trigger] r[k]) == '\n' ==> !break_ahead(r, k + 1)
        }),
    decreases s.len() - i,
{
    let p = Pattern::LineBreaks;
    let r = rewritten_from(s, p, seq!['\n'], i);
    if i < s.len() {
        p.lemma_match_bounds(s, i);
        lemma_last_break(s, i + 1, i);
        match p.match_end(s, i) {
            Some(e) => {
                let rest = rewritten_from(s, p, seq!['\n'], e);
                lemma_collapse_from(s, e);
                assert(r == seq!['\n'] + rest);
                assert(r[0] == '\n');
                assert(!break_ahead(rest, 0));
                assert forall|k: int| 0 <= k < r.len() && (#[trigger] r[k]) == '\n' implies !break_ahead(
                    r,
                    k + 1,
                ) by {
                    lemma_break_ahead_shift('\n', rest, k);
                    if k > 0 {
                        assert(r[k] == rest[k - 1]);
                    }
                }
            },
            None => {
                let rest = rewritten_from(s, p, seq!['\n'], i + 1);
                lemma_collapse_from(s, i + 1);
                assert(r == seq![s[i]] + rest);
                assert(r[0] == s[i]);
                lemma_break_ahead_shift(s[i], rest, 0);
                assert forall|k: int| 0 <= k < r.len() && (#[trigger] r[k]) == '\n' implies !break_ahead(
                    r,
                    k + 1,
                ) by {
                    lemma_break_ahead_shift(s[i], rest, k);
                    if k > 0 {
                        assert(r[k] == rest[k - 1]);
                    }
                }
            },
        }
    }
}

/// After collapsing, runs of line breaks match nowhere, and the text holds
/// no blank line.
pub proof fn lemma_collapsed_breaks(s: Seq<char>)
    ensures
        Pattern::LineBreaks.absent(breaks_collapsed(s)),
        no_blank_line(breaks_collapsed(s)),
{
    let r = breaks_collapsed(s);
    lemma_collapse_from(s, 0);
    assert forall|i: int| 0 <= i < r.len() implies (#[trigger] Pattern::LineBreaks.match_end(
        r,
        i,
    )) is None by {
        if r[i] == '\n' {
            lemma_last_break(r, i + 1, i);
        }
    }
    lemma_unmatched_breaks_leave_no_blank_line(r);
}

/// [`trim_end`] lies within the text, the character before it is not
/// white space, and all from it on are.
pub proof fn lemma_trim_end(s: Seq<char>)
    ensures
        0 <= trim_end(s) <= s.len(),
        trim_end(s) > 0 ==> !is_whitespace(s[trim_end(s) - 1]),
        forall|k: int| trim_end(s) <= k < s.len() ==> is_whitespace(#[trigger] s[k]),
    decreases s.len(),
{
    if s.len() > 0 && is_whitespace(s.last()) {
        lemma_trim_end(s.drop_last());
        assert forall|k: int| trim_end(s) <= k < s.len() implies is_whitespace(#[trigger] s[k]) by {
            if k < s.len() - 1 {
                assert(s[k] == s.drop_last()[k]);
            }
        }
        if trim_end(s) > 0 {
            assert(s[trim_end(s) - 1] == s.drop_last()[trim_end(s) - 1]);
        }
    }
}

/// Trimmed text is a stretch of the text it was made from, and neither of
/// its ends is white space.
pub proof fn lemma_trimmed(s: Seq<char>)
    ensures
        is_trimmed(trimmed(s)),
        0 <= trim_start(s) <= s.len(),
        0 <= trim_end(s) <= s.len(),
        trim_start(s) < trim_end(s) ==> trimmed(s) == s.subrange(trim_start(s), trim_end(s)),
        trim_start(s) >= trim_end(s) ==> trimmed(s).len() == 0,
{
    lemma_trim_end(s);
    lemma_run_end(s, CharClass::Whitespace, 0);
}

/// Trimming text whose ends are not white space changes nothing.
pub proof fn lemma_trim_trimmed(s: Seq<char>)
    requires
        is_trimmed(s),
    ensures
        trimmed(s) == s,
{
    if s.len() > 0 {
        assert(trim_start(s) == 0);
        assert(trim_end(s) == s.len());
        assert(s.subrange(0, s.len() as int) =~= s);
    }
}

/// A stretch of text has no double space, no space behind a line break and
/// no blank line where the text has none.
pub proof fn lemma_stretch_stays_tidy(s: Seq<char>, a: int, b: int)
    requires
        0 <= a <= b <= s.len(),
    ensures
        no_double_space(s) ==> no_double_space(s.subrange(a, b)),
        no_indent_space(s) ==> no_indent_space(s.subrange(a, b)),
        no_blank_line(s) ==> no_blank_line(s.subrange(a, b)),
{
    let t = s.subrange(a, b);
    if no_double_space(s) {
        assert forall|i: int| 0 <= i && i + 1 < t.len() implies !((#[trigger] t[i]) == ' ' && t[i
            + 1] == ' ') by {
            assert(t[i] == s[a + i] && t[i + 1] == s[a + i + 1]);
        }
    }
    if no_indent_space(s) {
        assert forall|i: int| 0 <= i && i + 1 < t.len() implies !((#[trigger] t[i]) == '\n' && t[i
            + 1] == ' ') by {
            assert(t[i] == s[a + i] && t[i + 1] == s[a + i + 1]);
        }
    }
    if no_blank_line(s) {
        assert forall|i: int, j: int|
            0 <= i < j < t.len() && #[trigger] t[i] == '\n' && #[trigger] t[j] == '\n' implies exists|
            k: int,
        |
            i < k < j && !is_whitespace(#[trigger] t[k]) by {
            assert(s[a + i] == '\n' && s[a + j] == '\n');
            let k = choose|k: int| a + i < k < a + j && !is_whitespace(#[trigger] s[k]);
            assert(t[k - a] == s[k]);
        }
    }
}

/// Collapsing line breaks brings no double space and no space behind a
/// line break into text that has none.
pub proof fn lemma_collapse_keeps_spaces_tidy(s: Seq<char>)
    ensures
        no_double_space(s) ==> no_double_space(breaks_collapsed(s)),
        no_indent_space(s) ==> no_indent_space(breaks_collapsed(s)),
{
    let p = Pattern::LineBreaks;
    let r = breaks_collapsed(s);
    if s.len() > 0 {
        assert forall|j: int| 0 <= j < s.len() && (#[trigger] p.match_end(s, j)) is Some implies s[j]
            == '\n' by {}
        if no_double_space(s) {
            let q = |a: char, b: char| !(a == ' ' && b == ' ');
            lemma_rewrite_neighbours(s, p, '\n', q, 0);
            assert forall|i: int| 0 <= i && i + 1 < r.len() implies !((#[trigger] r[i]) == ' '
                && r[i + 1] == ' ') by {
                assert(q(r[i], r[i + 1]));
            }
        }
        if no_indent_space(s) {
            let q = |a: char, b: char| !(a == '\n' && b == ' ');
            assert forall|j: int|
                0 <= j < s.len() && (#[trigger] p.match_end(s, j)) is Some && p.match_end(s, j)->0
                    < s.len() implies q('\n', s[p.match_end(s, j)->0]) by {
                let e = p.match_end(s, j)->0;
                lemma_last_break(s, j + 1, j);
                assert(s[e - 1] == '\n');
            }
            lemma_rewrite_neighbours(s, p, '\n', q, 0);
            assert forall|i: int| 0 <= i && i + 1 < r.len() implies !((#[trigger] r[i]) == '\n'
                && r[i + 1] == ' ') by {
                assert(q(r[i], r[i + 1]));
            }
        }
    }
}

/// The white space pass leaves text without a blank line and with no
/// white space at either end, whatever it is given.
pub proof fn lemma_collapsed_is_settled(s: Seq<char>)
    ensures
        no_blank_line(collapsed(s)),
        is_trimmed(collapsed(s)),
{
    let r = breaks_collapsed(s);
    lemma_collapsed_breaks(s);
    lemma_trimmed(r);
    if trim_start(r) < trim_end(r) {
        lemma_stretch_stays_tidy(r, trim_start(r), trim_end(r));
    }
}

/// The white space pass keeps text free of double spaces and of spaces
/// behind line breaks.
pub proof fn lemma_collapsed_keeps_spaces_tidy(s: Seq<char>)
    ensures
        no_double_space(s) ==> no_double_space(collapsed(s)),
        no_indent_space(s) ==> no_indent_space(collapsed(s)),
{
    let r = breaks_collapsed(s);
    lemma_collapse_keeps_spaces_tidy(s);
    lemma_trimmed(r);
    if trim_start(r) < trim_end(r) {
        lemma_stretch_stays_tidy(r, trim_start(r), trim_end(r));
    }
}

/// The white space pass changes nothing in tidy text.
pub proof fn lemma_collapse_tidy(s: Seq<char>)
    requires
        no_blank_line(s),
        is_trimmed(s),
    ensures
        collapsed(s) == s,
{
    lemma_no_blank_line_leaves_breaks_unmatched(s);
    lemma_rewrite_absent(s, Pattern::LineBreaks, seq!['\n']);
    lemma_trim_trimmed(s);
}

} // verus!
