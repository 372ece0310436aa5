//! What the pipeline promises of its result, and what it does to text in
//! which the markup passes find nothing.
//!
//! Normalizing clean text only tidies its white space, and normalizing it a
//! second time changes nothing. Text that holds none of `<`, `&` and `{` is
//! clean, whatever else it holds.

use vstd::prelude::*;
use crate::clean::{is_clean, lemma_thinned_stays_clean, tag_free};
use crate::entities::{
    decoded, entity_at, lemma_decode_entity_free, lemma_entity_needs_ampersand,
};
use crate::markup::{
    headings_broken, marker_table, markers_placed, markers_placed_from, normalized,
    paragraphs_broken, paragraphs_broken_from, spaces_tidied, structured, without_style_rules,
};
use crate::pattern::{
    lemma_rewrite_absent, lemma_rewrite_keeps, lemma_rewrite_neighbours, lemma_rewrite_unmatched,
    rewritten, rewritten_from, Pattern,
};
use crate::text::{
    find_char, lemma_find_char, lemma_replace_unmatched, lemma_run_end, matches_at, replaced,
    run_end, CharClass,
};
use crate::thin::{lemma_squeezing_thins, lemma_stretch_thins, origins_from};
use crate::tidy::{
    is_tidy, is_trimmed, lemma_collapse_tidy, lemma_collapsed_is_settled,
    lemma_collapsed_keeps_spaces_tidy, lemma_stretch_stays_tidy, lemma_trimmed, no_blank_line,
    no_double_space, no_indent_space,
};
use crate::whitespace::{breaks_collapsed, collapsed, trim_end, trim_start};

verus! {

/// Whether `c` is none of the characters that markup starts with.
pub open spec fn is_plain(c: char) -> bool {
    c != '<' && c != '&' && c != '{'
}

/// Whether `s` holds no character that markup starts with.
pub open spec fn markup_free(s: Seq<char>) -> bool {
    forall|k: int| 0 <= k < s.len() ==> is_plain(#[trigger] s[k])
}

/// Text that holds none of the characters that markup starts with is
/// clean.
pub proof fn lemma_markup_free_is_clean(s: Seq<char>)
    requires
        markup_free(s),
    ensures
        is_clean(s),
{
    assert forall|i: int, j: int| 0 <= i < j < s.len() implies !(#[trigger] s[i] == '<'
        && #[trigger] s[j] == '>') by {
        assert(is_plain(s[i]));
    }
    assert forall|i: int| 0 <= i < s.len() implies (#[trigger] entity_at(s, i))
        is None by {
        assert(is_plain(s[i]));
        lemma_entity_needs_ampersand(s, i);
    }
    assert forall|i: int| 0 <= i < s.len() implies (#[trigger] Pattern::StyleRule.match_end(s, i))
        is None by {
        let j = run_end(s, CharClass::Selector, i);
        lemma_run_end(s, CharClass::Selector, i);
        lemma_run_end(s, CharClass::Whitespace, j);
        let k = run_end(s, CharClass::Whitespace, j);
        if k < s.len() {
            assert(is_plain(s[k]));
        }
    }
}

/// The result of normalizing holds no blank line, and neither of its ends
/// is white space.
pub proof fn lemma_normalized_is_settled(raw: Seq<char>)
    ensures
        no_blank_line(normalized(raw)),
        is_trimmed(normalized(raw)),
{
    lemma_collapsed_is_settled(decoded(structured(raw)));
}

/// Dropping the tags from index `i` on leaves no tag.
proof fn lemma_tags_dropped_from(s: Seq<char>, i: int)
    requires
        0 <= i <= s.len(),
    ensures
        tag_free(rewritten_from(s, Pattern::Tag, Seq::empty(), i)),
    decreases s.len() - i,
{
    let p = Pattern::Tag;
    let none = Seq::<char>::empty();
    let r = rewritten_from(s, p, none, i);
    if i < s.len() {
        p.lemma_match_bounds(s, i);
        match p.match_end(s, i) {
            Some(e) => {
                lemma_tags_dropped_from(s, e);
                assert(none + rewritten_from(s, p, none, e) =~= rewritten_from(s, p, none, e));
            },
            None => {
                let rest = rewritten_from(s, p, none, i + 1);
                lemma_tags_dropped_from(s, i + 1);
                assert(r == seq![s[i]] + rest);
                if s[i] == '<' {
                    lemma_find_char(s, '>', i + 1);
                    lemma_rewrite_keeps(s, p, none, |c: char| c != '>', i + 1);
                }
                assert forall|a: int, b: int| 0 <= a < b < r.len() implies !(#[trigger] r[a] == '<'
                    && #[trigger] r[b] == '>') by {
                    assert(r[b] == rest[b - 1]);
                    if a > 0 {
                        assert(r[a] == rest[a - 1]);
                    }
                }
            },
        }
    }
}

/// The text that goes into the decoding of character references holds no
/// tag: a `<` or `>` in the result of normalizing comes from a `<` that no
/// `>` followed, from a `>` that no `<` preceded, or from a character
/// reference.
pub proof fn lemma_structured_is_tag_free(raw: Seq<char>)
    ensures
        tag_free(structured(raw)),
{
    lemma_tags_dropped_from(
        markers_placed(paragraphs_broken(spaces_tidied(headings_broken(without_style_rules(raw))))),
        0,
    );
}

/// No tag, heading or paragraph is found in text that holds no tag.
pub proof fn lemma_tag_free_matches_nothing(s: Seq<char>)
    requires
        tag_free(s),
    ensures
        Pattern::HeadingOpen.absent(s),
        Pattern::HeadingClose.absent(s),
        Pattern::ParagraphOpen.absent(s),
        Pattern::Tag.absent(s),
{
    assert forall|i: int| 0 <= i < s.len() implies (#[trigger] Pattern::HeadingOpen.match_end(
        s,
        i,
    )) is None by {
        if i + 2 < s.len() {
            lemma_find_char(s, '>', i + 3);
            let e = find_char(s, '>', i + 3);
            if e < s.len() {
                assert(!(s[i] == '<' && s[e] == '>'));
            }
        }
    }
    assert forall|i: int| 0 <= i < s.len() implies (#[trigger] Pattern::HeadingClose.match_end(
        s,
        i,
    )) is None by {
        if i + 4 < s.len() {
            assert(!(s[i] == '<' && s[i + 4] == '>'));
        }
    }
    assert forall|i: int| 0 <= i < s.len() implies (#[trigger] Pattern::ParagraphOpen.match_end(
        s,
        i,
    )) is None by {
        if i + 1 < s.len() {
            lemma_find_char(s, '>', i + 2);
            let e = find_char(s, '>', i + 2);
            if e < s.len() {
                assert(!(s[i] == '<' && s[e] == '>'));
            }
        }
    }
    assert forall|i: int| 0 <= i < s.len() implies (#[trigger] Pattern::Tag.match_end(s, i))
        is None by {
        lemma_find_char(s, '>', i + 1);
        let e = find_char(s, '>', i + 1);
        if e < s.len() {
            assert(!(s[i] == '<' && s[e] == '>'));
        }
    }
}

/// Where no paragraph is opened from index `i` on, breaking paragraphs
/// changes nothing.
pub proof fn lemma_paragraphs_unmatched(s: Seq<char>, i: int, first: bool)
    requires
        0 <= i <= s.len(),
        Pattern::ParagraphOpen.absent_from(s, i),
    ensures
        paragraphs_broken_from(s, i, first) == s.skip(i),
    decreases s.len() - i,
{
    if i < s.len() {
        assert(Pattern::ParagraphOpen.match_end(s, i) is None);
        lemma_paragraphs_unmatched(s, i + 1, first);
        assert(seq![s[i]] + s.skip(i + 1) =~= s.skip(i));
    } else {
        assert(s.skip(i) =~= Seq::<char>::empty());
    }
}

/// Every tag of [`marker_table`] starts with `<` and ends with `>`.
proof fn lemma_marker_shape(k: int)
    requires
        0 <= k < marker_table().len(),
    ensures
        marker_table()[k].0.len() >= 2,
        marker_table()[k].0[0] == '<',
        marker_table()[k].0[marker_table()[k].0.len() - 1] == '>',
{
    reveal_strlit("</p>");
    reveal_strlit("<br>");
    reveal_strlit("<br/>");
    reveal_strlit("<br />");
    reveal_strlit("<blockquote>");
    reveal_strlit("</blockquote>");
    reveal_strlit("<em>");
    reveal_strlit("</em>");
    reveal_strlit("<i>");
    reveal_strlit("</i>");
    reveal_strlit("<strong>");
    reveal_strlit("</strong>");
    reveal_strlit("<b>");
    reveal_strlit("</b>");
}

/// Placing markers from entry `k` of the table on changes nothing in text
/// that holds no tag.
pub proof fn lemma_markers_unmatched(s: Seq<char>, k: int)
    requires
        tag_free(s),
        0 <= k,
    ensures
        markers_placed_from(s, k) == s,
    decreases marker_table().len() - k,
{
    if k < marker_table().len() {
        let pat = marker_table()[k].0;
        let rep = marker_table()[k].1;
        let len = pat.len() as int;
        lemma_marker_shape(k);
        assert forall|i: int| 0 <= i < s.len() implies !matches_at(s, i, pat) by {
            if matches_at(s, i, pat) {
                let found = s.subrange(i, i + len);
                assert(found[0] == s[i]);
                assert(found[len - 1] == s[i + len - 1]);
                assert(!(s[i] == '<' && s[i + len - 1] == '>'));
            }
        }
        lemma_replace_unmatched(s, pat, rep, 0);
        assert(s.skip(0) =~= s);
        assert(replaced(s, pat, rep) == s);
        lemma_markers_unmatched(s, k + 1);
    }
}

/// Dropping the spaces at the start of the text drops the run of spaces
/// that the text starts with, and nothing else.
proof fn lemma_leading_spaces_dropped(s: Seq<char>)
    ensures
        rewritten(s, Pattern::LeadingSpaces, Seq::empty()) == s.skip(
            run_end(s, CharClass::Space, 0),
        ),
        0 <= run_end(s, CharClass::Space, 0) <= s.len(),
{
    let p = Pattern::LeadingSpaces;
    let none = Seq::<char>::empty();
    lemma_run_end(s, CharClass::Space, 0);
    if s.len() > 0 && s[0] == ' ' {
        let e = run_end(s, CharClass::Space, 0);
        p.lemma_match_bounds(s, 0);
        assert(p.absent_from(s, e));
        lemma_rewrite_unmatched(s, p, none, e);
        assert(none + s.skip(e) =~= s.skip(e));
    } else {
        assert(p.absent(s));
        lemma_rewrite_absent(s, p, none);
        assert(s.skip(0) =~= s);
    }
}

/// After the spaces are tidied, no two spaces stand side by side and no
/// space follows a line break, whatever the text was.
pub proof fn lemma_spaces_tidied(s: Seq<char>)
    ensures
        no_double_space(spaces_tidied(s)),
        no_indent_space(spaces_tidied(s)),
{
    let single = |a: char, b: char| !(a == ' ' && b == ' ');
    let flush = |a: char, b: char| !(a == '\n' && b == ' ');
    let none = Seq::<char>::empty();
    let y1 = rewritten(s, Pattern::Spaces, seq![' ']);
    let y2 = rewritten(y1, Pattern::LeadingSpaces, none);
    let y3 = rewritten(y2, Pattern::IndentSpaces, seq!['\n']);
    assert(spaces_tidied(s) == y3);

    if s.len() > 0 {
        let p = Pattern::Spaces;
        assert forall|j: int|
            0 <= j < s.len() && (#[trigger] p.match_end(s, j)) is Some && p.match_end(s, j)->0
                < s.len() implies single(' ', s[p.match_end(s, j)->0]) by {
            lemma_run_end(s, CharClass::Space, j);
        }
        lemma_rewrite_neighbours(s, p, ' ', single, 0);
    }
    assert(no_double_space(y1)) by {
        assert forall|i: int| 0 <= i && i + 1 < y1.len() implies !((#[trigger] y1[i]) == ' '
            && y1[i + 1] == ' ') by {
            assert(single(y1[i], y1[i + 1]));
        }
    }
    lemma_leading_spaces_dropped(y1);
    let m = run_end(y1, CharClass::Space, 0);
    assert(y1.skip(m) =~= y1.subrange(m, y1.len() as int));
    lemma_stretch_stays_tidy(y1, m, y1.len() as int);
    assert(no_double_space(y2));

    if y2.len() > 0 {
        let p = Pattern::IndentSpaces;
        assert forall|j: int|
            0 <= j < y2.len() && (#[trigger] p.match_end(y2, j)) is Some && p.match_end(y2, j)->0
                < y2.len() implies flush('\n', y2[p.match_end(y2, j)->0]) by {
            lemma_run_end(y2, CharClass::Space, j + 1);
        }
        lemma_rewrite_neighbours(y2, p, '\n', flush, 0);
        lemma_rewrite_neighbours(y2, p, '\n', single, 0);
    }
    assert forall|i: int| 0 <= i && i + 1 < y3.len() implies !((#[trigger] y3[i]) == ' ' && y3[i
        + 1] == ' ') by {
        assert(single(y3[i], y3[i + 1]));
    }
    assert forall|i: int| 0 <= i && i + 1 < y3.len() implies !((#[trigger] y3[i]) == '\n' && y3[i
        + 1] == ' ') by {
        assert(flush(y3[i], y3[i + 1]));
    }
}

/// Tidying the spaces of clean text leaves it clean.
proof fn lemma_spaces_tidied_stays_clean(s: Seq<char>)
    requires
        is_clean(s),
    ensures
        is_clean(spaces_tidied(s)),
{
    let none = Seq::<char>::empty();
    let y1 = rewritten(s, Pattern::Spaces, seq![' ']);
    let y2 = rewritten(y1, Pattern::LeadingSpaces, none);
    lemma_squeezing_thins(s, Pattern::Spaces);
    lemma_thinned_stays_clean(s, y1, origins_from(s, Pattern::Spaces, 0));
    lemma_leading_spaces_dropped(y1);
    let m = run_end(y1, CharClass::Space, 0);
    let n = y1.len() as int;
    assert(y1.skip(m) =~= y1.subrange(m, n));
    lemma_stretch_thins(y1, m, n);
    lemma_thinned_stays_clean(y1, y2, Seq::new((n - m) as nat, |k: int| m + k));
    lemma_squeezing_thins(y2, Pattern::IndentSpaces);
    lemma_thinned_stays_clean(
        y2,
        rewritten(y2, Pattern::IndentSpaces, seq!['\n']),
        origins_from(y2, Pattern::IndentSpaces, 0),
    );
}

/// The white space pass leaves clean text clean.
proof fn lemma_collapsed_stays_clean(s: Seq<char>)
    requires
        is_clean(s),
    ensures
        is_clean(collapsed(s)),
{
    let r = breaks_collapsed(s);
    lemma_squeezing_thins(s, Pattern::LineBreaks);
    lemma_thinned_stays_clean(s, r, origins_from(s, Pattern::LineBreaks, 0));
    lemma_trimmed(r);
    let a = trim_start(r);
    let b = trim_end(r);
    if a < b {
        lemma_stretch_thins(r, a, b);
        lemma_thinned_stays_clean(r, collapsed(s), Seq::new((b - a) as nat, |k: int| a + k));
    }
}

/// In clean text, normalizing tidies the spaces and collapses the line
/// breaks, and does nothing else; what comes out is clean and tidy.
pub proof fn lemma_clean_text_is_only_tidied(x: Seq<char>)
    requires
        is_clean(x),
    ensures
        normalized(x) == collapsed(spaces_tidied(x)),
        is_clean(normalized(x)),
        is_tidy(normalized(x)),
{
    let none = Seq::<char>::empty();
    lemma_tag_free_matches_nothing(x);
    lemma_rewrite_absent(x, Pattern::StyleRule, none);
    lemma_rewrite_absent(x, Pattern::HeadingOpen, seq!['\n']);
    lemma_rewrite_absent(x, Pattern::HeadingClose, seq!['\n']);
    assert(headings_broken(without_style_rules(x)) == x);
    let t = spaces_tidied(x);
    lemma_spaces_tidied_stays_clean(x);
    lemma_tag_free_matches_nothing(t);
    lemma_paragraphs_unmatched(t, 0, true);
    assert(t.skip(0) =~= t);
    assert(paragraphs_broken(t) == t);
    lemma_markers_unmatched(t, 0);
    lemma_rewrite_absent(t, Pattern::Tag, none);
    assert(structured(x) == t);
    lemma_decode_entity_free(t);
    assert(normalized(x) == collapsed(t));
    lemma_collapsed_stays_clean(t);
    lemma_spaces_tidied(x);
    lemma_collapsed_keeps_spaces_tidy(t);
    lemma_collapsed_is_settled(t);
}

/// Tidying the spaces of tidy text changes nothing.
pub proof fn lemma_tidy_spaces_stay(s: Seq<char>)
    requires
        no_double_space(s),
        no_indent_space(s),
        is_trimmed(s),
    ensures
        spaces_tidied(s) == s,
{
    assert(Pattern::Spaces.absent(s));
    assert(Pattern::LeadingSpaces.absent(s));
    assert(Pattern::IndentSpaces.absent(s));
    lemma_rewrite_absent(s, Pattern::Spaces, seq![' ']);
    lemma_rewrite_absent(s, Pattern::LeadingSpaces, Seq::empty());
    lemma_rewrite_absent(s, Pattern::IndentSpaces, seq!['\n']);
}

/// Normalizing returns clean and tidy text as it is.
pub proof fn lemma_tidy_clean_text_is_unchanged(x: Seq<char>)
    requires
        is_clean(x),
        is_tidy(x),
    ensures
        normalized(x) == x,
{
    lemma_clean_text_is_only_tidied(x);
    lemma_tidy_spaces_stay(x);
    lemma_collapse_tidy(x);
}

/// Normalizing clean text a second time changes nothing.
pub proof fn lemma_normalizing_clean_text_twice(x: Seq<char>)
    requires
        is_clean(x),
    ensures
        normalized(normalized(x)) == normalized(x),
{
    lemma_clean_text_is_only_tidied(x);
    lemma_tidy_clean_text_is_unchanged(normalized(x));
}

} // verus!
