//! What normalizing makes of a run of paragraphs.
//!
//! A run of paragraphs is markup of the form `<p>one</p><p>two</p>...`,
//! where the text of each paragraph is free of markup and tidy. Its
//! normalized text is the paragraphs' texts, each but the first on a line
//! of its own behind four spaces.

use vstd::prelude::*;
use crate::entities::lemma_decode_plain;
use crate::markup::{
    headings_broken, marker_table, markers_placed, markers_placed_from, normalized,
    paragraph_separator, paragraphs_broken, paragraphs_broken_from, spaces_tidied, structured,
    without_style_rules,
};
use crate::pattern::{
    last_break, lemma_rewrite_absent, lemma_rewrite_stretch, lemma_rewrite_suffix, rewritten,
    rewritten_from, Pattern,
};
use crate::plain::{
    is_plain, lemma_clean_text_is_only_tidied, lemma_markers_unmatched, lemma_markup_free_is_clean,
    lemma_tag_free_matches_nothing, lemma_tidy_clean_text_is_unchanged, markup_free,
};
use crate::text::{
    find_char, is_whitespace, lemma_replace_stretch, lemma_replace_suffix, lemma_run_end,
    matches_at, replaced, replaced_from, run_end, CharClass,
};
use crate::tidy::{
    break_ahead, is_tidy, lemma_break_found, lemma_last_break,
    lemma_no_blank_line_leaves_breaks_unmatched, lemma_trim_trimmed, no_double_space,
    no_indent_space,
};
use crate::whitespace::{breaks_collapsed, trim_end, trim_start, trimmed};

verus! {

/// The tag that opens a paragraph.
pub open spec fn open_tag() -> Seq<char> {
    seq!['<', 'p', '>']
}

/// The tag that closes a paragraph.
pub open spec fn close_tag() -> Seq<char> {
    seq!['<', '/', 'p', '>']
}

/// Whether `t` can be the text of a paragraph: not empty, free of markup,
/// and tidy.
pub open spec fn is_paragraph_text(t: Seq<char>) -> bool {
    t.len() > 0 && markup_free(t) && is_tidy(t)
}

/// Whether each of `ps` can be the text of a paragraph.
pub open spec fn are_paragraph_texts(ps: Seq<Seq<char>>) -> bool {
    forall|k: int| 0 <= k < ps.len() ==> is_paragraph_text(#[trigger] ps[k])
}

/// The markup of one paragraph with the text `t`.
pub open spec fn paragraph_markup(t: Seq<char>) -> Seq<char> {
    open_tag() + t + close_tag()
}

/// The markup of the paragraphs with the texts `ps`, one after the other.
pub open spec fn paragraphs_markup(ps: Seq<Seq<char>>) -> Seq<char>
    decreases ps.len(),
{
    if ps.len() == 0 {
        Seq::empty()
    } else {
        paragraph_markup(ps[0]) + paragraphs_markup(ps.drop_first())
    }
}

/// The texts of all of `ps` but the first, each behind a line break and
/// four spaces.
pub open spec fn later_paragraphs(ps: Seq<Seq<char>>) -> Seq<char>
    decreases ps.len(),
{
    if ps.len() <= 1 {
        Seq::empty()
    } else {
        paragraph_separator(false) + ps[1] + later_paragraphs(ps.drop_first())
    }
}

/// The text of the paragraphs `ps`: the first as it is, each other on a
/// line of its own behind four spaces.
pub open spec fn paragraphs_text(ps: Seq<Seq<char>>) -> Seq<char> {
    if ps.len() == 0 {
        Seq::empty()
    } else {
        ps[0] + later_paragraphs(ps)
    }
}

/// The run of paragraphs after the opening tags have become separators.
spec fn opened(ps: Seq<Seq<char>>, first: bool) -> Seq<char>
    decreases ps.len(),
{
    if ps.len() == 0 {
        Seq::empty()
    } else {
        paragraph_separator(first) + ps[0] + close_tag() + opened(ps.drop_first(), false)
    }
}

/// The run of paragraphs after the closing tags have become line breaks
/// too.
spec fn closed(ps: Seq<Seq<char>>, first: bool) -> Seq<char>
    decreases ps.len(),
{
    if ps.len() == 0 {
        Seq::empty()
    } else {
        paragraph_separator(first) + ps[0] + seq!['\n'] + closed(ps.drop_first(), false)
    }
}

/// What follows the text of the first of `ps` once the tags are gone.
spec fn ending(ps: Seq<Seq<char>>) -> Seq<char> {
    seq!['\n'] + closed(ps.drop_first(), false)
}

/// Markup in which no style rule, no heading and no run of spaces can be
/// found: it holds no `{`, each `<` starts `<p` or `</p`, no two spaces
/// stand side by side and no space follows a line break.
spec fn inert(x: Seq<char>) -> bool {
    &&& forall|k: int| 0 <= k < x.len() ==> (#[trigger] x[k]) != '{'
    &&& forall|k: int|
        0 <= k < x.len() && (#[trigger] x[k]) == '<' ==> k + 1 < x.len() && (x[k + 1] == 'p' || (
        x[k + 1] == '/' && k + 2 < x.len() && x[k + 2] == 'p'))
    &&& no_double_space(x)
    &&& no_indent_space(x)
}

/// The first of some texts of paragraphs is one, and the rest are.
proof fn lemma_rest_are_texts(ps: Seq<Seq<char>>)
    requires
        are_paragraph_texts(ps),
        ps.len() > 0,
    ensures
        are_paragraph_texts(ps.drop_first()),
        is_paragraph_text(ps[0]),
{
    assert forall|k: int| 0 <= k < ps.drop_first().len() implies is_paragraph_text(
        #[trigger] ps.drop_first()[k],
    ) by {
        assert(ps.drop_first()[k] == ps[k + 1]);
    }
}

/// Inert markup followed by inert markup that does not start with a space
/// is inert.
#[verifier::rlimit(40)]
proof fn lemma_inert_joined(u: Seq<char>, v: Seq<char>)
    requires
        inert(u),
        inert(v),
        v.len() > 0 ==> v[0] != ' ',
    ensures
        inert(u + v),
{
    let s = u + v;
    let n = u.len() as int;
    assert forall|k: int| 0 <= k < s.len() implies (#[trigger] s[k]) != '{' by {
        if k < n {
            assert(s[k] == u[k]);
        } else {
            assert(s[k] == v[k - n]);
        }
    }
    assert forall|k: int| 0 <= k < s.len() && (#[trigger] s[k]) == '<' implies k + 1 < s.len() && (
    s[k + 1] == 'p' || (s[k + 1] == '/' && k + 2 < s.len() && s[k + 2] == 'p')) by {
        if k < n {
            assert(s[k] == u[k]);
            assert(s[k + 1] == u[k + 1]);
            if u[k + 1] == '/' {
                assert(s[k + 2] == u[k + 2]);
            }
        } else {
            assert(s[k] == v[k - n]);
            assert(s[k + 1] == v[k - n + 1]);
            if v[k - n + 1] == '/' {
                assert(s[k + 2] == v[k - n + 2]);
            }
        }
    }
    assert forall|k: int| 0 <= k && k + 1 < s.len() implies !((#[trigger] s[k]) == ' ' && s[k + 1]
        == ' ') && !(s[k] == '\n' && s[k + 1] == ' ') by {
        if k + 1 < n {
            assert(s[k] == u[k] && s[k + 1] == u[k + 1]);
        } else if k >= n {
            assert(s[k] == v[k - n] && s[k + 1] == v[k - n + 1]);
        } else {
            assert(s[k + 1] == v[0]);
        }
    }
}

/// The text of a paragraph is inert and does not start with a space.
proof fn lemma_text_inert(t: Seq<char>)
    requires
        is_paragraph_text(t),
    ensures
        inert(t),
        t[0] != ' ',
{
    assert forall|k: int| 0 <= k < t.len() implies (#[trigger] t[k]) != '{' && t[k] != '<' by {
        assert(is_plain(t[k]));
    }
}

/// The markup of a run of paragraphs is inert and starts with `<`.
proof fn lemma_markup_inert(ps: Seq<Seq<char>>)
    requires
        are_paragraph_texts(ps),
    ensures
        inert(paragraphs_markup(ps)),
        ps.len() > 0 ==> paragraphs_markup(ps).len() > 0 && paragraphs_markup(ps)[0] == '<',
    decreases ps.len(),
{
    if ps.len() > 0 {
        let t = ps[0];
        lemma_rest_are_texts(ps);
        lemma_markup_inert(ps.drop_first());
        lemma_text_inert(t);
        lemma_inert_joined(open_tag(), t);
        lemma_inert_joined(open_tag() + t, close_tag());
        lemma_inert_joined(paragraph_markup(t), paragraphs_markup(ps.drop_first()));
    }
}

/// The passes before the paragraph pass change nothing in inert markup
/// that does not start with a space.
proof fn lemma_inert_is_untouched(x: Seq<char>)
    requires
        inert(x),
        x.len() > 0 ==> x[0] != ' ',
    ensures
        without_style_rules(x) == x,
        headings_broken(x) == x,
        spaces_tidied(x) == x,
{
    assert forall|i: int| 0 <= i < x.len() implies (#[trigger] Pattern::StyleRule.match_end(x, i))
        is None by {
        let j = run_end(x, CharClass::Selector, i);
        lemma_run_end(x, CharClass::Selector, i);
        lemma_run_end(x, CharClass::Whitespace, j);
    }
    assert(Pattern::HeadingOpen.absent(x));
    assert(Pattern::HeadingClose.absent(x));
    assert(Pattern::Spaces.absent(x));
    assert(Pattern::LeadingSpaces.absent(x));
    assert(Pattern::IndentSpaces.absent(x));
    lemma_rewrite_absent(x, Pattern::StyleRule, Seq::empty());
    lemma_rewrite_absent(x, Pattern::HeadingOpen, seq!['\n']);
    lemma_rewrite_absent(x, Pattern::HeadingClose, seq!['\n']);
    lemma_rewrite_absent(x, Pattern::Spaces, seq![' ']);
    lemma_rewrite_absent(x, Pattern::LeadingSpaces, Seq::empty());
    lemma_rewrite_absent(x, Pattern::IndentSpaces, seq!['\n']);
}

/// A stretch in which no paragraph is opened is kept as it is.
proof fn lemma_paragraphs_stretch(s: Seq<char>, i: int, j: int, first: bool)
    requires
        0 <= i <= j <= s.len(),
        forall|k: int| i <= k < j ==> (#[trigger] Pattern::ParagraphOpen.match_end(s, k)) is None,
    ensures
        paragraphs_broken_from(s, i, first) == s.subrange(i, j) + paragraphs_broken_from(
            s,
            j,
            first,
        ),
    decreases j - i,
{
    let rest = paragraphs_broken_from(s, j, first);
    if i < j {
        assert(Pattern::ParagraphOpen.match_end(s, i) is None);
        lemma_paragraphs_stretch(s, i + 1, j, first);
        assert(seq![s[i]] + (s.subrange(i + 1, j) + rest) =~= s.subrange(i, j) + rest);
    } else {
        assert(s.subrange(i, j) + rest =~= rest);
    }
}

/// Breaking paragraphs behind a prefix does not depend on the prefix.
proof fn lemma_paragraphs_suffix(prefix: Seq<char>, s: Seq<char>, i: int, first: bool)
    requires
        0 <= i <= s.len(),
    ensures
        paragraphs_broken_from(prefix + s, prefix.len() + i, first) == paragraphs_broken_from(
            s,
            i,
            first,
        ),
    decreases s.len() - i,
{
    if i < s.len() {
        Pattern::ParagraphOpen.lemma_match_shift(prefix, s, i);
        Pattern::ParagraphOpen.lemma_match_bounds(s, i);
        assert((prefix + s)[prefix.len() + i] == s[i]);
        match Pattern::ParagraphOpen.match_end(s, i) {
            Some(e) => {
                lemma_paragraphs_suffix(prefix, s, e, false);
            },
            None => {
                lemma_paragraphs_suffix(prefix, s, i + 1, first);
            },
        }
    }
}

/// The paragraph pass turns the opening tags of a run of paragraphs into
/// separators.
#[verifier::rlimit(40)]
proof fn lemma_opened(ps: Seq<Seq<char>>, first: bool)
    requires
        are_paragraph_texts(ps),
    ensures
        paragraphs_broken_from(paragraphs_markup(ps), 0, first) == opened(ps, first),
    decreases ps.len(),
{
    if ps.len() > 0 {
        let t = ps[0];
        let later = ps.drop_first();
        let block = paragraph_markup(t);
        let rest = paragraphs_markup(later);
        let x = block + rest;
        let n = block.len() as int;
        let m = t.len() as int;
        lemma_rest_are_texts(ps);
        assert(n == m + 7);
        assert(x[0] == '<' && x[1] == 'p' && x[2] == '>');
        assert forall|k: int| 0 <= k < m implies x[3 + k] == t[k] by {}
        assert(x[3 + m] == '<' && x[4 + m] == '/' && x[5 + m] == 'p' && x[6 + m] == '>');
        assert(find_char(x, '>', 2) == 2);
        assert(Pattern::ParagraphOpen.match_end(x, 0) == Some(3int));
        assert forall|k: int| 3 <= k < n implies (#[trigger] Pattern::ParagraphOpen.match_end(
            x,
            k,
        )) is None by {
            if k < 3 + m {
                assert(x[3 + (k - 3)] == t[k - 3]);
                assert(is_plain(t[k - 3]));
            }
        }
        lemma_paragraphs_stretch(x, 3, n, false);
        lemma_paragraphs_suffix(block, rest, 0, false);
        lemma_opened(later, false);
        assert(x.subrange(3, n) =~= t + close_tag());
        assert(paragraphs_broken_from(x, 0, first) == paragraph_separator(first)
            + paragraphs_broken_from(x, 3, false));
        assert(paragraph_separator(first) + ((t + close_tag()) + opened(later, false)) =~= opened(
            ps,
            first,
        ));
    }
}

/// Replacing the closing tags of the opened run by line breaks gives the
/// closed run.
#[verifier::rlimit(40)]
proof fn lemma_closed(ps: Seq<Seq<char>>, first: bool)
    requires
        are_paragraph_texts(ps),
    ensures
        replaced(opened(ps, first), close_tag(), seq!['\n']) == closed(ps, first),
        markup_free(closed(ps, first)),
    decreases ps.len(),
{
    let tag = close_tag();
    let line_break = seq!['\n'];
    if ps.len() > 0 {
        let sep = paragraph_separator(first);
        let t = ps[0];
        let later = ps.drop_first();
        let head = sep + t + tag;
        let rest = opened(later, false);
        let y = head + rest;
        let m = (sep.len() + t.len()) as int;
        lemma_rest_are_texts(ps);
        lemma_closed(later, false);
        assert(y =~= opened(ps, first));
        assert forall|k: int| 0 <= k < m implies is_plain(#[trigger] y[k]) by {
            if k < sep.len() {
                assert(y[k] == sep[k]);
            } else {
                assert(y[k] == t[k - sep.len()]);
                assert(is_plain(t[k - sep.len()]));
            }
        }
        assert forall|k: int| 0 <= k < m implies !matches_at(y, k, tag) by {
            if matches_at(y, k, tag) {
                assert(y.subrange(k, k + tag.len())[0] == y[k]);
                assert(is_plain(y[k]));
            }
        }
        lemma_replace_stretch(y, tag, line_break, 0, m);
        assert(y.subrange(m, m + 4) =~= tag);
        assert(matches_at(y, m, tag));
        assert(replaced_from(y, tag, line_break, m) == line_break + replaced_from(
            y,
            tag,
            line_break,
            m + 4,
        ));
        lemma_replace_suffix(head, rest, tag, line_break, 0);
        assert(y.subrange(0, m) =~= sep + t);
        let done = closed(later, false);
        assert((sep + t) + (line_break + done) =~= closed(ps, first));
        let z = closed(ps, first);
        assert forall|k: int| 0 <= k < z.len() implies is_plain(#[trigger] z[k]) by {
            if k < sep.len() {
                assert(z[k] == sep[k]);
            } else if k < m {
                assert(z[k] == t[k - sep.len()]);
                assert(is_plain(t[k - sep.len()]));
            } else if k == m {
                assert(z[k] == '\n');
            } else {
                assert(z[k] == done[k - m - 1]);
                assert(is_plain(done[k - m - 1]));
            }
        }
    }
}

/// No run of line breaks starts inside a paragraph's text, wherever the
/// text stands.
proof fn lemma_no_break_inside(s: Seq<char>, at: int, t: Seq<char>, k: int)
    requires
        is_paragraph_text(t),
        0 <= at,
        at + t.len() <= s.len(),
        s.subrange(at, at + t.len()) == t,
        at <= k < at + t.len(),
    ensures
        Pattern::LineBreaks.match_end(s, k) is None,
{
    let sub = s.subrange(at, at + t.len());
    assert forall|i: int| 0 <= i < t.len() implies t[i] == s[at + i] by {
        assert(sub[i] == s[at + i]);
    }
    if s[k] == '\n' {
        lemma_last_break(s, k + 1, k);
        if break_ahead(s, k + 1) {
            let j = lemma_break_found(s, k + 1);
            let m = at + t.len() - 1;
            assert(t[t.len() - 1] == s[m]);
            assert(t[k - at] == s[k]);
            if j > m {
                assert(is_whitespace(s[m]));
                assert(false);
            }
            assert(t[j - at] == s[j]);
            let w = choose|w: int| k - at < w < j - at && !is_whitespace(#[trigger] t[w]);
            assert(t[w] == s[at + w]);
            assert(is_whitespace(s[at + w]));
            assert(false);
        }
    }
}

/// What is left of the run behind the first paragraph's text once the
/// line breaks are collapsed.
spec fn ended(ps: Seq<Seq<char>>) -> Seq<char>
    decreases ps.len(),
{
    if ps.len() <= 1 {
        seq!['\n']
    } else {
        seq!['\n', ' ', ' ', ' ', ' '] + ps[1] + ended(ps.drop_first())
    }
}

/// Collapsing the line breaks of `"\n\n    " + t + next`, where `t` is the
/// text of a paragraph, leaves one line break and the indent before `t`
/// and goes on with `next` as if nothing had come before it.
#[verifier::rlimit(40)]
proof fn lemma_boundary_collapsed(t: Seq<char>, next: Seq<char>)
    requires
        is_paragraph_text(t),
    ensures
        rewritten(
            seq!['\n', '\n', ' ', ' ', ' ', ' '] + t + next,
            Pattern::LineBreaks,
            seq!['\n'],
        ) == seq!['\n', ' ', ' ', ' ', ' '] + t + rewritten(
            next,
            Pattern::LineBreaks,
            seq!['\n'],
        ),
{
    let p = Pattern::LineBreaks;
    let line_break = seq!['\n'];
    let head = seq!['\n', '\n', ' ', ' ', ' ', ' '] + t;
    let e = head + next;
    let m = t.len() as int;
    assert(e[0] == '\n' && e[1] == '\n' && e[2] == ' ' && e[3] == ' ' && e[4] == ' ' && e[5]
        == ' ');
    assert forall|k: int| 0 <= k < m implies e[6 + k] == t[k] by {}
    assert(e.subrange(6, 6 + m) =~= t);
    assert(e[6] == t[0]);
    assert(last_break(e, 6, 1) == 1);
    assert(last_break(e, 5, 1) == 1);
    assert(last_break(e, 4, 1) == 1);
    assert(last_break(e, 3, 1) == 1);
    assert(last_break(e, 2, 1) == 1);
    assert(last_break(e, 1, 0) == 1);
    assert(p.match_end(e, 0) == Some(2int));
    assert forall|k: int| 2 <= k < 6 + m implies (#[trigger] p.match_end(e, k)) is None by {
        if k >= 6 {
            lemma_no_break_inside(e, 6, t, k);
        }
    }
    lemma_rewrite_stretch(e, p, line_break, 2, 6 + m);
    lemma_rewrite_suffix(head, next, p, line_break, 0);
    assert(e.subrange(2, 6 + m) =~= seq![' ', ' ', ' ', ' '] + t);
    assert(rewritten(e, p, line_break) == line_break + rewritten_from(e, p, line_break, 2));
    let rest = rewritten(next, p, line_break);
    assert(line_break + ((seq![' ', ' ', ' ', ' '] + t) + rest) =~= seq![
        '\n',
        ' ',
        ' ',
        ' ',
        ' ',
    ] + t + rest);
}

/// What is left behind the first paragraph's text is the later paragraphs
/// and a line break.
proof fn lemma_ended_text(ps: Seq<Seq<char>>)
    ensures
        ended(ps) == later_paragraphs(ps) + seq!['\n'],
    decreases ps.len(),
{
    let line_break = seq!['\n'];
    if ps.len() <= 1 {
        assert(later_paragraphs(ps) + line_break =~= line_break);
    } else {
        let later = ps.drop_first();
        lemma_ended_text(later);
        assert(paragraph_separator(false) + ps[1] + (later_paragraphs(later) + line_break)
            =~= later_paragraphs(ps) + line_break);
    }
}

/// Collapsing the line breaks behind the first paragraph's text leaves the
/// later paragraphs, each behind one line break and its indent, and a line
/// break at the end.
proof fn lemma_ended(ps: Seq<Seq<char>>)
    requires
        are_paragraph_texts(ps),
        ps.len() > 0,
    ensures
        rewritten(ending(ps), Pattern::LineBreaks, seq!['\n']) == ended(ps),
    decreases ps.len(),
{
    let p = Pattern::LineBreaks;
    let line_break = seq!['\n'];
    let e = ending(ps);
    if ps.len() == 1 {
        assert(ps.drop_first().len() == 0);
        assert(e =~= line_break);
        assert(last_break(e, 1, 0) == 0);
        assert(p.match_end(e, 0) is None);
        assert(rewritten_from(e, p, line_break, 1) =~= Seq::<char>::empty());
        assert(rewritten(e, p, line_break) =~= line_break);
    } else {
        let later = ps.drop_first();
        let t = ps[1];
        lemma_rest_are_texts(ps);
        lemma_rest_are_texts(later);
        assert(later[0] == t);
        lemma_ended(later);
        let next = ending(later);
        assert(closed(later, false) == paragraph_separator(false) + t + seq!['\n'] + closed(
            later.drop_first(),
            false,
        ));
        assert(e =~= seq!['\n', '\n', ' ', ' ', ' ', ' '] + t + next);
        lemma_boundary_collapsed(t, next);
    }
}

/// Collapsing the line breaks of the closed run leaves one line break
/// before each paragraph and one behind the last.
#[verifier::rlimit(40)]
proof fn lemma_collapsed_closed(ps: Seq<Seq<char>>)
    requires
        are_paragraph_texts(ps),
        ps.len() > 0,
    ensures
        breaks_collapsed(closed(ps, true)) == seq!['\n'] + paragraphs_text(ps) + seq!['\n'],
{
    let p = Pattern::LineBreaks;
    let line_break = seq!['\n'];
    let t = ps[0];
    let m = t.len() as int;
    let z = closed(ps, true);
    let head = line_break + t;
    let e = ending(ps);
    lemma_rest_are_texts(ps);
    lemma_ended(ps);
    lemma_ended_text(ps);
    assert(z =~= head + e);
    assert(z[0] == '\n');
    assert forall|k: int| 0 <= k < m implies z[1 + k] == t[k] by {}
    assert(z.subrange(1, 1 + m) =~= t);
    assert(!is_whitespace(z[1])) by {
        assert(z[1] == t[0]);
    }
    assert(last_break(z, 1, 0) == 0);
    assert forall|k: int| 0 <= k < 1 + m implies (#[trigger] p.match_end(z, k)) is None by {
        if k >= 1 {
            lemma_no_break_inside(z, 1, t, k);
        }
    }
    lemma_rewrite_stretch(z, p, line_break, 0, 1 + m);
    lemma_rewrite_suffix(head, e, p, line_break, 0);
    assert(z.subrange(0, 1 + m) =~= head);
    assert(head + (later_paragraphs(ps) + line_break) =~= line_break + paragraphs_text(ps)
        + line_break);
}

/// The text of a run of paragraphs starts and ends with a character that
/// is not white space.
proof fn lemma_text_ends(ps: Seq<Seq<char>>)
    requires
        are_paragraph_texts(ps),
        ps.len() > 0,
    ensures
        paragraphs_text(ps).len() > 0,
        !is_whitespace(paragraphs_text(ps)[0]),
        !is_whitespace(paragraphs_text(ps).last()),
    decreases ps.len(),
{
    let t = ps[0];
    lemma_rest_are_texts(ps);
    assert(paragraphs_text(ps)[0] == t[0]);
    if ps.len() == 1 {
        assert(paragraphs_text(ps) =~= t);
    } else {
        let later = ps.drop_first();
        lemma_text_ends(later);
        assert(later[0] == ps[1]);
        let tail = paragraphs_text(later);
        assert(paragraphs_text(ps) =~= (t + paragraph_separator(false)) + tail);
        assert(paragraphs_text(ps).last() == tail.last());
    }
}

/// Trimming drops a line break before and a line break behind text whose
/// ends are not white space.
proof fn lemma_trim_wrapped(text: Seq<char>)
    requires
        text.len() > 0,
        !is_whitespace(text[0]),
        !is_whitespace(text.last()),
    ensures
        trimmed(seq!['\n'] + text + seq!['\n']) == text,
{
    let w = seq!['\n'] + text + seq!['\n'];
    let n = text.len() as int;
    assert(w[0] == '\n');
    assert(w[1] == text[0]);
    assert(run_end(w, CharClass::Whitespace, 1) == 1);
    assert(trim_start(w) == 1);
    assert(w.last() == '\n');
    let inner = w.drop_last();
    assert(inner =~= seq!['\n'] + text);
    assert(inner.last() == text.last());
    assert(trim_end(inner) == n + 1);
    assert(trim_end(w) == n + 1);
    assert(w.subrange(1, n + 1) =~= text);
}

/// Normalizing a run of paragraphs gives the paragraphs' texts, the first
/// as it is and each other on a line of its own behind four spaces: there
/// is one line break between two paragraphs and none elsewhere but inside
/// the texts.
#[verifier::rlimit(40)]
pub proof fn lemma_paragraphs_normalized(ps: Seq<Seq<char>>)
    requires
        are_paragraph_texts(ps),
    ensures
        normalized(paragraphs_markup(ps)) == paragraphs_text(ps),
{
    let x = paragraphs_markup(ps);
    if ps.len() == 0 {
        lemma_markup_free_is_clean(x);
        lemma_tidy_clean_text_is_unchanged(x);
    } else {
        let y = opened(ps, true);
        let z = closed(ps, true);
        lemma_markup_inert(ps);
        lemma_inert_is_untouched(x);
        assert(spaces_tidied(headings_broken(without_style_rules(x))) == x);
        lemma_opened(ps, true);
        assert(paragraphs_broken(x) == y);
        lemma_closed(ps, true);
        reveal_strlit("</p>");
        reveal_strlit("\n");
        assert(marker_table()[0].0 =~= close_tag());
        assert(marker_table()[0].1 =~= seq!['\n']);
        lemma_markup_free_is_clean(z);
        lemma_markers_unmatched(z, 1);
        assert(markers_placed(y) == markers_placed_from(
            replaced(y, marker_table()[0].0, marker_table()[0].1),
            1,
        ));
        assert(markers_placed(y) == z);
        lemma_tag_free_matches_nothing(z);
        lemma_rewrite_absent(z, Pattern::Tag, Seq::empty());
        assert(structured(x) == z);
        assert forall|k: int| 0 <= k < z.len() implies z[k] != '&' by {
            assert(is_plain(z[k]));
        }
        lemma_decode_plain(z);
        lemma_collapsed_closed(ps);
        lemma_text_ends(ps);
        lemma_trim_wrapped(paragraphs_text(ps));
    }
}

/// A run of `count` line breaks.
pub open spec fn line_breaks(count: nat) -> Seq<char> {
    Seq::new(count, |i: int| '\n')
}

/// The last line break of a run of line breaks that white space does not
/// follow is the last of the run.
proof fn lemma_last_of_breaks(s: Seq<char>, i: int, j: int, last: int)
    requires
        0 <= i <= j <= s.len(),
        forall|k: int| i <= k < j ==> (#[trigger] s[k]) == '\n',
        j < s.len() ==> !is_whitespace(s[j]),
    ensures
        last_break(s, i, last) == if i < j {
            j - 1
        } else {
            last
        },
    decreases j - i,
{
    if i < j {
        assert(s[i] == '\n');
        lemma_last_of_breaks(s, i + 1, j, i);
    }
}

/// Two texts of paragraphs with `count` line breaks between them.
pub open spec fn parted(before: Seq<char>, count: nat, after: Seq<char>) -> Seq<char> {
    before + line_breaks(count) + after
}

/// Where the characters of two parted texts stand.
proof fn lemma_parted_layout(before: Seq<char>, count: nat, after: Seq<char>)
    ensures
        ({
            let x = parted(before, count, after);
            let n = before.len() as int;
            let c = count as int;
            &&& x.len() == n + c + after.len()
            &&& forall|k: int| 0 <= k < n ==> (#[trigger] x[k]) == before[k]
            &&& forall|k: int| n <= k < n + c ==> (#[trigger] x[k]) == '\n'
            &&& forall|k: int| n + c <= k < x.len() ==> (#[trigger] x[k]) == after[k - n - c]
            &&& x.subrange(0, n) == before
        }),
{
    let x = parted(before, count, after);
    let gap = line_breaks(count);
    let n = before.len() as int;
    let c = count as int;
    assert forall|k: int| n <= k < n + c implies (#[trigger] x[k]) == '\n' by {
        assert(x[k] == gap[k - n]);
    }
    assert(x.subrange(0, n) =~= before);
}

/// Two parted texts are free of markup, and tidying their spaces changes
/// nothing.
#[verifier::rlimit(40)]
proof fn lemma_parted_is_plain(before: Seq<char>, count: nat, after: Seq<char>)
    requires
        is_paragraph_text(before),
        is_paragraph_text(after),
    ensures
        markup_free(parted(before, count, after)),
        spaces_tidied(parted(before, count, after)) == parted(before, count, after),
{
    let x = parted(before, count, after);
    let gap = line_breaks(count);
    let n = before.len() as int;
    let c = count as int;
    lemma_parted_layout(before, count, after);
    assert forall|k: int| 0 <= k < x.len() implies is_plain(#[trigger] x[k]) by {
        if k < n {
            assert(is_plain(before[k]));
        } else if k >= n + c {
            assert(is_plain(after[k - n - c]));
        }
    }
    lemma_text_inert(before);
    lemma_text_inert(after);
    assert(inert(gap)) by {
        assert forall|k: int| 0 <= k < gap.len() implies (#[trigger] gap[k]) == '\n' by {}
    }
    lemma_inert_joined(before, gap);
    lemma_inert_joined(before + gap, after);
    lemma_inert_is_untouched(x);
}

/// Collapsing the line breaks of two parted texts leaves one line break
/// between them.
#[verifier::rlimit(40)]
proof fn lemma_parted_collapsed(before: Seq<char>, count: nat, after: Seq<char>)
    requires
        is_paragraph_text(before),
        is_paragraph_text(after),
        count >= 1,
    ensures
        breaks_collapsed(parted(before, count, after)) == before + seq!['\n'] + after,
{
    let p = Pattern::LineBreaks;
    let line_break = seq!['\n'];
    let x = parted(before, count, after);
    let head = before + line_breaks(count);
    let n = before.len() as int;
    let c = count as int;
    lemma_parted_layout(before, count, after);
    assert forall|k: int| 0 <= k < n implies (#[trigger] p.match_end(x, k)) is None by {
        lemma_no_break_inside(x, 0, before, k);
    }
    lemma_rewrite_stretch(x, p, line_break, 0, n);
    assert(x[n + c] == after[0]);
    assert(x[n] == '\n');
    lemma_last_of_breaks(x, n + 1, n + c, n);
    p.lemma_match_bounds(x, n);
    assert(rewritten_from(x, p, line_break, n) == line_break + rewritten_from(
        x,
        p,
        line_break,
        n + c,
    ));
    lemma_rewrite_suffix(head, after, p, line_break, 0);
    lemma_no_blank_line_leaves_breaks_unmatched(after);
    lemma_rewrite_absent(after, p, line_break);
    assert(before + (line_break + after) =~= before + line_break + after);
}

/// Line breaks between two texts, however many, become one line break:
/// where `before` and `after` are texts of paragraphs and one or more line
/// breaks stand between them, the normalized text is `before`, one line
/// break, and `after`.
pub proof fn lemma_blank_lines_collapse(before: Seq<char>, count: nat, after: Seq<char>)
    requires
        is_paragraph_text(before),
        is_paragraph_text(after),
        count >= 1,
    ensures
        normalized(parted(before, count, after)) == before + seq!['\n'] + after,
{
    let x = parted(before, count, after);
    let joined = before + seq!['\n'] + after;
    lemma_parted_is_plain(before, count, after);
    lemma_markup_free_is_clean(x);
    lemma_clean_text_is_only_tidied(x);
    lemma_parted_collapsed(before, count, after);
    assert(joined[0] == before[0]);
    assert(joined.last() == after.last());
    lemma_trim_trimmed(joined);
}

/// Three paragraphs one after the other are normalized to their three
/// texts with exactly two boundaries between them, each a line break
/// followed by four spaces.
pub proof fn lemma_three_paragraphs(a: Seq<char>, b: Seq<char>, c: Seq<char>)
    requires
        is_paragraph_text(a),
        is_paragraph_text(b),
        is_paragraph_text(c),
    ensures
        normalized(paragraph_markup(a) + paragraph_markup(b) + paragraph_markup(c)) == a
            + paragraph_separator(false) + b + paragraph_separator(false) + c,
{
    let ps = seq![a, b, c];
    let two = ps.drop_first();
    let one = two.drop_first();
    assert(two =~= seq![b, c]);
    assert(one =~= seq![c]);
    let none = one.drop_first();
    assert(none =~= Seq::<Seq<char>>::empty());
    assert(one[0] == c && two[0] == b && ps[0] == a && two[1] == c && ps[1] == b);
    assert(paragraphs_markup(none) =~= Seq::<char>::empty());
    assert(paragraphs_markup(one) =~= paragraph_markup(c));
    assert(paragraphs_markup(two) =~= paragraph_markup(b) + paragraph_markup(c));
    assert(paragraphs_markup(ps) =~= paragraph_markup(a) + paragraph_markup(b) + paragraph_markup(
        c,
    ));
    assert(later_paragraphs(one) =~= Seq::<char>::empty());
    assert(later_paragraphs(two) =~= paragraph_separator(false) + c);
    assert(later_paragraphs(ps) =~= paragraph_separator(false) + b + paragraph_separator(false)
        + c);
    assert(paragraphs_text(ps) =~= a + paragraph_separator(false) + b + paragraph_separator(false)
        + c);
    lemma_paragraphs_normalized(ps);
}

} // verus!
