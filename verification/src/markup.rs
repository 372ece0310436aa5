//! From chapter markup to the intermediate text: style rules go, headings,
//! paragraphs, line breaks and block quotes become line breaks and indents,
//! emphasis becomes `_` and strong emphasis `**`, and what tags are left are
//! dropped.
//!
//! The passes run in a fixed order, each over the whole text. A paragraph's
//! first line carries no indent when it is the first paragraph of the text
//! and four spaces otherwise; the body of a block quote is indented by four
//! spaces too. Line breaks that pile up between blocks are left to the
//! white space pass that ends the pipeline.

use vstd::prelude::*;
use crate::entities::{decode_entities, decoded};
use crate::pattern::{rewrite, rewritten, Pattern};
use crate::text::{append_chars, lemma_find_char, replace_all, replaced, to_chars, to_string};
use crate::whitespace::{collapse, collapsed};

verus! {

/// `s` without its style rules.
pub open spec fn without_style_rules(s: Seq<char>) -> Seq<char> {
    rewritten(s, Pattern::StyleRule, Seq::empty())
}

/// Drops every style rule.
pub fn strip_style_rules(s: &Vec<char>) -> (out: Vec<char>)
    ensures
        out@ == without_style_rules(s@),
{
    let rep: Vec<char> = Vec::new();
    rewrite(s, Pattern::StyleRule, &rep)
}

/// `s` with a line break in place of every heading tag, opening or closing.
pub open spec fn headings_broken(s: Seq<char>) -> Seq<char> {
    rewritten(rewritten(s, Pattern::HeadingOpen, seq!['\n']), Pattern::HeadingClose, seq!['\n'])
}

/// Puts a line break in place of every heading tag.
pub fn break_headings(s: &Vec<char>) -> (out: Vec<char>)
    ensures
        out@ == headings_broken(s@),
{
    let rep: Vec<char> = vec!['\n'];
    assert(rep@ =~= seq!['\n']);
    let t = rewrite(s, Pattern::HeadingOpen, &rep);
    rewrite(&t, Pattern::HeadingClose, &rep)
}

/// `s` with every run of spaces cut down to one space, without the spaces
/// at its start and without those that follow a line break.
pub open spec fn spaces_tidied(s: Seq<char>) -> Seq<char> {
    rewritten(
        rewritten(rewritten(s, Pattern::Spaces, seq![' ']), Pattern::LeadingSpaces, Seq::empty()),
        Pattern::IndentSpaces,
        seq!['\n'],
    )
}

/// Cuts every run of spaces down to one space, then drops the spaces at the
/// start of the text and those that follow a line break.
pub fn tidy_spaces(s: &Vec<char>) -> (out: Vec<char>)
    ensures
        out@ == spaces_tidied(s@),
{
    let space: Vec<char> = vec![' '];
    let nothing: Vec<char> = Vec::new();
    let line_break: Vec<char> = vec!['\n'];
    assert(space@ =~= seq![' ']);
    assert(line_break@ =~= seq!['\n']);
    let t = rewrite(s, Pattern::Spaces, &space);
    let t = rewrite(&t, Pattern::LeadingSpaces, &nothing);
    rewrite(&t, Pattern::IndentSpaces, &line_break)
}

/// What stands in place of an opening paragraph tag: a line break alone for
/// the first paragraph, a line break and four spaces for every other.
pub open spec fn paragraph_separator(first: bool) -> Seq<char> {
    if first {
        seq!['\n']
    } else {
        seq!['\n', ' ', ' ', ' ', ' ']
    }
}

/// `s` from index `i` on with every opening paragraph tag replaced by its
/// separator; `first` says whether no paragraph was opened before `i`.
pub open spec fn paragraphs_broken_from(s: Seq<char>, i: int, first: bool) -> Seq<char>
    decreases s.len() - i,
{
    if i < 0 || i >= s.len() {
        Seq::empty()
    } else {
        match Pattern::ParagraphOpen.match_end(s, i) {
            Some(e) if i < e <= s.len() => paragraph_separator(first) + paragraphs_broken_from(
                s,
                e,
                false,
            ),
            _ => seq![s[i]] + paragraphs_broken_from(s, i + 1, first),
        }
    }
}

/// `s` with every opening paragraph tag replaced by its separator.
pub open spec fn paragraphs_broken(s: Seq<char>) -> Seq<char> {
    paragraphs_broken_from(s, 0, true)
}

/// Replaces every opening paragraph tag by its separator.
pub fn break_paragraphs(s: &Vec<char>) -> (out: Vec<char>)
    ensures
        out@ == paragraphs_broken(s@),
{
    let plain: Vec<char> = vec!['\n'];
    let indented: Vec<char> = vec!['\n', ' ', ' ', ' ', ' '];
    assert(plain@ =~= paragraph_separator(true));
    assert(indented@ =~= paragraph_separator(false));
    let mut out: Vec<char> = Vec::new();
    let mut first = true;
    let mut i: usize = 0;
    while i < s.len()
        invariant
            i <= s.len(),
            plain@ == paragraph_separator(true),
            indented@ == paragraph_separator(false),
            out@ + paragraphs_broken_from(s@, i as int, first) == paragraphs_broken(s@),
        decreases s.len() - i,
    {
        match Pattern::ParagraphOpen.find_match(s, i) {
            Some(e) => {
                proof {
                    let sep = paragraph_separator(first);
                    assert((out@ + sep) + paragraphs_broken_from(s@, e as int, false) =~= out@ + (
                    sep + paragraphs_broken_from(s@, e as int, false)));
                }
                if first {
                    append_chars(&mut out, &plain);
                } else {
                    append_chars(&mut out, &indented);
                }
                first = false;
                i = e;
            },
            None => {
                proof {
                    assert(out@.push(s@[i as int]) + paragraphs_broken_from(s@, i + 1, first)
                        =~= out@ + (seq![s@[i as int]] + paragraphs_broken_from(
                        s@,
                        i + 1,
                        first,
                    )));
                }
                out.push(s[i]);
                i += 1;
            },
        }
    }
    proof {
        assert(out@ + Seq::<char>::empty() =~= out@);
    }
    out
}

/// The tags that are replaced letter for letter, each with what stands in
/// its place: a line break for the end of a paragraph, for a line break tag
/// and for the end of a block quote; a line break and four spaces for the
/// start of a block quote; `_` around emphasis and `**` around strong
/// emphasis.
pub open spec fn marker_table() -> Seq<(Seq<char>, Seq<char>)> {
    seq![
        ("</p>"@, "\n"@),
        ("<br>"@, "\n"@),
        ("<br/>"@, "\n"@),
        ("<br />"@, "\n"@),
        ("<blockquote>"@, "\n    "@),
        ("</blockquote>"@, "\n"@),
        ("<em>"@, "_"@),
        ("</em>"@, "_"@),
        ("<i>"@, "_"@),
        ("</i>"@, "_"@),
        ("<strong>"@, "**"@),
        ("</strong>"@, "**"@),
        ("<b>"@, "**"@),
        ("</b>"@, "**"@),
    ]
}

/// `s` after the replacements of [`marker_table`] from entry `k` on, one
/// after the other.
pub open spec fn markers_placed_from(s: Seq<char>, k: int) -> Seq<char>
    decreases marker_table().len() - k,
{
    if k < 0 || k >= marker_table().len() {
        s
    } else {
        markers_placed_from(replaced(s, marker_table()[k].0, marker_table()[k].1), k + 1)
    }
}

/// `s` after all the replacements of [`marker_table`].
pub open spec fn markers_placed(s: Seq<char>) -> Seq<char> {
    markers_placed_from(s, 0)
}

fn marker_entries() -> (t: Vec<(Vec<char>, Vec<char>)>)
    ensures
        t@.len() == marker_table().len(),
        forall|k: int|
            0 <= k < t@.len() ==> (#[trigger] t@[k]).0@ == marker_table()[k].0 && t@[k].1@
                == marker_table()[k].1,
{
    let mut t: Vec<(Vec<char>, Vec<char>)> = Vec::new();
    t.push((to_chars("</p>"), to_chars("\n")));
    t.push((to_chars("<br>"), to_chars("\n")));
    t.push((to_chars("<br/>"), to_chars("\n")));
    t.push((to_chars("<br />"), to_chars("\n")));
    t.push((to_chars("<blockquote>"), to_chars("\n    ")));
    t.push((to_chars("</blockquote>"), to_chars("\n")));
    t.push((to_chars("<em>"), to_chars("_")));
    t.push((to_chars("</em>"), to_chars("_")));
    t.push((to_chars("<i>"), to_chars("_")));
    t.push((to_chars("</i>"), to_chars("_")));
    t.push((to_chars("<strong>"), to_chars("**")));
    t.push((to_chars("</strong>"), to_chars("**")));
    t.push((to_chars("<b>"), to_chars("**")));
    t.push((to_chars("</b>"), to_chars("**")));
    t
}

/// Makes all the replacements of [`marker_table`].
pub fn place_markers(s: &Vec<char>) -> (out: Vec<char>)
    ensures
        out@ == markers_placed(s@),
{
    let table = marker_entries();
    let mut out: Vec<char> = replace_all(s, &table[0].0, &table[0].1);
    let mut k: usize = 1;
    while k < table.len()
        invariant
            1 <= k <= table@.len(),
            table@.len() == marker_table().len(),
            forall|j: int|
                0 <= j < table@.len() ==> (#[trigger] table@[j]).0@ == marker_table()[j].0
                    && table@[j].1@ == marker_table()[j].1,
            markers_placed_from(out@, k as int) == markers_placed(s@),
        decreases table@.len() - k,
    {
        out = replace_all(&out, &table[k].0, &table[k].1);
        k += 1;
    }
    out
}

/// Writes every emphasised span anew, `_` around what it holds. The text
/// that comes out is the text that went in.
pub fn rebalance_emphasis(s: &Vec<char>) -> (out: Vec<char>)
    ensures
        out@ == s@,
{
    let mut out: Vec<char> = Vec::new();
    let mut i: usize = 0;
    while i < s.len()
        invariant
            i <= s.len(),
            out@ == s@.take(i as int),
        decreases s.len() - i,
    {
        match Pattern::Emphasis.find_match(s, i) {
            Some(e) => {
                out.push('_');
                let mut j: usize = i + 1;
                proof {
                    lemma_find_char(s@, '_', i + 1);
                    assert(s@.take(i + 1) =~= s@.take(i as int).push('_'));
                }
                while j < e - 1
                    invariant
                        i < j < e <= s.len(),
                        out@ == s@.take(j as int),
                    decreases e - j,
                {
                    out.push(s[j]);
                    proof {
                        assert(s@.take(j + 1) =~= s@.take(j as int).push(s@[j as int]));
                    }
                    j += 1;
                }
                out.push('_');
                proof {
                    assert(s@[e - 1] == '_');
                    assert(s@.take(e as int) =~= s@.take(e - 1).push('_'));
                }
                i = e;
            },
            None => {
                out.push(s[i]);
                proof {
                    assert(s@.take(i + 1) =~= s@.take(i as int).push(s@[i as int]));
                }
                i += 1;
            },
        }
    }
    proof {
        assert(s@.take(s@.len() as int) =~= s@);
    }
    out
}

/// `s` without its tags.
pub open spec fn without_tags(s: Seq<char>) -> Seq<char> {
    rewritten(s, Pattern::Tag, Seq::empty())
}

/// Drops every tag. A `<` that no `>` follows stays as it is.
pub fn strip_tags(s: &Vec<char>) -> (out: Vec<char>)
    ensures
        out@ == without_tags(s@),
{
    let rep: Vec<char> = Vec::new();
    rewrite(s, Pattern::Tag, &rep)
}

/// The markup `s` with its structure turned into line breaks, indents and
/// emphasis marks, and no tag left: what the normalizer hands to the
/// decoding of character references.
pub open spec fn structured(s: Seq<char>) -> Seq<char> {
    without_tags(
        markers_placed(
            paragraphs_broken(spaces_tidied(headings_broken(without_style_rules(s)))),
        ),
    )
}

/// Turns the structure of the markup `s` into line breaks, indents and
/// emphasis marks and drops every tag.
pub fn structure(s: &Vec<char>) -> (out: Vec<char>)
    ensures
        out@ == structured(s@),
{
    let t = strip_style_rules(s);
    let t = break_headings(&t);
    let t = tidy_spaces(&t);
    let t = break_paragraphs(&t);
    let t = place_markers(&t);
    let t = rebalance_emphasis(&t);
    strip_tags(&t)
}

/// The intermediate text of the markup `raw`: structure first, character
/// references next, white space last.
pub open spec fn normalized(raw: Seq<char>) -> Seq<char> {
    collapsed(decoded(structured(raw)))
}

/// Turns chapter markup into intermediate text. An empty result says that
/// the chapter holds no text.
pub fn normalize(raw: &str) -> (out: String)
    ensures
        out@ == normalized(raw@),
{
    let chars = to_chars(raw);
    let t = structure(&chars);
    let t = decode_entities(&t);
    let t = collapse(&t);
    to_string(&t)
}

} // verus!
