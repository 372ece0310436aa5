//! The shapes of text that the passes look for, and the scan that rewrites
//! every occurrence of one of them.
//!
//! A pattern is tried at each index from left to right. Where it matches,
//! the match is consumed whole and the scan goes on behind it, so matches do
//! not overlap. Each pattern takes the longest runs it can: a selector or a
//! run of spaces is never cut short.

use vstd::prelude::*;
use crate::text::{
    append_chars, char_is_whitespace, find, find_char, is_whitespace, lemma_find_char,
    lemma_find_char_shift, lemma_run_end, lemma_run_end_shift, run_end, skip_run, CharClass,
};

verus! {

/// A shape of text that can stand at an index of a character sequence.
#[derive(Clone, Copy, Debug)]
pub enum Pattern {
    /// A style rule: a selector, optional white space, and a block in
    /// braces up to the first closing brace.
    StyleRule,
    /// An opening heading tag, `<h1` to `<h6` and on to the next `>`.
    HeadingOpen,
    /// A closing heading tag, `</h1>` to `</h6>`.
    HeadingClose,
    /// An opening paragraph tag, `<p` and on to the next `>`.
    ParagraphOpen,
    /// Any tag: `<` and on to the next `>`.
    Tag,
    /// An emphasised span: `_`, one or more other characters, `_`.
    Emphasis,
    /// Two or more spaces in a row.
    Spaces,
    /// Spaces at the very start of the text.
    LeadingSpaces,
    /// A line break followed by spaces.
    IndentSpaces,
    /// A stretch of white space from one line break to the last line break
    /// that white space alone separates from it.
    LineBreaks,
}

/// The index of the last line break in the white space that starts at `i`,
/// or `last` where that white space holds none.
pub open spec fn last_break(s: Seq<char>, i: int, last: int) -> int
    decreases s.len() - i,
{
    if 0 <= i < s.len() && is_whitespace(s[i]) {
        last_break(
            s,
            i + 1,
            if s[i] == '\n' {
                i
            } else {
                last
            },
        )
    } else {
        last
    }
}

/// [`last_break`] returns `last` or an index of the scanned white space.
pub proof fn lemma_last_break_bounds(s: Seq<char>, i: int, last: int)
    requires
        0 <= i <= s.len(),
        last < i,
    ensures
        last_break(s, i, last) == last || i <= last_break(s, i, last) < s.len(),
    decreases s.len() - i,
{
    if i < s.len() && is_whitespace(s[i]) {
        lemma_last_break_bounds(
            s,
            i + 1,
            if s[i] == '\n' {
                i
            } else {
                last
            },
        );
    }
}

/// The last line break behind a prefix is that of the rest: the prefix
/// only shifts the indices.
pub proof fn lemma_last_break_shift(prefix: Seq<char>, s: Seq<char>, i: int, last: int)
    requires
        0 <= i <= s.len(),
    ensures
        last_break(prefix + s, prefix.len() + i, prefix.len() + last) == prefix.len() + last_break(
            s,
            i,
            last,
        ),
    decreases s.len() - i,
{
    if i < s.len() {
        assert((prefix + s)[prefix.len() + i] == s[i]);
        lemma_last_break_shift(
            prefix,
            s,
            i + 1,
            if s[i] == '\n' {
                i
            } else {
                last
            },
        );
    }
}

/// Computes [`last_break`].
pub fn find_last_break(s: &Vec<char>, from: usize, last: usize) -> (r: usize)
    requires
        from <= s.len(),
        last < from,
    ensures
        r == last_break(s@, from as int, last as int),
        r == last || from <= r < s.len(),
{
    let mut i: usize = from;
    let mut seen: usize = last;
    while i < s.len() && char_is_whitespace(s[i])
        invariant
            from <= i <= s.len(),
            seen < i,
            seen == last || from <= seen,
            last_break(s@, i as int, seen as int) == last_break(s@, from as int, last as int),
        decreases s.len() - i,
    {
        if s[i] == '\n' {
            seen = i;
        }
        i += 1;
    }
    seen
}

impl Pattern {
    /// Where the pattern matches at index `i` of `s`, the index just behind
    /// the match.
    pub open spec fn match_end(self, s: Seq<char>, i: int) -> Option<int> {
        if i < 0 || i >= s.len() {
            None
        } else {
            match self {
                Pattern::StyleRule => {
                    let j = run_end(s, CharClass::Selector, i);
                    let k = run_end(s, CharClass::Whitespace, j);
                    if j > i && k < s.len() && s[k] == '{' && find_char(s, '}', k + 1) < s.len() {
                        Some(find_char(s, '}', k + 1) + 1)
                    } else {
                        None
                    }
                },
                Pattern::HeadingOpen => {
                    if i + 2 < s.len() && s[i] == '<' && s[i + 1] == 'h' && '1' <= s[i + 2] <= '6'
                        && find_char(s, '>', i + 3) < s.len() {
                        Some(find_char(s, '>', i + 3) + 1)
                    } else {
                        None
                    }
                },
                Pattern::HeadingClose => {
                    if i + 4 < s.len() && s[i] == '<' && s[i + 1] == '/' && s[i + 2] == 'h' && '1'
                        <= s[i + 3] <= '6' && s[i + 4] == '>' {
                        Some(i + 5)
                    } else {
                        None
                    }
                },
                Pattern::ParagraphOpen => {
                    if i + 1 < s.len() && s[i] == '<' && s[i + 1] == 'p' && find_char(
                        s,
                        '>',
                        i + 2,
                    ) < s.len() {
                        Some(find_char(s, '>', i + 2) + 1)
                    } else {
                        None
                    }
                },
                Pattern::Tag => {
                    if s[i] == '<' && find_char(s, '>', i + 1) < s.len() {
                        Some(find_char(s, '>', i + 1) + 1)
                    } else {
                        None
                    }
                },
                Pattern::Emphasis => {
                    if i + 1 < s.len() && s[i] == '_' && s[i + 1] != '_' && find_char(
                        s,
                        '_',
                        i + 1,
                    ) < s.len() {
                        Some(find_char(s, '_', i + 1) + 1)
                    } else {
                        None
                    }
                },
                Pattern::Spaces => {
                    if i + 1 < s.len() && s[i] == ' ' && s[i + 1] == ' ' {
                        Some(run_end(s, CharClass::Space, i))
                    } else {
                        None
                    }
                },
                Pattern::LeadingSpaces => {
                    if i == 0 && s[i] == ' ' {
                        Some(run_end(s, CharClass::Space, i))
                    } else {
                        None
                    }
                },
                Pattern::IndentSpaces => {
                    if i + 1 < s.len() && s[i] == '\n' && s[i + 1] == ' ' {
                        Some(run_end(s, CharClass::Space, i + 1))
                    } else {
                        None
                    }
                },
                Pattern::LineBreaks => {
                    if s[i] == '\n' && last_break(s, i + 1, i) > i {
                        Some(last_break(s, i + 1, i) + 1)
                    } else {
                        None
                    }
                },
            }
        }
    }

    /// A match is never empty and ends within the text.
    pub proof fn lemma_match_bounds(self, s: Seq<char>, i: int)
        ensures
            self.match_end(s, i) matches Some(e) ==> 0 <= i < e <= s.len(),
    {
        if 0 <= i < s.len() {
            match self {
                Pattern::StyleRule => {
                    let j = run_end(s, CharClass::Selector, i);
                    lemma_run_end(s, CharClass::Selector, i);
                    lemma_run_end(s, CharClass::Whitespace, j);
                    let k = run_end(s, CharClass::Whitespace, j);
                    if k < s.len() {
                        lemma_find_char(s, '}', k + 1);
                    }
                },
                Pattern::HeadingOpen => {
                    if i + 2 < s.len() {
                        lemma_find_char(s, '>', i + 3);
                    }
                },
                Pattern::HeadingClose => {},
                Pattern::ParagraphOpen => {
                    if i + 1 < s.len() {
                        lemma_find_char(s, '>', i + 2);
                    }
                },
                Pattern::Tag => {
                    lemma_find_char(s, '>', i + 1);
                },
                Pattern::Emphasis => {
                    lemma_find_char(s, '_', i + 1);
                },
                Pattern::Spaces | Pattern::LeadingSpaces => {
                    lemma_run_end(s, CharClass::Space, i + 1);
                },
                Pattern::IndentSpaces => {
                    if i + 1 < s.len() {
                        lemma_run_end(s, CharClass::Space, i + 1);
                    }
                },
                Pattern::LineBreaks => {
                    lemma_last_break_bounds(s, i + 1, i);
                },
            }
        }
    }

    /// Whether the pattern matches nowhere in `s` from index `from` on.
    pub open spec fn absent_from(self, s: Seq<char>, from: int) -> bool {
        forall|i: int| from <= i < s.len() ==> (#[trigger] self.match_end(s, i)) is None
    }

    /// Whether the pattern matches nowhere in `s`.
    pub open spec fn absent(self, s: Seq<char>) -> bool {
        self.absent_from(s, 0)
    }

    /// Whether a match depends only on the text from its start on. All
    /// patterns but the spaces at the start of the text do.
    pub open spec fn is_forward(self) -> bool {
        !(self is LeadingSpaces)
    }

    /// A match behind a prefix is a match of the rest: the prefix only
    /// shifts its end.
    pub proof fn lemma_match_shift(self, prefix: Seq<char>, s: Seq<char>, i: int)
        requires
            self.is_forward(),
            0 <= i < s.len(),
        ensures
            self.match_end(prefix + s, prefix.len() + i) == match self.match_end(s, i) {
                Some(e) => Some(prefix.len() + e),
                None => None,
            },
    {
        let n = prefix.len() as int;
        let t = prefix + s;
        assert forall|k: int| 0 <= k < s.len() implies t[n + k] == s[k] by {}
        assert(t[n + i] == s[i]);
        match self {
            Pattern::StyleRule => {
                let j = run_end(s, CharClass::Selector, i);
                lemma_run_end(s, CharClass::Selector, i);
                lemma_run_end_shift(prefix, s, CharClass::Selector, i);
                let k = run_end(s, CharClass::Whitespace, j);
                lemma_run_end(s, CharClass::Whitespace, j);
                lemma_run_end_shift(prefix, s, CharClass::Whitespace, j);
                if k < s.len() {
                    assert(t[n + k] == s[k]);
                    lemma_find_char_shift(prefix, s, '}', k + 1);
                }
            },
            Pattern::HeadingOpen => {
                if i + 2 < s.len() {
                    assert(t[n + (i + 1)] == s[i + 1]);
                    assert(t[n + (i + 2)] == s[i + 2]);
                    lemma_find_char_shift(prefix, s, '>', i + 3);
                }
            },
            Pattern::HeadingClose => {
                if i + 4 < s.len() {
                    assert(t[n + (i + 1)] == s[i + 1]);
                    assert(t[n + (i + 2)] == s[i + 2]);
                    assert(t[n + (i + 3)] == s[i + 3]);
                    assert(t[n + (i + 4)] == s[i + 4]);
                }
            },
            Pattern::ParagraphOpen => {
                if i + 1 < s.len() {
                    assert(t[n + (i + 1)] == s[i + 1]);
                    lemma_find_char_shift(prefix, s, '>', i + 2);
                }
            },
            Pattern::Tag => {
                lemma_find_char_shift(prefix, s, '>', i + 1);
            },
            Pattern::Emphasis => {
                if i + 1 < s.len() {
                    assert(t[n + (i + 1)] == s[i + 1]);
                    lemma_find_char_shift(prefix, s, '_', i + 1);
                }
            },
            Pattern::Spaces => {
                if i + 1 < s.len() {
                    assert(t[n + (i + 1)] == s[i + 1]);
                }
                lemma_run_end_shift(prefix, s, CharClass::Space, i);
            },
            Pattern::LeadingSpaces => {},
            Pattern::IndentSpaces => {
                if i + 1 < s.len() {
                    assert(t[n + (i + 1)] == s[i + 1]);
                    lemma_run_end_shift(prefix, s, CharClass::Space, i + 1);
                }
            },
            Pattern::LineBreaks => {
                lemma_last_break_shift(prefix, s, i + 1, i);
            },
        }
    }

    /// Looks for a match at index `i`.
    pub fn find_match(self, s: &Vec<char>, i: usize) -> (r: Option<usize>)
        requires
            i < s.len(),
        ensures
            match r {
                Some(e) => self.match_end(s@, i as int) == Some(e as int) && i < e <= s.len(),
                None => self.match_end(s@, i as int) is None,
            },
    {
        let n = s.len();
        match self {
            Pattern::StyleRule => {
                let j = skip_run(s, CharClass::Selector, i);
                let k = skip_run(s, CharClass::Whitespace, j);
                if j > i && k < n && s[k] == '{' {
                    let m = find(s, '}', k + 1);
                    if m < n {
                        Some(m + 1)
                    } else {
                        None
                    }
                } else {
                    None
                }
            },
            Pattern::HeadingOpen => {
                if n - i > 2 && s[i] == '<' && s[i + 1] == 'h' && '1' <= s[i + 2] && s[i + 2]
                    <= '6' {
                    let m = find(s, '>', i + 3);
                    if m < n {
                        Some(m + 1)
                    } else {
                        None
                    }
                } else {
                    None
                }
            },
            Pattern::HeadingClose => {
                if n - i > 4 && s[i] == '<' && s[i + 1] == '/' && s[i + 2] == 'h' && '1' <= s[i
                    + 3] && s[i + 3] <= '6' && s[i + 4] == '>' {
                    Some(i + 5)
                } else {
                    None
                }
            },
            Pattern::ParagraphOpen => {
                if n - i > 1 && s[i] == '<' && s[i + 1] == 'p' {
                    let m = find(s, '>', i + 2);
                    if m < n {
                        Some(m + 1)
                    } else {
                        None
                    }
                } else {
                    None
                }
            },
            Pattern::Tag => {
                if s[i] == '<' {
                    let m = find(s, '>', i + 1);
                    if m < n {
                        Some(m + 1)
                    } else {
                        None
                    }
                } else {
                    None
                }
            },
            Pattern::Emphasis => {
                if n - i > 1 && s[i] == '_' && s[i + 1] != '_' {
                    let m = find(s, '_', i + 1);
                    if m < n {
                        Some(m + 1)
                    } else {
                        None
                    }
                } else {
                    None
                }
            },
            Pattern::Spaces => {
                if n - i > 1 && s[i] == ' ' && s[i + 1] == ' ' {
                    proof {
                        self.lemma_match_bounds(s@, i as int);
                    }
                    Some(skip_run(s, CharClass::Space, i))
                } else {
                    None
                }
            },
            Pattern::LeadingSpaces => {
                if i == 0 && s[i] == ' ' {
                    proof {
                        self.lemma_match_bounds(s@, i as int);
                    }
                    Some(skip_run(s, CharClass::Space, i))
                } else {
                    None
                }
            },
            Pattern::IndentSpaces => {
                if n - i > 1 && s[i] == '\n' && s[i + 1] == ' ' {
                    proof {
                        self.lemma_match_bounds(s@, i as int);
                    }
                    Some(skip_run(s, CharClass::Space, i + 1))
                } else {
                    None
                }
            },
            Pattern::LineBreaks => {
                if s[i] == '\n' {
                    let last = find_last_break(s, i + 1, i);
                    if last > i {
                        Some(last + 1)
                    } else {
                        None
                    }
                } else {
                    None
                }
            },
        }
    }
}

/// `s` from index `i` on, with every match of `p` replaced by `rep`.
pub open spec fn rewritten_from(s: Seq<char>, p: Pattern, rep: Seq<char>, i: int) -> Seq<char>
    decreases s.len() - i,
{
    if i < 0 || i >= s.len() {
        Seq::empty()
    } else {
        match p.match_end(s, i) {
            Some(e) if i < e <= s.len() => rep + rewritten_from(s, p, rep, e),
            _ => seq![s[i]] + rewritten_from(s, p, rep, i + 1),
        }
    }
}

/// `s` with every match of `p` replaced by `rep`.
pub open spec fn rewritten(s: Seq<char>, p: Pattern, rep: Seq<char>) -> Seq<char> {
    rewritten_from(s, p, rep, 0)
}

/// Replaces every match of `p` in `s` by `rep`.
pub fn rewrite(s: &Vec<char>, p: Pattern, rep: &Vec<char>) -> (out: Vec<char>)
    ensures
        out@ == rewritten(s@, p, rep@),
{
    let mut out: Vec<char> = Vec::new();
    let mut i: usize = 0;
    while i < s.len()
        invariant
            i <= s.len(),
            out@ + rewritten_from(s@, p, rep@, i as int) == rewritten(s@, p, rep@),
        decreases s.len() - i,
    {
        match p.find_match(s, i) {
            Some(e) => {
                proof {
                    assert((out@ + rep@) + rewritten_from(s@, p, rep@, e as int) =~= out@ + (rep@
                        + rewritten_from(s@, p, rep@, e as int)));
                }
                append_chars(&mut out, rep);
                i = e;
            },
            None => {
                proof {
                    assert(out@.push(s@[i as int]) + rewritten_from(s@, p, rep@, i + 1) =~= out@
                        + (seq![s@[i as int]] + rewritten_from(s@, p, rep@, i + 1)));
                }
                out.push(s[i]);
                i += 1;
            },
        }
    }
    proof {
        assert(out@ + Seq::<char>::empty() =~= out@);
    }
    out
}

/// Where the pattern matches nowhere, rewriting changes nothing.
pub proof fn lemma_rewrite_unmatched(s: Seq<char>, p: Pattern, rep: Seq<char>, i: int)
    requires
        0 <= i <= s.len(),
        p.absent_from(s, i),
    ensures
        rewritten_from(s, p, rep, i) == s.skip(i),
    decreases s.len() - i,
{
    if i < s.len() {
        assert(p.match_end(s, i) is None);
        lemma_rewrite_unmatched(s, p, rep, i + 1);
        assert(seq![s[i]] + s.skip(i + 1) =~= s.skip(i));
    } else {
        assert(s.skip(i) =~= Seq::<char>::empty());
    }
}

/// A stretch in which the pattern matches nowhere is kept as it is.
pub proof fn lemma_rewrite_stretch(s: Seq<char>, p: Pattern, rep: Seq<char>, i: int, j: int)
    requires
        0 <= i <= j <= s.len(),
        forall|k: int| i <= k < j ==> (#[trigger] p.match_end(s, k)) is None,
    ensures
        rewritten_from(s, p, rep, i) == s.subrange(i, j) + rewritten_from(s, p, rep, j),
    decreases j - i,
{
    if i < j {
        assert(p.match_end(s, i) is None);
        lemma_rewrite_stretch(s, p, rep, i + 1, j);
        assert(seq![s[i]] + (s.subrange(i + 1, j) + rewritten_from(s, p, rep, j)) =~= s.subrange(
            i,
            j,
        ) + rewritten_from(s, p, rep, j));
    } else {
        assert(s.subrange(i, j) + rewritten_from(s, p, rep, j) =~= rewritten_from(s, p, rep, j));
    }
}

/// Rewriting behind a prefix does not depend on the prefix, for a pattern
/// whose matches depend only on the text from their start on.
pub proof fn lemma_rewrite_suffix(
    prefix: Seq<char>,
    s: Seq<char>,
    p: Pattern,
    rep: Seq<char>,
    i: int,
)
    requires
        p.is_forward(),
        0 <= i <= s.len(),
    ensures
        rewritten_from(prefix + s, p, rep, prefix.len() + i) == rewritten_from(s, p, rep, i),
    decreases s.len() - i,
{
    if i < s.len() {
        p.lemma_match_shift(prefix, s, i);
        p.lemma_match_bounds(s, i);
        assert((prefix + s)[prefix.len() + i] == s[i]);
        match p.match_end(s, i) {
            Some(e) => {
                lemma_rewrite_suffix(prefix, s, p, rep, e);
            },
            None => {
                lemma_rewrite_suffix(prefix, s, p, rep, i + 1);
            },
        }
    }
}

/// Where the pattern matches nowhere in `s`, rewriting returns `s`.
pub proof fn lemma_rewrite_absent(s: Seq<char>, p: Pattern, rep: Seq<char>)
    requires
        p.absent(s),
    ensures
        rewritten(s, p, rep) == s,
{
    lemma_rewrite_unmatched(s, p, rep, 0);
    assert(s.skip(0) =~= s);
}

/// Rewriting brings in no character but those of the replacement: what
/// holds of every character of `s` from `i` on and of every character of
/// `rep` holds of every character of the result.
pub proof fn lemma_rewrite_keeps(
    s: Seq<char>,
    p: Pattern,
    rep: Seq<char>,
    keep: spec_fn(char) -> bool,
    i: int,
)
    requires
        0 <= i <= s.len(),
        forall|k: int| i <= k < s.len() ==> keep(#[trigger] s[k]),
        forall|k: int| 0 <= k < rep.len() ==> keep(#[trigger] rep[k]),
    ensures
        forall|k: int|
            0 <= k < rewritten_from(s, p, rep, i).len() ==> keep(
                #[trigger] rewritten_from(s, p, rep, i)[k],
            ),
    decreases s.len() - i,
{
    let r = rewritten_from(s, p, rep, i);
    if i < s.len() {
        p.lemma_match_bounds(s, i);
        match p.match_end(s, i) {
            Some(e) => {
                let rest = rewritten_from(s, p, rep, e);
                lemma_rewrite_keeps(s, p, rep, keep, e);
                assert(r == rep + rest);
                assert forall|k: int| 0 <= k < r.len() implies keep(#[trigger] r[k]) by {
                    if k < rep.len() {
                        assert(r[k] == rep[k]);
                    } else {
                        assert(r[k] == rest[k - rep.len()]);
                    }
                }
            },
            None => {
                let rest = rewritten_from(s, p, rep, i + 1);
                lemma_rewrite_keeps(s, p, rep, keep, i + 1);
                assert(r == seq![s[i]] + rest);
                assert forall|k: int| 0 <= k < r.len() implies keep(#[trigger] r[k]) by {
                    if k == 0 {
                        assert(r[k] == s[i]);
                    } else {
                        assert(r[k] == rest[k - 1]);
                    }
                }
            },
        }
    }
}

/// What holds of neighbours after a rewriting that puts the first
/// character of each match in the match's place. The result starts with
/// the character at `i`, and `q` holds of each character of the result and
/// the one behind it, where `q` holds in `s` of each unmatched character
/// and the one behind it, and of the first character of each match and the
/// character behind the match.
pub proof fn lemma_rewrite_neighbours(
    s: Seq<char>,
    p: Pattern,
    c: char,
    q: spec_fn(char, char) -> bool,
    i: int,
)
    requires
        0 <= i < s.len(),
        forall|j: int| i <= j < s.len() && (#[trigger] p.match_end(s, j)) is Some ==> s[j] == c,
        forall|k: int|
            i <= k && k + 1 < s.len() && (#[trigger] p.match_end(s, k)) is None ==> q(
                s[k],
                s[k + 1],
            ),
        forall|j: int|
            i <= j < s.len() && (#[trigger] p.match_end(s, j)) is Some && p.match_end(s, j)->0
                < s.len() ==> q(c, s[p.match_end(s, j)->0]),
    ensures
        rewritten_from(s, p, seq![c], i).len() > 0,
        rewritten_from(s, p, seq![c], i)[0] == s[i],
        forall|k: int|
            0 <= k && k + 1 < rewritten_from(s, p, seq![c], i).len() ==> q(
                #[trigger] rewritten_from(s, p, seq![c], i)[k],
                rewritten_from(s, p, seq![c], i)[k + 1],
            ),
    decreases s.len() - i,
{
    let r = rewritten_from(s, p, seq![c], i);
    p.lemma_match_bounds(s, i);
    match p.match_end(s, i) {
        Some(e) => {
            let rest = rewritten_from(s, p, seq![c], e);
            assert(r == seq![c] + rest);
            if e < s.len() {
                lemma_rewrite_neighbours(s, p, c, q, e);
                assert forall|k: int| 0 <= k && k + 1 < r.len() implies q(
                    #[trigger] r[k],
                    r[k + 1],
                ) by {
                    if k == 0 {
                        assert(r[1] == rest[0]);
                    } else {
                        assert(r[k] == rest[k - 1] && r[k + 1] == rest[k]);
                    }
                }
            }
        },
        None => {
            let rest = rewritten_from(s, p, seq![c], i + 1);
            assert(r == seq![s[i]] + rest);
            if i + 1 < s.len() {
                lemma_rewrite_neighbours(s, p, c, q, i + 1);
                assert forall|k: int| 0 <= k && k + 1 < r.len() implies q(
                    #[trigger] r[k],
                    r[k + 1],
                ) by {
                    if k == 0 {
                        assert(r[1] == rest[0]);
                    } else {
                        assert(r[k] == rest[k - 1] && r[k + 1] == rest[k]);
                    }
                }
            }
        },
    }
}

} // verus!
