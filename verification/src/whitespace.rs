//! The last pass over the text: runs of line breaks become one line break,
//! and white space at both ends of the text is dropped.

use vstd::prelude::*;
use crate::pattern::{rewrite, rewritten, Pattern};
use crate::text::{char_is_whitespace, is_whitespace, run_end, skip_run, CharClass};

verus! {

/// `s` where every stretch of white space that runs from one line break to
/// another has become a single line break.
pub open spec fn breaks_collapsed(s: Seq<char>) -> Seq<char> {
    rewritten(s, Pattern::LineBreaks, seq!['\n'])
}

/// Turns every stretch of white space that runs from one line break to
/// another into a single line break.
pub fn collapse_line_breaks(s: &Vec<char>) -> (out: Vec<char>)
    ensures
        out@ == breaks_collapsed(s@),
{
    let rep: Vec<char> = vec!['\n'];
    assert(rep@ =~= seq!['\n']);
    rewrite(s, Pattern::LineBreaks, &rep)
}

/// The index of the first character of `s` that is not white space, or the
/// length of `s`.
pub open spec fn trim_start(s: Seq<char>) -> int {
    run_end(s, CharClass::Whitespace, 0)
}

/// The index just behind the last character of `s` that is not white
/// space, or 0.
pub open spec fn trim_end(s: Seq<char>) -> int
    decreases s.len(),
{
    if s.len() > 0 && is_whitespace(s.last()) {
        trim_end(s.drop_last())
    } else {
        s.len() as int
    }
}

/// `s` without the white space at its start and at its end.
pub open spec fn trimmed(s: Seq<char>) -> Seq<char> {
    if trim_start(s) < trim_end(s) {
        s.subrange(trim_start(s), trim_end(s))
    } else {
        Seq::empty()
    }
}

/// [`trim_end`] looks only at the characters before the length it is given.
proof fn lemma_trim_end_take(s: Seq<char>, n: int)
    requires
        0 <= n <= s.len(),
        forall|k: int| n <= k < s.len() ==> is_whitespace(s[k]),
    ensures
        trim_end(s) == trim_end(s.take(n)),
    decreases s.len() - n,
{
    if n < s.len() {
        assert(s.drop_last().take(n) =~= s.take(n));
        lemma_trim_end_take(s.drop_last(), n);
    } else {
        assert(s.take(n) =~= s);
    }
}

/// Drops the white space at the start and at the end of `s`.
pub fn trim(s: &Vec<char>) -> (out: Vec<char>)
    ensures
        out@ == trimmed(s@),
{
    let start = skip_run(s, CharClass::Whitespace, 0);
    let mut end: usize = s.len();
    while end > 0 && char_is_whitespace(s[end - 1])
        invariant
            end <= s.len(),
            forall|k: int| end <= k < s.len() ==> is_whitespace(s@[k]),
        decreases end,
    {
        end -= 1;
    }
    proof {
        lemma_trim_end_take(s@, end as int);
        let t = s@.take(end as int);
        if end > 0 {
            assert(t.last() == s@[end - 1]);
        }
        assert(trim_end(s@) == end);
    }
    let mut out: Vec<char> = Vec::new();
    if start < end {
        let mut i: usize = start;
        while i < end
            invariant
                start <= i <= end <= s.len(),
                out@ == s@.subrange(start as int, i as int),
            decreases end - i,
        {
            out.push(s[i]);
            proof {
                assert(s@.subrange(start as int, i + 1) =~= s@.subrange(start as int, i as int).push(
                    s@[i as int],
                ));
            }
            i += 1;
        }
    }
    out
}

/// `s` after the whole pass: line breaks collapsed, then both ends trimmed.
pub open spec fn collapsed(s: Seq<char>) -> Seq<char> {
    trimmed(breaks_collapsed(s))
}

/// Collapses runs of line breaks and trims both ends.
pub fn collapse(s: &Vec<char>) -> (out: Vec<char>)
    ensures
        out@ == collapsed(s@),
{
    let t = collapse_line_breaks(s);
    trim(&t)
}

} // verus!
