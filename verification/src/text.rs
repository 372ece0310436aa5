//! Characters and character sequences: conversions between strings and
//! character vectors, and the character classes the passes rely on.

use vstd::prelude::*;

verus! {

/// `String::push` appends the given character to the end of the string.
pub assume_specification[ String::push ](s: &mut String, ch: char)
    ensures
        final(s)@ == old(s)@.push(ch),
;

/// The characters of a string, in order.
pub fn to_chars(s: &str) -> (v: Vec<char>)
    ensures
        v@ == s@,
{
    let mut v: Vec<char> = Vec::new();
    for c in it: s.chars()
        invariant
            v@ == it.seq().take(it.index()),
            it.seq() == s@,
    {
        v.push(c);
    }
    v
}

/// The string made of the given characters, in order.
pub fn to_string(chars: &Vec<char>) -> (s: String)
    ensures
        s@ == chars@,
{
    let mut s = String::new();
    let mut i: usize = 0;
    while i < chars.len()
        invariant
            i <= chars.len(),
            s@ == chars@.take(i as int),
        decreases chars.len() - i,
    {
        s.push(chars[i]);
        i += 1;
    }
    s
}

/// White space as Unicode defines it (the `White_Space` property).
pub open spec fn is_whitespace(c: char) -> bool {
    ||| '\u{9}' <= c <= '\u{d}'
    ||| c == ' '
    ||| c == '\u{85}'
    ||| c == '\u{a0}'
    ||| c == '\u{1680}'
    ||| '\u{2000}' <= c <= '\u{200a}'
    ||| c == '\u{2028}'
    ||| c == '\u{2029}'
    ||| c == '\u{202f}'
    ||| c == '\u{205f}'
    ||| c == '\u{3000}'
}

/// Decides [`is_whitespace`].
pub fn char_is_whitespace(c: char) -> (b: bool)
    ensures
        b == is_whitespace(c),
{
    ('\u{9}' <= c && c <= '\u{d}') || c == ' ' || c == '\u{85}' || c == '\u{a0}' || c == '\u{1680}'
        || ('\u{2000}' <= c && c <= '\u{200a}') || c == '\u{2028}' || c == '\u{2029}' || c
        == '\u{202f}' || c == '\u{205f}' || c == '\u{3000}'
}

/// A class of characters that a scan can run over.
#[derive(Clone, Copy, Debug)]
pub enum CharClass {
    /// The space character alone.
    Space,
    /// White space, see [`is_whitespace`].
    Whitespace,
    /// What a style rule's selector is made of: ASCII letters and digits,
    /// `#`, `.` and `@`.
    Selector,
}

impl CharClass {
    /// Whether `c` belongs to the class.
    pub open spec fn holds(self, c: char) -> bool {
        match self {
            CharClass::Space => c == ' ',
            CharClass::Whitespace => is_whitespace(c),
            CharClass::Selector => ('a' <= c <= 'z') || ('A' <= c <= 'Z') || ('0' <= c <= '9')
                || c == '#' || c == '.' || c == '@',
        }
    }

    /// Decides [`CharClass::holds`].
    pub fn test(self, c: char) -> (b: bool)
        ensures
            b == self.holds(c),
    {
        match self {
            CharClass::Space => c == ' ',
            CharClass::Whitespace => char_is_whitespace(c),
            CharClass::Selector => ('a' <= c && c <= 'z') || ('A' <= c && c <= 'Z') || ('0' <= c
                && c <= '9') || c == '#' || c == '.' || c == '@',
        }
    }
}

/// The first index at or after `from` that holds `c`, or the length of `s`
/// where there is none.
pub open spec fn find_char(s: Seq<char>, c: char, from: int) -> int
    decreases s.len() - from,
{
    if from < 0 || from >= s.len() {
        s.len() as int
    } else if s[from] == c {
        from
    } else {
        find_char(s, c, from + 1)
    }
}

/// What [`find_char`] returns lies between `from` and the length, holds `c`
/// where it is an index, and nothing before it does.
pub proof fn lemma_find_char(s: Seq<char>, c: char, from: int)
    requires
        0 <= from <= s.len(),
    ensures
        from <= find_char(s, c, from) <= s.len(),
        find_char(s, c, from) < s.len() ==> s[find_char(s, c, from)] == c,
        forall|k: int| from <= k < find_char(s, c, from) ==> s[k] != c,
    decreases s.len() - from,
{
    if from < s.len() && s[from] != c {
        lemma_find_char(s, c, from + 1);
    }
}

/// Searching behind a prefix is searching the rest: the prefix only
/// shifts the index found.
pub proof fn lemma_find_char_shift(prefix: Seq<char>, s: Seq<char>, c: char, from: int)
    requires
        0 <= from <= s.len(),
    ensures
        find_char(prefix + s, c, prefix.len() + from) == prefix.len() + find_char(s, c, from),
    decreases s.len() - from,
{
    if from < s.len() {
        assert((prefix + s)[prefix.len() + from] == s[from]);
        lemma_find_char_shift(prefix, s, c, from + 1);
    }
}

/// Computes [`find_char`].
pub fn find(s: &Vec<char>, c: char, from: usize) -> (r: usize)
    requires
        from <= s.len(),
    ensures
        r == find_char(s@, c, from as int),
        from <= r <= s.len(),
{
    let mut i: usize = from;
    while i < s.len() && s[i] != c
        invariant
            from <= i <= s.len(),
            find_char(s@, c, i as int) == find_char(s@, c, from as int),
        decreases s.len() - i,
    {
        i += 1;
    }
    i
}

/// The end of the longest run of characters of `class` that starts at
/// `from`: the first index at or after `from` whose character is not of the
/// class, or the length of `s`.
pub open spec fn run_end(s: Seq<char>, class: CharClass, from: int) -> int
    decreases s.len() - from,
{
    if 0 <= from < s.len() && class.holds(s[from]) {
        run_end(s, class, from + 1)
    } else {
        from
    }
}

/// What [`run_end`] returns lies between `from` and the length, every
/// character before it is of the class, and the one at it is not.
pub proof fn lemma_run_end(s: Seq<char>, class: CharClass, from: int)
    requires
        0 <= from <= s.len(),
    ensures
        from <= run_end(s, class, from) <= s.len(),
        forall|k: int| from <= k < run_end(s, class, from) ==> class.holds(#[trigger] s[k]),
        run_end(s, class, from) < s.len() ==> !class.holds(s[run_end(s, class, from)]),
    decreases s.len() - from,
{
    if from < s.len() && class.holds(s[from]) {
        lemma_run_end(s, class, from + 1);
    }
}

/// A run behind a prefix is a run of the rest: the prefix only shifts its
/// end.
pub proof fn lemma_run_end_shift(prefix: Seq<char>, s: Seq<char>, class: CharClass, from: int)
    requires
        0 <= from <= s.len(),
    ensures
        run_end(prefix + s, class, prefix.len() + from) == prefix.len() + run_end(s, class, from),
    decreases s.len() - from,
{
    if from < s.len() {
        assert((prefix + s)[prefix.len() + from] == s[from]);
        lemma_run_end_shift(prefix, s, class, from + 1);
    }
}

/// Computes [`run_end`].
pub fn skip_run(s: &Vec<char>, class: CharClass, from: usize) -> (r: usize)
    requires
        from <= s.len(),
    ensures
        r == run_end(s@, class, from as int),
        from <= r <= s.len(),
{
    let mut i: usize = from;
    while i < s.len() && class.test(s[i])
        invariant
            from <= i <= s.len(),
            run_end(s@, class, i as int) == run_end(s@, class, from as int),
        decreases s.len() - i,
    {
        i += 1;
    }
    i
}

/// Appends the characters of `more` to `out`.
pub fn append_chars(out: &mut Vec<char>, more: &Vec<char>)
    ensures
        final(out)@ == old(out)@ + more@,
{
    let mut i: usize = 0;
    while i < more.len()
        invariant
            i <= more.len(),
            out@ == old(out)@ + more@.take(i as int),
        decreases more.len() - i,
    {
        out.push(more[i]);
        i += 1;
    }
}

/// Whether `pat` stands in `s` at index `i`.
pub open spec fn matches_at(s: Seq<char>, i: int, pat: Seq<char>) -> bool {
    0 <= i && i + pat.len() <= s.len() && s.subrange(i, i + pat.len()) == pat
}

/// Decides [`matches_at`].
pub fn starts_with_at(s: &Vec<char>, i: usize, pat: &Vec<char>) -> (b: bool)
    requires
        i <= s.len(),
    ensures
        b == matches_at(s@, i as int, pat@),
{
    if pat.len() > s.len() - i {
        return false;
    }
    let mut k: usize = 0;
    while k < pat.len()
        invariant
            k <= pat.len(),
            i + pat.len() <= s.len(),
            s@.subrange(i as int, i + k) == pat@.take(k as int),
        decreases pat.len() - k,
    {
        if s[i + k] != pat[k] {
            proof {
                let sub = s@.subrange(i as int, i + pat.len());
                assert(sub[k as int] != pat@[k as int]);
            }
            return false;
        }
        proof {
            assert(s@.subrange(i as int, i + k + 1) =~= s@.subrange(i as int, i + k).push(
                s@[i + k],
            ));
            assert(pat@.take(k + 1) =~= pat@.take(k as int).push(pat@[k as int]));
        }
        k += 1;
    }
    proof {
        assert(pat@.take(pat.len() as int) =~= pat@);
    }
    true
}

/// `s` from index `i` on, with every occurrence of `pat` replaced by `rep`.
/// Occurrences are taken from left to right and do not overlap; an empty
/// `pat` occurs nowhere.
pub open spec fn replaced_from(s: Seq<char>, pat: Seq<char>, rep: Seq<char>, i: int) -> Seq<char>
    decreases s.len() - i,
{
    if i < 0 || i >= s.len() {
        Seq::empty()
    } else if pat.len() > 0 && matches_at(s, i, pat) {
        rep + replaced_from(s, pat, rep, i + pat.len())
    } else {
        seq![s[i]] + replaced_from(s, pat, rep, i + 1)
    }
}

/// `s` with every occurrence of `pat` replaced by `rep`.
pub open spec fn replaced(s: Seq<char>, pat: Seq<char>, rep: Seq<char>) -> Seq<char> {
    replaced_from(s, pat, rep, 0)
}

/// Where `pat` occurs nowhere from index `i` on, replacing it changes
/// nothing.
pub proof fn lemma_replace_unmatched(s: Seq<char>, pat: Seq<char>, rep: Seq<char>, i: int)
    requires
        0 <= i <= s.len(),
        forall|k: int| i <= k < s.len() ==> !matches_at(s, k, pat),
    ensures
        replaced_from(s, pat, rep, i) == s.skip(i),
    decreases s.len() - i,
{
    if i < s.len() {
        assert(!matches_at(s, i, pat));
        lemma_replace_unmatched(s, pat, rep, i + 1);
        assert(seq![s[i]] + s.skip(i + 1) =~= s.skip(i));
    } else {
        assert(s.skip(i) =~= Seq::<char>::empty());
    }
}

/// A stretch in which `pat` occurs nowhere is kept as it is.
pub proof fn lemma_replace_stretch(s: Seq<char>, pat: Seq<char>, rep: Seq<char>, i: int, j: int)
    requires
        0 <= i <= j <= s.len(),
        forall|k: int| i <= k < j ==> !matches_at(s, k, pat),
    ensures
        replaced_from(s, pat, rep, i) == s.subrange(i, j) + replaced_from(s, pat, rep, j),
    decreases j - i,
{
    if i < j {
        assert(!matches_at(s, i, pat));
        lemma_replace_stretch(s, pat, rep, i + 1, j);
        assert(seq![s[i]] + (s.subrange(i + 1, j) + replaced_from(s, pat, rep, j)) =~= s.subrange(
            i,
            j,
        ) + replaced_from(s, pat, rep, j));
    } else {
        assert(s.subrange(i, j) + replaced_from(s, pat, rep, j) =~= replaced_from(s, pat, rep, j));
    }
}

/// Whether `pat` stands at an index behind a prefix does not depend on
/// the prefix.
pub proof fn lemma_matches_at_shift(prefix: Seq<char>, s: Seq<char>, i: int, pat: Seq<char>)
    requires
        0 <= i,
    ensures
        matches_at(prefix + s, prefix.len() + i, pat) == matches_at(s, i, pat),
{
    if i + pat.len() <= s.len() {
        assert((prefix + s).subrange(prefix.len() + i, prefix.len() + i + pat.len())
            =~= s.subrange(i, i + pat.len()));
    }
}

/// Replacing behind a prefix does not depend on the prefix.
pub proof fn lemma_replace_suffix(
    prefix: Seq<char>,
    s: Seq<char>,
    pat: Seq<char>,
    rep: Seq<char>,
    i: int,
)
    requires
        0 <= i <= s.len(),
    ensures
        replaced_from(prefix + s, pat, rep, prefix.len() + i) == replaced_from(s, pat, rep, i),
    decreases s.len() - i,
{
    if i < s.len() {
        lemma_matches_at_shift(prefix, s, i, pat);
        assert((prefix + s)[prefix.len() + i] == s[i]);
        if pat.len() > 0 && matches_at(s, i, pat) {
            lemma_replace_suffix(prefix, s, pat, rep, i + pat.len());
        } else {
            lemma_replace_suffix(prefix, s, pat, rep, i + 1);
        }
    }
}

/// Replaces every occurrence of `pat` in `s` by `rep`.
pub fn replace_all(s: &Vec<char>, pat: &Vec<char>, rep: &Vec<char>) -> (out: Vec<char>)
    ensures
        out@ == replaced(s@, pat@, rep@),
{
    let mut out: Vec<char> = Vec::new();
    let mut i: usize = 0;
    while i < s.len()
        invariant
            i <= s.len(),
            out@ + replaced_from(s@, pat@, rep@, i as int) == replaced(s@, pat@, rep@),
        decreases s.len() - i,
    {
        if pat.len() > 0 && starts_with_at(s, i, pat) {
            proof {
                assert((out@ + rep@) + replaced_from(s@, pat@, rep@, i + pat.len()) =~= out@ + (
                rep@ + replaced_from(s@, pat@, rep@, i + pat.len())));
            }
            append_chars(&mut out, rep);
            i += pat.len();
        } else {
            proof {
                assert(out@.push(s@[i as int]) + replaced_from(s@, pat@, rep@, i + 1) =~= out@ + (
                seq![s@[i as int]] + replaced_from(s@, pat@, rep@, i + 1)));
            }
            out.push(s[i]);
            i += 1;
        }
    }
    proof {
        assert(out@ + Seq::<char>::empty() =~= out@);
    }
    out
}

/// The line of `s` that starts at index `i` and ends before index `e`,
/// where the line's end is at `e`: without the carriage return before a
/// line feed at `e`.
pub open spec fn line_between(s: Seq<char>, i: int, e: int) -> Seq<char> {
    if e < s.len() && i < e && s[e - 1] == '\r' {
        s.subrange(i, e - 1)
    } else {
        s.subrange(i, e)
    }
}

/// The lines of `s` from index `i` on. A line ends at a line feed, or at a
/// carriage return that a line feed follows, and holds neither; the last
/// line need not be ended, and no empty line follows a last line end.
pub open spec fn lines_from(s: Seq<char>, i: int) -> Seq<Seq<char>>
    decreases s.len() - i,
{
    if i < 0 || i >= s.len() {
        Seq::empty()
    } else {
        let e = find_char(s, '\n', i);
        if i <= e < s.len() {
            seq![line_between(s, i, e)] + lines_from(s, e + 1)
        } else {
            seq![line_between(s, i, s.len() as int)]
        }
    }
}

/// The lines of `s`.
pub open spec fn lines_of(s: Seq<char>) -> Seq<Seq<char>> {
    lines_from(s, 0)
}

/// The views of the vectors in `v`.
pub open spec fn views(v: Seq<Vec<char>>) -> Seq<Seq<char>> {
    Seq::new(v.len(), |k: int| v[k]@)
}

/// Splits `s` into its lines.
pub fn split_lines(s: &Vec<char>) -> (out: Vec<Vec<char>>)
    ensures
        views(out@) == lines_of(s@),
{
    let mut out: Vec<Vec<char>> = Vec::new();
    let mut i: usize = 0;
    proof {
        assert(views(out@) =~= Seq::<Seq<char>>::empty());
        assert(Seq::<Seq<char>>::empty() + lines_from(s@, 0) =~= lines_of(s@));
    }
    while i < s.len()
        invariant
            i <= s.len(),
            views(out@) + lines_from(s@, i as int) == lines_of(s@),
        decreases s.len() - i,
    {
        let e = find(s, '\n', i);
        let stop = if e < s.len() && i < e && s[e - 1] == '\r' {
            e - 1
        } else {
            e
        };
        let mut line: Vec<char> = Vec::new();
        let mut j: usize = i;
        while j < stop
            invariant
                i <= j <= stop <= s.len(),
                line@ == s@.subrange(i as int, j as int),
            decreases stop - j,
        {
            line.push(s[j]);
            proof {
                assert(s@.subrange(i as int, j + 1) =~= s@.subrange(i as int, j as int).push(
                    s@[j as int],
                ));
            }
            j += 1;
        }
        proof {
            let before = views(out@);
            let after = views(out@.push(line));
            assert(after =~= before.push(line@));
            assert(line@ == line_between(s@, i as int, e as int));
            if e < s.len() {
                assert(before.push(line@) + lines_from(s@, e + 1) =~= before + (seq![line@]
                    + lines_from(s@, e + 1)));
            } else {
                assert(before.push(line@) + lines_from(s@, e as int) =~= before + seq![line@]);
            }
        }
        out.push(line);
        if e < s.len() {
            i = e + 1;
        } else {
            i = e;
        }
    }
    proof {
        assert(views(out@) + Seq::<Seq<char>>::empty() =~= views(out@));
    }
    out
}

} // verus!
