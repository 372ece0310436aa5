//! Inline style: a line of intermediate text is cut into runs of plain,
//! italic and bold text at its emphasis marks.
//!
//! `_` switches italic on or off, `**` does so for bold; a single `*` is
//! text. The marks themselves are not part of any run, and a run without
//! text is not recorded. The two switches carry over from one line to the
//! next, so a mark without its partner styles the rest of the chapter.

use vstd::prelude::*;
use crate::text::{lines_of, split_lines, to_chars, to_string, views};

verus! {

/// Which styles are switched on at a point of the text.
#[derive(Clone, Copy, PartialEq, Eq, Structural, Debug)]
pub struct StyleFlags {
    pub italic: bool,
    pub bold: bool,
}

impl StyleFlags {
    /// Both styles off, as at the start of a chapter.
    pub open spec fn plain() -> StyleFlags {
        StyleFlags { italic: false, bold: false }
    }

    /// Both styles off.
    pub fn new() -> (f: StyleFlags)
        ensures
            f == StyleFlags::plain(),
    {
        StyleFlags { italic: false, bold: false }
    }

    /// The flags with italic switched.
    pub open spec fn toggle_italic(self) -> StyleFlags {
        StyleFlags { italic: !self.italic, bold: self.bold }
    }

    /// The flags with bold switched.
    pub open spec fn toggle_bold(self) -> StyleFlags {
        StyleFlags { italic: self.italic, bold: !self.bold }
    }
}

/// A run of text in one style, as a plain value.
pub struct Run {
    pub text: Seq<char>,
    pub italic: bool,
    pub bold: bool,
}

/// A run of text in one style.
#[derive(Clone, PartialEq, Eq, Debug)]
pub struct StyledRun {
    pub text: String,
    pub italic: bool,
    pub bold: bool,
}

impl View for StyledRun {
    type V = Run;

    open spec fn view(&self) -> Run {
        Run { text: self.text@, italic: self.italic, bold: self.bold }
    }
}

/// The runs of a line, as plain values.
pub open spec fn run_views(runs: Seq<StyledRun>) -> Seq<Run> {
    Seq::new(runs.len(), |k: int| runs[k]@)
}

/// The runs of each line, as plain values.
pub open spec fn line_views(lines: Seq<Vec<StyledRun>>) -> Seq<Seq<Run>> {
    Seq::new(lines.len(), |k: int| run_views(lines[k]@))
}

/// The run that `pending` makes in the style `flags`: none where `pending`
/// is empty.
pub open spec fn flushed(pending: Seq<char>, flags: StyleFlags) -> Seq<Run> {
    if pending.len() == 0 {
        Seq::empty()
    } else {
        seq![Run { text: pending, italic: flags.italic, bold: flags.bold }]
    }
}

/// The runs of `line` from index `i` on, where `flags` are the styles
/// switched on at `i` and `pending` is the text gathered since the last
/// mark.
pub open spec fn runs_from(line: Seq<char>, i: int, flags: StyleFlags, pending: Seq<char>) -> Seq<
    Run,
>
    decreases line.len() - i,
{
    if i < 0 || i >= line.len() {
        flushed(pending, flags)
    } else if line[i] == '_' {
        flushed(pending, flags) + runs_from(line, i + 1, flags.toggle_italic(), Seq::empty())
    } else if line[i] == '*' && i + 1 < line.len() && line[i + 1] == '*' {
        flushed(pending, flags) + runs_from(line, i + 2, flags.toggle_bold(), Seq::empty())
    } else {
        runs_from(line, i + 1, flags, pending.push(line[i]))
    }
}

/// The styles switched on at the end of `line`, where `flags` are those
/// switched on at index `i`.
pub open spec fn flags_from(line: Seq<char>, i: int, flags: StyleFlags) -> StyleFlags
    decreases line.len() - i,
{
    if i < 0 || i >= line.len() {
        flags
    } else if line[i] == '_' {
        flags_from(line, i + 1, flags.toggle_italic())
    } else if line[i] == '*' && i + 1 < line.len() && line[i + 1] == '*' {
        flags_from(line, i + 2, flags.toggle_bold())
    } else {
        flags_from(line, i + 1, flags)
    }
}

/// The runs of `line` when it starts in the style `flags`.
pub open spec fn line_runs(line: Seq<char>, flags: StyleFlags) -> Seq<Run> {
    runs_from(line, 0, flags, Seq::empty())
}

/// The styles switched on behind `line` when it starts in the style
/// `flags`.
pub open spec fn line_flags(line: Seq<char>, flags: StyleFlags) -> StyleFlags {
    flags_from(line, 0, flags)
}

/// `line` from index `i` on without its marks.
pub open spec fn unmarked_from(line: Seq<char>, i: int) -> Seq<char>
    decreases line.len() - i,
{
    if i < 0 || i >= line.len() {
        Seq::empty()
    } else if line[i] == '_' {
        unmarked_from(line, i + 1)
    } else if line[i] == '*' && i + 1 < line.len() && line[i + 1] == '*' {
        unmarked_from(line, i + 2)
    } else {
        seq![line[i]] + unmarked_from(line, i + 1)
    }
}

/// The texts of `runs`, one after the other.
pub open spec fn texts_joined(runs: Seq<Run>) -> Seq<char>
    decreases runs.len(),
{
    if runs.len() == 0 {
        Seq::empty()
    } else {
        texts_joined(runs.drop_last()) + runs.last().text
    }
}

/// The texts of two sequences of runs, one after the other, are the texts
/// of the first and then those of the second.
proof fn lemma_texts_joined_add(a: Seq<Run>, b: Seq<Run>)
    ensures
        texts_joined(a + b) == texts_joined(a) + texts_joined(b),
    decreases b.len(),
{
    if b.len() == 0 {
        assert(a + b =~= a);
        assert(texts_joined(a) + texts_joined(b) =~= texts_joined(a));
    } else {
        lemma_texts_joined_add(a, b.drop_last());
        assert((a + b).drop_last() =~= a + b.drop_last());
        assert((a + b).last() == b.last());
        assert((texts_joined(a) + texts_joined(b.drop_last())) + b.last().text =~= texts_joined(a)
            + (texts_joined(b.drop_last()) + b.last().text));
    }
}

/// Cutting a line into runs loses nothing but the marks: the texts of the
/// runs, one after the other, are what was gathered before plus the rest of
/// the line without its marks.
pub proof fn lemma_runs_keep_text(line: Seq<char>, i: int, flags: StyleFlags, pending: Seq<char>)
    requires
        0 <= i <= line.len(),
    ensures
        texts_joined(runs_from(line, i, flags, pending)) == pending + unmarked_from(line, i),
    decreases line.len() - i,
{
    let none = Seq::<char>::empty();
    let flushed_text = texts_joined(flushed(pending, flags));
    assert(flushed_text =~= pending) by {
        if pending.len() > 0 {
            let one = flushed(pending, flags);
            assert(one.drop_last() =~= Seq::<Run>::empty());
            assert(texts_joined(one.drop_last()) =~= none);
            assert(none + pending =~= pending);
        }
    }
    if i >= line.len() {
        assert(pending + unmarked_from(line, i) =~= pending);
    } else if line[i] == '_' {
        let rest = runs_from(line, i + 1, flags.toggle_italic(), none);
        lemma_runs_keep_text(line, i + 1, flags.toggle_italic(), none);
        lemma_texts_joined_add(flushed(pending, flags), rest);
        assert(none + unmarked_from(line, i + 1) =~= unmarked_from(line, i + 1));
    } else if line[i] == '*' && i + 1 < line.len() && line[i + 1] == '*' {
        let rest = runs_from(line, i + 2, flags.toggle_bold(), none);
        lemma_runs_keep_text(line, i + 2, flags.toggle_bold(), none);
        lemma_texts_joined_add(flushed(pending, flags), rest);
        assert(none + unmarked_from(line, i + 2) =~= unmarked_from(line, i + 2));
    } else {
        lemma_runs_keep_text(line, i + 1, flags, pending.push(line[i]));
        assert(pending.push(line[i]) + unmarked_from(line, i + 1) =~= pending + (seq![line[i]]
            + unmarked_from(line, i + 1)));
    }
}

/// The texts of a line's runs, one after the other, are the line without
/// its marks.
pub proof fn lemma_line_keeps_text(line: Seq<char>, flags: StyleFlags)
    ensures
        texts_joined(line_runs(line, flags)) == unmarked_from(line, 0),
{
    lemma_runs_keep_text(line, 0, flags, Seq::empty());
    assert(Seq::<char>::empty() + unmarked_from(line, 0) =~= unmarked_from(line, 0));
}

/// Whether `text` holds no character that can be part of a mark.
pub open spec fn mark_free(text: Seq<char>) -> bool {
    forall|k: int| 0 <= k < text.len() ==> (#[trigger] text[k]) != '_' && text[k] != '*'
}

/// A stretch of `line` without marks is gathered whole: from `i` to `j`
/// nothing is cut and no style is switched.
pub proof fn lemma_plain_stretch(
    line: Seq<char>,
    i: int,
    j: int,
    flags: StyleFlags,
    pending: Seq<char>,
)
    requires
        0 <= i <= j <= line.len(),
        mark_free(line.subrange(i, j)),
    ensures
        runs_from(line, i, flags, pending) == runs_from(
            line,
            j,
            flags,
            pending + line.subrange(i, j),
        ),
        flags_from(line, i, flags) == flags_from(line, j, flags),
    decreases j - i,
{
    if i < j {
        assert(line.subrange(i, j)[0] == line[i]);
        let rest = line.subrange(i + 1, j);
        assert forall|k: int| 0 <= k < rest.len() implies (#[trigger] rest[k]) != '_' && rest[k]
            != '*' by {
            assert(rest[k] == line.subrange(i, j)[k + 1]);
        }
        lemma_plain_stretch(line, i + 1, j, flags, pending.push(line[i]));
        assert(pending.push(line[i]) + line.subrange(i + 1, j) =~= pending + line.subrange(i, j));
    } else {
        assert(pending + line.subrange(i, j) =~= pending);
    }
}

/// A word between two `_` is a run of its own with italic switched: where
/// `before`, `word` and `after` hold no mark, the line `before _word_
/// after` is cut into `before` in the style the line starts in, `word` with
/// italic switched, and `after` in the first style again, and the line ends
/// in the style it started in.
pub proof fn lemma_emphasised_word(
    before: Seq<char>,
    word: Seq<char>,
    after: Seq<char>,
    flags: StyleFlags,
)
    requires
        mark_free(before),
        mark_free(word),
        mark_free(after),
    ensures
        line_runs(before + seq!['_'] + word + seq!['_'] + after, flags) == flushed(before, flags)
            + flushed(word, flags.toggle_italic()) + flushed(after, flags),
        line_flags(before + seq!['_'] + word + seq!['_'] + after, flags) == flags,
{
    let line = before + seq!['_'] + word + seq!['_'] + after;
    let a = before.len() as int;
    let b = a + 1 + word.len();
    let n = line.len() as int;
    let none = Seq::<char>::empty();
    let italic = flags.toggle_italic();
    assert(line.subrange(0, a) =~= before);
    assert(line.subrange(a + 1, b) =~= word);
    assert(line.subrange(b + 1, n) =~= after);
    assert(line[a] == '_' && line[b] == '_');
    assert(italic.toggle_italic() == flags);
    lemma_plain_stretch(line, 0, a, flags, none);
    lemma_plain_stretch(line, a + 1, b, italic, none);
    lemma_plain_stretch(line, b + 1, n, flags, none);
    assert(none + before =~= before);
    assert(none + word =~= word);
    assert(none + after =~= after);
    assert(runs_from(line, n, flags, after) == flushed(after, flags));
    assert(runs_from(line, b, italic, word) == flushed(word, italic) + runs_from(
        line,
        b + 1,
        flags,
        none,
    ));
    assert(runs_from(line, a, flags, before) == flushed(before, flags) + runs_from(
        line,
        a + 1,
        italic,
        none,
    ));
    assert(flushed(before, flags) + (flushed(word, italic) + flushed(after, flags)) =~= flushed(
        before,
        flags,
    ) + flushed(word, italic) + flushed(after, flags));
}

/// A word between two `**` is a run of its own with bold switched: where
/// `before`, `word` and `after` hold no mark, the line `before **word**
/// after` is cut into `before` in the style the line starts in, `word` with
/// bold switched, and `after` in the first style again, and the line ends
/// in the style it started in.
pub proof fn lemma_strong_word(
    before: Seq<char>,
    word: Seq<char>,
    after: Seq<char>,
    flags: StyleFlags,
)
    requires
        mark_free(before),
        mark_free(word),
        mark_free(after),
    ensures
        line_runs(before + seq!['*', '*'] + word + seq!['*', '*'] + after, flags) == flushed(
            before,
            flags,
        ) + flushed(word, flags.toggle_bold()) + flushed(after, flags),
        line_flags(before + seq!['*', '*'] + word + seq!['*', '*'] + after, flags) == flags,
{
    let line = before + seq!['*', '*'] + word + seq!['*', '*'] + after;
    let a = before.len() as int;
    let b = a + 2 + word.len();
    let n = line.len() as int;
    let none = Seq::<char>::empty();
    let bold = flags.toggle_bold();
    assert(line.subrange(0, a) =~= before);
    assert(line.subrange(a + 2, b) =~= word);
    assert(line.subrange(b + 2, n) =~= after);
    assert(line[a] == '*' && line[a + 1] == '*' && line[b] == '*' && line[b + 1] == '*');
    assert(bold.toggle_bold() == flags);
    lemma_plain_stretch(line, 0, a, flags, none);
    lemma_plain_stretch(line, a + 2, b, bold, none);
    lemma_plain_stretch(line, b + 2, n, flags, none);
    assert(none + before =~= before);
    assert(none + word =~= word);
    assert(none + after =~= after);
    assert(runs_from(line, n, flags, after) == flushed(after, flags));
    assert(runs_from(line, b, bold, word) == flushed(word, bold) + runs_from(
        line,
        b + 2,
        flags,
        none,
    ));
    assert(runs_from(line, a, flags, before) == flushed(before, flags) + runs_from(
        line,
        a + 2,
        bold,
        none,
    ));
    assert(flushed(before, flags) + (flushed(word, bold) + flushed(after, flags)) =~= flushed(
        before,
        flags,
    ) + flushed(word, bold) + flushed(after, flags));
}

/// A line without marks is one run in the style it starts in, or none
/// where the line is empty.
pub proof fn lemma_plain_line(line: Seq<char>, flags: StyleFlags)
    requires
        mark_free(line),
    ensures
        line_runs(line, flags) == flushed(line, flags),
        line_flags(line, flags) == flags,
{
    assert(line.subrange(0, line.len() as int) =~= line);
    lemma_plain_stretch(line, 0, line.len() as int, flags, Seq::empty());
    assert(Seq::<char>::empty() + line =~= line);
}

fn flush(out: &mut Vec<StyledRun>, pending: &mut Vec<char>, flags: StyleFlags)
    ensures
        run_views(final(out)@) == run_views(old(out)@) + flushed(old(pending)@, flags),
        final(pending)@ == Seq::<char>::empty(),
{
    if pending.len() > 0 {
        let run = StyledRun { text: to_string(pending), italic: flags.italic, bold: flags.bold };
        proof {
            assert(run_views(out@.push(run)) =~= run_views(out@) + flushed(pending@, flags));
        }
        out.push(run);
        pending.clear();
    } else {
        proof {
            assert(run_views(out@) + flushed(pending@, flags) =~= run_views(out@));
        }
    }
}

/// Cuts `line` into its runs. `flags` holds the styles switched on where
/// the line starts, and afterwards those switched on where it ends.
pub fn tokenize_chars(line: &Vec<char>, flags: &mut StyleFlags) -> (out: Vec<StyledRun>)
    ensures
        run_views(out@) == line_runs(line@, *old(flags)),
        *final(flags) == line_flags(line@, *old(flags)),
{
    let mut out: Vec<StyledRun> = Vec::new();
    let mut pending: Vec<char> = Vec::new();
    let mut i: usize = 0;
    proof {
        assert(run_views(out@) =~= Seq::<Run>::empty());
        assert(Seq::<Run>::empty() + line_runs(line@, *flags) =~= line_runs(line@, *flags));
    }
    while i < line.len()
        invariant
            i <= line.len(),
            run_views(out@) + runs_from(line@, i as int, *flags, pending@) == line_runs(
                line@,
                *old(flags),
            ),
            flags_from(line@, i as int, *flags) == line_flags(line@, *old(flags)),
        decreases line.len() - i,
    {
        let c = line[i];
        if c == '_' {
            proof {
                let rest = runs_from(line@, i + 1, flags.toggle_italic(), Seq::empty());
                assert((run_views(out@) + flushed(pending@, *flags)) + rest =~= run_views(out@) + (
                flushed(pending@, *flags) + rest));
            }
            flush(&mut out, &mut pending, *flags);
            flags.italic = !flags.italic;
            i += 1;
        } else if c == '*' && line.len() - i > 1 && line[i + 1] == '*' {
            proof {
                let rest = runs_from(line@, i + 2, flags.toggle_bold(), Seq::empty());
                assert((run_views(out@) + flushed(pending@, *flags)) + rest =~= run_views(out@) + (
                flushed(pending@, *flags) + rest));
            }
            flush(&mut out, &mut pending, *flags);
            flags.bold = !flags.bold;
            i += 2;
        } else {
            pending.push(c);
            i += 1;
        }
    }
    flush(&mut out, &mut pending, *flags);
    out
}

/// Cuts `line` into its runs. `flags` holds the styles switched on where
/// the line starts, and afterwards those switched on where it ends.
pub fn tokenize(line: &str, flags: &mut StyleFlags) -> (out: Vec<StyledRun>)
    ensures
        run_views(out@) == line_runs(line@, *old(flags)),
        *final(flags) == line_flags(line@, *old(flags)),
{
    let chars = to_chars(line);
    tokenize_chars(&chars, flags)
}

/// The runs of each of `lines` from line `k` on, where `flags` are the
/// styles switched on at the start of line `k`.
pub open spec fn styled_from(lines: Seq<Seq<char>>, k: int, flags: StyleFlags) -> Seq<Seq<Run>>
    decreases lines.len() - k,
{
    if k < 0 || k >= lines.len() {
        Seq::empty()
    } else {
        seq![line_runs(lines[k], flags)] + styled_from(lines, k + 1, line_flags(lines[k], flags))
    }
}

/// The runs of each line of `content`, which starts with both styles off.
pub open spec fn styled(content: Seq<char>) -> Seq<Seq<Run>> {
    styled_from(lines_of(content), 0, StyleFlags::plain())
}

/// Cuts a chapter's text into lines and each line into its runs. The text
/// starts with both styles off.
pub fn style_content(content: &str) -> (out: Vec<Vec<StyledRun>>)
    ensures
        line_views(out@) == styled(content@),
{
    let chars = to_chars(content);
    let lines = split_lines(&chars);
    let mut out: Vec<Vec<StyledRun>> = Vec::new();
    let mut flags = StyleFlags::new();
    let mut k: usize = 0;
    proof {
        assert(line_views(out@) =~= Seq::<Seq<Run>>::empty());
        assert(Seq::<Seq<Run>>::empty() + styled(content@) =~= styled(content@));
    }
    while k < lines.len()
        invariant
            k <= lines@.len(),
            views(lines@) == lines_of(content@),
            line_views(out@) + styled_from(lines_of(content@), k as int, flags) == styled(
                content@,
            ),
        decreases lines@.len() - k,
    {
        let ghost before = flags;
        let ghost line = lines_of(content@)[k as int];
        proof {
            assert(views(lines@)[k as int] == lines@[k as int]@);
        }
        let runs = tokenize_chars(&lines[k], &mut flags);
        proof {
            let rest = styled_from(lines_of(content@), k + 1, flags);
            assert(line_views(out@.push(runs)) =~= line_views(out@).push(run_views(runs@)));
            assert(line_views(out@).push(line_runs(line, before)) + rest =~= line_views(out@) + (
            seq![line_runs(line, before)] + rest));
        }
        out.push(runs);
        k += 1;
    }
    proof {
        assert(line_views(out@) + Seq::<Seq<Run>>::empty() =~= line_views(out@));
    }
    out
}

} // verus!
