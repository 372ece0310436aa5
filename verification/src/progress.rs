//! How far the reader has come in a chapter, as a percentage.
//!
//! The chapter's text is wrapped to the viewport's width; the lines that do
//! not fit into the viewport's height are what can be scrolled over, and the
//! scroll offset is set against their number. Text that fits is read to the
//! end: 100. Halves round up.

use vstd::prelude::*;
use crate::text::{find, lines_from, lines_of, to_chars};

verus! {

/// What `textwrap::fill` returns for `content` at the line width `width`,
/// with words parted at ASCII spaces and lines chosen by the optimal-fit
/// algorithm under its default penalties.
pub uninterp spec fn filled(content: Seq<char>, width: nat) -> Seq<char>;

/// `textwrap::fill` with the options named at [`filled`]. The call reads
/// nothing but its arguments, so its result is the named one. Nothing more is
/// claimed of it.
#[verifier::external_body]
fn fill(content: &str, width: usize) -> (out: String)
    requires
        width > 0,
    ensures
        out@ == filled(content@, width as nat),
{
    let options = textwrap::Options::new(width).word_separator(
        textwrap::WordSeparator::AsciiSpace,
    ).wrap_algorithm(
        textwrap::WrapAlgorithm::OptimalFit(textwrap::wrap_algorithms::Penalties::default()),
    );
    textwrap::fill(content, &options)
}

/// The percentage read when `total_lines` wrapped lines are shown in a
/// viewport of `height` lines, scrolled by `scroll_offset` lines.
pub open spec fn percent_at(total_lines: nat, height: nat, scroll_offset: nat) -> nat {
    if total_lines <= height {
        100
    } else {
        let max_scroll = (total_lines - height) as nat;
        let rounded = (200 * scroll_offset + max_scroll) / (2 * max_scroll);
        if rounded > 100 {
            100
        } else {
            rounded as nat
        }
    }
}

/// Computes [`percent_at`].
pub fn percent_of_lines(total_lines: usize, height: usize, scroll_offset: usize) -> (p: u32)
    ensures
        p == percent_at(total_lines as nat, height as nat, scroll_offset as nat),
        p <= 100,
{
    if total_lines <= height {
        100
    } else {
        let max_scroll: u128 = (total_lines - height) as u128;
        let scroll: u128 = scroll_offset as u128;
        let rounded: u128 = (200 * scroll + max_scroll) / (2 * max_scroll);
        if rounded > 100 {
            100
        } else {
            rounded as u32
        }
    }
}

/// The number of lines of `s`.
pub open spec fn line_count(s: Seq<char>) -> nat {
    lines_of(s).len()
}

/// Counts the lines of `s`.
pub fn count_lines(s: &Vec<char>) -> (n: usize)
    ensures
        n == line_count(s@),
{
    let mut n: usize = 0;
    let mut i: usize = 0;
    while i < s.len()
        invariant
            i <= s.len(),
            n <= i,
            n + lines_from(s@, i as int).len() == line_count(s@),
        decreases s.len() - i,
    {
        let e = find(s, '\n', i);
        n += 1;
        if e < s.len() {
            i = e + 1;
        } else {
            i = e;
        }
    }
    n
}

/// The percentage read of text that is wrapped already.
pub open spec fn percent_of_wrapped(wrapped: Seq<char>, height: nat, scroll_offset: nat) -> nat {
    percent_at(line_count(wrapped), height, scroll_offset)
}

/// The percentage read of `content` in a viewport of the given width and
/// height, scrolled by `scroll_offset` lines. A viewport without width
/// shows nothing: 0.
pub open spec fn percent_read(content: Seq<char>, width: nat, height: nat, scroll_offset: nat) -> nat {
    if width == 0 {
        0
    } else {
        percent_of_wrapped(filled(content, width), height, scroll_offset)
    }
}

/// Computes [`percent_of_wrapped`] for text that the caller has wrapped.
pub fn percent_wrapped(wrapped: &str, height: usize, scroll_offset: usize) -> (p: u32)
    ensures
        p == percent_of_wrapped(wrapped@, height as nat, scroll_offset as nat),
        p <= 100,
{
    let chars = to_chars(wrapped);
    percent_of_lines(count_lines(&chars), height, scroll_offset)
}

/// The percentage read of `content` in a viewport of `viewport_width`
/// columns and `viewport_height` lines, scrolled by `scroll_offset` lines.
pub fn percent(content: &str, viewport_width: usize, viewport_height: usize, scroll_offset: usize) -> (p:
    u32)
    ensures
        p == percent_read(
            content@,
            viewport_width as nat,
            viewport_height as nat,
            scroll_offset as nat,
        ),
        p <= 100,
{
    if viewport_width == 0 {
        0
    } else {
        let wrapped = fill(content, viewport_width);
        percent_wrapped(wrapped.as_str(), viewport_height, scroll_offset)
    }
}

/// Text that fits into the viewport is read to the end, wherever the
/// scroll offset stands: where the wrapped lines of `content` are no more
/// than the viewport's height, the percentage is 100.
pub proof fn lemma_fitting_content_is_read(
    content: Seq<char>,
    width: nat,
    height: nat,
    scroll_offset: nat,
)
    requires
        width > 0,
        line_count(filled(content, width)) <= height,
    ensures
        percent_read(content, width, height, scroll_offset) == 100,
{
}

/// The percentage never falls when the reader scrolls on, and never leaves
/// the range from 0 to 100.
pub proof fn lemma_percent_grows(total_lines: nat, height: nat, a: nat, b: nat)
    requires
        a <= b,
    ensures
        percent_at(total_lines, height, a) <= percent_at(total_lines, height, b) <= 100,
{
    if total_lines > height {
        let m = (total_lines - height) as int;
        vstd::arithmetic::div_mod::lemma_div_is_ordered(200 * a + m, 200 * b + m, 2 * m);
    }
}

/// The title's progress figure: 0 where no text is loaded or the text is
/// empty, else [`percent_read`].
pub open spec fn progress_shown(
    content: Option<Seq<char>>,
    width: nat,
    height: nat,
    scroll_offset: nat,
) -> nat {
    match content {
        Some(text) if text.len() > 0 => percent_read(text, width, height, scroll_offset),
        _ => 0,
    }
}

/// The progress figure for the content pane's title.
pub fn chapter_progress(
    content: Option<&str>,
    viewport_width: usize,
    viewport_height: usize,
    scroll_offset: usize,
) -> (p: u32)
    ensures
        p == progress_shown(
            match content {
                Some(text) => Some(text@),
                None => None,
            },
            viewport_width as nat,
            viewport_height as nat,
            scroll_offset as nat,
        ),
        p <= 100,
{
    match content {
        Some(text) => {
            if !text.is_empty() {
                percent(text, viewport_width, viewport_height, scroll_offset)
            } else {
                0
            }
        },
        None => 0,
    }
}

} // verus!
