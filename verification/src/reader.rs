//! The reading position: which chapter is open, how far it is scrolled,
//! and how fast scrolling goes.
//!
//! The controller never touches the chapter source or the bookmark file
//! itself. Each of its steps takes what happened (a key, the answer of the
//! chapter source) and returns a [`Command`]: the one thing the caller is to
//! do next. The caller carries the command out and reports back with
//! [`Controller::moved`], [`Controller::sought`] or
//! [`Controller::chapter_read`], until the command is [`Command::Idle`] or
//! [`Command::Persist`]. While an answer is awaited, keys are ignored.

use vstd::prelude::*;
use crate::bookmark::Bookmark;
use crate::markup::{normalize, normalized};

verus! {

/// The fastest that scrolling gets, in lines per step.
pub const MAX_SCROLL_SPEED: usize = 10;

/// Two scroll steps closer together than this many milliseconds count as
/// one continued movement.
pub const SCROLL_BURST_MS: u64 = 100;

/// Where the reader stands in the open book.
#[derive(Clone, Copy, PartialEq, Eq, Structural, Debug)]
pub struct ReaderPosition {
    pub chapter_index: usize,
    pub total_chapters: usize,
    pub scroll_offset: usize,
    pub scroll_speed: usize,
}

/// What the caller is to do next.
#[derive(Clone, Copy, PartialEq, Eq, Structural, Debug)]
pub enum Command {
    /// Nothing.
    Idle,
    /// Move the chapter source one chapter forward and report whether it
    /// did, with [`Controller::moved`].
    Advance,
    /// Move the chapter source one chapter back and report whether it did,
    /// with [`Controller::moved`].
    Retreat,
    /// Set the chapter source to the chapter with this index and report
    /// with [`Controller::sought`].
    Seek(usize),
    /// Read the text of the chapter that the source stands at and report
    /// it with [`Controller::chapter_read`].
    ReadChapter,
    /// Record this position as the open book's bookmark and write the
    /// bookmarks out.
    Persist { chapter: usize, scroll_offset: usize },
}

/// The answer that the controller waits for.
#[derive(Clone, Copy, PartialEq, Eq, Structural, Debug)]
pub enum Pending {
    /// None: keys are taken.
    Nothing,
    /// A step forward on the way to the bookmarked chapter `target`, where
    /// the text is to be scrolled by `scroll_offset`.
    Restoring { target: usize, scroll_offset: usize },
    /// The step over the first chapter of a book without bookmark.
    Skipping,
    /// The step to the next chapter.
    Next,
    /// The step to the previous chapter.
    Previous,
    /// The jump to the chapter that is opened when the bookmarked one
    /// cannot be reached.
    Fallback,
    /// The chapter's text; `persist` says whether the position is to be
    /// recorded once the text is there.
    Loading { persist: bool },
}

/// The controller's state as a plain value.
pub struct ReaderState {
    /// Whether a book is open.
    pub reading: bool,
    pub pending: Pending,
    pub position: ReaderPosition,
    /// When the reader last scrolled, in milliseconds on the caller's clock.
    pub last_scroll_time: u64,
    /// Whether chapters are shown as raw markup.
    pub debug: bool,
    /// The text on show.
    pub content: Option<Seq<char>>,
}

/// The chapter that is opened when the bookmarked one cannot be reached:
/// the second where the book has more than one, else the first.
pub open spec fn fallback_chapter(total_chapters: usize) -> usize {
    if total_chapters > 1 {
        1
    } else {
        0
    }
}

/// The text shown for what the chapter source returned: the raw markup in
/// debug mode, else its normalized text, and a notice where the chapter
/// could not be read or holds no text.
pub open spec fn shown(text: Option<Seq<char>>, debug: bool) -> Seq<char> {
    match text {
        None => "Error reading chapter content."@,
        Some(raw) => if debug {
            raw
        } else if normalized(raw).len() == 0 {
            "No content available in this chapter."@
        } else {
            normalized(raw)
        },
    }
}

/// The scroll speed of a step made `elapsed` milliseconds after the one
/// before, which went at `speed`.
pub open spec fn next_speed(speed: usize, elapsed: int) -> usize {
    if elapsed < SCROLL_BURST_MS {
        if speed < MAX_SCROLL_SPEED {
            (speed + 1) as usize
        } else {
            MAX_SCROLL_SPEED
        }
    } else {
        1
    }
}

/// The milliseconds from `earlier` to `later`, none where `later` is not
/// the later one.
pub open spec fn elapsed_ms(earlier: u64, later: u64) -> int {
    if later >= earlier {
        later - earlier
    } else {
        0
    }
}

/// `offset` moved by `speed` lines, down or up, within what `usize` holds.
pub open spec fn scrolled_offset(offset: usize, speed: usize, down: bool) -> usize {
    if down {
        if offset + speed > usize::MAX {
            usize::MAX
        } else {
            (offset + speed) as usize
        }
    } else {
        if offset >= speed {
            (offset - speed) as usize
        } else {
            0
        }
    }
}

impl ReaderState {
    /// What holds of every state that the controller reaches.
    pub open spec fn wf(self) -> bool {
        &&& 1 <= self.position.scroll_speed <= MAX_SCROLL_SPEED
        &&& !self.reading ==> self.pending == Pending::Nothing
        &&& self.pending matches Pending::Restoring { target, .. } ==> self.position.chapter_index
            < target
        &&& self.pending == Pending::Skipping ==> self.position.chapter_index == 0
        &&& self.pending == Pending::Next ==> self.position.chapter_index + 1
            < self.position.total_chapters
        &&& self.pending == Pending::Previous ==> self.position.chapter_index > 0
    }

    /// The state before any book is opened.
    pub open spec fn initial() -> ReaderState {
        ReaderState {
            reading: false,
            pending: Pending::Nothing,
            position: ReaderPosition {
                chapter_index: 0,
                total_chapters: 0,
                scroll_offset: 0,
                scroll_speed: 1,
            },
            last_scroll_time: 0,
            debug: false,
            content: None,
        }
    }

    /// Whether keys are taken: a book is open and no answer is awaited.
    pub open spec fn ready(self) -> bool {
        self.reading && self.pending == Pending::Nothing
    }

    /// Whether the text on show can be scrolled.
    pub open spec fn can_scroll(self) -> bool {
        &&& self.ready()
        &&& self.content matches Some(text)
        &&& text.len() > 0
    }

    /// The state with the position `position` and the awaited answer
    /// `pending`.
    pub open spec fn at(self, position: ReaderPosition, pending: Pending) -> ReaderState {
        ReaderState { position, pending, ..self }
    }

    /// Opening a book of `total_chapters` chapters, with the bookmark it
    /// was left with.
    pub open spec fn opened(self, total_chapters: usize, bookmark: Option<Bookmark>) -> (
        ReaderState,
        Command,
    ) {
        let start = ReaderPosition {
            chapter_index: 0,
            total_chapters,
            scroll_offset: 0,
            scroll_speed: 1,
        };
        let open = ReaderState { reading: true, ..self };
        match bookmark {
            Some(b) => if b.chapter == 0 {
                (
                    open.at(
                        ReaderPosition { scroll_offset: b.scroll_offset, ..start },
                        Pending::Loading { persist: false },
                    ),
                    Command::ReadChapter,
                )
            } else {
                (
                    open.at(
                        start,
                        Pending::Restoring { target: b.chapter, scroll_offset: b.scroll_offset },
                    ),
                    Command::Advance,
                )
            },
            None => if total_chapters > 1 {
                (open.at(start, Pending::Skipping), Command::Advance)
            } else {
                (open.at(start, Pending::Loading { persist: false }), Command::ReadChapter)
            },
        }
    }

    /// The chapter source answering a step: `ok` says whether it moved.
    pub open spec fn after_move(self, ok: bool) -> (ReaderState, Command) {
        let p = self.position;
        match self.pending {
            Pending::Restoring { target, scroll_offset } => if !ok {
                let chapter = fallback_chapter(p.total_chapters);
                (
                    self.at(
                        ReaderPosition { chapter_index: chapter, scroll_offset: 0, ..p },
                        Pending::Fallback,
                    ),
                    Command::Seek(chapter),
                )
            } else if p.chapter_index + 1 == target {
                (
                    self.at(
                        ReaderPosition { chapter_index: target, scroll_offset, ..p },
                        Pending::Loading { persist: false },
                    ),
                    Command::ReadChapter,
                )
            } else {
                (
                    self.at(
                        ReaderPosition { chapter_index: (p.chapter_index + 1) as usize, ..p },
                        self.pending,
                    ),
                    Command::Advance,
                )
            },
            Pending::Skipping => (
                self.at(
                    ReaderPosition {
                        chapter_index: if ok {
                            1
                        } else {
                            0
                        },
                        ..p
                    },
                    Pending::Loading { persist: false },
                ),
                Command::ReadChapter,
            ),
            Pending::Next => if ok {
                (
                    self.at(
                        ReaderPosition {
                            chapter_index: (p.chapter_index + 1) as usize,
                            scroll_offset: 0,
                            ..p
                        },
                        Pending::Loading { persist: true },
                    ),
                    Command::ReadChapter,
                )
            } else {
                (self.at(p, Pending::Nothing), Command::Idle)
            },
            Pending::Previous => if ok {
                (
                    self.at(
                        ReaderPosition {
                            chapter_index: (p.chapter_index - 1) as usize,
                            scroll_offset: 0,
                            ..p
                        },
                        Pending::Loading { persist: true },
                    ),
                    Command::ReadChapter,
                )
            } else {
                (self.at(p, Pending::Nothing), Command::Idle)
            },
            _ => (self, Command::Idle),
        }
    }

    /// The chapter source answering a jump.
    pub open spec fn after_seek(self) -> (ReaderState, Command) {
        if self.pending == Pending::Fallback {
            (self.at(self.position, Pending::Loading { persist: false }), Command::ReadChapter)
        } else {
            (self, Command::Idle)
        }
    }

    /// The chapter source answering with the chapter's text, or with none
    /// where it could not be read.
    pub open spec fn after_read(self, text: Option<Seq<char>>) -> (ReaderState, Command) {
        match self.pending {
            Pending::Loading { persist } => (
                ReaderState {
                    content: Some(shown(text, self.debug)),
                    pending: Pending::Nothing,
                    ..self
                },
                if persist {
                    Command::Persist {
                        chapter: self.position.chapter_index,
                        scroll_offset: self.position.scroll_offset,
                    }
                } else {
                    Command::Idle
                },
            ),
            _ => (self, Command::Idle),
        }
    }

    /// The key for the next chapter.
    pub open spec fn next_requested(self) -> (ReaderState, Command) {
        if self.ready() && self.position.chapter_index + 1 < self.position.total_chapters {
            (self.at(self.position, Pending::Next), Command::Advance)
        } else {
            (self, Command::Idle)
        }
    }

    /// The key for the previous chapter.
    pub open spec fn previous_requested(self) -> (ReaderState, Command) {
        if self.ready() && self.position.chapter_index > 0 {
            (self.at(self.position, Pending::Previous), Command::Retreat)
        } else {
            (self, Command::Idle)
        }
    }

    /// A scroll key at the time `now`, down or up.
    pub open spec fn scrolled(self, down: bool, now: u64) -> (ReaderState, Command) {
        if self.can_scroll() {
            let speed = next_speed(
                self.position.scroll_speed,
                elapsed_ms(self.last_scroll_time, now),
            );
            let offset = scrolled_offset(self.position.scroll_offset, speed, down);
            (
                ReaderState {
                    position: ReaderPosition {
                        scroll_offset: offset,
                        scroll_speed: speed,
                        ..self.position
                    },
                    last_scroll_time: now,
                    ..self
                },
                Command::Persist { chapter: self.position.chapter_index, scroll_offset: offset },
            )
        } else {
            (self, Command::Idle)
        }
    }

    /// The key that switches between normalized text and raw markup.
    pub open spec fn debug_toggled(self) -> (ReaderState, Command) {
        if self.pending != Pending::Nothing {
            (self, Command::Idle)
        } else if self.reading {
            (
                ReaderState {
                    debug: !self.debug,
                    pending: Pending::Loading { persist: false },
                    ..self
                },
                Command::ReadChapter,
            )
        } else {
            (
                ReaderState {
                    debug: !self.debug,
                    content: Some("No EPUB document loaded."@),
                    ..self
                },
                Command::Idle,
            )
        }
    }
}

/// The state after `steps` more steps forward that the chapter source made.
pub open spec fn walked(state: ReaderState, steps: nat) -> ReaderState
    decreases steps,
{
    if steps == 0 {
        state
    } else {
        walked(state.after_move(true).0, (steps - 1) as nat)
    }
}

/// Every step of the controller leaves the state well formed.
pub proof fn lemma_steps_keep_wf(
    state: ReaderState,
    total_chapters: usize,
    bookmark: Option<Bookmark>,
    ok: bool,
    text: Option<Seq<char>>,
    down: bool,
    now: u64,
)
    requires
        state.wf(),
    ensures
        state.opened(total_chapters, bookmark).0.wf(),
        state.after_move(ok).0.wf(),
        state.after_seek().0.wf(),
        state.after_read(text).0.wf(),
        state.next_requested().0.wf(),
        state.previous_requested().0.wf(),
        state.scrolled(down, now).0.wf(),
        state.debug_toggled().0.wf(),
{
}

/// A book of more than one chapter that has no bookmark opens at its
/// second chapter, unscrolled: the controller asks for one step forward,
/// and when the chapter source has made it, for the chapter's text.
pub proof fn lemma_first_opening_skips_front_matter(state: ReaderState, total_chapters: usize)
    requires
        total_chapters > 1,
    ensures
        state.opened(total_chapters, None).1 == Command::Advance,
        state.opened(total_chapters, None).0.after_move(true).1 == Command::ReadChapter,
        state.opened(total_chapters, None).0.after_move(true).0.reading,
        state.opened(total_chapters, None).0.after_move(true).0.position == (ReaderPosition {
            chapter_index: 1,
            total_chapters,
            scroll_offset: 0,
            scroll_speed: 1,
        }),
{
}

/// A book that has no bookmark and no more than one chapter opens at its
/// first chapter, unscrolled, without a step.
pub proof fn lemma_short_book_opens_at_start(state: ReaderState, total_chapters: usize)
    requires
        total_chapters <= 1,
    ensures
        state.opened(total_chapters, None).1 == Command::ReadChapter,
        state.opened(total_chapters, None).0.position == (ReaderPosition {
            chapter_index: 0,
            total_chapters,
            scroll_offset: 0,
            scroll_speed: 1,
        }),
{
}

/// On the way to a bookmarked chapter, as many steps forward as are still
/// missing bring the reader to it, scrolled as the bookmark says; the text
/// is asked for and nothing is recorded.
pub proof fn lemma_walk_reaches_target(state: ReaderState, target: usize, scroll_offset: usize)
    requires
        state.pending == (Pending::Restoring { target, scroll_offset }),
        state.position.chapter_index < target,
    ensures
        walked(state, (target - state.position.chapter_index) as nat) == state.at(
            ReaderPosition { chapter_index: target, scroll_offset, ..state.position },
            Pending::Loading { persist: false },
        ),
    decreases target - state.position.chapter_index,
{
    let steps = (target - state.position.chapter_index) as nat;
    let next = state.after_move(true).0;
    if state.position.chapter_index + 1 == target {
        assert(walked(next, 0) == next);
    } else {
        lemma_walk_reaches_target(next, target, scroll_offset);
        assert(walked(state, steps) == walked(next, (steps - 1) as nat));
    }
}

/// A book with a bookmark opens where the bookmark says, when the chapter
/// source makes all the steps asked of it: the reader stands at the
/// bookmarked chapter, scrolled by the bookmarked offset.
pub proof fn lemma_bookmark_is_restored(state: ReaderState, total_chapters: usize, b: Bookmark)
    ensures
        walked(state.opened(total_chapters, Some(b)).0, b.chapter as nat).position == (
        ReaderPosition {
            chapter_index: b.chapter,
            total_chapters,
            scroll_offset: b.scroll_offset,
            scroll_speed: 1,
        }),
        walked(state.opened(total_chapters, Some(b)).0, b.chapter as nat).pending == (
        Pending::Loading { persist: false }),
{
    let open = state.opened(total_chapters, Some(b)).0;
    if b.chapter > 0 {
        lemma_walk_reaches_target(open, b.chapter, b.scroll_offset);
    }
}

/// When the chapter source fails a step on the way to a bookmarked
/// chapter, the reader is put at the fallback chapter, unscrolled, and the
/// chapter source is sent there.
pub proof fn lemma_failed_walk_falls_back(state: ReaderState, target: usize, scroll_offset: usize)
    requires
        state.pending == (Pending::Restoring { target, scroll_offset }),
    ensures
        state.after_move(false).1 == Command::Seek(
            fallback_chapter(state.position.total_chapters),
        ),
        state.after_move(false).0.position == (ReaderPosition {
            chapter_index: fallback_chapter(state.position.total_chapters),
            scroll_offset: 0,
            ..state.position
        }),
        state.after_move(false).0.after_seek().1 == Command::ReadChapter,
        state.after_move(false).0.after_seek().0.position == state.after_move(false).0.position,
{
}

/// A step to another chapter that the chapter source did not make leaves
/// the reader where it was, with the same text, and ready for the next key.
pub proof fn lemma_failed_step_changes_nothing(state: ReaderState)
    requires
        state.ready(),
    ensures
        state.next_requested().0.after_move(false).0 == state,
        state.next_requested().0.after_move(false).1 == Command::Idle,
        state.previous_requested().0.after_move(false).0 == state,
        state.previous_requested().0.after_move(false).1 == Command::Idle,
{
}

/// A step to another chapter that the chapter source made moves the reader
/// by one chapter, to the top of it, and the position is recorded once the
/// chapter's text has come.
pub proof fn lemma_step_moves_one_chapter(state: ReaderState, text: Option<Seq<char>>)
    requires
        state.ready(),
    ensures
        state.position.chapter_index + 1 < state.position.total_chapters ==> {
            let after = state.next_requested().0.after_move(true).0.after_read(text);
            &&& after.0.position == (ReaderPosition {
                chapter_index: (state.position.chapter_index + 1) as usize,
                scroll_offset: 0,
                ..state.position
            })
            &&& after.0.content == Some(shown(text, state.debug))
            &&& after.1 == (Command::Persist {
                chapter: (state.position.chapter_index + 1) as usize,
                scroll_offset: 0,
            })
        },
        state.position.chapter_index > 0 ==> {
            let after = state.previous_requested().0.after_move(true).0.after_read(text);
            &&& after.0.position == (ReaderPosition {
                chapter_index: (state.position.chapter_index - 1) as usize,
                scroll_offset: 0,
                ..state.position
            })
            &&& after.0.content == Some(shown(text, state.debug))
            &&& after.1 == (Command::Persist {
                chapter: (state.position.chapter_index - 1) as usize,
                scroll_offset: 0,
            })
        },
{
}

/// Scrolling speeds up in a burst and not otherwise, whichever way each
/// step goes: of two scroll steps, the second goes one line faster than the
/// first, up to the maximum, where it comes less than 100 ms after it, and
/// one line where it comes later. Every step is recorded.
pub proof fn lemma_scroll_acceleration(
    state: ReaderState,
    first_down: bool,
    first: u64,
    second_down: bool,
    second: u64,
)
    requires
        state.wf(),
        state.can_scroll(),
        first <= second,
    ensures
        ({
            let one = state.scrolled(first_down, first).0;
            let two = one.scrolled(second_down, second);
            &&& one.can_scroll()
            &&& second - first < SCROLL_BURST_MS ==> two.0.position.scroll_speed == if one.position.scroll_speed
                < MAX_SCROLL_SPEED {
                one.position.scroll_speed + 1
            } else {
                MAX_SCROLL_SPEED as int
            }
            &&& second - first >= SCROLL_BURST_MS ==> two.0.position.scroll_speed == 1
            &&& two.0.position.scroll_offset == scrolled_offset(
                one.position.scroll_offset,
                two.0.position.scroll_speed,
                second_down,
            )
            &&& two.1 == (Command::Persist {
                chapter: state.position.chapter_index,
                scroll_offset: two.0.position.scroll_offset,
            })
        }),
{
}

/// While no book is open, or while an answer is awaited, a scroll key
/// changes nothing.
pub proof fn lemma_scroll_needs_text(state: ReaderState, down: bool, now: u64)
    requires
        !state.can_scroll(),
    ensures
        state.scrolled(down, now) == (state, Command::Idle),
{
}

/// The reading position controller.
pub struct Controller {
    reading: bool,
    pending: Pending,
    position: ReaderPosition,
    last_scroll_time: u64,
    debug: bool,
    content: Option<String>,
}

impl View for Controller {
    type V = ReaderState;

    closed spec fn view(&self) -> ReaderState {
        ReaderState {
            reading: self.reading,
            pending: self.pending,
            position: self.position,
            last_scroll_time: self.last_scroll_time,
            debug: self.debug,
            content: match self.content {
                Some(text) => Some(text@),
                None => None,
            },
        }
    }
}

impl Controller {
    /// A controller with no book open.
    pub fn new() -> (c: Controller)
        ensures
            c@ == ReaderState::initial(),
            c@.wf(),
    {
        Controller {
            reading: false,
            pending: Pending::Nothing,
            position: ReaderPosition {
                chapter_index: 0,
                total_chapters: 0,
                scroll_offset: 0,
                scroll_speed: 1,
            },
            last_scroll_time: 0,
            debug: false,
            content: None,
        }
    }

    /// The reader's position.
    pub fn position(&self) -> (p: ReaderPosition)
        ensures
            p == self@.position,
    {
        self.position
    }

    /// Whether a book is open.
    pub fn is_reading(&self) -> (b: bool)
        ensures
            b == self@.reading,
    {
        self.reading
    }

    /// Whether chapters are shown as raw markup.
    pub fn debug_mode(&self) -> (b: bool)
        ensures
            b == self@.debug,
    {
        self.debug
    }

    /// The answer that is awaited.
    pub fn pending(&self) -> (p: Pending)
        ensures
            p == self@.pending,
    {
        self.pending
    }

    /// The text on show.
    pub fn content(&self) -> (text: Option<&str>)
        ensures
            match text {
                Some(t) => self@.content == Some(t@),
                None => self@.content is None,
            },
    {
        match &self.content {
            Some(t) => Some(t.as_str()),
            None => None,
        }
    }

    /// Opens a book of `total_chapters` chapters whose chapter source
    /// stands at its first chapter. `bookmark` is the bookmark that the
    /// book was left with.
    pub fn open_book(&mut self, total_chapters: usize, bookmark: Option<Bookmark>) -> (cmd: Command)
        requires
            old(self)@.wf(),
        ensures
            (final(self)@, cmd) == old(self)@.opened(total_chapters, bookmark),
            final(self)@.wf(),
    {
        self.reading = true;
        self.position =
        ReaderPosition { chapter_index: 0, total_chapters, scroll_offset: 0, scroll_speed: 1 };
        match bookmark {
            Some(b) => {
                if b.chapter == 0 {
                    self.position.scroll_offset = b.scroll_offset;
                    self.pending = Pending::Loading { persist: false };
                    Command::ReadChapter
                } else {
                    self.pending =
                    Pending::Restoring { target: b.chapter, scroll_offset: b.scroll_offset };
                    Command::Advance
                }
            },
            None => {
                if total_chapters > 1 {
                    self.pending = Pending::Skipping;
                    Command::Advance
                } else {
                    self.pending = Pending::Loading { persist: false };
                    Command::ReadChapter
                }
            },
        }
    }

    /// Takes the chapter source's answer to [`Command::Advance`] or
    /// [`Command::Retreat`]: `ok` says whether it moved.
    pub fn moved(&mut self, ok: bool) -> (cmd: Command)
        requires
            old(self)@.wf(),
        ensures
            (final(self)@, cmd) == old(self)@.after_move(ok),
            final(self)@.wf(),
    {
        match self.pending {
            Pending::Restoring { target, scroll_offset } => {
                if !ok {
                    let chapter = if self.position.total_chapters > 1 {
                        1
                    } else {
                        0
                    };
                    self.position.chapter_index = chapter;
                    self.position.scroll_offset = 0;
                    self.pending = Pending::Fallback;
                    Command::Seek(chapter)
                } else if self.position.chapter_index + 1 == target {
                    self.position.chapter_index = target;
                    self.position.scroll_offset = scroll_offset;
                    self.pending = Pending::Loading { persist: false };
                    Command::ReadChapter
                } else {
                    self.position.chapter_index = self.position.chapter_index + 1;
                    Command::Advance
                }
            },
            Pending::Skipping => {
                self.position.chapter_index = if ok {
                    1
                } else {
                    0
                };
                self.pending = Pending::Loading { persist: false };
                Command::ReadChapter
            },
            Pending::Next => {
                if ok {
                    self.position.chapter_index = self.position.chapter_index + 1;
                    self.position.scroll_offset = 0;
                    self.pending = Pending::Loading { persist: true };
                    Command::ReadChapter
                } else {
                    self.pending = Pending::Nothing;
                    Command::Idle
                }
            },
            Pending::Previous => {
                if ok {
                    self.position.chapter_index = self.position.chapter_index - 1;
                    self.position.scroll_offset = 0;
                    self.pending = Pending::Loading { persist: true };
                    Command::ReadChapter
                } else {
                    self.pending = Pending::Nothing;
                    Command::Idle
                }
            },
            _ => Command::Idle,
        }
    }

    /// Takes the chapter source's answer to [`Command::Seek`].
    pub fn sought(&mut self) -> (cmd: Command)
        requires
            old(self)@.wf(),
        ensures
            (final(self)@, cmd) == old(self)@.after_seek(),
            final(self)@.wf(),
    {
        match self.pending {
            Pending::Fallback => {
                self.pending = Pending::Loading { persist: false };
                Command::ReadChapter
            },
            _ => Command::Idle,
        }
    }

    /// Takes the chapter source's answer to [`Command::ReadChapter`]: the
    /// chapter's markup, or none where it could not be read.
    pub fn chapter_read(&mut self, text: Option<String>) -> (cmd: Command)
        requires
            old(self)@.wf(),
        ensures
            (final(self)@, cmd) == old(self)@.after_read(
                match text {
                    Some(t) => Some(t@),
                    None => None,
                },
            ),
            final(self)@.wf(),
    {
        match self.pending {
            Pending::Loading { persist } => {
                let content = match text {
                    None => "Error reading chapter content.".to_owned(),
                    Some(raw) => {
                        if self.debug {
                            raw
                        } else {
                            let clean = normalize(raw.as_str());
                            if clean.as_str().is_empty() {
                                "No content available in this chapter.".to_owned()
                            } else {
                                clean
                            }
                        }
                    },
                };
                self.content = Some(content);
                self.pending = Pending::Nothing;
                if persist {
                    Command::Persist {
                        chapter: self.position.chapter_index,
                        scroll_offset: self.position.scroll_offset,
                    }
                } else {
                    Command::Idle
                }
            },
            _ => Command::Idle,
        }
    }

    /// Takes the key for the next chapter. At the last chapter nothing
    /// happens.
    pub fn next_chapter(&mut self) -> (cmd: Command)
        requires
            old(self)@.wf(),
        ensures
            (final(self)@, cmd) == old(self)@.next_requested(),
            final(self)@.wf(),
    {
        if self.reading && self.pending == Pending::Nothing && self.position.total_chapters > 0
            && self.position.chapter_index < self.position.total_chapters - 1 {
            self.pending = Pending::Next;
            Command::Advance
        } else {
            Command::Idle
        }
    }

    /// Takes the key for the previous chapter. At the first chapter nothing
    /// happens.
    pub fn prev_chapter(&mut self) -> (cmd: Command)
        requires
            old(self)@.wf(),
        ensures
            (final(self)@, cmd) == old(self)@.previous_requested(),
            final(self)@.wf(),
    {
        if self.reading && self.pending == Pending::Nothing && self.position.chapter_index > 0 {
            self.pending = Pending::Previous;
            Command::Retreat
        } else {
            Command::Idle
        }
    }

    fn scroll(&mut self, down: bool, now: u64) -> (cmd: Command)
        requires
            old(self)@.wf(),
        ensures
            (final(self)@, cmd) == old(self)@.scrolled(down, now),
            final(self)@.wf(),
    {
        let has_text = match &self.content {
            Some(text) => !text.as_str().is_empty(),
            None => false,
        };
        if self.reading && self.pending == Pending::Nothing && has_text {
            let elapsed = if now >= self.last_scroll_time {
                now - self.last_scroll_time
            } else {
                0
            };
            let speed = if elapsed < SCROLL_BURST_MS {
                if self.position.scroll_speed < MAX_SCROLL_SPEED {
                    self.position.scroll_speed + 1
                } else {
                    MAX_SCROLL_SPEED
                }
            } else {
                1
            };
            let offset = if down {
                self.position.scroll_offset.saturating_add(speed)
            } else {
                self.position.scroll_offset.saturating_sub(speed)
            };
            self.position.scroll_speed = speed;
            self.position.scroll_offset = offset;
            self.last_scroll_time = now;
            Command::Persist { chapter: self.position.chapter_index, scroll_offset: offset }
        } else {
            Command::Idle
        }
    }

    /// Takes the key that scrolls down, pressed at `now` milliseconds on
    /// the caller's clock.
    pub fn scroll_down(&mut self, now: u64) -> (cmd: Command)
        requires
            old(self)@.wf(),
        ensures
            (final(self)@, cmd) == old(self)@.scrolled(true, now),
            final(self)@.wf(),
    {
        self.scroll(true, now)
    }

    /// Takes the key that scrolls up, pressed at `now` milliseconds on the
    /// caller's clock.
    pub fn scroll_up(&mut self, now: u64) -> (cmd: Command)
        requires
            old(self)@.wf(),
        ensures
            (final(self)@, cmd) == old(self)@.scrolled(false, now),
            final(self)@.wf(),
    {
        self.scroll(false, now)
    }

    /// Takes the key that switches between normalized text and raw markup.
    pub fn toggle_debug(&mut self) -> (cmd: Command)
        requires
            old(self)@.wf(),
        ensures
            (final(self)@, cmd) == old(self)@.debug_toggled(),
            final(self)@.wf(),
    {
        if self.pending != Pending::Nothing {
            Command::Idle
        } else if self.reading {
            self.debug = !self.debug;
            self.pending = Pending::Loading { persist: false };
            Command::ReadChapter
        } else {
            self.debug = !self.debug;
            self.content = Some("No EPUB document loaded.".to_owned());
            Command::Idle
        }
    }
}

} // verus!
