use bookrat::bookmark::{Bookmark, Timestamp};
use bookrat::reader::{Command, Controller, Pending, ReaderPosition};

fn bookmark(chapter: usize, scroll_offset: usize) -> Bookmark {
    Bookmark { chapter, scroll_offset, last_read: Timestamp { secs: 0, nanos: 0 } }
}

fn opened(total: usize) -> Controller {
    let mut c = Controller::new();
    let mut cmd = c.open_book(total, None);
    while cmd == Command::Advance {
        cmd = c.moved(true);
    }
    assert_eq!(cmd, Command::ReadChapter);
    assert_eq!(c.chapter_read(Some("<p>Some text</p>".to_string())), Command::Idle);
    c
}

#[test]
fn a_new_controller_browses() {
    let mut c = Controller::new();
    assert!(!c.is_reading());
    assert_eq!(c.content(), None);
    assert_eq!(c.next_chapter(), Command::Idle);
    assert_eq!(c.prev_chapter(), Command::Idle);
    assert_eq!(c.scroll_down(10), Command::Idle);
    assert_eq!(c.scroll_up(10), Command::Idle);
    assert_eq!(c.moved(true), Command::Idle);
    assert_eq!(c.sought(), Command::Idle);
    assert_eq!(c.chapter_read(Some("text".to_string())), Command::Idle);
    assert_eq!(c.content(), None);
    assert!(!c.is_reading());
}

#[test]
fn a_first_opening_skips_the_front_matter() {
    let mut c = Controller::new();
    assert_eq!(c.open_book(5, None), Command::Advance);
    assert_eq!(c.moved(true), Command::ReadChapter);
    assert_eq!(c.chapter_read(Some("<p>Hello</p>".to_string())), Command::Idle);
    assert!(c.is_reading());
    assert_eq!(
        c.position(),
        ReaderPosition { chapter_index: 1, total_chapters: 5, scroll_offset: 0, scroll_speed: 1 }
    );
    assert_eq!(c.content(), Some("Hello"));
}

#[test]
fn a_book_of_one_chapter_opens_at_it() {
    for total in [0, 1] {
        let mut c = Controller::new();
        assert_eq!(c.open_book(total, None), Command::ReadChapter);
        assert_eq!(c.position().chapter_index, 0);
        assert_eq!(c.position().scroll_offset, 0);
    }
}

#[test]
fn a_failed_skip_stays_at_the_first_chapter() {
    let mut c = Controller::new();
    assert_eq!(c.open_book(5, None), Command::Advance);
    assert_eq!(c.moved(false), Command::ReadChapter);
    assert_eq!(c.position().chapter_index, 0);
}

#[test]
fn a_bookmark_is_walked_to() {
    let mut c = Controller::new();
    assert_eq!(c.open_book(10, Some(bookmark(3, 120))), Command::Advance);
    assert_eq!(c.moved(true), Command::Advance);
    assert_eq!(c.moved(true), Command::Advance);
    assert_eq!(c.moved(true), Command::ReadChapter);
    assert_eq!(c.chapter_read(Some("<p>x</p>".to_string())), Command::Idle);
    assert_eq!(
        c.position(),
        ReaderPosition { chapter_index: 3, total_chapters: 10, scroll_offset: 120, scroll_speed: 1 }
    );
}

#[test]
fn a_bookmark_at_the_first_chapter_needs_no_step() {
    let mut c = Controller::new();
    assert_eq!(c.open_book(10, Some(bookmark(0, 42))), Command::ReadChapter);
    assert_eq!(c.position().chapter_index, 0);
    assert_eq!(c.position().scroll_offset, 42);
}

#[test]
fn an_unreachable_bookmark_falls_back() {
    let mut c = Controller::new();
    assert_eq!(c.open_book(3, Some(bookmark(7, 120))), Command::Advance);
    assert_eq!(c.moved(true), Command::Advance);
    assert_eq!(c.moved(true), Command::Advance);
    assert_eq!(c.moved(false), Command::Seek(1));
    assert_eq!(c.sought(), Command::ReadChapter);
    assert_eq!(c.chapter_read(None), Command::Idle);
    assert_eq!(
        c.position(),
        ReaderPosition { chapter_index: 1, total_chapters: 3, scroll_offset: 0, scroll_speed: 1 }
    );
    assert_eq!(c.content(), Some("Error reading chapter content."));

    let mut single = Controller::new();
    assert_eq!(single.open_book(1, Some(bookmark(2, 9))), Command::Advance);
    assert_eq!(single.moved(false), Command::Seek(0));
    assert_eq!(single.position().chapter_index, 0);
    assert_eq!(single.position().scroll_offset, 0);
}

#[test]
fn chapters_change_one_at_a_time() {
    let mut c = opened(3);
    assert_eq!(c.scroll_down(1000), Command::Persist { chapter: 1, scroll_offset: 1 });
    assert_eq!(c.next_chapter(), Command::Advance);
    assert_eq!(c.pending(), Pending::Next);
    assert_eq!(c.moved(true), Command::ReadChapter);
    assert_eq!(
        c.chapter_read(Some("<p>Two</p>".to_string())),
        Command::Persist { chapter: 2, scroll_offset: 0 }
    );
    assert_eq!(c.position().chapter_index, 2);
    assert_eq!(c.position().scroll_offset, 0);
    assert_eq!(c.content(), Some("Two"));
    // The last chapter: nothing further.
    assert_eq!(c.next_chapter(), Command::Idle);
    assert_eq!(c.position().chapter_index, 2);

    assert_eq!(c.prev_chapter(), Command::Retreat);
    assert_eq!(c.moved(true), Command::ReadChapter);
    assert_eq!(c.chapter_read(None), Command::Persist { chapter: 1, scroll_offset: 0 });
    assert_eq!(c.prev_chapter(), Command::Retreat);
    assert_eq!(c.moved(true), Command::ReadChapter);
    assert_eq!(c.chapter_read(None), Command::Persist { chapter: 0, scroll_offset: 0 });
    // The first chapter: nothing further.
    assert_eq!(c.prev_chapter(), Command::Idle);
    assert_eq!(c.position().chapter_index, 0);
}

#[test]
fn a_failed_step_changes_nothing() {
    let mut c = opened(3);
    assert_eq!(c.scroll_down(1000), Command::Persist { chapter: 1, scroll_offset: 1 });
    let before = c.position();
    assert_eq!(c.next_chapter(), Command::Advance);
    assert_eq!(c.moved(false), Command::Idle);
    assert_eq!(c.position(), before);
    assert_eq!(c.prev_chapter(), Command::Retreat);
    assert_eq!(c.moved(false), Command::Idle);
    assert_eq!(c.position(), before);
    assert_eq!(c.content(), Some("Some text"));
    assert_eq!(c.pending(), Pending::Nothing);
}

#[test]
fn keys_wait_for_the_answer() {
    let mut c = opened(3);
    assert_eq!(c.next_chapter(), Command::Advance);
    assert_eq!(c.next_chapter(), Command::Idle);
    assert_eq!(c.prev_chapter(), Command::Idle);
    assert_eq!(c.scroll_down(5000), Command::Idle);
    assert_eq!(c.toggle_debug(), Command::Idle);
    assert_eq!(c.pending(), Pending::Next);
}

#[test]
fn quick_steps_scroll_faster() {
    let mut c = opened(3);
    // The first step after a pause goes one line.
    assert_eq!(c.scroll_down(1000), Command::Persist { chapter: 1, scroll_offset: 1 });
    assert_eq!(c.position().scroll_speed, 1);
    // A second one within 100 ms goes two.
    assert_eq!(c.scroll_down(1050), Command::Persist { chapter: 1, scroll_offset: 3 });
    assert_eq!(c.position().scroll_speed, 2);
    // One after 200 ms goes one again.
    assert_eq!(c.scroll_down(1250), Command::Persist { chapter: 1, scroll_offset: 4 });
    assert_eq!(c.position().scroll_speed, 1);
    // At exactly 100 ms the burst is over.
    assert_eq!(c.scroll_down(1350), Command::Persist { chapter: 1, scroll_offset: 5 });
    assert_eq!(c.position().scroll_speed, 1);
    assert_eq!(c.scroll_down(1449), Command::Persist { chapter: 1, scroll_offset: 7 });
    assert_eq!(c.position().scroll_speed, 2);
}

#[test]
fn the_speed_stops_at_ten() {
    let mut c = opened(3);
    let mut now = 1000;
    c.scroll_down(now);
    let mut expected = 1;
    for step in 2..=15usize {
        now += 10;
        let speed = step.min(10);
        expected += speed;
        assert_eq!(c.scroll_down(now), Command::Persist { chapter: 1, scroll_offset: expected });
        assert_eq!(c.position().scroll_speed, speed);
    }
}

#[test]
fn a_turn_keeps_the_speed_up() {
    let mut c = opened(3);
    c.scroll_down(1000);
    c.scroll_down(1010);
    c.scroll_down(1020);
    assert_eq!(c.position().scroll_offset, 6);
    assert_eq!(c.scroll_up(1030), Command::Persist { chapter: 1, scroll_offset: 2 });
    assert_eq!(c.position().scroll_speed, 4);
    assert_eq!(c.scroll_up(1040), Command::Persist { chapter: 1, scroll_offset: 0 });
    assert_eq!(c.scroll_up(1050), Command::Persist { chapter: 1, scroll_offset: 0 });
    assert_eq!(c.position().scroll_speed, 6);
}

#[test]
fn a_clock_that_runs_back_counts_as_no_pause() {
    let mut c = opened(3);
    c.scroll_down(1000);
    assert_eq!(c.scroll_down(900), Command::Persist { chapter: 1, scroll_offset: 3 });
    assert_eq!(c.position().scroll_speed, 2);
}

#[test]
fn scrolling_down_has_no_bound_but_the_number() {
    let mut c = Controller::new();
    assert_eq!(c.open_book(1, Some(bookmark(0, usize::MAX - 1))), Command::ReadChapter);
    c.chapter_read(Some("text".to_string()));
    assert_eq!(c.scroll_down(1000), Command::Persist { chapter: 0, scroll_offset: usize::MAX });
    assert_eq!(c.scroll_down(1010), Command::Persist { chapter: 0, scroll_offset: usize::MAX });
}

#[test]
fn a_chapter_without_text_shows_a_notice() {
    let mut c = Controller::new();
    c.open_book(1, None);
    assert_eq!(c.chapter_read(Some("<p>  </p>".to_string())), Command::Idle);
    assert_eq!(c.content(), Some("No content available in this chapter."));
    // The notice is text, so it scrolls.
    assert_eq!(c.scroll_down(1000), Command::Persist { chapter: 0, scroll_offset: 1 });
}

#[test]
fn debug_mode_shows_the_markup() {
    let mut c = opened(3);
    assert!(!c.debug_mode());
    assert_eq!(c.toggle_debug(), Command::ReadChapter);
    assert!(c.debug_mode());
    assert_eq!(c.chapter_read(Some("<p>Some text</p>".to_string())), Command::Idle);
    assert_eq!(c.content(), Some("<p>Some text</p>"));
    assert_eq!(c.toggle_debug(), Command::ReadChapter);
    assert_eq!(c.chapter_read(Some("<p>Some text</p>".to_string())), Command::Idle);
    assert_eq!(c.content(), Some("Some text"));

    // Empty markup in debug mode is empty text, which does not scroll.
    assert_eq!(c.toggle_debug(), Command::ReadChapter);
    assert_eq!(c.chapter_read(Some(String::new())), Command::Idle);
    assert_eq!(c.content(), Some(""));
    assert_eq!(c.scroll_down(9000), Command::Idle);
}

#[test]
fn debug_mode_without_a_book_says_so() {
    let mut c = Controller::new();
    assert_eq!(c.toggle_debug(), Command::Idle);
    assert!(c.debug_mode());
    assert_eq!(c.content(), Some("No EPUB document loaded."));
    assert!(!c.is_reading());
}

#[test]
fn opening_another_book_starts_afresh() {
    let mut c = opened(3);
    c.scroll_down(1000);
    c.scroll_down(1010);
    assert_eq!(c.open_book(8, Some(bookmark(2, 5))), Command::Advance);
    assert_eq!(c.moved(true), Command::Advance);
    assert_eq!(c.moved(true), Command::ReadChapter);
    assert_eq!(
        c.position(),
        ReaderPosition { chapter_index: 2, total_chapters: 8, scroll_offset: 5, scroll_speed: 1 }
    );
}
