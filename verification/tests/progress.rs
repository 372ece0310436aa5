use bookrat::progress::{chapter_progress, count_lines, percent, percent_of_lines, percent_wrapped};
use bookrat::text::to_chars;

#[test]
fn content_that_fits_is_read() {
    for scroll in [0, 1, 7, 1000, usize::MAX] {
        assert_eq!(percent("one short line", 40, 10, scroll), 100);
        assert_eq!(percent("aaa bbb ccc ddd", 3, 4, scroll), 100);
        assert_eq!(percent("", 40, 10, scroll), 100);
        assert_eq!(percent_of_lines(10, 10, scroll), 100);
        assert_eq!(percent_of_lines(3, 10, scroll), 100);
        assert_eq!(percent_of_lines(0, 0, scroll), 100);
    }
}

#[test]
fn wrapped_lines_count() {
    // Four words of three letters at width three: four lines, two of them
    // beyond a viewport of two.
    assert_eq!(percent("aaa bbb ccc ddd", 3, 2, 0), 0);
    assert_eq!(percent("aaa bbb ccc ddd", 3, 2, 1), 50);
    assert_eq!(percent("aaa bbb ccc ddd", 3, 2, 2), 100);
    assert_eq!(percent("aaa bbb ccc ddd", 3, 2, 3), 100);
    // At width seven the words pair up: two lines, which fit.
    assert_eq!(percent("aaa bbb ccc ddd", 7, 2, 0), 100);
    assert_eq!(percent("aaa bbb ccc ddd", 7, 1, 0), 0);
    assert_eq!(percent("aaa bbb ccc ddd", 7, 1, 1), 100);
}

#[test]
fn halves_round_up() {
    assert_eq!(percent_of_lines(13, 10, 0), 0);
    assert_eq!(percent_of_lines(13, 10, 1), 33);
    assert_eq!(percent_of_lines(13, 10, 2), 67);
    assert_eq!(percent_of_lines(13, 10, 3), 100);
    assert_eq!(percent_of_lines(13, 10, 4), 100);
    assert_eq!(percent_of_lines(210, 10, 1), 1);
    assert_eq!(percent_of_lines(210, 10, 3), 2);
    assert_eq!(percent_of_lines(210, 10, 199), 100);
    assert_eq!(percent_of_lines(410, 10, 1), 0);
    assert_eq!(percent_of_lines(usize::MAX, 0, usize::MAX), 100);
    assert_eq!(percent_of_lines(usize::MAX, 0, usize::MAX / 2), 50);
    assert_eq!(percent_of_lines(usize::MAX, 0, 0), 0);
}

#[test]
fn no_width_shows_nothing() {
    assert_eq!(percent("some text", 0, 10, 0), 0);
    assert_eq!(percent("some text", 0, 0, 5), 0);
}

#[test]
fn lines_are_counted() {
    assert_eq!(count_lines(&to_chars("")), 0);
    assert_eq!(count_lines(&to_chars("a")), 1);
    assert_eq!(count_lines(&to_chars("a\n")), 1);
    assert_eq!(count_lines(&to_chars("a\nb")), 2);
    assert_eq!(count_lines(&to_chars("\n\n")), 2);
    assert_eq!(count_lines(&to_chars("a\r\nb\r\n")), 2);
    assert_eq!(percent_wrapped("a\nb\nc\nd", 2, 1), 50);
}

#[test]
fn the_title_shows_no_progress_without_text() {
    assert_eq!(chapter_progress(None, 40, 10, 3), 0);
    assert_eq!(chapter_progress(Some(""), 40, 10, 3), 0);
    assert_eq!(chapter_progress(Some("text"), 40, 10, 3), 100);
    assert_eq!(chapter_progress(Some("aaa bbb ccc ddd"), 3, 2, 1), 50);
}
