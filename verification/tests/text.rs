use bookrat::text::{char_is_whitespace, find, skip_run, split_lines, to_chars, to_string, CharClass};
use bookrat::whitespace::trim;

const SAMPLES: &[&str] = &[
    "",
    "a",
    "\n",
    "a\n",
    "\na",
    "a\nb",
    "a\r\nb\r\n",
    "a\rb\r",
    "\r\n\r\n",
    "\r",
    "a\n\nb\n\n",
    "  a \u{a0}\u{2003} b\t\n ",
    "\u{3000}\u{85}x\u{1680}",
    "héllo wörld — ünïcode",
];

#[test]
fn white_space_is_what_the_standard_library_says() {
    for code in 0..=0x10ffffu32 {
        if let Some(c) = char::from_u32(code) {
            assert_eq!(char_is_whitespace(c), c.is_whitespace(), "for {:?}", c);
        }
    }
}

#[test]
fn characters_survive_the_round_trip() {
    for sample in SAMPLES {
        let chars = to_chars(sample);
        assert_eq!(chars, sample.chars().collect::<Vec<char>>());
        assert_eq!(to_string(&chars), *sample);
    }
}

#[test]
fn lines_are_split_as_by_the_standard_library() {
    for sample in SAMPLES {
        let ours: Vec<String> = split_lines(&to_chars(sample)).iter().map(to_string).collect();
        let theirs: Vec<String> = sample.lines().map(|line| line.to_string()).collect();
        assert_eq!(ours, theirs, "for {:?}", sample);
    }
}

#[test]
fn trimming_is_that_of_the_standard_library() {
    for sample in SAMPLES {
        assert_eq!(to_string(&trim(&to_chars(sample))), sample.trim(), "for {:?}", sample);
    }
}

#[test]
fn characters_and_runs_are_found() {
    let text = to_chars("ab  {c} d");
    assert_eq!(find(&text, '{', 0), 4);
    assert_eq!(find(&text, '{', 4), 4);
    assert_eq!(find(&text, '{', 5), 9);
    assert_eq!(find(&text, 'z', 0), 9);
    assert_eq!(find(&text, 'a', 9), 9);
    assert_eq!(skip_run(&text, CharClass::Selector, 0), 2);
    assert_eq!(skip_run(&text, CharClass::Space, 2), 4);
    assert_eq!(skip_run(&text, CharClass::Whitespace, 2), 4);
    assert_eq!(skip_run(&text, CharClass::Space, 4), 4);
    assert_eq!(skip_run(&text, CharClass::Selector, 9), 9);
}
