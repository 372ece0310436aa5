use bookrat::style::{style_content, tokenize, StyleFlags, StyledRun};

fn run(text: &str, italic: bool, bold: bool) -> StyledRun {
    StyledRun { text: text.to_string(), italic, bold }
}

#[test]
fn an_emphasised_word_is_italic() {
    let mut flags = StyleFlags::new();
    let runs = tokenize("a _word_ b", &mut flags);
    assert_eq!(runs, vec![run("a ", false, false), run("word", true, false), run(" b", false, false)]);
    assert_eq!(runs.len(), 3);
    assert_eq!(runs[1].text, "word");
    assert!(runs[1].italic);
    assert_eq!(flags, StyleFlags { italic: false, bold: false });
}

#[test]
fn a_strong_word_is_bold() {
    let mut flags = StyleFlags::new();
    let runs = tokenize("a **word** b", &mut flags);
    assert_eq!(runs, vec![run("a ", false, false), run("word", false, true), run(" b", false, false)]);
    assert_eq!(flags, StyleFlags { italic: false, bold: false });
}

#[test]
fn runs_without_text_are_not_recorded() {
    let mut flags = StyleFlags::new();
    assert_eq!(tokenize("_word_", &mut flags), vec![run("word", true, false)]);
    assert_eq!(tokenize("", &mut flags), Vec::<StyledRun>::new());
    assert_eq!(tokenize("____", &mut flags), Vec::<StyledRun>::new());
    assert_eq!(flags, StyleFlags { italic: false, bold: false });
}

#[test]
fn a_single_star_is_text() {
    let mut flags = StyleFlags::new();
    assert_eq!(tokenize("2 * 3 *", &mut flags), vec![run("2 * 3 *", false, false)]);
    assert_eq!(
        tokenize("***a", &mut flags),
        vec![run("*a", false, true)]
    );
    assert_eq!(flags, StyleFlags { italic: false, bold: true });
}

#[test]
fn styles_nest() {
    let mut flags = StyleFlags::new();
    assert_eq!(
        tokenize("**bold _both_ bold** plain", &mut flags),
        vec![
            run("bold ", false, true),
            run("both", true, true),
            run(" bold", false, true),
            run(" plain", false, false),
        ]
    );
}

#[test]
fn an_unmatched_mark_styles_the_rest() {
    let mut flags = StyleFlags::new();
    assert_eq!(tokenize("a _b", &mut flags), vec![run("a ", false, false), run("b", true, false)]);
    assert_eq!(flags, StyleFlags { italic: true, bold: false });
    assert_eq!(tokenize("next line", &mut flags), vec![run("next line", true, false)]);
    assert_eq!(flags, StyleFlags { italic: true, bold: false });
}

#[test]
fn styles_carry_over_lines_within_a_chapter() {
    let lines = style_content("one _two\nthree_ four\n\n**five");
    assert_eq!(
        lines,
        vec![
            vec![run("one ", false, false), run("two", true, false)],
            vec![run("three", true, false), run(" four", false, false)],
            vec![],
            vec![run("five", false, true)],
        ]
    );
    let again = style_content("plain");
    assert_eq!(again, vec![vec![run("plain", false, false)]]);
}

#[test]
fn lines_end_at_line_feeds() {
    assert_eq!(style_content(""), Vec::<Vec<StyledRun>>::new());
    assert_eq!(style_content("a\n"), vec![vec![run("a", false, false)]]);
    assert_eq!(
        style_content("a\r\nb\rc\r"),
        vec![vec![run("a", false, false)], vec![run("b\rc\r", false, false)]]
    );
    assert_eq!(style_content("\n"), vec![Vec::<StyledRun>::new()]);
    assert_eq!(
        style_content("\na"),
        vec![vec![], vec![run("a", false, false)]]
    );
}

#[test]
fn only_the_marks_are_lost() {
    for line in ["a _b_ **c** d", "__**__", "*_*_*", "no marks", "**bold _both** italic_", "a**"] {
        let mut flags = StyleFlags::new();
        let joined: String = tokenize(line, &mut flags).into_iter().map(|run| run.text).collect();
        assert_eq!(joined, line.replace("**", "").replace('_', ""), "for {:?}", line);
    }
}
