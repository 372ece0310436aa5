use bookrat::pattern::{rewrite, Pattern};
use bookrat::text::{replace_all, to_chars, to_string};
use regex::Regex;

const SAMPLES: &[&str] = &[
    "",
    "plain text",
    "<p>First</p><p class=\"x\">Second</p>",
    "<h1>Title</h1>\n<h2 id=\"a\">Sub</h2><h7>No</h7></h3 ></h4>",
    "a   b    c  \n   d\n \n  e",
    "   lead",
    " \n\n \t\n  x \n\n\ny\n",
    "\n\n\n",
    "a\nb\n\nc\n \nd\n\u{a0}\n\u{2003}e",
    "p.note { color: red; } body{margin:0}",
    "a { b { c } d } e",
    "sel \n\t { x",
    "x.y@z#1  {}{}",
    "{ } a{",
    "<a href=\"x\">link</a> < b > c <unclosed",
    "<<>> <p <p> <h1 <h2>",
    "_a_ __b__ _c _d_ e_ ___ _\n_ _f_g_",
    "&amp; &lt;p&gt; <p>&nbsp;</p>",
    "<p>\n<p>\n",
    "<pre>code</pre><param>",
    "</h1></h6></h0><h1><h6 x><h>",
    "tab\t \t  tab",
    "h1{a}h2 {b}\n<h1>{c}</h1>",
];

fn check(pattern: Pattern, expression: &str, replacement: &str) {
    let expression = Regex::new(expression).expect("an expression");
    for sample in SAMPLES {
        let ours = to_string(&rewrite(&to_chars(sample), pattern, &to_chars(replacement)));
        let theirs = expression.replace_all(sample, replacement).to_string();
        assert_eq!(ours, theirs, "on {:?}", sample);
    }
}

#[test]
fn style_rules_match_their_expression() {
    check(Pattern::StyleRule, r"[a-zA-Z0-9#\.@]+\s*\{[^}]*\}", "");
}

#[test]
fn heading_tags_match_their_expressions() {
    check(Pattern::HeadingOpen, r"<h[1-6][^>]*>", "\n");
    check(Pattern::HeadingClose, r"</h[1-6]>", "\n");
}

#[test]
fn paragraph_tags_match_their_expression() {
    check(Pattern::ParagraphOpen, r"<p[^>]*>", "\n    ");
}

#[test]
fn tags_match_their_expression() {
    check(Pattern::Tag, r"<[^>]*>", "");
}

#[test]
fn emphasis_matches_its_expression() {
    check(Pattern::Emphasis, r"_([^_]+)_", "<>");
}

#[test]
fn spaces_match_their_expressions() {
    check(Pattern::Spaces, r" +", " ");
    check(Pattern::LeadingSpaces, r"^ +", "");
    check(Pattern::IndentSpaces, r"\n +", "\n");
}

#[test]
fn line_breaks_match_their_expression() {
    check(Pattern::LineBreaks, r"\n\s*\n", "\n");
}

#[test]
fn words_are_replaced_as_by_the_standard_library() {
    let cases = [
        ("</p>", "\n"),
        ("<br />", "\n"),
        ("aa", "b"),
        ("a", "aa"),
        ("ab", ""),
        ("<", "<<"),
    ];
    for sample in SAMPLES.iter().chain(["aaa", "aaaa", "ababab", "abaab", "<<<"].iter()) {
        for (from, to) in cases {
            let ours = to_string(&replace_all(&to_chars(sample), &to_chars(from), &to_chars(to)));
            assert_eq!(ours, sample.replace(from, to), "{:?} in {:?}", from, sample);
        }
    }
}

#[test]
fn an_empty_word_is_found_nowhere() {
    let ours = to_string(&replace_all(&to_chars("abc"), &to_chars(""), &to_chars("-")));
    assert_eq!(ours, "abc");
}

/// A few thousand short texts over the characters that the patterns look
/// at, from a fixed seed.
fn generated() -> Vec<String> {
    let alphabet = [
        '<', '>', '/', 'p', 'h', '1', '6', '7', 'a', ' ', ' ', '\n', '\n', '\t', '{', '}', '_',
        '.', '#', '&', ';', '\u{a0}', '\u{2003}', '\r',
    ];
    let mut state: u64 = 0x2545_f491_4f6c_dd1d;
    let mut next = move || {
        state ^= state << 13;
        state ^= state >> 7;
        state ^= state << 17;
        state
    };
    let mut texts = Vec::new();
    for _ in 0..4000 {
        let len = (next() % 14) as usize;
        let text: String =
            (0..len).map(|_| alphabet[(next() % alphabet.len() as u64) as usize]).collect();
        texts.push(text);
    }
    texts
}

#[test]
fn patterns_match_their_expressions_on_generated_text() {
    let pairs = [
        (Pattern::StyleRule, r"[a-zA-Z0-9#\.@]+\s*\{[^}]*\}", ""),
        (Pattern::HeadingOpen, r"<h[1-6][^>]*>", "\n"),
        (Pattern::HeadingClose, r"</h[1-6]>", "\n"),
        (Pattern::ParagraphOpen, r"<p[^>]*>", "\n    "),
        (Pattern::Tag, r"<[^>]*>", ""),
        (Pattern::Emphasis, r"_([^_]+)_", "<>"),
        (Pattern::Spaces, r" +", " "),
        (Pattern::LeadingSpaces, r"^ +", ""),
        (Pattern::IndentSpaces, r"\n +", "\n"),
        (Pattern::LineBreaks, r"\n\s*\n", "\n"),
    ];
    let texts = generated();
    for (pattern, expression, replacement) in pairs {
        let expression = Regex::new(expression).expect("an expression");
        let replacement_chars = to_chars(replacement);
        for text in &texts {
            let ours = to_string(&rewrite(&to_chars(text), pattern, &replacement_chars));
            let theirs = expression.replace_all(text, replacement).to_string();
            assert_eq!(ours, theirs, "{:?} on {:?}", pattern, text);
        }
    }
}
