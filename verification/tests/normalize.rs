use bookrat::entities::decode_entities;
use bookrat::markup::{
    break_headings, break_paragraphs, normalize, place_markers, rebalance_emphasis,
    strip_style_rules, strip_tags, structure, tidy_spaces,
};
use bookrat::text::{to_chars, to_string};
use bookrat::whitespace::{collapse, collapse_line_breaks, trim};

fn on_text(pass: fn(&Vec<char>) -> Vec<char>, input: &str) -> String {
    to_string(&pass(&to_chars(input)))
}

#[test]
fn test_html_formatting() {
    let test_content = r#"<p>First paragraph with <em>italic</em> text.</p>
        <p>Second paragraph with <strong>bold</strong> text.</p>
        <blockquote>A blockquote with <i>italic</i> text.</blockquote>
        <p>Third paragraph with <b>bold</b> and <em>italic</em> text.</p>
        <h1>Header 1</h1>
        <p>Fourth paragraph with &quot;quotes&quot; and &mdash; dash.</p>"#;

    let content = normalize(test_content);

    assert!(content.contains("First paragraph with _italic_ text."));
    assert!(content.contains("Second paragraph with **bold** text."));
    assert!(content.contains("    A blockquote with _italic_ text."));
    assert!(content.contains("Third paragraph with **bold** and _italic_ text."));
    assert!(content.contains("Header 1"));
    assert!(content.contains("Fourth paragraph with \"quotes\" and — dash."));

    let paragraphs: Vec<&str> = content.split("\n").collect();
    assert!(paragraphs.len() >= 4);

    assert!(content.contains("    A blockquote"));

    assert!(!content.contains("&quot;"));
    assert!(!content.contains("&mdash;"));
    assert!(content.contains("\""));
    assert!(content.contains("—"));
}

#[test]
fn test_empty_content() {
    let content = normalize("");
    assert_eq!(content, "");
}

#[test]
fn test_html_entities() {
    let test_content = r#"<p>&amp; &lt; &gt; &apos; &ldquo; &rdquo; &lsquo; &rsquo;</p>"#;
    let content = normalize(test_content);

    assert!(content.contains("&"));
    assert!(content.contains("<"));
    assert!(content.contains(">"));
    assert!(content.contains("'"));
    assert!(content.contains("\u{201C}"));
    assert!(content.contains("\u{201D}"));
    assert!(content.contains("\u{2018}"));
    assert!(content.contains("\u{2019}"));

    let expected = format!(
        "& < > ' {} {} {} {}",
        '\u{201C}', '\u{201D}', '\u{2018}', '\u{2019}'
    );
    assert_eq!(content.trim(), expected);
}

#[test]
fn test_paragraph_indentation() {
    let test_content = r#"<p>First paragraph</p>
        <p>Second paragraph</p>
        <p>Third paragraph</p>"#;

    let content = normalize(test_content);

    let paragraphs: Vec<&str> = content.split("\n").collect();
    assert!(paragraphs.len() == 3);

    assert!(content.contains("First paragraph"));
    assert!(content.contains("    Second paragraph"));
    assert!(content.contains("    Third paragraph"));
}

#[test]
fn test_paragraphs_with_empty_lines() {
    let test_content = r#"<p>First paragraph</p>

        <p>Second paragraph</p>


        <p>Third paragraph</p>

        <p>Fourth paragraph</p>"#;

    let content = normalize(test_content);

    let paragraphs: Vec<&str> = content.split("\n").collect();
    assert!(paragraphs.len() == 4, "Expected 4 paragraphs, got {}", paragraphs.len());

    assert!(content.contains("First paragraph"));
    assert!(content.contains("    Second paragraph"));
    assert!(content.contains("    Third paragraph"));
    assert!(content.contains("    Fourth paragraph"));

    let expected =
        "First paragraph\n    Second paragraph\n    Third paragraph\n    Fourth paragraph";
    assert_eq!(content, expected, "Content does not match expected format");
}

#[test]
fn two_adjacent_paragraphs() {
    assert_eq!(normalize("<p>First</p><p>Second</p>"), "First\n    Second");
}

#[test]
fn ampersand_in_a_paragraph() {
    assert_eq!(normalize("<p>A &amp; B</p>"), "A & B");
}

#[test]
fn three_paragraphs_have_two_boundaries() {
    let content = normalize("<p>One</p><p>Two</p><p>Three</p>");
    assert_eq!(content, "One\n    Two\n    Three");
    assert_eq!(content.matches('\n').count(), 2);
    let lines: Vec<&str> = content.split('\n').collect();
    assert!(!lines[0].starts_with(' '));
    assert!(lines[1].starts_with("    ") && !lines[1].starts_with("     "));
    assert!(lines[2].starts_with("    ") && !lines[2].starts_with("     "));
}

#[test]
fn many_blank_lines_become_one_line_break() {
    assert_eq!(normalize("<p>One</p>\n\n\n\n<p>Two</p>"), "One\n    Two");
    assert_eq!(normalize("One\n\n\n\n\nTwo"), "One\nTwo");
    assert_eq!(normalize("One\n \t\n\nTwo"), "One\nTwo");
    assert_eq!(normalize("One\n\nTwo"), "One\nTwo");
    assert_eq!(normalize("One\nTwo"), "One\nTwo");
}

#[test]
fn clean_text_is_left_alone() {
    let clean = "A plain line.\nAnother one, with * and _ in it.";
    assert_eq!(normalize(clean), clean);
    assert_eq!(normalize(&normalize(clean)), normalize(clean));
}

#[test]
fn clean_text_is_normalized_once_and_for_all() {
    for text in [
        "  two  spaces   and\n   an indent  ",
        "\n\n lines \n\n\n\n apart \t\n",
        "\t tab first",
        "a \n b",
        "a\n\t b\n\t\n\tc",
        "   ",
        "",
    ] {
        let once = normalize(text);
        assert_eq!(normalize(&once), once, "for {:?}", text);
    }
    assert_eq!(normalize("  two  spaces   and\n   an indent  "), "two spaces and\nan indent");
    assert_eq!(normalize("   "), "");
}

#[test]
fn whitespace_only_markup_gives_no_text() {
    assert_eq!(normalize("<p>  </p>\n<p>\n</p>"), "");
    assert_eq!(normalize("<div><span></span></div>"), "");
}

#[test]
fn style_rules_are_dropped() {
    assert_eq!(on_text(strip_style_rules, "a p.note { color: red; } b"), "a  b");
    assert_eq!(on_text(strip_style_rules, "@media{x}y"), "y");
    assert_eq!(on_text(strip_style_rules, "h1 \n\t {}"), "");
    assert_eq!(on_text(strip_style_rules, "{ no selector }"), "{ no selector }");
    assert_eq!(on_text(strip_style_rules, "open { never closed"), "open { never closed");
    assert_eq!(on_text(strip_style_rules, "a{1}b{2}"), "");
    assert_eq!(on_text(strip_style_rules, "x-y{1}"), "x-");
    assert_eq!(normalize("<style>p { margin: 0 }</style><p>Text</p>"), "Text");
}

#[test]
fn heading_tags_become_line_breaks() {
    assert_eq!(on_text(break_headings, "<h1>Title</h1>"), "\nTitle\n");
    assert_eq!(on_text(break_headings, "<h6 class=\"x\">T</h6>"), "\nT\n");
    assert_eq!(on_text(break_headings, "<h7>T</h7>"), "<h7>T</h7>");
    assert_eq!(on_text(break_headings, "<h0>T</h0>"), "<h0>T</h0>");
    assert_eq!(on_text(break_headings, "<h2 never closed"), "<h2 never closed");
    assert_eq!(on_text(break_headings, "</h3 >"), "</h3 >");
    assert_eq!(normalize("<h1>Title</h1><p>Body</p>"), "Title\nBody");
}

#[test]
fn spaces_are_tidied() {
    assert_eq!(on_text(tidy_spaces, "a    b"), "a b");
    assert_eq!(on_text(tidy_spaces, "    a"), "a");
    assert_eq!(on_text(tidy_spaces, " a"), "a");
    assert_eq!(on_text(tidy_spaces, "a\n    b\n c"), "a\nb\nc");
    assert_eq!(on_text(tidy_spaces, "a \n b "), "a \nb ");
    assert_eq!(on_text(tidy_spaces, "\t  a"), "\t a");
    assert_eq!(on_text(tidy_spaces, "a\n\t b"), "a\n\t b");
}

#[test]
fn paragraph_tags_become_separators() {
    assert_eq!(on_text(break_paragraphs, "<p>a<p>b<p>c"), "\na\n    b\n    c");
    assert_eq!(on_text(break_paragraphs, "<p class=\"x\">a"), "\na");
    assert_eq!(on_text(break_paragraphs, "<pre>a"), "\na");
    assert_eq!(on_text(break_paragraphs, "<p never closed"), "<p never closed");
    assert_eq!(on_text(break_paragraphs, "<P>a"), "<P>a");
    assert_eq!(on_text(break_paragraphs, "x</p>"), "x</p>");
}

#[test]
fn inline_tags_become_markers() {
    assert_eq!(on_text(place_markers, "a</p>b"), "a\nb");
    assert_eq!(on_text(place_markers, "a<br>b<br/>c<br />d"), "a\nb\nc\nd");
    assert_eq!(on_text(place_markers, "<blockquote>q</blockquote>"), "\n    q\n");
    assert_eq!(on_text(place_markers, "<em>a</em><i>b</i>"), "_a__b_");
    assert_eq!(on_text(place_markers, "<strong>a</strong><b>b</b>"), "**a****b**");
    assert_eq!(on_text(place_markers, "<em class=\"x\">a</em>"), "<em class=\"x\">a_");
    assert_eq!(on_text(place_markers, "<BR>"), "<BR>");
}

#[test]
fn rebalancing_changes_nothing() {
    for text in ["_a_", "__a__", "_a", "a_b_c_d", "_", "", "_a_ _b_", "___"] {
        assert_eq!(on_text(rebalance_emphasis, text), text);
    }
}

#[test]
fn tags_are_dropped() {
    assert_eq!(on_text(strip_tags, "a<span class=\"x\">b</span>c"), "abc");
    assert_eq!(on_text(strip_tags, "a<b\nc>d"), "ad");
    assert_eq!(on_text(strip_tags, "a < b"), "a < b");
    assert_eq!(on_text(strip_tags, "a > b < c"), "a > b < c");
    assert_eq!(on_text(strip_tags, "<>"), "");
    assert_eq!(on_text(strip_tags, "<<a>>"), ">");
    assert_eq!(on_text(strip_tags, "text <unclosed"), "text <unclosed");
}

#[test]
fn a_truncated_tag_stays() {
    assert_eq!(normalize("<p>Text</p><div cla"), "Text\n<div cla");
}

#[test]
fn each_entity_is_decoded() {
    let table = [
        ("&nbsp;", " "),
        ("&amp;", "&"),
        ("&lt;", "<"),
        ("&gt;", ">"),
        ("&quot;", "\""),
        ("&apos;", "'"),
        ("&mdash;", "\u{2014}"),
        ("&ndash;", "\u{2013}"),
        ("&hellip;", "..."),
        ("&ldquo;", "\u{201C}"),
        ("&rdquo;", "\u{201D}"),
        ("&lsquo;", "\u{2018}"),
        ("&rsquo;", "\u{2019}"),
    ];
    for (name, text) in table {
        assert_eq!(on_text(decode_entities, name), text);
        let around = format!("left {} right", name);
        assert_eq!(on_text(decode_entities, &around), format!("left {} right", text));
    }
}

#[test]
fn other_text_is_not_decoded() {
    assert_eq!(on_text(decode_entities, "no references here; none"), "no references here; none");
    assert_eq!(on_text(decode_entities, "&unknown; &amp & amp; &AMP;"), "&unknown; &amp & amp; &AMP;");
    assert_eq!(on_text(decode_entities, "&amp;lt;"), "&lt;");
    assert_eq!(on_text(decode_entities, "&&amp;&"), "&&&");
    assert_eq!(on_text(decode_entities, "&l&lt;t;"), "&l<t;");
}

#[test]
fn decoded_brackets_are_not_tags() {
    assert_eq!(normalize("<p>&lt;b&gt;bold&lt;/b&gt;</p>"), "<b>bold</b>");
}

#[test]
fn line_breaks_collapse() {
    assert_eq!(on_text(collapse_line_breaks, "a\n\nb"), "a\nb");
    assert_eq!(on_text(collapse_line_breaks, "a\n \t \n\n  b"), "a\n  b");
    assert_eq!(on_text(collapse_line_breaks, "a \n\n"), "a \n");
    assert_eq!(on_text(collapse_line_breaks, "a\n b\n c"), "a\n b\n c");
    assert_eq!(on_text(collapse_line_breaks, "\n\n\n"), "\n");
    assert_eq!(on_text(collapse_line_breaks, "a\n\u{a0}\nb"), "a\nb");
}

#[test]
fn both_ends_are_trimmed() {
    assert_eq!(on_text(trim, "  a b \n"), "a b");
    assert_eq!(on_text(trim, "\u{3000}a\u{2003}"), "a");
    assert_eq!(on_text(trim, " \n\t "), "");
    assert_eq!(on_text(trim, ""), "");
    assert_eq!(on_text(trim, "a"), "a");
    assert_eq!(on_text(collapse, "\n\n a \n\n b \n\n"), "a \n b");
}

#[test]
fn a_run_of_paragraphs_is_joined() {
    assert_eq!(normalize("<p>Only one</p>"), "Only one");
    assert_eq!(
        normalize("<p>a</p><p>b b</p><p>c\nc</p><p>d_d_</p><p>e > f</p>"),
        "a\n    b b\n    c\nc\n    d_d_\n    e > f"
    );
    assert_eq!(normalize(""), "");
}

#[test]
fn the_text_before_decoding_holds_no_tag() {
    for markup in [
        "<p>a</p>",
        "a < b > c <d> e",
        "> <",
        "<a<b>c>d<e",
        "<<<>>>",
        "x <unclosed",
    ] {
        let text = to_string(&structure(&to_chars(markup)));
        match text.find('<') {
            Some(at) => assert!(!text[at..].contains('>'), "in {:?}", text),
            None => {}
        }
    }
}

#[test]
fn the_result_holds_no_blank_line_and_is_trimmed() {
    for markup in [
        "<p>a</p>\n\n<p>b</p>",
        "\n\n a \n \n\t\n b \n\n",
        "<h1>T</h1>\n\n\n<blockquote>q</blockquote><br><br/><br />x",
        "&nbsp;\n&nbsp;\n&nbsp;x&nbsp;",
        " \t ",
    ] {
        let text = normalize(markup);
        assert_eq!(text.trim(), text, "for {:?}", markup);
        let mut breaks_seen = 0;
        for c in text.chars() {
            if c == '\n' {
                breaks_seen += 1;
                assert!(breaks_seen < 2, "for {:?}: {:?}", markup, text);
            } else if !c.is_whitespace() {
                breaks_seen = 0;
            }
        }
    }
}

#[test]
fn text_with_nothing_to_find_is_only_tidied() {
    // A `<` that no `>` follows, an `&` that starts no reference and braces
    // that make no rule are text.
    for text in ["AT&T", "a > b", "a < b", "x &amp y", "} a {", "{ }", "a;{b}", "1 } 2 > 3 < 4 {"] {
        assert_eq!(normalize(text), text);
        assert_eq!(normalize(&normalize(text)), normalize(text));
    }
    assert_eq!(normalize("  a <  b \n\n & c  "), "a < b \n& c");
}

#[test]
fn text_with_markup_is_not_left_alone() {
    assert_eq!(normalize("a{b}"), "");
    assert_eq!(normalize("a < b > c"), "a  c");
    assert_eq!(normalize("&amp;lt;"), "&lt;");
    assert_eq!(normalize(&normalize("&amp;lt;")), "<");
}

#[test]
fn references_inside_tags_do_not_leak() {
    assert_eq!(normalize("<a title=\"&lt;&amp;\">x</a>"), "x");
    assert_eq!(normalize("<p class=\"&quot;\">y</p>"), "y");
}
