use mdfiles::text::{chars_of, count_lines, ends_with, lex_less};

fn chars(text: &str) -> Vec<char> {
    text.chars().collect()
}

#[test]
fn three_lines_without_a_final_line_feed() {
    assert_eq!(count_lines("a\nb\nc"), 3);
}

#[test]
fn empty_content_has_no_line() {
    assert_eq!(count_lines(""), 0);
}

#[test]
fn a_final_line_feed_opens_no_line() {
    assert_eq!(count_lines("a\n"), 1);
}

#[test]
fn a_lone_line_feed_is_one_line() {
    assert_eq!(count_lines("\n"), 1);
    assert_eq!(count_lines("\n\n"), 2);
    assert_eq!(count_lines("a\n\n"), 2);
    assert_eq!(count_lines("a\n\nb"), 3);
}

#[test]
fn carriage_returns_are_not_line_ends() {
    assert_eq!(count_lines("a\r\nb"), 2);
    assert_eq!(count_lines("a\rb"), 1);
    assert_eq!(count_lines("\r"), 1);
}

#[test]
fn lines_are_counted_by_character_not_by_byte() {
    assert_eq!(count_lines("é\nü\n日本語"), 3);
}

#[test]
fn line_count_agrees_with_the_standard_library() {
    let samples = [
        "",
        "a",
        "a\n",
        "\n",
        "a\nb",
        "a\r\nb\r\n",
        "\n\n\n",
        "x\n\ny\n",
        "tab\there\nnext",
        "# Title\n\nBody text.\n",
    ];
    for sample in samples {
        assert_eq!(count_lines(sample), sample.lines().count(), "{:?}", sample);
    }
}

#[test]
fn chars_of_gives_the_characters_in_order() {
    assert_eq!(chars_of("añb"), vec!['a', 'ñ', 'b']);
    assert_eq!(chars_of(""), Vec::<char>::new());
}

#[test]
fn ends_with_finds_a_suffix() {
    assert!(ends_with("notes.md", ".md"));
    assert!(ends_with("notes.md", "notes.md"));
    assert!(ends_with("notes.md", ""));
    assert!(ends_with("", ""));
}

#[test]
fn ends_with_rejects_what_is_no_suffix() {
    assert!(!ends_with("notes.md", ".MD"));
    assert!(!ends_with("notes.md", "notes"));
    assert!(!ends_with("md", ".md"));
    assert!(!ends_with("", "a"));
    assert!(!ends_with("notes.mdx", ".md"));
}

#[test]
fn lex_less_orders_by_the_first_difference() {
    assert!(lex_less(&chars("abc"), &chars("abd")));
    assert!(!lex_less(&chars("abd"), &chars("abc")));
    assert!(lex_less(&chars("B"), &chars("a")));
}

#[test]
fn lex_less_puts_a_prefix_first() {
    assert!(lex_less(&chars("ab"), &chars("abc")));
    assert!(!lex_less(&chars("abc"), &chars("ab")));
    assert!(lex_less(&chars(""), &chars("a")));
}

#[test]
fn lex_less_is_strict() {
    assert!(!lex_less(&chars("abc"), &chars("abc")));
    assert!(!lex_less(&chars(""), &chars("")));
}

#[test]
fn lex_less_agrees_with_the_order_of_strings() {
    let samples = ["", "a", "A", "ab", "b", "é", "z", "zeta", "日本", "a.md", "a.markdown"];
    for left in samples {
        for right in samples {
            assert_eq!(lex_less(&chars(left), &chars(right)), left < right, "{:?} {:?}", left, right);
        }
    }
}
