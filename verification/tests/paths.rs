use mdfiles::path::{display_name_of, has_markdown_extension};

#[test]
fn display_name_is_the_last_segment() {
    assert_eq!(display_name_of("/x/y/README.md"), "README.md");
    assert_eq!(display_name_of("notes.md"), "notes.md");
    assert_eq!(display_name_of("docs/notes.md"), "notes.md");
}

#[test]
fn display_name_passes_over_trailing_separators() {
    assert_eq!(display_name_of("a/b/"), "b");
    assert_eq!(display_name_of("a//b//"), "b");
    assert_eq!(display_name_of("/x"), "x");
}

#[test]
fn display_name_passes_over_single_dots() {
    assert_eq!(display_name_of("a/."), "a");
    assert_eq!(display_name_of("a/./"), "a");
    assert_eq!(display_name_of("./a"), "a");
    assert_eq!(display_name_of("a/b/./."), "b");
}

#[test]
fn display_name_keeps_names_that_start_with_a_dot() {
    assert_eq!(display_name_of(".hidden"), ".hidden");
    assert_eq!(display_name_of("a/.md"), ".md");
    assert_eq!(display_name_of("a/..."), "...");
    assert_eq!(display_name_of("a/b."), "b.");
}

#[test]
fn display_name_without_a_segment_is_the_placeholder() {
    assert_eq!(display_name_of(""), "Untitled");
    assert_eq!(display_name_of("/"), "Untitled");
    assert_eq!(display_name_of("//"), "Untitled");
    assert_eq!(display_name_of("."), "Untitled");
    assert_eq!(display_name_of("./"), "Untitled");
    assert_eq!(display_name_of("/."), "Untitled");
}

#[test]
fn display_name_of_the_parent_is_the_placeholder() {
    assert_eq!(display_name_of(".."), "Untitled");
    assert_eq!(display_name_of("a/.."), "Untitled");
    assert_eq!(display_name_of("a/../"), "Untitled");
    assert_eq!(display_name_of("a/../."), "Untitled");
}

#[test]
fn display_name_counts_characters_not_bytes() {
    assert_eq!(display_name_of("/données/été.md"), "été.md");
    assert_eq!(display_name_of("日本/語.markdown/"), "語.markdown");
}

#[test]
fn display_name_agrees_with_the_standard_library() {
    let samples = [
        "", "/", ".", "..", "./", "../", "a", "a/", "a/b", "a/b/", "/a/b", "a//b", "a/./b", "a/b/.",
        "a/b/..", "./a", "../a", ".a", "a.", "a/.b", "a/..b", "a/b..", "/.", "/..", "a/.//", "x y/z w.md",
        "/x/y/README.md", "C:\\dir\\file.md",
    ];
    for sample in samples {
        let expected = std::path::Path::new(sample)
            .file_name()
            .and_then(|name| name.to_str())
            .map(|name| name.to_string())
            .unwrap_or_else(|| "Untitled".to_string());
        assert_eq!(display_name_of(sample), expected, "{:?}", sample);
    }
}

#[test]
fn markdown_extensions_are_recognised() {
    assert!(has_markdown_extension("notes.md"));
    assert!(has_markdown_extension("notes.markdown"));
    assert!(has_markdown_extension("dir/notes.md"));
    assert!(has_markdown_extension(".md"));
}

#[test]
fn other_extensions_are_not() {
    assert!(!has_markdown_extension("notes.txt"));
    assert!(!has_markdown_extension("notes.md.bak"));
    assert!(!has_markdown_extension("notes.mdx"));
    assert!(!has_markdown_extension("notesmd"));
    assert!(!has_markdown_extension("md"));
    assert!(!has_markdown_extension(""));
}

#[test]
fn the_extension_is_matched_with_its_case() {
    assert!(!has_markdown_extension("notes.MD"));
    assert!(!has_markdown_extension("notes.Md"));
    assert!(!has_markdown_extension("notes.MARKDOWN"));
    assert!(!has_markdown_extension("notes.Markdown"));
}
