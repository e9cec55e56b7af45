use mdfiles::document::{DirChild, DirectoryEntry};
use mdfiles::listing::{list_markdown_files, sort_by_key};

fn file(path: &str) -> DirChild {
    DirChild { path: path.to_string(), is_file: true }
}

fn directory(path: &str) -> DirChild {
    DirChild { path: path.to_string(), is_file: false }
}

fn entry(name: &str, path: &str) -> DirectoryEntry {
    DirectoryEntry { name: name.to_string(), path: path.to_string() }
}

fn names(listing: &[DirectoryEntry]) -> Vec<String> {
    listing.iter().map(|entry| entry.name.clone()).collect()
}

#[test]
fn a_listing_holds_the_markdown_files_only() {
    let children = vec![
        file("/d/b.md"),
        file("/d/c.txt"),
        file("/d/a.markdown"),
        file("/d/notes"),
        file("/d/d.md.bak"),
        file("/d/e.mdx"),
    ];
    assert_eq!(
        list_markdown_files(&children),
        vec![entry("a.markdown", "/d/a.markdown"), entry("b.md", "/d/b.md")]
    );
}

#[test]
fn a_listing_matches_the_extension_with_its_case() {
    let children = vec![file("/d/UPPER.MD"), file("/d/Mixed.Md"), file("/d/LOUD.MARKDOWN"), file("/d/ok.md")];
    assert_eq!(list_markdown_files(&children), vec![entry("ok.md", "/d/ok.md")]);
}

#[test]
fn a_listing_leaves_out_what_is_no_regular_file() {
    let children = vec![directory("/d/folder.md"), file("/d/file.md"), directory("/d/sub")];
    assert_eq!(list_markdown_files(&children), vec![entry("file.md", "/d/file.md")]);
}

#[test]
fn a_listing_is_sorted_without_regard_to_case() {
    let children = vec![file("/d/b.md"), file("/d/C.md"), file("/d/A.md"), file("/d/d.md")];
    assert_eq!(names(&list_markdown_files(&children)), vec!["A.md", "b.md", "C.md", "d.md"]);
}

#[test]
fn a_listing_does_not_depend_on_the_order_of_enumeration() {
    let forward = vec![file("/d/a.md"), file("/d/B.md"), file("/d/c.markdown")];
    let backward = vec![file("/d/c.markdown"), file("/d/B.md"), file("/d/a.md")];
    let expected = vec![entry("a.md", "/d/a.md"), entry("B.md", "/d/B.md"), entry("c.markdown", "/d/c.markdown")];
    assert_eq!(list_markdown_files(&forward), expected);
    assert_eq!(list_markdown_files(&backward), expected);
}

#[test]
fn names_equal_but_for_case_keep_the_order_of_enumeration() {
    let one = vec![file("/d/readme.md"), file("/d/README.md"), file("/d/ReadMe.md"), file("/d/a.md")];
    assert_eq!(names(&list_markdown_files(&one)), vec!["a.md", "readme.md", "README.md", "ReadMe.md"]);
    let other = vec![file("/d/ReadMe.md"), file("/d/a.md"), file("/d/README.md"), file("/d/readme.md")];
    assert_eq!(names(&list_markdown_files(&other)), vec!["a.md", "ReadMe.md", "README.md", "readme.md"]);
}

#[test]
fn a_listing_folds_case_beyond_ascii() {
    let children = vec![file("/d/école.md"), file("/d/Zebra.md"), file("/d/Éclair.md")];
    assert_eq!(names(&list_markdown_files(&children)), vec!["Zebra.md", "Éclair.md", "école.md"]);
}

#[test]
fn a_listing_names_each_entry_by_its_last_segment() {
    let children = vec![file("/deep/er/notes.md"), file("plain.md")];
    assert_eq!(
        list_markdown_files(&children),
        vec![entry("notes.md", "/deep/er/notes.md"), entry("plain.md", "plain.md")]
    );
}

#[test]
fn an_empty_directory_has_an_empty_listing() {
    assert_eq!(list_markdown_files(&Vec::new()), Vec::<DirectoryEntry>::new());
    assert_eq!(list_markdown_files(&vec![file("/d/a.txt"), directory("/d/b.md")]), Vec::<DirectoryEntry>::new());
}

#[test]
fn a_shorter_name_comes_before_its_extensions() {
    let children = vec![file("/d/ab.md"), file("/d/a.md"), file("/d/a.markdown")];
    assert_eq!(names(&list_markdown_files(&children)), vec!["a.markdown", "a.md", "ab.md"]);
}

#[test]
fn sort_by_key_orders_by_the_keys_given() {
    let items = vec![
        ("b".to_string(), entry("first", "1")),
        ("a".to_string(), entry("second", "2")),
        ("c".to_string(), entry("third", "3")),
    ];
    assert_eq!(names(&sort_by_key(&items)), vec!["second", "first", "third"]);
}

#[test]
fn sort_by_key_keeps_equal_keys_in_place() {
    let items = vec![
        ("k".to_string(), entry("one", "1")),
        ("a".to_string(), entry("two", "2")),
        ("k".to_string(), entry("three", "3")),
        ("k".to_string(), entry("four", "4")),
        ("a".to_string(), entry("five", "5")),
    ];
    assert_eq!(names(&sort_by_key(&items)), vec!["two", "five", "one", "three", "four"]);
}

#[test]
fn sort_by_key_compares_keys_by_character() {
    let items = vec![
        ("B".to_string(), entry("upper", "1")),
        ("a".to_string(), entry("lower", "2")),
        ("".to_string(), entry("empty", "3")),
        ("ab".to_string(), entry("longer", "4")),
    ];
    assert_eq!(names(&sort_by_key(&items)), vec!["empty", "upper", "lower", "longer"]);
}

#[test]
fn sort_by_key_of_nothing_is_nothing() {
    assert_eq!(sort_by_key(&Vec::new()), Vec::<DirectoryEntry>::new());
}

#[test]
fn sort_by_key_handles_a_reversed_run() {
    let items: Vec<(String, DirectoryEntry)> = (0..50)
        .rev()
        .map(|i| (format!("{:03}", i), entry(&format!("n{}", i), &format!("/p/{}", i))))
        .collect();
    let sorted = sort_by_key(&items);
    let expected: Vec<String> = (0..50).map(|i| format!("n{}", i)).collect();
    assert_eq!(names(&sorted), expected);
}
