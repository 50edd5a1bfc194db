use webdav_server::paths::{note_file_name, parse_filename, url_path_components};
use webdav_server::text::{split_by_chars, trim_matches, starts_with, contains_str};

#[test]
fn filename_splits_at_last_dot() {
    assert_eq!(parse_filename("note.md"), Some(("note".to_string(), "md".to_string())));
    assert_eq!(parse_filename("a.b.c"), Some(("a.b".to_string(), "c".to_string())));
    assert_eq!(parse_filename("note."), Some(("note".to_string(), "".to_string())));
    assert_eq!(parse_filename(".hidden"), Some(("".to_string(), "hidden".to_string())));
}

#[test]
fn filename_without_dot_has_no_syntax() {
    assert_eq!(parse_filename("README"), None);
    assert_eq!(parse_filename(""), None);
}

#[test]
fn listing_name_round_trips() {
    let name = note_file_name("My notes", "md");
    assert_eq!(name, "My notes.md");
    assert_eq!(parse_filename(&name), Some(("My notes".to_string(), "md".to_string())));
    let name = note_file_name("v1.2", "txt");
    assert_eq!(parse_filename(&name), Some(("v1.2".to_string(), "txt".to_string())));
}

#[test]
fn root_paths_have_no_components() {
    assert_eq!(url_path_components("/"), None);
    assert_eq!(url_path_components(""), None);
    assert_eq!(url_path_components("///"), None);
}

#[test]
fn path_components_are_decoded() {
    assert_eq!(
        url_path_components("/Folder%20One/note%2Emd/"),
        Some(vec!["Folder One".to_string(), "note.md".to_string()])
    );
    assert_eq!(url_path_components("/a//b"), Some(vec!["a".to_string(), "".to_string(), "b".to_string()]));
    assert_eq!(url_path_components("x"), Some(vec!["x".to_string()]));
}

#[test]
fn trimming_and_splitting() {
    assert_eq!(trim_matches("//a/b//", '/'), "a/b");
    assert_eq!(trim_matches("////", '/'), "");
    assert_eq!(
        split_by_chars("2024-01-02 03:04:05", &vec!['-', ' ', ':']),
        vec!["2024", "01", "02", "03", "04", "05"]
    );
    assert_eq!(split_by_chars("", &vec!['/']), vec![""]);
}

#[test]
fn prefix_and_infix_search() {
    assert!(starts_with("text/html", "text/"));
    assert!(!starts_with("tex", "text/"));
    assert!(contains_str("text/html; charset=utf-8", "charset"));
    assert!(!contains_str("text/html", "charset"));
    assert!(contains_str("abc", ""));
}
