use userdirs::listing::{display_name, render_directory, render_listing, sort_names, str_lex_leq, DirEntry};

fn entry(name: &str, is_dir: bool) -> DirEntry {
    DirEntry { name: String::from(name), is_dir }
}

#[test]
fn display_names_suffix_directories() {
    assert_eq!(display_name(&entry("notes.txt", false)), "notes.txt");
    assert_eq!(display_name(&entry("b", true)), "b/");
}

#[test]
fn lex_order_is_by_code_point() {
    assert!(str_lex_leq("", "a"));
    assert!(str_lex_leq("a", "a"));
    assert!(str_lex_leq("a", "b"));
    assert!(!str_lex_leq("b", "a"));
    assert!(str_lex_leq("a", "ab"));
    assert!(!str_lex_leq("ab", "a"));
    assert!(str_lex_leq("a.txt", "b"));
}

#[test]
fn sort_names_sorts_lexically() {
    let names = vec![
        String::from("c"),
        String::from("a"),
        String::from("b"),
        String::from("a"),
    ];
    let sorted = sort_names(&names);
    assert_eq!(
        sorted,
        vec![String::from("a"), String::from("a"), String::from("b"), String::from("c")]
    );
}

#[test]
fn rendered_listing_has_one_anchor_per_entry() {
    let names = vec![String::from("a.txt"), String::from("b/")];
    let body = render_listing("jdoe/", &names);
    let expected = "<!DOCTYPE html><html><head><meta charset=\"utf-8\"><title>Index of /jdoe/</title></head><body><h1>Index of /jdoe/</h1><hr><ul><li><a href=\"a.txt\">a.txt</a></li><li><a href=\"b/\">b/</a></li></ul></body></html>";
    assert_eq!(body, expected);
}

#[test]
fn directory_listing_is_sorted_and_suffixed() {
    let entries = vec![entry("b", true), entry("a.txt", false)];
    let body = render_directory("jdoe/", &entries);
    let expected = "<!DOCTYPE html><html><head><meta charset=\"utf-8\"><title>Index of /jdoe/</title></head><body><h1>Index of /jdoe/</h1><hr><ul><li><a href=\"a.txt\">a.txt</a></li><li><a href=\"b/\">b/</a></li></ul></body></html>";
    assert_eq!(body, expected);
}

#[test]
fn listing_is_deterministic_across_enumeration_orders() {
    let one = vec![entry("a.txt", false), entry("b", true), entry("zz", false)];
    let other = vec![entry("zz", false), entry("a.txt", false), entry("b", true)];
    assert_eq!(render_directory("jdoe/", &one), render_directory("jdoe/", &other));
}

#[test]
fn listing_is_identical_across_repeated_calls() {
    let entries = vec![entry("x", true), entry("y.html", false)];
    assert_eq!(render_directory("p/", &entries), render_directory("p/", &entries));
}

#[test]
fn empty_directory_renders_an_empty_list() {
    let entries: Vec<DirEntry> = Vec::new();
    let body = render_directory("jdoe/", &entries);
    let expected = "<!DOCTYPE html><html><head><meta charset=\"utf-8\"><title>Index of /jdoe/</title></head><body><h1>Index of /jdoe/</h1><hr><ul></ul></body></html>";
    assert_eq!(body, expected);
}
