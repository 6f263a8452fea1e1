use book_tools::metadata::{book_metadata, parse_book_metadata, BookToml, TomlEntry};

#[test]
fn title_and_authors_come_from_the_book_table() {
    let raw = "[book]\ntitle = \"The Book\"\nauthors = [\"Steve\", 3, \"Carol\"]\n";
    let m = parse_book_metadata(raw, "book.toml").expect("valid toml");
    assert_eq!(m.title, "The Book");
    assert_eq!(m.authors, vec!["Steve".to_string(), "Carol".to_string()]);
}

#[test]
fn missing_values_fall_back() {
    let m = parse_book_metadata("[output.html]\nx = 1\n", "book.toml").expect("valid toml");
    assert_eq!(m.title, "The Rust Programming Language");
    assert!(m.authors.is_empty());
    let n = parse_book_metadata("[book]\ntitle = 5\nauthors = \"x\"\n", "book.toml").expect("valid toml");
    assert_eq!(n.title, "The Rust Programming Language");
    assert!(n.authors.is_empty());
}

#[test]
fn invalid_toml_is_reported_with_its_source() {
    match parse_book_metadata("[book\n", "conf/book.toml") {
        Err(e) => assert!(e.starts_with("Failed to parse conf/book.toml as TOML: ")),
        Ok(_) => panic!("error expected"),
    }
}

#[test]
fn metadata_from_entries() {
    let t = BookToml {
        title: TomlEntry::Str("T".to_string()),
        authors: TomlEntry::Array(vec![Some("a".to_string()), None, Some("b".to_string())]),
    };
    let m = book_metadata(&t);
    assert_eq!(m.title, "T");
    assert_eq!(m.authors, vec!["a".to_string(), "b".to_string()]);
    let u = BookToml { title: TomlEntry::Other, authors: TomlEntry::Absent };
    let n = book_metadata(&u);
    assert_eq!(n.title, "The Rust Programming Language");
    assert!(n.authors.is_empty());
}
