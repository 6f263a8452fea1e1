use book_tools::urls::{
    build_chapter_path_map, is_external_or_anchor_url, md_to_html, normalize_local_path,
    rewrite_href_url, rewrite_src_url, split_url_path_and_suffix, ChapterPathMap, SummaryEntry,
};

#[test]
fn rewrites_html_links_but_keeps_externals() {
    let mut map = ChapterPathMap::new();
    map.insert(
        "ch01-00-intro.html".to_string(),
        "001_ch01_00_intro_html.xhtml".to_string(),
    );

    assert_eq!(
        rewrite_href_url("ch01-00-intro.html", &map),
        "001_ch01_00_intro_html.xhtml"
    );
    assert_eq!(
        rewrite_href_url("ch01-00-intro.html#part", &map),
        "001_ch01_00_intro_html.xhtml#part"
    );
    assert_eq!(
        rewrite_href_url("https://doc.rust-lang.org", &map),
        "https://doc.rust-lang.org"
    );
    assert_eq!(rewrite_href_url("#local", &map), "#local");
}

#[test]
fn rewrites_local_image_sources_to_book_assets() {
    assert_eq!(
        rewrite_src_url("img/trpl04-02.svg"),
        "../book/img/trpl04-02.png"
    );
    assert_eq!(
        rewrite_src_url("img/trpl21-01.png"),
        "../book/img/trpl21-01.png"
    );
    assert_eq!(
        rewrite_src_url("https://example.com/image.png"),
        "https://example.com/image.png"
    );
}

#[test]
fn chapter_path_map_matches_generated_filenames() {
    let entries = vec![
        SummaryEntry {
            title: "A".to_string(),
            md_path: "ch01-01-installation.md".to_string(),
        },
        SummaryEntry {
            title: "B".to_string(),
            md_path: "ch04-01-what-is-ownership.md".to_string(),
        },
    ];

    let map = build_chapter_path_map(&entries);
    assert_eq!(
        map.get("ch01-01-installation.html").map(String::as_str),
        Some("001_ch01_01_installation_html.xhtml")
    );
    assert_eq!(
        map.get("ch04-01-what-is-ownership.html").map(String::as_str),
        Some("002_ch04_01_what_is_ownership_html.xhtml")
    );
}

#[test]
fn unmapped_html_links_become_xhtml_and_other_links_stay() {
    let map = ChapterPathMap::new();
    assert_eq!(rewrite_href_url("./foo.html?x=1", &map), "foo.xhtml?x=1");
    assert_eq!(rewrite_href_url("/a/b.html#c", &map), "a/b.xhtml#c");
    assert_eq!(rewrite_href_url("notes.txt", &map), "notes.txt");
    assert_eq!(rewrite_href_url("mailto:a@b.c", &map), "mailto:a@b.c");
}

#[test]
fn later_map_entries_replace_earlier_ones() {
    let mut map = ChapterPathMap::new();
    map.insert("a.html".to_string(), "one".to_string());
    map.insert("a.html".to_string(), "two".to_string());
    assert_eq!(map.get("a.html").map(String::as_str), Some("two"));
    assert_eq!(map.get("b.html"), None);
}

#[test]
fn src_urls_keep_fragments_and_drop_leading_slashes() {
    assert_eq!(rewrite_src_url("./img/a.svg#x"), "../book/img/a.png#x");
    assert_eq!(rewrite_src_url("data:image/png;base64,AA"), "data:image/png;base64,AA");
    assert_eq!(rewrite_src_url("//x.png"), "../book/x.png");
}

#[test]
fn url_helpers_on_examples() {
    assert_eq!(md_to_html("ch01.md"), "ch01.html");
    assert_eq!(md_to_html("a.md.md"), "a.html");
    assert_eq!(md_to_html("readme"), "readme.html");
    assert_eq!(
        split_url_path_and_suffix("a.html?q#f"),
        ("a.html?q".to_string(), "#f".to_string())
    );
    assert_eq!(
        split_url_path_and_suffix("a.html?q"),
        ("a.html".to_string(), "?q".to_string())
    );
    assert_eq!(
        split_url_path_and_suffix("a.html"),
        ("a.html".to_string(), String::new())
    );
    assert_eq!(normalize_local_path("././/x/y"), "x/y");
    assert!(is_external_or_anchor_url("javascript:void(0)"));
    assert!(!is_external_or_anchor_url("ch01.html"));
}

#[test]
fn chapter_numbers_are_padded_to_three_digits() {
    let entries: Vec<SummaryEntry> = (0..12)
        .map(|i| SummaryEntry {
            title: format!("T{i}"),
            md_path: format!("c{i}.md"),
        })
        .collect();
    let map = build_chapter_path_map(&entries);
    assert_eq!(map.get("c0.html").map(String::as_str), Some("001_c0_html.xhtml"));
    assert_eq!(map.get("c11.html").map(String::as_str), Some("012_c11_html.xhtml"));
}
