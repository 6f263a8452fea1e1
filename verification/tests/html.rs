use book_tools::html::{
    extract_main_content, language_from_code_attrs, parse_html_title, split_code_blocks,
    strip_html_tags, HtmlPiece,
};
use book_tools::summary::parse_summary;
use book_tools::urls::{rewrite_content_urls, ChapterPathMap};

#[test]
fn extracts_main_content() {
    let html = "<html><body><main><h1>Hello</h1></main></body></html>";
    let main = extract_main_content(html).expect("extract main");
    assert_eq!(main, "<h1>Hello</h1>");
}

#[test]
fn main_content_is_trimmed_and_shortest() {
    let html = "<main>\n  <p>a</p>\n </main> x </main>";
    assert_eq!(extract_main_content(html).as_deref(), Some("<p>a</p>"));
    assert_eq!(extract_main_content("<main>open"), None);
    assert_eq!(extract_main_content("no main"), None);
    assert_eq!(extract_main_content("<main>   </main>").as_deref(), Some(""));
}

#[test]
fn language_is_detected_from_code_classes() {
    assert_eq!(
        language_from_code_attrs(" class=\"language-rust edition2024\" ").as_deref(),
        Some("rust")
    );
    assert_eq!(language_from_code_attrs(" class=\"ignore\" "), None);
}

#[test]
fn language_detection_edge_cases() {
    assert_eq!(
        language_from_code_attrs("class = \"x language- language-toml\"").as_deref(),
        Some("toml")
    );
    assert_eq!(language_from_code_attrs("class=\"\" class=\"language-c\"").as_deref(), Some("c"));
    assert_eq!(language_from_code_attrs("id=\"language-rust\""), None);
}

#[test]
fn html_title_drops_book_name() {
    assert_eq!(
        parse_html_title("<head><title> Intro - The Book </title></head>").as_deref(),
        Some("Intro")
    );
    assert_eq!(parse_html_title("<title>Only</title>").as_deref(), Some("Only"));
    assert_eq!(parse_html_title("<title>Unclosed"), None);
    assert_eq!(parse_html_title("none"), None);
}

#[test]
fn tags_are_stripped() {
    assert_eq!(
        strip_html_tags("<span class=\"k\">fn</span> main<> x <b"),
        "fn main<> x <b"
    );
}

#[test]
fn code_blocks_are_split_out() {
    let html = "a<pre class=\"p\">\n<code class=\"language-rust\">fn x() {}</code> </pre>b<pre><code>y</code></pre>";
    let pieces = split_code_blocks(html);
    assert_eq!(pieces.len(), 5);
    match &pieces[0] {
        HtmlPiece::Text(t) => assert_eq!(t, "a"),
        _ => panic!("text expected"),
    }
    match &pieces[1] {
        HtmlPiece::Code { attrs, code } => {
            assert_eq!(attrs, " class=\"language-rust\"");
            assert_eq!(code, "fn x() {}");
        }
        _ => panic!("code expected"),
    }
    match &pieces[2] {
        HtmlPiece::Text(t) => assert_eq!(t, "b"),
        _ => panic!("text expected"),
    }
    match &pieces[3] {
        HtmlPiece::Code { attrs, code } => {
            assert_eq!(attrs, "");
            assert_eq!(code, "y");
        }
        _ => panic!("code expected"),
    }
    match &pieces[4] {
        HtmlPiece::Text(t) => assert_eq!(t, ""),
        _ => panic!("text expected"),
    }
}

#[test]
fn content_url_rewriter_updates_links_and_sources() {
    let mut map = ChapterPathMap::new();
    map.insert(
        "ch04-01-what-is-ownership.html".to_string(),
        "016_ch04_01_what_is_ownership_html.xhtml".to_string(),
    );

    let input = r#"<p><a href="ch04-01-what-is-ownership.html#the-string-type">x</a><img src="img/trpl04-02.svg"/></p>"#;
    let output = rewrite_content_urls(input, &map);

    assert!(
        output.contains(
            "href=\"016_ch04_01_what_is_ownership_html.xhtml#the-string-type\""
        )
    );
    assert!(output.contains("src=\"../book/img/trpl04-02.png\""));
}

#[test]
fn content_url_rewriter_output_is_exact() {
    let map = ChapterPathMap::new();
    let input = r#"<a href="">e</a><a href="x.html">y</a><img src="https://a/b.png">"#;
    assert_eq!(
        rewrite_content_urls(input, &map),
        r#"<a href="">e</a><a href="x.xhtml">y</a><img src="https://a/b.png">"#
    );
}

#[test]
fn summary_parser_collects_expected_entries() {
    let summary = "# Book\n\n[Front](title-page.md)\n- [Chapter](ch01.md)\n  - [Section](ch01-01.md)\n";
    let entries = parse_summary(summary);

    assert_eq!(entries.len(), 3);
    assert_eq!(entries[0].title, "Front");
    assert_eq!(entries[1].title, "Chapter");
    assert_eq!(entries[2].title, "Section");
}

#[test]
fn summary_parser_skips_web_and_non_markdown_links() {
    let summary = "- [Web](https://x.md)\n- [Img](a.png)\n- [ Spaced ]( ch02.md#top )\r\n* [Star](s.md)\n- [Empty](#x)\n- [Q](ch03.md?v=1)";
    let entries = parse_summary(summary);
    assert_eq!(entries.len(), 2);
    assert_eq!(entries[0].title, "Spaced");
    assert_eq!(entries[0].md_path, "ch02.md");
    assert_eq!(entries[1].md_path, "ch03.md");
}
