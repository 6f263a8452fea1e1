use book_tools::epub::{
    chapter_xhtml, container_xml, epub_stylesheet, content_opf, content_opf_at, default_epub_css, modification_time,
    nav_xhtml, toc_ncx, BookMetadata, Chapter, ManifestItem,
};

fn chapter(n: usize, title: &str, md: &str) -> Chapter {
    Chapter {
        id: format!("chap{:03}", n),
        title: title.to_string(),
        source_html: format!("{md}.html"),
        xhtml_path: format!("chapters/{:03}_{md}_html.xhtml", n),
        content: format!("<p>{title}</p>\n"),
    }
}

fn escape(s: &str) -> String {
    s.replace('&', "&amp;")
        .replace('<', "&lt;")
        .replace('>', "&gt;")
        .replace('"', "&quot;")
        .replace('\'', "&apos;")
}

#[test]
fn container_points_to_package_document() {
    let text = container_xml();
    assert!(text.starts_with("<?xml version=\"1.0\" encoding=\"UTF-8\"?>\n<container"));
    assert!(text.contains("<rootfile full-path=\"OEBPS/content.opf\" media-type=\"application/oebps-package+xml\"/>"));
    assert!(text.ends_with("</container>\n"));
}

#[test]
fn style_sheet_starts_with_body_rule() {
    let css = default_epub_css();
    assert!(css.starts_with("body {\n    margin: 0;\n"));
    assert!(css.contains("img,\nsvg {\n"));
    assert!(css.ends_with("}\n"));
}

#[test]
fn chapter_page_is_exact() {
    let c = chapter(1, "Tom & \"Jerry\"", "ch01");
    let expected = format!(
        "<?xml version=\"1.0\" encoding=\"UTF-8\"?>\n\
<!DOCTYPE html>\n\
<html xmlns=\"http://www.w3.org/1999/xhtml\" xml:lang=\"en\">\n\
<head>\n\
<meta charset=\"utf-8\"/>\n\
<title>{}</title>\n\
{}\
</head>\n\
<body>\n\
<article class=\"chapter\" data-source=\"{}\">\n\
{}\
</article>\n\
</body>\n\
</html>\n",
        escape(&c.title),
        format!("<link rel=\"stylesheet\" type=\"text/css\" href=\"../{}\"/>\n", "styles/epub.css"),
        escape(&c.source_html),
        c.content
    );
    assert_eq!(chapter_xhtml(&c, &[], "styles/epub.css"), expected);
    assert!(expected.contains("<title>Tom &amp; &quot;Jerry&quot;</title>"));
}

#[test]
fn navigation_lists_chapters_in_order() {
    let chapters = vec![chapter(1, "One", "ch01"), chapter(2, "Two <2>", "ch02")];
    let expected = "<?xml version=\"1.0\" encoding=\"UTF-8\"?>\n\
<!DOCTYPE html>\n\
<html xmlns=\"http://www.w3.org/1999/xhtml\" xmlns:epub=\"http://www.idpf.org/2007/ops\" xml:lang=\"en\">\n\
<head><title>Table of Contents</title></head>\n\
<body>\n\
<nav epub:type=\"toc\" id=\"toc\">\n\
<h1>Table of Contents</h1>\n\
<ol>\n\
<li><a href=\"chapters/001_ch01_html.xhtml\">One</a></li>\n\
<li><a href=\"chapters/002_ch02_html.xhtml\">Two &lt;2&gt;</a></li>\n\
</ol>\n\
</nav>\n\
</body>\n\
</html>\n";
    assert_eq!(nav_xhtml(&chapters), expected);
}

#[test]
fn ncx_numbers_play_order_from_one() {
    let meta = BookMetadata { title: "The Rust Book".to_string(), authors: vec![] };
    let chapters = vec![chapter(1, "One", "ch01"), chapter(2, "Two", "ch02")];
    let mut points = String::new();
    for (idx, c) in chapters.iter().enumerate() {
        points.push_str(&format!(
            "  <navPoint id=\"{}\" playOrder=\"{}\">\n\
    <navLabel><text>{}</text></navLabel>\n\
    <content src=\"{}\"/>\n\
  </navPoint>\n",
            c.id,
            idx + 1,
            c.title,
            c.xhtml_path
        ));
    }
    let expected = format!(
        "<?xml version=\"1.0\" encoding=\"UTF-8\"?>\n\
<ncx xmlns=\"http://www.daisy.org/z3986/2005/ncx/\" version=\"2005-1\">\n\
  <head>\n\
    <meta name=\"dtb:uid\" content=\"{}\"/>\n\
  </head>\n\
  <docTitle><text>{}</text></docTitle>\n\
  <navMap>\n\
{}  </navMap>\n\
</ncx>\n",
        "rust-book-the_rust_book", "The Rust Book", points
    );
    assert_eq!(toc_ncx(&meta, &chapters), expected);
    assert!(expected.contains("playOrder=\"2\""));
}

#[test]
fn package_document_is_exact_for_a_given_time() {
    let meta = BookMetadata {
        title: "Rust & Co".to_string(),
        authors: vec!["Steve".to_string(), "Carol <C>".to_string()],
    };
    let chapters = vec![chapter(1, "One", "ch01")];
    let assets = vec![
        ManifestItem {
            id: "asset1".to_string(),
            href: "book/img/a.png".to_string(),
            media_type: "image/png".to_string(),
            properties: None,
        },
        ManifestItem {
            id: "asset2".to_string(),
            href: "book/cover.svg".to_string(),
            media_type: "image/svg+xml".to_string(),
            properties: Some("cover-image".to_string()),
        },
    ];
    let modified = "2024-01-02T03:04:05Z";
    let expected = format!(
        "<?xml version=\"1.0\" encoding=\"UTF-8\"?>\n\
<package xmlns=\"http://www.idpf.org/2007/opf\" version=\"3.0\" unique-identifier=\"bookid\" xml:lang=\"en\">\n\
    <metadata xmlns:dc=\"http://purl.org/dc/elements/1.1/\">\n\
    <dc:identifier id=\"bookid\">{identifier}</dc:identifier>\n\
    <dc:title>{title}</dc:title>\n\
{creators}    <dc:language>en</dc:language>\n\
        <meta property=\"dcterms:modified\">{modified}</meta>\n\
  </metadata>\n\
  <manifest>\n\
{manifest}  </manifest>\n\
  <spine toc=\"ncx\">\n\
{spine}  </spine>\n\
</package>\n",
        identifier = "rust-book-rust_co",
        title = "Rust &amp; Co",
        creators = "    <dc:creator>Steve</dc:creator>\n    <dc:creator>Carol &lt;C&gt;</dc:creator>\n",
        modified = modified,
        manifest = "    <item id=\"nav\" href=\"nav.xhtml\" media-type=\"application/xhtml+xml\" properties=\"nav\"/>\n    \
<item id=\"ncx\" href=\"toc.ncx\" media-type=\"application/x-dtbncx+xml\"/>\n    \
<item id=\"epub_css\" href=\"styles/epub.css\" media-type=\"text/css\"/>\n    \
<item id=\"chap001\" href=\"chapters/001_ch01_html.xhtml\" media-type=\"application/xhtml+xml\"/>\n    \
<item id=\"asset1\" href=\"book/img/a.png\" media-type=\"image/png\" />\n    \
<item id=\"asset2\" href=\"book/cover.svg\" media-type=\"image/svg+xml\" properties=\"cover-image\" />\n",
        spine = "    <itemref idref=\"chap001\"/>\n",
    );
    assert_eq!(content_opf_at(&meta, &chapters, &assets, "styles/epub.css", modified), expected);
}

#[test]
fn package_document_is_stamped_with_current_time() {
    let meta = BookMetadata { title: "T".to_string(), authors: vec![] };
    let opf = content_opf(&meta, &[], &[], "styles/epub.css");
    let start = opf.find("<meta property=\"dcterms:modified\">").expect("modified stamp");
    let rest = &opf[start + "<meta property=\"dcterms:modified\">".len()..];
    let stamp = &rest[..rest.find("</meta>").expect("end of stamp")];
    assert!(stamp.ends_with('Z'));
    assert_eq!(&stamp[4..5], "-");
    assert_eq!(&stamp[10..11], "T");
    assert!(!stamp.starts_with("1970"));
    let now = modification_time();
    assert!(now.ends_with('Z'));
    assert!(now.as_str() >= "2024");
}

#[test]
fn stylesheet_sets_code_font_size_when_given() {
    assert_eq!(epub_stylesheet(&None), default_epub_css());
    let css = epub_stylesheet(&Some("0.9".to_string()));
    assert_eq!(css, format!("{}\npre code {{\n    font-size: 0.9em;\n}}\n", default_epub_css()));
}
