use book_tools::epub::{chapter_xhtml, nav_xhtml, BookMetadata, Chapter, ManifestItem};
use book_tools::package::{
    check_entry_counts, check_mimetype, check_required_entries, entry_messages, plan_epub, AssetData,
    ZipData,
};

fn one_chapter() -> Vec<Chapter> {
    vec![Chapter {
        id: "chap001".to_string(),
        title: "One".to_string(),
        source_html: "ch01.html".to_string(),
        xhtml_path: "chapters/001_ch01_html.xhtml".to_string(),
        content: "<p>x</p>\n".to_string(),
    }]
}

fn image(href: &str) -> ManifestItem {
    ManifestItem {
        id: "asset1".to_string(),
        href: href.to_string(),
        media_type: "image/png".to_string(),
        properties: None,
    }
}

fn names(v: &[&str]) -> Vec<String> {
    v.iter().map(|s| s.to_string()).collect()
}

#[test]
fn epub_entries_come_in_order() {
    let meta = BookMetadata { title: "Book".to_string(), authors: vec![] };
    let chapters = one_chapter();
    let assets = vec![image("book/img/a.png")];
    let mut data = AssetData::new();
    data.insert("book/img/a.png".to_string(), vec![1, 2, 3]);
    let plan = plan_epub(&meta, &chapters, &assets, &data, &None);
    assert!(plan.error.is_none());
    let got: Vec<(&str, bool)> = plan.entries.iter().map(|e| (e.name.as_str(), e.stored)).collect();
    assert_eq!(
        got,
        vec![
            ("mimetype", true),
            ("META-INF/container.xml", false),
            ("OEBPS/styles/epub.css", false),
            ("OEBPS/chapters/001_ch01_html.xhtml", false),
            ("OEBPS/book/img/a.png", false),
            ("OEBPS/nav.xhtml", false),
            ("OEBPS/toc.ncx", false),
            ("OEBPS/content.opf", false),
        ]
    );
    match &plan.entries[0].data {
        ZipData::Text(t) => assert_eq!(t, "application/epub+zip"),
        ZipData::Bytes(_) => panic!("mimetype is text"),
    }
    match &plan.entries[3].data {
        ZipData::Text(t) => assert_eq!(t, &chapter_xhtml(&chapters[0], &assets, "styles/epub.css")),
        ZipData::Bytes(_) => panic!("chapter is text"),
    }
    match &plan.entries[4].data {
        ZipData::Bytes(b) => assert_eq!(b, &vec![1u8, 2, 3]),
        ZipData::Text(_) => panic!("asset is bytes"),
    }
    match &plan.entries[5].data {
        ZipData::Text(t) => assert_eq!(t, &nav_xhtml(&chapters)),
        ZipData::Bytes(_) => panic!("nav is text"),
    }
    let all: Vec<String> = plan.entries.iter().map(|e| e.name.clone()).collect();
    assert_eq!(check_required_entries(&all), Ok(()));
    assert_eq!(check_entry_counts(&all), Ok(()));
    match &plan.entries[0].data {
        ZipData::Text(t) => assert_eq!(check_mimetype(t), Ok(())),
        ZipData::Bytes(_) => panic!("mimetype is text"),
    }
}

#[test]
fn missing_asset_bytes_stop_the_writing() {
    let meta = BookMetadata { title: "Book".to_string(), authors: vec![] };
    let assets = vec![image("book/a.png"), image("book/b.png")];
    let mut data = AssetData::new();
    data.insert("book/a.png".to_string(), vec![9]);
    let plan = plan_epub(&meta, &one_chapter(), &assets, &data, &None);
    assert_eq!(plan.error.as_deref(), Some("Missing bytes for asset book/b.png"));
    let got: Vec<&str> = plan.entries.iter().map(|e| e.name.as_str()).collect();
    assert_eq!(
        got,
        vec![
            "mimetype",
            "META-INF/container.xml",
            "OEBPS/styles/epub.css",
            "OEBPS/chapters/001_ch01_html.xhtml",
            "OEBPS/book/a.png",
        ]
    );
}

#[test]
fn asset_data_keeps_the_last_bytes_of_a_name() {
    let mut data = AssetData::new();
    assert!(data.get("a").is_none());
    data.insert("a".to_string(), vec![1]);
    data.insert("b".to_string(), vec![2]);
    data.insert("a".to_string(), vec![3]);
    assert_eq!(data.get("a"), Some(&vec![3u8]));
    assert_eq!(data.get("b"), Some(&vec![2u8]));
    assert!(data.get("c").is_none());
}

#[test]
fn first_missing_required_entry_is_reported() {
    let all = names(&[
        "mimetype",
        "META-INF/container.xml",
        "OEBPS/content.opf",
        "OEBPS/toc.ncx",
        "OEBPS/nav.xhtml",
        "OEBPS/styles/epub.css",
    ]);
    assert_eq!(check_required_entries(&all), Ok(()));
    let some = names(&["mimetype", "OEBPS/toc.ncx"]);
    assert_eq!(
        check_required_entries(&some),
        Err("Missing required EPUB entry: META-INF/container.xml".to_string())
    );
    assert_eq!(
        check_required_entries(&Vec::new()),
        Err("Missing required EPUB entry: mimetype".to_string())
    );
}

#[test]
fn chapters_and_images_are_counted() {
    assert_eq!(
        check_entry_counts(&names(&["OEBPS/book/a.png"])),
        Err("EPUB has no chapter XHTML files in OEBPS/chapters".to_string())
    );
    assert_eq!(
        check_entry_counts(&names(&["OEBPS/chapters/1.xhtml", "OEBPS/book/a.css", "book/b.png"])),
        Err("EPUB has no bundled images under OEBPS/book".to_string())
    );
    assert_eq!(check_entry_counts(&names(&["OEBPS/chapters/1.xhtml", "OEBPS/book/x.JPEG"])), Ok(()));
}

#[test]
fn mimetype_may_carry_surrounding_whitespace() {
    assert_eq!(check_mimetype(" application/epub+zip\n"), Ok(()));
    assert_eq!(
        check_mimetype("application/zip"),
        Err("mimetype entry does not contain application/epub+zip".to_string())
    );
}

#[test]
fn stylesheet_entry_carries_the_code_font_size() {
    let meta = BookMetadata { title: "Book".to_string(), authors: vec![] };
    let plan = plan_epub(&meta, &one_chapter(), &[], &AssetData::new(), &Some("0.8".to_string()));
    assert_eq!(plan.entries[2].name, "OEBPS/styles/epub.css");
    match &plan.entries[2].data {
        ZipData::Text(t) => assert!(t.ends_with("\npre code {\n    font-size: 0.8em;\n}\n")),
        ZipData::Bytes(_) => panic!("style sheet is text"),
    }
}

#[test]
fn write_failures_name_their_entry() {
    let chapters = one_chapter();
    let assets = vec![image("book/img/a.png")];
    let m = |i: usize| entry_messages(i, &chapters, &assets);
    assert_eq!(m(0), ("Failed to write mimetype".to_string(), "Failed to write mimetype bytes".to_string()));
    assert_eq!(m(2).1, "Failed writing css");
    assert_eq!(
        m(3),
        (
            "Failed to write chapter entry chapters/001_ch01_html.xhtml".to_string(),
            "Failed writing chapter chapters/001_ch01_html.xhtml".to_string()
        )
    );
    assert_eq!(m(4).0, "Failed to write asset entry book/img/a.png");
    assert_eq!(m(5).1, "Failed writing nav.xhtml");
    assert_eq!(m(6).0, "Failed to write toc.ncx entry");
    assert_eq!(m(7).1, "Failed writing content.opf");
}
