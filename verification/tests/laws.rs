use book_tools::hidden_lines::remove_hidden_lines;
use book_tools::naming::{decimal_pad3_chars, media_type_for_path, slugify, xml_escape};
use book_tools::summary::parse_summary;
use book_tools::urls::{build_chapter_path_map, chapter_file_name_chars, rewrite_href_url, SummaryEntry};

#[test]
fn slugs_are_identifiers() {
    for input in ["__Hello, World!__", "ch04-01-what-is-ownership.html", "", "___", "Äb--C", "a__b"] {
        let s = slugify(input);
        assert!(s.chars().all(|c| c.is_ascii_lowercase() || c.is_ascii_digit() || c == '_'));
        assert!(!s.contains("__"));
        assert!(!s.starts_with('_') && !s.ends_with('_'));
    }
    assert_eq!(slugify("__Hello, World!__"), "hello_world");
    assert_eq!(slugify("Äb--C"), "b_c");
    assert_eq!(slugify("___"), "");
}

#[test]
fn escaped_text_has_no_markup_and_reads_back() {
    let input = "<a href=\"x\">Tom's & Jerry's</a>";
    let e = xml_escape(input);
    assert_eq!(e, "&lt;a href=&quot;x&quot;&gt;Tom&apos;s &amp; Jerry&apos;s&lt;/a&gt;");
    assert!(!e.contains(['<', '>', '"', '\'']));
    let back = e
        .replace("&lt;", "<")
        .replace("&gt;", ">")
        .replace("&quot;", "\"")
        .replace("&apos;", "'")
        .replace("&amp;", "&");
    assert_eq!(back, input);
    assert_ne!(xml_escape("&lt;"), xml_escape("<"));
    for (i, _) in e.match_indices('&') {
        let rest = &e[i..];
        assert!(["&amp;", "&lt;", "&gt;", "&quot;", "&apos;"].iter().any(|x| rest.starts_with(x)));
    }
}

#[test]
fn media_type_ignores_case() {
    assert_eq!(media_type_for_path("book/IMG/Photo.JPEG"), "image/jpeg");
    assert_eq!(media_type_for_path("book/img/photo.jpeg"), "image/jpeg");
    assert_eq!(media_type_for_path("FONT.Woff2"), media_type_for_path("font.woff2"));
    assert_eq!(media_type_for_path("noext"), "application/octet-stream");
}

#[test]
fn markdown_without_fences_passes_through() {
    for input in ["# Heading 1\n", "a\n\n# b\n  # c", "", "\n", "x\r", "text ``` in line\n"] {
        assert_eq!(remove_hidden_lines(input), input);
    }
    assert_eq!(remove_hidden_lines("a\r\nb"), "a\nb");
}

#[test]
fn links_reach_the_chapters_of_their_pages() {
    let entries = vec![
        SummaryEntry { title: "A".to_string(), md_path: "ch01.md".to_string() },
        SummaryEntry { title: "B".to_string(), md_path: "sub/ch02.md".to_string() },
        SummaryEntry { title: "C".to_string(), md_path: "ch01.md".to_string() },
    ];
    let map = build_chapter_path_map(&entries);
    assert_eq!(rewrite_href_url("./sub/ch02.html?q=1", &map), "002_sub_ch02_html.xhtml?q=1");
    assert_eq!(rewrite_href_url("/ch01.html#top", &map), "003_ch01_html.xhtml#top");
    assert_eq!(rewrite_href_url("other.html", &map), "other.xhtml");
    assert_eq!(rewrite_href_url("style.css", &map), "style.css");
}

#[test]
fn summary_gives_only_chapter_paths() {
    let entries = parse_summary("- [A](a.md#x)\n- [B](http://b.md)\n[C](c.md?y)\n- [D](d.html)\n");
    let paths: Vec<&str> = entries.iter().map(|e| e.md_path.as_str()).collect();
    assert_eq!(paths, vec!["a.md", "c.md"]);
    for p in paths {
        assert!(p.ends_with(".md") && !p.contains(['#', '?']));
    }
}

#[test]
fn chapters_get_files_and_ids_of_their_own() {
    let md: Vec<char> = "ch.md".chars().collect();
    let mut names = Vec::new();
    let mut ids = Vec::new();
    for idx in [0usize, 8, 9, 98, 99, 998, 999, 1000, 10000] {
        names.push(chapter_file_name_chars(idx, &md).into_iter().collect::<String>());
        ids.push(decimal_pad3_chars(idx + 1).into_iter().collect::<String>());
    }
    assert_eq!(names[0], "001_ch_html.xhtml");
    assert_eq!(names[3], "099_ch_html.xhtml");
    assert_eq!(names[7], "1001_ch_html.xhtml");
    for i in 0..names.len() {
        for j in 0..names.len() {
            if i != j {
                assert_ne!(names[i], names[j]);
                assert_ne!(ids[i], ids[j]);
            }
        }
    }
}

#[test]
fn slugs_are_their_own_slugs() {
    for input in ["__Hello, World!__", "ch04-01-what-is-ownership.html", "", "A__b--C_", "ÄÖÜ 42"] {
        let once = slugify(input);
        assert_eq!(slugify(&once), once);
    }
}

#[test]
fn media_type_follows_the_last_extension() {
    for (prefix, ext) in [("book/img/a", "PNG"), ("x.tar", "svg"), ("", "jpeg"), ("a.b.c", "Woff2"), ("q", "bin")] {
        let path = format!("{prefix}.{ext}");
        assert_eq!(media_type_for_path(&path), media_type_for_path(&format!("x.{}", ext.to_ascii_uppercase())));
        let image = ["png", "jpg", "jpeg", "gif", "svg", "webp", "ico"].contains(&ext.to_ascii_lowercase().as_str());
        assert_eq!(media_type_for_path(&path).starts_with("image/"), image);
    }
}
