use book_tools::naming::{media_type_for_path, slugify, xml_escape};

#[test]
fn media_types_cover_common_assets() {
    assert_eq!(media_type_for_path("book/img/foo.png"), "image/png");
    assert_eq!(media_type_for_path("book/css/site.css"), "text/css");
    assert_eq!(
        media_type_for_path("chapters/one.xhtml"),
        "application/xhtml+xml"
    );
    assert_eq!(
        media_type_for_path("book/unknown.bin"),
        "application/octet-stream"
    );
}

#[test]
fn media_type_ignores_ascii_case_and_uses_last_dot() {
    assert_eq!(media_type_for_path("A.B.JPEG"), "image/jpeg");
    assert_eq!(media_type_for_path("fonts/x.WoFf2"), "font/woff2");
    assert_eq!(media_type_for_path("png"), "image/png");
    assert_eq!(media_type_for_path("noext"), "application/octet-stream");
    assert_eq!(media_type_for_path("dir.svg/file"), "application/octet-stream");
}

#[test]
fn slugify_examples() {
    assert_eq!(slugify("ch01-00-intro.html"), "ch01_00_intro_html");
    assert_eq!(slugify("__Hello,  World!__"), "hello_world");
    assert_eq!(slugify("été"), "t");
    assert_eq!(slugify("---"), "");
    assert_eq!(slugify(""), "");
}

#[test]
fn xml_escape_examples() {
    assert_eq!(
        xml_escape("a & b < c > d \"e\" 'f'"),
        "a &amp; b &lt; c &gt; d &quot;e&quot; &apos;f&apos;"
    );
    assert_eq!(xml_escape("&amp;"), "&amp;amp;");
    assert_eq!(xml_escape("plain"), "plain");
}
