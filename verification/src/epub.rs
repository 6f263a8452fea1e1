//! The documents of the EPUB: the container file, the style sheet, the
//! chapter pages, the navigation document, the NCX table of contents and the
//! package document.

use vstd::prelude::*;
use crate::naming::{
    decimal, decimal_chars, is_digit_char, slugify_chars, slugify_spec, xml_escape_chars, xml_escape_spec,
};
use crate::text::{chars_of, concat_range, ends_with, occurs_at, push_all, push_str, string_of};

verus! {

/// A chapter of the EPUB.
pub struct Chapter {
    /// Its id in the package document (`chap001`, ...).
    pub id: String,
    /// Its title.
    pub title: String,
    /// The HTML page of the book it was made from.
    pub source_html: String,
    /// Its path in the EPUB, under `OEBPS/`.
    pub xhtml_path: String,
    /// Its XHTML content.
    pub content: String,
}

/// The title and authors of the book.
pub struct BookMetadata {
    pub title: String,
    pub authors: Vec<String>,
}

/// An item of the package manifest.
pub struct ManifestItem {
    pub id: String,
    pub href: String,
    pub media_type: String,
    pub properties: Option<String>,
}

/// Appends the XML-escaped characters of `s` to `out`.
fn push_escaped(out: &mut Vec<char>, s: &str)
    ensures
        final(out)@ == old(out)@ + xml_escape_spec(s@),
{
    let v = chars_of(s);
    let e = xml_escape_chars(&v);
    push_all(out, &e);
}

/// The text of the container file.
pub open spec fn container_xml_text() -> Seq<char> {
    r#"<?xml version="1.0" encoding="UTF-8"?>
<container version="1.0" xmlns="urn:oasis:names:tc:opendocument:xmlns:container">
  <rootfiles>
        <rootfile full-path="OEBPS/content.opf" media-type="application/oebps-package+xml"/>
  </rootfiles>
</container>
"#@
}

/// The text of the style sheet.
pub open spec fn epub_css_text() -> Seq<char> {
    r#"body {
    margin: 0;
    padding: 1rem;
    font-family: Georgia, "Times New Roman", serif;
    line-height: 1.55;
    column-count: 1 !important;
    column-width: auto !important;
}

article.chapter {
    margin: 0;
    max-width: none;
    width: auto;
    padding: 0;
    column-count: 1 !important;
    column-width: auto !important;
}

pre,
code {
  font-family: ui-monospace, Menlo, Monaco, Consolas, monospace;
}

pre {
    white-space: pre;
    overflow-x: auto;
  padding: 0.75rem;
    border: 1px solid #d7d7d7;
  border-radius: 0.25rem;
    background: #f8f8f8;
}

pre code {
    display: block;
}

.header {
    text-decoration: none;
}

.boring {
    opacity: 0.65;
}

.table-wrapper {
    overflow-x: auto;
}

img,
svg {
  max-width: 100%;
  height: auto;
    break-inside: avoid;
}
"#@
}

/// The container file that points readers at the package document.
pub fn container_xml() -> (r: &'static str)
    ensures
        r@ == container_xml_text(),
{
    r#"<?xml version="1.0" encoding="UTF-8"?>
<container version="1.0" xmlns="urn:oasis:names:tc:opendocument:xmlns:container">
  <rootfiles>
        <rootfile full-path="OEBPS/content.opf" media-type="application/oebps-package+xml"/>
  </rootfiles>
</container>
"#
}

/// The style sheet that every chapter links.
pub fn default_epub_css() -> (r: &'static str)
    ensures
        r@ == epub_css_text(),
{
    r#"body {
    margin: 0;
    padding: 1rem;
    font-family: Georgia, "Times New Roman", serif;
    line-height: 1.55;
    column-count: 1 !important;
    column-width: auto !important;
}

article.chapter {
    margin: 0;
    max-width: none;
    width: auto;
    padding: 0;
    column-count: 1 !important;
    column-width: auto !important;
}

pre,
code {
  font-family: ui-monospace, Menlo, Monaco, Consolas, monospace;
}

pre {
    white-space: pre;
    overflow-x: auto;
  padding: 0.75rem;
    border: 1px solid #d7d7d7;
  border-radius: 0.25rem;
    background: #f8f8f8;
}

pre code {
    display: block;
}

.header {
    text-decoration: none;
}

.boring {
    opacity: 0.65;
}

.table-wrapper {
    overflow-x: auto;
}

img,
svg {
  max-width: 100%;
  height: auto;
    break-inside: avoid;
}
"#
}

/// The rule that sets the font size of code blocks to `size` times the
/// size of the text around them.
pub open spec fn code_font_size_rule(size: Seq<char>) -> Seq<char> {
    "\npre code {\n    font-size: "@ + size + "em;\n}\n"@
}

/// The style sheet, with the code-block font size rule at its end when a
/// size is given.
pub open spec fn epub_stylesheet_spec(code_font_size: Option<Seq<char>>) -> Seq<char> {
    match code_font_size {
        Some(size) => epub_css_text() + code_font_size_rule(size),
        None => epub_css_text(),
    }
}

/// The style sheet of the EPUB, setting the font size of code blocks (in
/// `em`) when one is given.
pub fn epub_stylesheet(code_font_size: &Option<String>) -> (r: String)
    ensures
        r@ == epub_stylesheet_spec(match code_font_size {
            Some(size) => Some(size@),
            None => None,
        }),
{
    let mut out = chars_of(default_epub_css());
    match code_font_size {
        Some(size) => {
            push_str(&mut out, "\npre code {\n    font-size: ");
            push_str(&mut out, size.as_str());
            push_str(&mut out, "em;\n}\n");
        },
        None => {},
    }
    string_of(&out)
}

/// The identifier of the book: `rust-book-` and the slug of its title.
pub open spec fn book_id(title: Seq<char>) -> Seq<char> {
    "rust-book-"@ + slugify_spec(title)
}

/// The page of a chapter, linking the style sheet at `css_path`.
pub open spec fn chapter_xhtml_spec(c: Chapter, css_path: Seq<char>) -> Seq<char> {
    "<?xml version=\"1.0\" encoding=\"UTF-8\"?>\n<!DOCTYPE html>\n<html xmlns=\"http://www.w3.org/1999/xhtml\" xml:lang=\"en\">\n<head>\n<meta charset=\"utf-8\"/>\n<title>"@ + xml_escape_spec(c.title@) + "</title>\n"@ + ("<link rel=\"stylesheet\" type=\"text/css\" href=\"../"@ + xml_escape_spec(css_path)
        + "\"/>\n"@) + "</head>\n<body>\n<article class=\"chapter\" data-source=\""@ + xml_escape_spec(c.source_html@) + "\">\n"@ + c.content@
        + "</article>\n</body>\n</html>\n"@
}

/// A chapter's page shows the chapter's title, escaped, as its `<title>`;
/// links the style sheet at `../` and its path, escaped; names the page it
/// was made from, escaped, in `data-source`; and holds the chapter's content
/// as it is, unescaped, inside its `<article>`. The manifest items handed to
/// `chapter_xhtml` play no part in it.
pub proof fn chapter_page_holds_the_chapter(c: Chapter, css_path: Seq<char>)
    ensures
        exists|i: int|
            occurs_at(
                chapter_xhtml_spec(c, css_path),
                "<title>"@ + xml_escape_spec(c.title@) + "</title>"@,
                i,
            ),
        exists|i: int|
            occurs_at(
                chapter_xhtml_spec(c, css_path),
                "href=\"../"@ + xml_escape_spec(css_path) + "\"/>"@,
                i,
            ),
        exists|i: int|
            occurs_at(
                chapter_xhtml_spec(c, css_path),
                "data-source=\""@ + xml_escape_spec(c.source_html@) + "\">\n"@ + c.content@
                    + "</article>"@,
                i,
            ),
{
    let l1 = "<?xml version=\"1.0\" encoding=\"UTF-8\"?>\n<!DOCTYPE html>\n<html xmlns=\"http://www.w3.org/1999/xhtml\" xml:lang=\"en\">\n<head>\n<meta charset=\"utf-8\"/>\n<title>"@;
    let l2 = "</title>\n"@;
    let l3 = "<link rel=\"stylesheet\" type=\"text/css\" href=\"../"@;
    let l4 = "\"/>\n"@;
    let l5 = "</head>\n<body>\n<article class=\"chapter\" data-source=\""@;
    let l6 = "\">\n"@;
    let l7 = "</article>\n</body>\n</html>\n"@;
    reveal_strlit("<?xml version=\"1.0\" encoding=\"UTF-8\"?>\n<!DOCTYPE html>\n<html xmlns=\"http://www.w3.org/1999/xhtml\" xml:lang=\"en\">\n<head>\n<meta charset=\"utf-8\"/>\n<title>");
    reveal_strlit("</title>\n");
    reveal_strlit("<link rel=\"stylesheet\" type=\"text/css\" href=\"../");
    reveal_strlit("\"/>\n");
    reveal_strlit("</head>\n<body>\n<article class=\"chapter\" data-source=\"");
    reveal_strlit("\">\n");
    reveal_strlit("</article>\n</body>\n</html>\n");
    reveal_strlit("<title>");
    reveal_strlit("</title>");
    reveal_strlit("href=\"../");
    reveal_strlit("\"/>");
    reveal_strlit("data-source=\"");
    reveal_strlit("</article>");
    let t = xml_escape_spec(c.title@);
    let cs = xml_escape_spec(css_path);
    let sr = xml_escape_spec(c.source_html@);
    let doc = chapter_xhtml_spec(c, css_path);
    assert(doc == l1 + t + l2 + (l3 + cs + l4) + l5 + sr + l6 + c.content@ + l7);
    let a = l1.len() - 7;
    let pa = "<title>"@ + t + "</title>"@;
    assert(doc.subrange(a, a + pa.len()) =~= pa);
    assert(occurs_at(doc, pa, a));
    let b = l1.len() + t.len() + l2.len() + l3.len() - 9;
    let pb = "href=\"../"@ + cs + "\"/>"@;
    assert(doc.subrange(b, b + pb.len()) =~= pb);
    assert(occurs_at(doc, pb, b));
    let d = l1.len() + t.len() + l2.len() + l3.len() + cs.len() + l4.len() + l5.len() - 13;
    let pd = "data-source=\""@ + sr + "\">\n"@ + c.content@ + "</article>"@;
    assert(doc.subrange(d, d + pd.len()) =~= pd);
    assert(occurs_at(doc, pd, d));
}

/// The XHTML page of a chapter.
pub fn chapter_xhtml(chapter: &Chapter, _assets: &[ManifestItem], css_path: &str) -> (r: String)
    ensures
        r@ == chapter_xhtml_spec(*chapter, css_path@),
{
    let mut out: Vec<char> = Vec::new();
    push_str(&mut out, "<?xml version=\"1.0\" encoding=\"UTF-8\"?>\n<!DOCTYPE html>\n<html xmlns=\"http://www.w3.org/1999/xhtml\" xml:lang=\"en\">\n<head>\n<meta charset=\"utf-8\"/>\n<title>");
    push_escaped(&mut out, chapter.title.as_str());
    push_str(&mut out, "</title>\n");
    push_str(&mut out, "<link rel=\"stylesheet\" type=\"text/css\" href=\"../");
    push_escaped(&mut out, css_path);
    push_str(&mut out, "\"/>\n");
    push_str(&mut out, "</head>\n<body>\n<article class=\"chapter\" data-source=\"");
    push_escaped(&mut out, chapter.source_html.as_str());
    push_str(&mut out, "\">\n");
    push_str(&mut out, chapter.content.as_str());
    push_str(&mut out, "</article>\n</body>\n</html>\n");
    string_of(&out)
}

/// The entry of a chapter in the navigation document.
pub open spec fn nav_item(c: Chapter) -> Seq<char> {
    "<li><a href=\""@ + xml_escape_spec(c.xhtml_path@) + "\">"@ + xml_escape_spec(c.title@) + "</a></li>\n"@
}

/// The entries of the first `n` chapters in the navigation document.
pub open spec fn nav_items(chs: Seq<Chapter>, n: int) -> Seq<char>
    decreases n,
{
    if n <= 0 {
        Seq::empty()
    } else {
        nav_items(chs, n - 1) + nav_item(chs[n - 1])
    }
}

/// The navigation document: a list of links to the chapters.
pub open spec fn nav_xhtml_spec(chs: Seq<Chapter>) -> Seq<char> {
    "<?xml version=\"1.0\" encoding=\"UTF-8\"?>\n<!DOCTYPE html>\n<html xmlns=\"http://www.w3.org/1999/xhtml\" xmlns:epub=\"http://www.idpf.org/2007/ops\" xml:lang=\"en\">\n<head><title>Table of Contents</title></head>\n<body>\n<nav epub:type=\"toc\" id=\"toc\">\n<h1>Table of Contents</h1>\n"@ + ("<ol>\n"@ + nav_items(chs, chs.len() as int) + "</ol>\n"@) + "</nav>\n</body>\n</html>\n"@
}

/// The navigation document of the EPUB.
pub fn nav_xhtml(chapters: &[Chapter]) -> (r: String)
    ensures
        r@ == nav_xhtml_spec(chapters@),
{
    let mut out: Vec<char> = Vec::new();
    push_str(&mut out, "<?xml version=\"1.0\" encoding=\"UTF-8\"?>\n<!DOCTYPE html>\n<html xmlns=\"http://www.w3.org/1999/xhtml\" xmlns:epub=\"http://www.idpf.org/2007/ops\" xml:lang=\"en\">\n<head><title>Table of Contents</title></head>\n<body>\n<nav epub:type=\"toc\" id=\"toc\">\n<h1>Table of Contents</h1>\n");
    push_str(&mut out, "<ol>\n");
    let ghost start = out@;
    let mut i: usize = 0;
    while i < chapters.len()
        invariant
            i <= chapters@.len(),
            out@ == start + nav_items(chapters@, i as int),
        decreases chapters.len() - i,
    {
        let c = &chapters[i];
        push_str(&mut out, "<li><a href=\"");
        push_escaped(&mut out, c.xhtml_path.as_str());
        push_str(&mut out, "\">");
        push_escaped(&mut out, c.title.as_str());
        push_str(&mut out, "</a></li>\n");
        i = i + 1;
    }
    push_str(&mut out, "</ol>\n");
    push_str(&mut out, "</nav>\n</body>\n</html>\n");
    string_of(&out)
}

/// The navigation point of the chapter at position `idx` (from 0) in the NCX.
pub open spec fn nav_point(idx: int, c: Chapter) -> Seq<char> {
    "  <navPoint id=\""@ + xml_escape_spec(c.id@) + "\" playOrder=\""@ + decimal((idx + 1) as nat) + "\">\n<navLabel><text>"@
        + xml_escape_spec(c.title@) + "</text></navLabel>\n<content src=\""@ + xml_escape_spec(c.xhtml_path@) + "\"/>\n</navPoint>\n"@
}

/// The navigation points of the first `n` chapters.
pub open spec fn nav_points(chs: Seq<Chapter>, n: int) -> Seq<char>
    decreases n,
{
    if n <= 0 {
        Seq::empty()
    } else {
        nav_points(chs, n - 1) + nav_point(n - 1, chs[n - 1])
    }
}

/// The NCX table of contents, for readers of EPUB 2.
pub open spec fn toc_ncx_spec(title: Seq<char>, chs: Seq<Chapter>) -> Seq<char> {
    "<?xml version=\"1.0\" encoding=\"UTF-8\"?>\n<ncx xmlns=\"http://www.daisy.org/z3986/2005/ncx/\" version=\"2005-1\">\n<head>\n<meta name=\"dtb:uid\" content=\""@ + xml_escape_spec(book_id(title)) + "\"/>\n</head>\n<docTitle><text>"@ + xml_escape_spec(title) + "</text></docTitle>\n<navMap>\n"@
        + nav_points(chs, chs.len() as int) + "  </navMap>\n</ncx>\n"@
}

/// The NCX table of contents of the EPUB.
pub fn toc_ncx(metadata: &BookMetadata, chapters: &[Chapter]) -> (r: String)
    ensures
        r@ == toc_ncx_spec(metadata.title@, chapters@),
{
    let mut out: Vec<char> = Vec::new();
    push_str(&mut out, "<?xml version=\"1.0\" encoding=\"UTF-8\"?>\n<ncx xmlns=\"http://www.daisy.org/z3986/2005/ncx/\" version=\"2005-1\">\n<head>\n<meta name=\"dtb:uid\" content=\"");
    let mut id = chars_of("rust-book-");
    let title = chars_of(metadata.title.as_str());
    let slug = slugify_chars(&title);
    push_all(&mut id, &slug);
    let id_escaped = xml_escape_chars(&id);
    push_all(&mut out, &id_escaped);
    push_str(&mut out, "\"/>\n</head>\n<docTitle><text>");
    push_escaped(&mut out, metadata.title.as_str());
    push_str(&mut out, "</text></docTitle>\n<navMap>\n");
    let ghost start = out@;
    let mut i: usize = 0;
    while i < chapters.len()
        invariant
            i <= chapters@.len(),
            out@ == start + nav_points(chapters@, i as int),
        decreases chapters.len() - i,
    {
        let c = &chapters[i];
        let mut item: Vec<char> = Vec::new();
        push_str(&mut item, "  <navPoint id=\"");
        push_escaped(&mut item, c.id.as_str());
        push_str(&mut item, "\" playOrder=\"");
        let number = decimal_chars(i + 1);
        push_all(&mut item, &number);
        push_str(&mut item, "\">\n<navLabel><text>");
        push_escaped(&mut item, c.title.as_str());
        push_str(&mut item, "</text></navLabel>\n<content src=\"");
        push_escaped(&mut item, c.xhtml_path.as_str());
        push_str(&mut item, "\"/>\n</navPoint>\n");
        assert(item@ == nav_point(i as int, chapters@[i as int]));
        push_all(&mut out, &item);
        i = i + 1;
    }
    push_str(&mut out, "  </navMap>\n</ncx>\n");
    string_of(&out)
}

/// The manifest item of a chapter.
pub open spec fn chapter_manifest_item(c: Chapter) -> Seq<char> {
    "    <item id=\""@ + xml_escape_spec(c.id@) + "\" href=\""@ + xml_escape_spec(c.xhtml_path@) + "\" media-type=\"application/xhtml+xml\"/>\n"@
}

pub open spec fn chapter_manifest_items(chs: Seq<Chapter>, n: int) -> Seq<char>
    decreases n,
{
    if n <= 0 {
        Seq::empty()
    } else {
        chapter_manifest_items(chs, n - 1) + chapter_manifest_item(chs[n - 1])
    }
}

/// The `properties` attribute of an asset item, if it has properties.
pub open spec fn properties_attr(p: Option<String>) -> Seq<char> {
    match p {
        Some(s) => " properties=\""@ + xml_escape_spec(s@) + "\""@,
        None => Seq::empty(),
    }
}

/// The manifest item of an asset.
pub open spec fn asset_manifest_item(a: ManifestItem) -> Seq<char> {
    "    <item id=\""@ + xml_escape_spec(a.id@) + "\" href=\""@ + xml_escape_spec(a.href@) + "\" media-type=\""@
        + xml_escape_spec(a.media_type@) + "\""@ + properties_attr(a.properties) + " />\n"@
}

pub open spec fn asset_manifest_items(items: Seq<ManifestItem>, n: int) -> Seq<char>
    decreases n,
{
    if n <= 0 {
        Seq::empty()
    } else {
        asset_manifest_items(items, n - 1) + asset_manifest_item(items[n - 1])
    }
}

/// The spine entry of a chapter.
pub open spec fn spine_item(c: Chapter) -> Seq<char> {
    "    <itemref idref=\""@ + xml_escape_spec(c.id@) + "\"/>\n"@
}

pub open spec fn spine_items(chs: Seq<Chapter>, n: int) -> Seq<char>
    decreases n,
{
    if n <= 0 {
        Seq::empty()
    } else {
        spine_items(chs, n - 1) + spine_item(chs[n - 1])
    }
}

/// The `dc:creator` elements of the first `n` authors.
pub open spec fn creators(authors: Seq<String>, n: int) -> Seq<char>
    decreases n,
{
    if n <= 0 {
        Seq::empty()
    } else {
        creators(authors, n - 1) + ("    <dc:creator>"@ + xml_escape_spec(authors[n - 1]@) + "</dc:creator>\n"@)
    }
}

/// The manifest: navigation, NCX, style sheet, chapters, assets.
pub open spec fn manifest_spec(chs: Seq<Chapter>, assets: Seq<ManifestItem>, css_path: Seq<char>) -> Seq<char> {
    "    <item id=\"nav\" href=\"nav.xhtml\" media-type=\"application/xhtml+xml\" properties=\"nav\"/>\n"@ + "    <item id=\"ncx\" href=\"toc.ncx\" media-type=\"application/x-dtbncx+xml\"/>\n"@ + ("    <item id=\"epub_css\" href=\""@ + xml_escape_spec(css_path) + "\" media-type=\"text/css\"/>\n"@)
        + chapter_manifest_items(chs, chs.len() as int) + asset_manifest_items(assets, assets.len() as int)
}

/// The package document, with `modified` as its modification time.
pub open spec fn content_opf_spec(
    meta: BookMetadata,
    chs: Seq<Chapter>,
    assets: Seq<ManifestItem>,
    css_path: Seq<char>,
    modified: Seq<char>,
) -> Seq<char> {
    "<?xml version=\"1.0\" encoding=\"UTF-8\"?>\n<package xmlns=\"http://www.idpf.org/2007/opf\" version=\"3.0\" unique-identifier=\"bookid\" xml:lang=\"en\">\n<metadata xmlns:dc=\"http://purl.org/dc/elements/1.1/\">\n<dc:identifier id=\"bookid\">"@ + xml_escape_spec(book_id(meta.title@)) + "</dc:identifier>\n<dc:title>"@ + xml_escape_spec(meta.title@)
        + "</dc:title>\n"@ + creators(meta.authors@, meta.authors@.len() as int) + "    <dc:language>en</dc:language>\n<meta property=\"dcterms:modified\">"@
        + xml_escape_spec(modified) + "</meta>\n</metadata>\n<manifest>\n"@ + manifest_spec(chs, assets, css_path) + "  </manifest>\n<spine toc=\"ncx\">\n"@
        + spine_items(chs, chs.len() as int) + "  </spine>\n</package>\n"@
}

/// The spine lines of the chapters: the `k`-th is the `itemref` whose
/// `idref` is the escaped id of the `k`-th chapter.
pub open spec fn spine_lines(chs: Seq<Chapter>) -> spec_fn(int) -> Seq<char> {
    |k: int| "    <itemref idref=\""@ + xml_escape_spec(chs[k].id@) + "\"/>\n"@
}

proof fn lemma_spine_items_are_lines(chs: Seq<Chapter>, n: int)
    requires
        0 <= n <= chs.len(),
    ensures
        spine_items(chs, n) == concat_range(n, spine_lines(chs)),
    decreases n,
{
    if n > 0 {
        lemma_spine_items_are_lines(chs, n - 1);
        assert(spine_lines(chs)(n - 1) == spine_item(chs[n - 1]));
    }
}

/// The package document ends with its spine, which holds one `itemref` per
/// chapter in reading order, and nothing else: the `k`-th names the escaped
/// id of the `k`-th chapter, for every `k` below the number of chapters.
pub proof fn spine_lists_every_chapter_in_order(
    meta: BookMetadata,
    chs: Seq<Chapter>,
    assets: Seq<ManifestItem>,
    css_path: Seq<char>,
    modified: Seq<char>,
)
    ensures
        ends_with(
            content_opf_spec(meta, chs, assets, css_path, modified),
            "  </manifest>\n<spine toc=\"ncx\">\n"@ + concat_range(chs.len() as int, spine_lines(chs))
                + "  </spine>\n</package>\n"@,
        ),
{
    lemma_spine_items_are_lines(chs, chs.len() as int);
    let doc = content_opf_spec(meta, chs, assets, css_path, modified);
    let l1 = "  </manifest>\n<spine toc=\"ncx\">\n"@;
    let l2 = "  </spine>\n</package>\n"@;
    let sp = spine_items(chs, chs.len() as int);
    let head = "<?xml version=\"1.0\" encoding=\"UTF-8\"?>\n<package xmlns=\"http://www.idpf.org/2007/opf\" version=\"3.0\" unique-identifier=\"bookid\" xml:lang=\"en\">\n<metadata xmlns:dc=\"http://purl.org/dc/elements/1.1/\">\n<dc:identifier id=\"bookid\">"@ + xml_escape_spec(book_id(meta.title@)) + "</dc:identifier>\n<dc:title>"@ + xml_escape_spec(meta.title@)
        + "</dc:title>\n"@ + creators(meta.authors@, meta.authors@.len() as int) + "    <dc:language>en</dc:language>\n<meta property=\"dcterms:modified\">"@
        + xml_escape_spec(modified) + "</meta>\n</metadata>\n<manifest>\n"@ + manifest_spec(chs, assets, css_path);
    let tail = l1 + sp + l2;
    assert(doc =~= head + tail);
    assert(doc.subrange(doc.len() - tail.len(), doc.len() as int) =~= tail);
}

/// The entries of the navigation document, one per chapter: the `k`-th
/// links the escaped file of the `k`-th chapter under its escaped title.
pub open spec fn nav_lines(chs: Seq<Chapter>) -> spec_fn(int) -> Seq<char> {
    |k: int| "<li><a href=\""@ + xml_escape_spec(chs[k].xhtml_path@) + "\">"@ + xml_escape_spec(chs[k].title@) + "</a></li>\n"@
}

proof fn lemma_nav_items_are_lines(chs: Seq<Chapter>, n: int)
    requires
        0 <= n <= chs.len(),
    ensures
        nav_items(chs, n) == concat_range(n, nav_lines(chs)),
    decreases n,
{
    if n > 0 {
        lemma_nav_items_are_lines(chs, n - 1);
        assert(nav_lines(chs)(n - 1) == nav_item(chs[n - 1]));
    }
}

/// The navigation document ends with its list of chapters, which holds one
/// entry per chapter in reading order, and nothing else.
pub proof fn nav_lists_every_chapter_in_order(chs: Seq<Chapter>)
    ensures
        ends_with(
            nav_xhtml_spec(chs),
            "<ol>\n"@ + concat_range(chs.len() as int, nav_lines(chs)) + "</ol>\n"@ + "</nav>\n</body>\n</html>\n"@,
        ),
{
    lemma_nav_items_are_lines(chs, chs.len() as int);
    let doc = nav_xhtml_spec(chs);
    let head = "<?xml version=\"1.0\" encoding=\"UTF-8\"?>\n<!DOCTYPE html>\n<html xmlns=\"http://www.w3.org/1999/xhtml\" xmlns:epub=\"http://www.idpf.org/2007/ops\" xml:lang=\"en\">\n<head><title>Table of Contents</title></head>\n<body>\n<nav epub:type=\"toc\" id=\"toc\">\n<h1>Table of Contents</h1>\n"@;
    let tail = "<ol>\n"@ + nav_items(chs, chs.len() as int) + "</ol>\n"@ + "</nav>\n</body>\n</html>\n"@;
    assert(doc =~= head + tail);
    assert(doc.subrange(doc.len() - tail.len(), doc.len() as int) =~= tail);
}

/// The navigation points of the NCX, one per chapter: the `k`-th names the
/// `k`-th chapter, with play order `k + 1`.
pub open spec fn ncx_points(chs: Seq<Chapter>) -> spec_fn(int) -> Seq<char> {
    |k: int|
        "  <navPoint id=\""@ + xml_escape_spec(chs[k].id@) + "\" playOrder=\""@ + decimal((k + 1) as nat)
            + "\">\n<navLabel><text>"@ + xml_escape_spec(chs[k].title@) + "</text></navLabel>\n<content src=\""@
            + xml_escape_spec(chs[k].xhtml_path@) + "\"/>\n</navPoint>\n"@
}

proof fn lemma_nav_points_are_lines(chs: Seq<Chapter>, n: int)
    requires
        0 <= n <= chs.len(),
    ensures
        nav_points(chs, n) == concat_range(n, ncx_points(chs)),
    decreases n,
{
    if n > 0 {
        lemma_nav_points_are_lines(chs, n - 1);
        assert(ncx_points(chs)(n - 1) == nav_point(n - 1, chs[n - 1]));
    }
}

/// The NCX ends with its navigation map, which holds one navigation point
/// per chapter, in reading order and numbered from 1, and nothing else.
pub proof fn ncx_lists_every_chapter_in_play_order(title: Seq<char>, chs: Seq<Chapter>)
    ensures
        ends_with(
            toc_ncx_spec(title, chs),
            "</text></docTitle>\n<navMap>\n"@ + concat_range(chs.len() as int, ncx_points(chs))
                + "  </navMap>\n</ncx>\n"@,
        ),
{
    lemma_nav_points_are_lines(chs, chs.len() as int);
    let doc = toc_ncx_spec(title, chs);
    let head = "<?xml version=\"1.0\" encoding=\"UTF-8\"?>\n<ncx xmlns=\"http://www.daisy.org/z3986/2005/ncx/\" version=\"2005-1\">\n<head>\n<meta name=\"dtb:uid\" content=\""@ + xml_escape_spec(book_id(title)) + "\"/>\n</head>\n<docTitle><text>"@ + xml_escape_spec(title);
    let tail = "</text></docTitle>\n<navMap>\n"@ + nav_points(chs, chs.len() as int) + "  </navMap>\n</ncx>\n"@;
    assert(doc =~= head + tail);
    assert(doc.subrange(doc.len() - tail.len(), doc.len() as int) =~= tail);
}

/// The manifest items of the chapters: the `k`-th gives the escaped id and
/// file of the `k`-th chapter.
pub open spec fn chapter_item_lines(chs: Seq<Chapter>) -> spec_fn(int) -> Seq<char> {
    |k: int|
        "    <item id=\""@ + xml_escape_spec(chs[k].id@) + "\" href=\""@ + xml_escape_spec(chs[k].xhtml_path@)
            + "\" media-type=\"application/xhtml+xml\"/>\n"@
}

/// The manifest items of the assets: the `k`-th gives the escaped id, file,
/// media type and properties of the `k`-th asset.
pub open spec fn asset_item_lines(assets: Seq<ManifestItem>) -> spec_fn(int) -> Seq<char> {
    |k: int|
        "    <item id=\""@ + xml_escape_spec(assets[k].id@) + "\" href=\""@ + xml_escape_spec(assets[k].href@)
            + "\" media-type=\""@ + xml_escape_spec(assets[k].media_type@) + "\""@ + properties_attr(
            assets[k].properties,
        ) + " />\n"@
}

proof fn lemma_chapter_items_are_lines(chs: Seq<Chapter>, n: int)
    requires
        0 <= n <= chs.len(),
    ensures
        chapter_manifest_items(chs, n) == concat_range(n, chapter_item_lines(chs)),
    decreases n,
{
    if n > 0 {
        lemma_chapter_items_are_lines(chs, n - 1);
        assert(chapter_item_lines(chs)(n - 1) == chapter_manifest_item(chs[n - 1]));
    }
}

proof fn lemma_asset_items_are_lines(assets: Seq<ManifestItem>, n: int)
    requires
        0 <= n <= assets.len(),
    ensures
        asset_manifest_items(assets, n) == concat_range(n, asset_item_lines(assets)),
    decreases n,
{
    if n > 0 {
        lemma_asset_items_are_lines(assets, n - 1);
        assert(asset_item_lines(assets)(n - 1) == asset_manifest_item(assets[n - 1]));
    }
}

/// The `dc:creator` elements, one per author: the `k`-th holds the escaped
/// name of the `k`-th author.
pub open spec fn creator_lines(authors: Seq<String>) -> spec_fn(int) -> Seq<char> {
    |k: int| "    <dc:creator>"@ + xml_escape_spec(authors[k]@) + "</dc:creator>\n"@
}

proof fn lemma_creators_are_lines(authors: Seq<String>, n: int)
    requires
        0 <= n <= authors.len(),
    ensures
        creators(authors, n) == concat_range(n, creator_lines(authors)),
    decreases n,
{
    if n > 0 {
        lemma_creators_are_lines(authors, n - 1);
    }
}

/// The package document names every author, in order, right after the
/// title.
pub proof fn package_names_every_author_in_order(
    meta: BookMetadata,
    chs: Seq<Chapter>,
    assets: Seq<ManifestItem>,
    css_path: Seq<char>,
    modified: Seq<char>,
)
    ensures
        exists|p: int|
            occurs_at(
                content_opf_spec(meta, chs, assets, css_path, modified),
                "</dc:title>\n"@ + concat_range(meta.authors@.len() as int, creator_lines(meta.authors@))
                    + "    <dc:language>en</dc:language>\n<meta property=\"dcterms:modified\">"@,
                p,
            ),
{
    lemma_creators_are_lines(meta.authors@, meta.authors@.len() as int);
    let doc = content_opf_spec(meta, chs, assets, css_path, modified);
    let h1 = "<?xml version=\"1.0\" encoding=\"UTF-8\"?>\n<package xmlns=\"http://www.idpf.org/2007/opf\" version=\"3.0\" unique-identifier=\"bookid\" xml:lang=\"en\">\n<metadata xmlns:dc=\"http://purl.org/dc/elements/1.1/\">\n<dc:identifier id=\"bookid\">"@ + xml_escape_spec(book_id(meta.title@)) + "</dc:identifier>\n<dc:title>"@ + xml_escape_spec(meta.title@);
    let who = "</dc:title>\n"@ + creators(meta.authors@, meta.authors@.len() as int)
        + "    <dc:language>en</dc:language>\n<meta property=\"dcterms:modified\">"@;
    let rest = xml_escape_spec(modified) + "</meta>\n</metadata>\n<manifest>\n"@ + manifest_spec(chs, assets, css_path) + "  </manifest>\n<spine toc=\"ncx\">\n"@
        + spine_items(chs, chs.len() as int) + "  </spine>\n</package>\n"@;
    assert(doc =~= h1 + who + rest);
    assert(doc.subrange(h1.len() as int, (h1.len() + who.len()) as int) =~= who);
    assert(occurs_at(doc, who, h1.len() as int));
}

/// The manifest of the package document ends with one item per chapter, in
/// reading order, then one item per asset, in order; then comes the spine.
pub proof fn package_manifest_lists_every_chapter_and_asset(
    meta: BookMetadata,
    chs: Seq<Chapter>,
    assets: Seq<ManifestItem>,
    css_path: Seq<char>,
    modified: Seq<char>,
)
    ensures
        ends_with(
            content_opf_spec(meta, chs, assets, css_path, modified),
            "\" media-type=\"text/css\"/>\n"@ + concat_range(chs.len() as int, chapter_item_lines(chs))
                + concat_range(assets.len() as int, asset_item_lines(assets))
                + "  </manifest>\n<spine toc=\"ncx\">\n"@ + concat_range(chs.len() as int, spine_lines(chs))
                + "  </spine>\n</package>\n"@,
        ),
{
    lemma_chapter_items_are_lines(chs, chs.len() as int);
    lemma_asset_items_are_lines(assets, assets.len() as int);
    lemma_spine_items_are_lines(chs, chs.len() as int);
    let doc = content_opf_spec(meta, chs, assets, css_path, modified);
    let head = "<?xml version=\"1.0\" encoding=\"UTF-8\"?>\n<package xmlns=\"http://www.idpf.org/2007/opf\" version=\"3.0\" unique-identifier=\"bookid\" xml:lang=\"en\">\n<metadata xmlns:dc=\"http://purl.org/dc/elements/1.1/\">\n<dc:identifier id=\"bookid\">"@ + xml_escape_spec(book_id(meta.title@)) + "</dc:identifier>\n<dc:title>"@ + xml_escape_spec(meta.title@)
        + "</dc:title>\n"@ + creators(meta.authors@, meta.authors@.len() as int) + "    <dc:language>en</dc:language>\n<meta property=\"dcterms:modified\">"@
        + xml_escape_spec(modified) + "</meta>\n</metadata>\n<manifest>\n"@ + ("    <item id=\"nav\" href=\"nav.xhtml\" media-type=\"application/xhtml+xml\" properties=\"nav\"/>\n"@ + "    <item id=\"ncx\" href=\"toc.ncx\" media-type=\"application/x-dtbncx+xml\"/>\n"@ + "    <item id=\"epub_css\" href=\""@ + xml_escape_spec(css_path));
    let tail = "\" media-type=\"text/css\"/>\n"@ + chapter_manifest_items(chs, chs.len() as int)
        + asset_manifest_items(assets, assets.len() as int) + "  </manifest>\n<spine toc=\"ncx\">\n"@
        + spine_items(chs, chs.len() as int) + "  </spine>\n</package>\n"@;
    assert(doc =~= head + tail);
    assert(doc.subrange(doc.len() - tail.len(), doc.len() as int) =~= tail);
}

/// The package document of the EPUB, with `modified` as its modification time.
pub fn content_opf_at(
    metadata: &BookMetadata,
    chapters: &[Chapter],
    assets: &[ManifestItem],
    css_path: &str,
    modified: &str,
) -> (r: String)
    ensures
        r@ == content_opf_spec(*metadata, chapters@, assets@, css_path@, modified@),
{
    let mut out: Vec<char> = Vec::new();
    push_str(&mut out, "<?xml version=\"1.0\" encoding=\"UTF-8\"?>\n<package xmlns=\"http://www.idpf.org/2007/opf\" version=\"3.0\" unique-identifier=\"bookid\" xml:lang=\"en\">\n<metadata xmlns:dc=\"http://purl.org/dc/elements/1.1/\">\n<dc:identifier id=\"bookid\">");
    let mut id = chars_of("rust-book-");
    let title = chars_of(metadata.title.as_str());
    let slug = slugify_chars(&title);
    push_all(&mut id, &slug);
    let id_escaped = xml_escape_chars(&id);
    push_all(&mut out, &id_escaped);
    push_str(&mut out, "</dc:identifier>\n<dc:title>");
    push_escaped(&mut out, metadata.title.as_str());
    push_str(&mut out, "</dc:title>\n");
    let ghost start = out@;
    let mut i: usize = 0;
    while i < metadata.authors.len()
        invariant
            i <= metadata.authors@.len(),
            out@ == start + creators(metadata.authors@, i as int),
        decreases metadata.authors.len() - i,
    {
        push_str(&mut out, "    <dc:creator>");
        push_escaped(&mut out, metadata.authors[i].as_str());
        push_str(&mut out, "</dc:creator>\n");
        i = i + 1;
    }
    push_str(&mut out, "    <dc:language>en</dc:language>\n<meta property=\"dcterms:modified\">");
    push_escaped(&mut out, modified);
    push_str(&mut out, "</meta>\n</metadata>\n<manifest>\n");
    push_str(&mut out, "    <item id=\"nav\" href=\"nav.xhtml\" media-type=\"application/xhtml+xml\" properties=\"nav\"/>\n");
    push_str(&mut out, "    <item id=\"ncx\" href=\"toc.ncx\" media-type=\"application/x-dtbncx+xml\"/>\n");
    push_str(&mut out, "    <item id=\"epub_css\" href=\"");
    push_escaped(&mut out, css_path);
    push_str(&mut out, "\" media-type=\"text/css\"/>\n");
    let ghost start = out@;
    let mut i: usize = 0;
    while i < chapters.len()
        invariant
            i <= chapters@.len(),
            out@ == start + chapter_manifest_items(chapters@, i as int),
        decreases chapters.len() - i,
    {
        let c = &chapters[i];
        push_str(&mut out, "    <item id=\"");
        push_escaped(&mut out, c.id.as_str());
        push_str(&mut out, "\" href=\"");
        push_escaped(&mut out, c.xhtml_path.as_str());
        push_str(&mut out, "\" media-type=\"application/xhtml+xml\"/>\n");
        i = i + 1;
    }
    let ghost start = out@;
    let mut i: usize = 0;
    while i < assets.len()
        invariant
            i <= assets@.len(),
            out@ == start + asset_manifest_items(assets@, i as int),
        decreases assets.len() - i,
    {
        let a = &assets[i];
        let mut item: Vec<char> = Vec::new();
        push_str(&mut item, "    <item id=\"");
        push_escaped(&mut item, a.id.as_str());
        push_str(&mut item, "\" href=\"");
        push_escaped(&mut item, a.href.as_str());
        push_str(&mut item, "\" media-type=\"");
        push_escaped(&mut item, a.media_type.as_str());
        push_str(&mut item, "\"");
        let mut props: Vec<char> = Vec::new();
        match &a.properties {
            Some(p) => {
                push_str(&mut props, " properties=\"");
                push_escaped(&mut props, p.as_str());
                push_str(&mut props, "\"");
            },
            None => {},
        }
        assert(props@ == properties_attr(a.properties));
        push_all(&mut item, &props);
        push_str(&mut item, " />\n");
        assert(item@ == asset_manifest_item(assets@[i as int]));
        push_all(&mut out, &item);
        i = i + 1;
    }
    push_str(&mut out, "  </manifest>\n<spine toc=\"ncx\">\n");
    let ghost start = out@;
    let mut i: usize = 0;
    while i < chapters.len()
        invariant
            i <= chapters@.len(),
            out@ == start + spine_items(chapters@, i as int),
        decreases chapters.len() - i,
    {
        push_str(&mut out, "    <itemref idref=\"");
        push_escaped(&mut out, chapters[i].id.as_str());
        push_str(&mut out, "\"/>\n");
        i = i + 1;
    }
    push_str(&mut out, "  </spine>\n</package>\n");
    string_of(&out)
}

#[verifier::external_type_specification]
#[verifier::external_body]
pub struct ExOffsetDateTime(time::OffsetDateTime);

#[verifier::external_type_specification]
#[verifier::external_body]
pub struct ExTimeFormatError(time::error::Format);

/// `time::OffsetDateTime::now_utc`: the current time. Nothing is stated of it.
#[verifier::external_body]
fn now_utc() -> time::OffsetDateTime {
    time::OffsetDateTime::now_utc()
}

/// An RFC 3339 date and time: `YYYY-MM-DDTHH:MM:SS` in digits, followed by
/// at least one more character (the offset, `Z` or `+HH:MM`, after an
/// optional fraction of a second).
pub open spec fn rfc3339_shape(s: Seq<char>) -> bool {
    &&& s.len() >= 20
    &&& forall|i: int|
        0 <= i < 19 && i != 4 && i != 7 && i != 10 && i != 13 && i != 16 ==> is_digit_char(
            #[trigger] s[i],
        )
    &&& s[4] == '-' && s[7] == '-' && s[10] == 'T' && s[13] == ':' && s[16] == ':'
}

/// `OffsetDateTime::format` with the RFC 3339 format. As its source shows, a
/// text that comes back is a four-digit year, `-`, two-digit month, `-`,
/// two-digit day, `T`, two-digit hour, minute and second separated by `:`,
/// then an optional fraction and the offset (`Z` or a sign with `HH:MM`).
/// Which time it writes, and the fraction and offset themselves, are not
/// stated.
#[verifier::external_body]
fn format_rfc3339(t: &time::OffsetDateTime) -> (r: Result<String, time::error::Format>)
    ensures
        r matches Ok(s) ==> rfc3339_shape(s@),
{
    t.format(&time::format_description::well_known::Rfc3339)
}

/// The modification time written into the package document: the current
/// time in RFC 3339 form, or `1970-01-01T00:00:00Z` if it cannot be
/// formatted. Which time comes back is not stated; it is always an RFC 3339
/// date and time.
pub fn modification_time() -> (r: String)
    ensures
        rfc3339_shape(r@),
{
    let now = now_utc();
    match format_rfc3339(&now) {
        Ok(s) => s,
        Err(_) => {
            let epoch = "1970-01-01T00:00:00Z".to_owned();
            proof {
                reveal_strlit("1970-01-01T00:00:00Z");
                assert(rfc3339_shape(epoch@));
            }
            epoch
        },
    }
}

/// The package document of the EPUB, stamped with the current time.
pub fn content_opf(
    metadata: &BookMetadata,
    chapters: &[Chapter],
    assets: &[ManifestItem],
    css_path: &str,
) -> (r: String)
    ensures
        exists|modified: Seq<char>|
            rfc3339_shape(modified) && r@ == content_opf_spec(*metadata, chapters@, assets@, css_path@, modified),
{
    let modified = modification_time();
    content_opf_at(metadata, chapters, assets, css_path, modified.as_str())
}

} // verus!
