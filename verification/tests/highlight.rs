use book_tools::chapters::{build_chapter, ChapterError};
use book_tools::highlight::{
    block_language, code_text, highlight_code_blocks, highlight_source, preferred_highlight_theme,
};
use book_tools::urls::{build_chapter_path_map, SummaryEntry};
use syntect::parsing::SyntaxSet;

#[test]
fn code_blocks_are_highlighted_to_html() {
    let syntax_set = SyntaxSet::load_defaults_newlines();
    let theme = preferred_highlight_theme().expect("theme available");
    let input = "<pre><code class=\"language-rust\">fn main() {\\n    let x = 1;\\n}\\n</code></pre>";

    let out = highlight_code_blocks(input, &syntax_set, &theme)
        .expect("highlighting succeeds");

    assert!(out.contains("<pre class=\"playground\"><code>"));
    assert!(out.contains("fn"));
    assert!(!out.contains("class=\"language-rust\""));
}

#[test]
fn text_around_code_blocks_is_kept() {
    let syntax_set = SyntaxSet::load_defaults_newlines();
    let theme = preferred_highlight_theme().expect("theme available");
    let plain = "<p>no code &amp; here</p>";
    assert_eq!(highlight_code_blocks(plain, &syntax_set, &theme).as_deref(), Ok(plain));
    let input = "<h1>A</h1><pre><code>x &lt; y</code></pre><p>B</p>";
    let out = highlight_code_blocks(input, &syntax_set, &theme).expect("highlighting succeeds");
    assert!(out.starts_with("<h1>A</h1><pre class=\"playground\"><code>"));
    assert!(out.ends_with("</code></pre><p>B</p>"));
    assert!(out.contains("&lt;"));
}

#[test]
fn highlighted_source_is_framed() {
    let syntax_set = SyntaxSet::load_defaults_newlines();
    let theme = preferred_highlight_theme().expect("theme available");
    let out = highlight_source("<span>let</span> a = 1;\n", "no-such-language", &syntax_set, &theme)
        .expect("plain text fallback");
    assert!(out.starts_with("<pre class=\"playground\"><code>"));
    assert!(out.ends_with("</code></pre>"));
    assert!(out.contains("let"));
    assert!(!out.contains("<span>let</span>"));
    let empty = highlight_source("", "rust", &syntax_set, &theme).expect("empty code");
    assert_eq!(empty, "<pre class=\"playground\"><code></code></pre>");
}

#[test]
fn code_text_and_language() {
    assert_eq!(code_text("<b>a</b> &amp;&lt;&gt;&quot;"), "a &<>\"");
    assert_eq!(block_language(" class=\"language-toml\""), "toml");
    assert_eq!(block_language(" class=\"ignore\""), "txt");
}

#[test]
fn chapter_is_built_from_its_page() {
    let syntax_set = SyntaxSet::load_defaults_newlines();
    let theme = preferred_highlight_theme().expect("theme available");
    let entries = vec![
        SummaryEntry { title: "Intro".to_string(), md_path: "ch01-00-intro.md".to_string() },
        SummaryEntry { title: "Next".to_string(), md_path: "ch02.md".to_string() },
    ];
    let map = build_chapter_path_map(&entries);
    let html = "<head><title>Getting Started - The Book</title></head><main>\n<p><a href=\"ch02.html#x\">n</a><img src=\"img/a.svg\"></p>\n</main>";
    let ch = match build_chapter(0, &entries[0], html, &map, &syntax_set, &theme) {
        Ok(c) => c,
        Err(_) => panic!("chapter expected"),
    };
    assert_eq!(ch.id, "chap001");
    assert_eq!(ch.title, "Getting Started");
    assert_eq!(ch.source_html, "ch01-00-intro.html");
    assert_eq!(ch.xhtml_path, "chapters/001_ch01_00_intro_html.xhtml");
    assert_eq!(
        ch.content,
        "<p><a href=\"002_ch02_html.xhtml#x\">n</a><img src=\"../book/img/a.png\"></p>"
    );
    let untitled = match build_chapter(1, &entries[1], "<main>x</main>", &map, &syntax_set, &theme) {
        Ok(c) => c,
        Err(_) => panic!("chapter expected"),
    };
    assert_eq!(untitled.title, "Next");
    assert_eq!(untitled.id, "chap002");
    assert!(matches!(
        build_chapter(0, &entries[0], "<body>no main</body>", &map, &syntax_set, &theme),
        Err(ChapterError::NoMainContent)
    ));
}

fn shown_text(html: &str) -> String {
    let mut out = String::new();
    let mut in_tag = false;
    for c in html.chars() {
        match c {
            '<' => in_tag = true,
            '>' if in_tag => in_tag = false,
            _ if !in_tag => out.push(c),
            _ => {}
        }
    }
    out.replace("&lt;", "<")
        .replace("&gt;", ">")
        .replace("&quot;", "\"")
        .replace("&#39;", "'")
        .replace("&amp;", "&")
}

#[test]
fn highlighting_keeps_the_code_text() {
    let syntax_set = SyntaxSet::load_defaults_newlines();
    let theme = preferred_highlight_theme().expect("theme available");
    let raw = "<span>fn</span> main() {\n    let s = \"a &amp; b\" &lt; 'c';\n}\n";
    let out = highlight_source(raw, "rust", &syntax_set, &theme).expect("highlighting succeeds");
    let inner = &out["<pre class=\"playground\"><code>".len()..out.len() - "</code></pre>".len()];
    assert_eq!(shown_text(inner), code_text(raw));
    assert_eq!(code_text(raw), "fn main() {\n    let s = \"a & b\" < 'c';\n}\n");
}
