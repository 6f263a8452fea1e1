use book_tools::args::{parse_args, run_mode, usage, Args, ParsedArgs, RunMode};

fn argv(v: &[&str]) -> Vec<String> {
    v.iter().map(|s| s.to_string()).collect()
}

fn run(v: &[&str]) -> Args {
    match parse_args(&argv(v)) {
        Ok(ParsedArgs::Run(a)) => a,
        Ok(ParsedArgs::Help) => panic!("help not expected"),
        Err(e) => panic!("unexpected error: {e}"),
    }
}

#[test]
fn options_are_read() {
    let a = run(&[
        "--book-dir", "book", "--summary", "src/SUMMARY.md", "--book-toml", "book.toml", "--output",
        "out/book.epub", "--validate",
    ]);
    assert_eq!(a.book_dir.as_deref(), Some("book"));
    assert_eq!(a.summary.as_deref(), Some("src/SUMMARY.md"));
    assert_eq!(a.book_toml.as_deref(), Some("book.toml"));
    assert_eq!(a.output.as_deref(), Some("out/book.epub"));
    assert!(a.validate);
    assert!(!a.validate_only);
}

#[test]
fn empty_command_line_gives_usage() {
    match parse_args(&Vec::new()) {
        Err(e) => assert_eq!(e, usage()),
        _ => panic!("error expected"),
    }
    assert!(usage().contains("mdbook_epub --validate-only --output <epub_path>"));
    assert!(usage().contains("[--validate] [--codeblock-font-size <n>]"));
}

#[test]
fn help_wins_over_what_follows() {
    assert!(matches!(parse_args(&argv(&["--validate", "-h", "--bogus"])), Ok(ParsedArgs::Help)));
    assert!(matches!(parse_args(&argv(&["--help"])), Ok(ParsedArgs::Help)));
}

#[test]
fn wrong_words_are_reported() {
    match parse_args(&argv(&["--output"])) {
        Err(e) => assert_eq!(e, "--output requires a value"),
        _ => panic!("error expected"),
    }
    match parse_args(&argv(&["--validate", "--frobnicate", "-h"])) {
        Err(e) => assert_eq!(e, format!("Unknown argument: --frobnicate\n\n{}", usage())),
        _ => panic!("error expected"),
    }
    let later = run(&["--output", "a", "--output", "b"]);
    assert_eq!(later.output.as_deref(), Some("b"));
}

#[test]
fn run_mode_needs_output_then_inputs() {
    let mut a = run(&["--validate-only"]);
    match run_mode(&a) {
        Err(e) => assert_eq!(e, "--output is required"),
        _ => panic!("error expected"),
    }
    a.output = Some("x.epub".to_string());
    match run_mode(&a) {
        Ok(RunMode::ValidateOnly { output }) => assert_eq!(output, "x.epub"),
        _ => panic!("validation expected"),
    }
    let b = run(&["--output", "x.epub", "--summary", "S.md"]);
    match run_mode(&b) {
        Err(e) => assert_eq!(e, "--book-dir is required"),
        _ => panic!("error expected"),
    }
    let c = run(&["--output", "x.epub", "--book-dir", "book"]);
    match run_mode(&c) {
        Err(e) => assert_eq!(e, "--summary is required"),
        _ => panic!("error expected"),
    }
    let d = run(&["--output", "x.epub", "--book-dir", "book", "--summary", "S.md"]);
    match run_mode(&d) {
        Err(e) => assert_eq!(e, "--book-toml is required"),
        _ => panic!("error expected"),
    }
    let e = run(&["--output", "x.epub", "--book-dir", "book", "--summary", "S.md", "--book-toml", "b.toml"]);
    match run_mode(&e) {
        Ok(RunMode::Build { output, book_dir, summary, book_toml, validate, codeblock_font_size }) => {
            assert!(codeblock_font_size.is_none());
            assert_eq!((output.as_str(), book_dir.as_str(), summary.as_str(), book_toml.as_str()), ("x.epub", "book", "S.md", "b.toml"));
            assert!(!validate);
        }
        _ => panic!("build expected"),
    }
}

#[test]
fn documented_codeblock_font_size_is_accepted() {
    let a = run(&[
        "--book-dir", "tmp/epub-html", "--summary", "src/SUMMARY.md", "--book-toml", "book.toml",
        "--output", "dist/the-rust-programming-language.epub", "--validate",
        "--codeblock-font-size", "0.9",
    ]);
    assert_eq!(a.book_dir.as_deref(), Some("tmp/epub-html"));
    assert_eq!(a.output.as_deref(), Some("dist/the-rust-programming-language.epub"));
    assert!(a.validate && !a.validate_only);
    assert_eq!(a.codeblock_font_size.as_deref(), Some("0.9"));
    match run_mode(&a) {
        Ok(RunMode::Build { codeblock_font_size, .. }) => assert_eq!(codeblock_font_size.as_deref(), Some("0.9")),
        _ => panic!("build expected"),
    }
}

#[test]
fn codeblock_font_size_must_be_a_number() {
    match parse_args(&argv(&["--codeblock-font-size"])) {
        Err(e) => assert_eq!(e, "--codeblock-font-size requires a value"),
        _ => panic!("error expected"),
    }
    for bad in ["", ".", "1.2.3", "big", "-1"] {
        match parse_args(&argv(&["--codeblock-font-size", bad])) {
            Err(e) => assert_eq!(e, format!("Invalid --codeblock-font-size value: {bad}")),
            _ => panic!("error expected for {bad:?}"),
        }
    }
    for good in ["1", "0.8", ".75", "2."] {
        assert_eq!(run(&["--codeblock-font-size", good]).codeblock_font_size.as_deref(), Some(good));
    }
}
