use book_tools::hidden_lines::{reindent_line, remove_hidden_lines};

#[test]
fn hidden_line_in_code_block_is_removed() {
    let input = "In this listing:\n\n```\nfn main() {\n# secret\n}\n```\n\nyou can see that...\n";
    let output = remove_hidden_lines(input);
    let desired = "In this listing:\n\n```\nfn main() {\n}\n```\n\nyou can see that...\n";
    assert_eq!(output, desired);
}

#[test]
fn headings_arent_removed() {
    let input = "# Heading 1\n";
    let output = remove_hidden_lines(input);
    assert_eq!(output, "# Heading 1\n");
}

#[test]
fn hidden_fn_main_wrapper_dedents_body() {
    let input = "```\n# fn main() {\n    let x = 5;\n    let y = x;\n# }\n```\n";
    let output = remove_hidden_lines(input);
    assert_eq!(output, "```\nlet x = 5;\nlet y = x;\n```\n");
}

#[test]
fn visible_fn_main_body_is_reindented_to_2_spaces() {
    let input = "```\nfn main() {\n    let x = 5;\n}\n```\n";
    let output = remove_hidden_lines(input);
    assert_eq!(output, "```\nfn main() {\n  let x = 5;\n}\n```\n");
}

#[test]
fn mixed_top_level_and_wrapped_code() {
    let input = "```\nuse std::fs::File;\n\n# fn main() {\n    let f = File::open(\"x\");\n# }\n```\n";
    let output = remove_hidden_lines(input);
    assert_eq!(
        output,
        "```\nuse std::fs::File;\n\nlet f = File::open(\"x\");\n```\n"
    );
}

#[test]
fn nested_hidden_scope_dedents_correctly() {
    let input =
        "```\n# fn outer() {\n#     fn inner() {\n        let x = 1;\n#     }\n# }\n```\n";
    let output = remove_hidden_lines(input);
    assert_eq!(output, "```\nlet x = 1;\n```\n");
}

#[test]
fn reindent_converts_4_to_2() {
    assert_eq!(reindent_line("        double", 4, 2), "    double");
    assert_eq!(reindent_line("    single", 4, 2), "  single");
    assert_eq!(reindent_line("no indent", 4, 2), "no indent");
}

#[test]
fn lone_hash_line_is_hidden_and_crlf_lines_are_joined_by_newline() {
    let input = "```\r\nlet a = 1;\r\n#\r\n```";
    assert_eq!(remove_hidden_lines(input), "```\nlet a = 1;\n```");
}

#[test]
fn closing_scope_never_goes_below_zero() {
    let input = "```\n# }\n  x\n```\n";
    assert_eq!(remove_hidden_lines(input), "```\n  x\n```\n");
}

#[test]
fn dedent_strips_at_most_the_leading_spaces() {
    let input = "```\n# fn main() {\n  short\n          long\n# }\n```\n";
    assert_eq!(remove_hidden_lines(input), "```\nshort\n    long\n```\n");
}

#[test]
fn reindent_keeps_leftover_spaces_and_identity_widths() {
    assert_eq!(reindent_line("      six", 4, 2), "    six");
    assert_eq!(reindent_line("    same", 4, 4), "    same");
    assert_eq!(reindent_line("    zero", 0, 2), "    zero");
    assert_eq!(reindent_line("  x", 1, 3), "      x");
}

#[test]
fn text_without_code_blocks_is_unchanged() {
    let input = "# Title\n\n# not hidden\n    indented stays\nlast line";
    assert_eq!(remove_hidden_lines(input), input);
}
