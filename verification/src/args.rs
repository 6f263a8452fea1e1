//! The command line of the EPUB builder.

use vstd::prelude::*;
use crate::naming::is_digit_char;
use crate::text::{chars_of, push_str, string_of};

verus! {

/// The options given on the command line.
pub struct Args {
    pub book_dir: Option<String>,
    pub summary: Option<String>,
    pub book_toml: Option<String>,
    pub output: Option<String>,
    pub validate: bool,
    pub validate_only: bool,
    /// The font size of code blocks, in `em` (a decimal number such as `0.9`).
    pub codeblock_font_size: Option<String>,
}

/// The options, by the characters they hold.
pub struct ArgsSpec {
    pub book_dir: Option<Seq<char>>,
    pub summary: Option<Seq<char>>,
    pub book_toml: Option<Seq<char>>,
    pub output: Option<Seq<char>>,
    pub validate: bool,
    pub validate_only: bool,
    pub codeblock_font_size: Option<Seq<char>>,
}

pub open spec fn opt_view(o: Option<String>) -> Option<Seq<char>> {
    match o {
        Some(s) => Some(s@),
        None => None,
    }
}

pub open spec fn args_view(a: Args) -> ArgsSpec {
    ArgsSpec {
        book_dir: opt_view(a.book_dir),
        summary: opt_view(a.summary),
        book_toml: opt_view(a.book_toml),
        output: opt_view(a.output),
        validate: a.validate,
        validate_only: a.validate_only,
        codeblock_font_size: opt_view(a.codeblock_font_size),
    }
}

/// A decimal number: digits with at most one `.` among them, and at least
/// one digit.
pub open spec fn is_decimal_number(s: Seq<char>) -> bool {
    &&& forall|i: int| 0 <= i < s.len() ==> is_digit_char(#[trigger] s[i]) || s[i] == '.'
    &&& forall|i: int, j: int| 0 <= i < j < s.len() ==> !(#[trigger] s[i] == '.' && #[trigger] s[j] == '.')
    &&& exists|i: int| 0 <= i < s.len() && is_digit_char(#[trigger] s[i])
}

/// What the command line asks for.
pub enum ParsedArgs {
    /// Show the usage text and stop.
    Help,
    /// Run with these options.
    Run(Args),
}

/// The usage text.
pub open spec fn usage_text() -> Seq<char> {
    "\nBuild an EPUB from mdBook HTML output.\nUsage:\n  mdbook_epub --book-dir <dir> --summary <summary> --book-toml <book_toml> --output <epub_path> [--validate] [--codeblock-font-size <n>]\n  mdbook_epub --validate-only --output <epub_path>\n  mdbook_epub (-h | --help)\nOptions:\n  --book-dir <dir>          Path to built mdBook HTML output.\n  --summary <summary>       Path to SUMMARY.md used to drive chapter order.\n  --book-toml <book_toml>   Path to book.toml for title/authors metadata.\n  --output <epub_path>      Target EPUB path.\n  --validate                Validate generated EPUB after writing.\n  --validate-only           Validate an existing EPUB and exit.\n  --codeblock-font-size <n> Font size of code blocks, in em (for example 0.9).\n  -h --help                 Show this screen.\n"@
}

/// The usage text of the EPUB builder.
pub fn usage() -> (r: &'static str)
    ensures
        r@ == usage_text(),
{
    "\nBuild an EPUB from mdBook HTML output.\nUsage:\n  mdbook_epub --book-dir <dir> --summary <summary> --book-toml <book_toml> --output <epub_path> [--validate] [--codeblock-font-size <n>]\n  mdbook_epub --validate-only --output <epub_path>\n  mdbook_epub (-h | --help)\nOptions:\n  --book-dir <dir>          Path to built mdBook HTML output.\n  --summary <summary>       Path to SUMMARY.md used to drive chapter order.\n  --book-toml <book_toml>   Path to book.toml for title/authors metadata.\n  --output <epub_path>      Target EPUB path.\n  --validate                Validate generated EPUB after writing.\n  --validate-only           Validate an existing EPUB and exit.\n  --codeblock-font-size <n> Font size of code blocks, in em (for example 0.9).\n  -h --help                 Show this screen.\n"
}

/// The options that the words of the command line from index `i` on give,
/// starting from `acc`: `Ok(None)` for a request for help.
pub open spec fn args_from(argv: Seq<Seq<char>>, i: int, acc: ArgsSpec) -> Result<Option<ArgsSpec>, Seq<char>>
    decreases argv.len() - i,
{
    if i < 0 || i >= argv.len() {
        Ok(Some(acc))
    } else {
        let a = argv[i];
        if a == "-h"@ || a == "--help"@ {
            Ok(None)
        } else if a == "--book-dir"@ {
            if i + 1 >= argv.len() {
                Err("--book-dir requires a value"@)
            } else {
                args_from(argv, i + 2, ArgsSpec { book_dir: Some(argv[i + 1]), ..acc })
            }
        } else if a == "--summary"@ {
            if i + 1 >= argv.len() {
                Err("--summary requires a value"@)
            } else {
                args_from(argv, i + 2, ArgsSpec { summary: Some(argv[i + 1]), ..acc })
            }
        } else if a == "--book-toml"@ {
            if i + 1 >= argv.len() {
                Err("--book-toml requires a value"@)
            } else {
                args_from(argv, i + 2, ArgsSpec { book_toml: Some(argv[i + 1]), ..acc })
            }
        } else if a == "--output"@ {
            if i + 1 >= argv.len() {
                Err("--output requires a value"@)
            } else {
                args_from(argv, i + 2, ArgsSpec { output: Some(argv[i + 1]), ..acc })
            }
        } else if a == "--codeblock-font-size"@ {
            if i + 1 >= argv.len() {
                Err("--codeblock-font-size requires a value"@)
            } else if !is_decimal_number(argv[i + 1]) {
                Err("Invalid --codeblock-font-size value: "@ + argv[i + 1])
            } else {
                args_from(argv, i + 2, ArgsSpec { codeblock_font_size: Some(argv[i + 1]), ..acc })
            }
        } else if a == "--validate"@ {
            args_from(argv, i + 1, ArgsSpec { validate: true, ..acc })
        } else if a == "--validate-only"@ {
            args_from(argv, i + 1, ArgsSpec { validate_only: true, ..acc })
        } else {
            Err("Unknown argument: "@ + a + "\n\n"@ + usage_text())
        }
    }
}

pub open spec fn no_args() -> ArgsSpec {
    ArgsSpec {
        book_dir: None,
        summary: None,
        book_toml: None,
        output: None,
        validate: false,
        validate_only: false,
        codeblock_font_size: None,
    }
}

/// What a command line (without the program name) asks for: the usage text
/// as an error when it is empty; else its options read in order, the first
/// wrong word being reported and a request for help winning over what follows.
pub open spec fn parse_args_spec(argv: Seq<Seq<char>>) -> Result<Option<ArgsSpec>, Seq<char>> {
    if argv.len() == 0 {
        Err(usage_text())
    } else {
        args_from(argv, 0, no_args())
    }
}

pub open spec fn argv_view(argv: Seq<String>) -> Seq<Seq<char>> {
    argv.map_values(|s: String| s@)
}

/// Whether `s` is a decimal number.
pub fn decimal_number(s: &String) -> (b: bool)
    ensures
        b == is_decimal_number(s@),
{
    let v = chars_of(s.as_str());
    let mut dots: usize = 0;
    let mut digits: usize = 0;
    let mut i: usize = 0;
    while i < v.len()
        invariant
            i <= v@.len(),
            v@ == s@,
            dots <= 1,
            forall|k: int| 0 <= k < i ==> is_digit_char(#[trigger] v@[k]) || v@[k] == '.',
            dots == 0 ==> forall|k: int| 0 <= k < i ==> #[trigger] v@[k] != '.',
            dots == 1 ==> exists|k: int| 0 <= k < i && #[trigger] v@[k] == '.',
            forall|k: int, l: int| 0 <= k < l < i ==> !(#[trigger] v@[k] == '.' && #[trigger] v@[l] == '.'),
            (digits > 0) == (exists|k: int| 0 <= k < i && is_digit_char(#[trigger] v@[k])),
            digits <= i,
        decreases v.len() - i,
    {
        let c = v[i];
        if c == '.' {
            if dots == 1 {
                let ghost k = choose|k: int| 0 <= k < i && v@[k] == '.';
                assert(v@[k] == '.' && v@[i as int] == '.');
                return false;
            }
            dots = 1;
        } else if '0' <= c && c <= '9' {
            digits = digits + 1;
        } else {
            assert(!(is_digit_char(s@[i as int]) || s@[i as int] == '.'));
            return false;
        }
        i = i + 1;
    }
    digits > 0
}

fn is_word(a: &String, lit: &str) -> (r: bool)
    ensures
        r == (a@ == lit@),
{
    let x = lit.to_owned();
    *a == x
}

/// Reads the command line (without the program name).
pub fn parse_args(argv: &Vec<String>) -> (r: Result<ParsedArgs, String>)
    ensures
        match r {
            Ok(ParsedArgs::Help) => parse_args_spec(argv_view(argv@)) == Ok::<Option<ArgsSpec>, Seq<char>>(None),
            Ok(ParsedArgs::Run(a)) => parse_args_spec(argv_view(argv@)) == Ok::<Option<ArgsSpec>, Seq<char>>(Some(args_view(a))),
            Err(e) => parse_args_spec(argv_view(argv@)) == Err::<Option<ArgsSpec>, Seq<char>>(e@),
        },
{
    let ghost av = argv_view(argv@);
    if argv.len() == 0 {
        return Err(usage().to_owned());
    }
    let mut args = Args {
        book_dir: None,
        summary: None,
        book_toml: None,
        output: None,
        validate: false,
        validate_only: false,
        codeblock_font_size: None,
    };
    let mut i: usize = 0;
    while i < argv.len()
        invariant
            i <= argv@.len(),
            av == argv_view(argv@),
            av.len() > 0,
            args_from(av, 0, no_args()) == args_from(av, i as int, args_view(args)),
        decreases argv.len() - i,
    {
        let a = &argv[i];
        assert(av[i as int] == a@);
        if is_word(a, "-h") || is_word(a, "--help") {
            return Ok(ParsedArgs::Help);
        } else if is_word(a, "--book-dir") {
            if i + 1 >= argv.len() {
                return Err("--book-dir requires a value".to_owned());
            }
            assert(av[i + 1] == argv@[i + 1]@);
            args.book_dir = Some(argv[i + 1].clone());
            i = i + 1;
        } else if is_word(a, "--summary") {
            if i + 1 >= argv.len() {
                return Err("--summary requires a value".to_owned());
            }
            assert(av[i + 1] == argv@[i + 1]@);
            args.summary = Some(argv[i + 1].clone());
            i = i + 1;
        } else if is_word(a, "--book-toml") {
            if i + 1 >= argv.len() {
                return Err("--book-toml requires a value".to_owned());
            }
            assert(av[i + 1] == argv@[i + 1]@);
            args.book_toml = Some(argv[i + 1].clone());
            i = i + 1;
        } else if is_word(a, "--output") {
            if i + 1 >= argv.len() {
                return Err("--output requires a value".to_owned());
            }
            assert(av[i + 1] == argv@[i + 1]@);
            args.output = Some(argv[i + 1].clone());
            i = i + 1;
        } else if is_word(a, "--codeblock-font-size") {
            if i + 1 >= argv.len() {
                return Err("--codeblock-font-size requires a value".to_owned());
            }
            assert(av[i + 1] == argv@[i + 1]@);
            if !decimal_number(&argv[i + 1]) {
                let mut msg = chars_of("Invalid --codeblock-font-size value: ");
                push_str(&mut msg, argv[i + 1].as_str());
                return Err(string_of(&msg));
            }
            args.codeblock_font_size = Some(argv[i + 1].clone());
            i = i + 1;
        } else if is_word(a, "--validate") {
            args.validate = true;
        } else if is_word(a, "--validate-only") {
            args.validate_only = true;
        } else {
            let mut msg = chars_of("Unknown argument: ");
            push_str(&mut msg, a.as_str());
            push_str(&mut msg, "\n\n");
            push_str(&mut msg, usage());
            return Err(string_of(&msg));
        }
        i = i + 1;
    }
    Ok(ParsedArgs::Run(args))
}

/// What the builder does.
pub enum RunMode {
    /// Check an existing EPUB.
    ValidateOnly { output: String },
    /// Build an EPUB, and check it afterwards if `validate` is set.
    Build {
        output: String,
        book_dir: String,
        summary: String,
        book_toml: String,
        validate: bool,
        codeblock_font_size: Option<String>,
    },
}

/// What the options ask the builder to do: the output path is always
/// needed; checking an existing EPUB needs nothing more; building needs the
/// book directory, the summary and `book.toml`, asked for in that order.
pub fn run_mode(args: &Args) -> (r: Result<RunMode, String>)
    ensures
        match r {
            Ok(RunMode::ValidateOnly { output }) => args.validate_only && args.output == Some(output),
            Ok(RunMode::Build { output, book_dir, summary, book_toml, validate, codeblock_font_size }) => {
                &&& !args.validate_only
                &&& args.output == Some(output)
                &&& args.book_dir == Some(book_dir)
                &&& args.summary == Some(summary)
                &&& args.book_toml == Some(book_toml)
                &&& validate == args.validate
                &&& codeblock_font_size == args.codeblock_font_size
            },
            Err(e) => if args.output is None {
                e@ == "--output is required"@
            } else if args.validate_only {
                false
            } else if args.book_dir is None {
                e@ == "--book-dir is required"@
            } else if args.summary is None {
                e@ == "--summary is required"@
            } else {
                args.book_toml is None && e@ == "--book-toml is required"@
            },
        },
{
    let output = match &args.output {
        Some(o) => o.clone(),
        None => return Err("--output is required".to_owned()),
    };
    if args.validate_only {
        return Ok(RunMode::ValidateOnly { output });
    }
    let book_dir = match &args.book_dir {
        Some(d) => d.clone(),
        None => return Err("--book-dir is required".to_owned()),
    };
    let summary = match &args.summary {
        Some(s) => s.clone(),
        None => return Err("--summary is required".to_owned()),
    };
    let book_toml = match &args.book_toml {
        Some(t) => t.clone(),
        None => return Err("--book-toml is required".to_owned()),
    };
    Ok(
        RunMode::Build {
            output,
            book_dir,
            summary,
            book_toml,
            validate: args.validate,
            codeblock_font_size: args.codeblock_font_size.clone(),
        },
    )
}

} // verus!
