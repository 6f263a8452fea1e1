//! Syntax highlighting of the code blocks of a chapter with `syntect`.
//!
//! Which colours `syntect` gives to the code is not stated here: the
//! contracts fix what is handed to it (the code text without markup and with
//! HTML entities decoded, and the language named by the block's `class`) and
//! the frame that the highlighted lines are put in.

use vstd::prelude::*;
use crate::html::{
    code_pieces_spec,
    code_language_spec, language_chars, split_code_blocks, strip_tags_chars, strip_tags_spec,
    HtmlPiece, PieceSpec, pieces_view,
};
use crate::text::{chars_of, ends_with, find_line_end, lemma_line_end, line_end, push_all, push_str, slice_chars, starts_with, string_of};
use syntect::easy::HighlightLines;
use syntect::highlighting::{Style, Theme, ThemeSet};
use syntect::parsing::{SyntaxReference, SyntaxSet};

verus! {

#[verifier::external_type_specification]
#[verifier::external_body]
pub struct ExSyntaxSet(SyntaxSet);

#[verifier::external_type_specification]
#[verifier::external_body]
pub struct ExSyntaxReference(SyntaxReference);

#[verifier::external_type_specification]
#[verifier::external_body]
pub struct ExTheme(Theme);

#[verifier::external_type_specification]
#[verifier::external_body]
pub struct ExStyle(Style);

#[verifier::external_type_specification]
#[verifier::external_body]
pub struct ExHighlightLines<'a>(HighlightLines<'a>);

#[verifier::external_type_specification]
#[verifier::external_body]
pub struct ExSyntectError(syntect::Error);

/// The text that `html_escape::decode_html_entities` makes of `s`.
pub uninterp spec fn html_entities_decoded(s: Seq<char>) -> Seq<char>;

/// `html_escape::decode_html_entities`: replaces the HTML entities of `s` by
/// the characters they stand for. The result is named by
/// `html_entities_decoded`; what that is for a given text is not stated.
#[verifier::external_body]
fn decode_html_entities(s: &str) -> (r: String)
    ensures
        r@ == html_entities_decoded(s@),
{
    html_escape::decode_html_entities(s).to_string()
}

/// The names of the themes that `ThemeSet::load_defaults` documents as the
/// keys of its map.
pub open spec fn is_default_theme_name(name: Seq<char>) -> bool {
    ||| name == "base16-ocean.dark"@
    ||| name == "base16-eighties.dark"@
    ||| name == "base16-mocha.dark"@
    ||| name == "base16-ocean.light"@
    ||| name == "InspiredGitHub"@
    ||| name == "Solarized (dark)"@
    ||| name == "Solarized (light)"@
}

/// The theme of `syntect`'s bundled set (`ThemeSet::load_defaults`, built
/// from a fixed embedded dump) that bears `name`.
pub uninterp spec fn bundled_theme(name: Seq<char>) -> Theme;

/// `ThemeSet::load_defaults().themes.get(name)`, copied: the theme of
/// `syntect`'s bundled set that bears `name`. The bundled set is fixed, so
/// the theme is a function of the name, named by `bundled_theme`; its
/// documentation lists the names of `is_default_theme_name`, for which a
/// theme comes back. What a theme holds is not stated.
#[verifier::external_body]
fn default_theme_named(name: &str) -> (r: Option<Theme>)
    ensures
        is_default_theme_name(name@) ==> r == Some(bundled_theme(name@)),
{
    ThemeSet::load_defaults().themes.get(name).cloned()
}

/// The first theme by name of `syntect`'s bundled set, copied. The set is
/// documented to hold themes, so one comes back; which is not stated.
#[verifier::external_body]
fn first_default_theme() -> (r: Option<Theme>)
    ensures
        r is Some,
{
    ThemeSet::load_defaults().themes.values().next().cloned()
}

/// Whether `syntax_set` holds a syntax for the language token `token`.
pub uninterp spec fn set_has_syntax_for_token(syntax_set: SyntaxSet, token: Seq<char>) -> bool;

/// Whether `syntax_set` holds a syntax with the name `name`.
pub uninterp spec fn set_has_syntax_named(syntax_set: SyntaxSet, name: Seq<char>) -> bool;

/// The syntax that `syntax_set` holds for the language token `token`.
pub uninterp spec fn syntax_for_token(syntax_set: SyntaxSet, token: Seq<char>) -> SyntaxReference;

/// The syntax that `syntax_set` holds with the name `name`.
pub uninterp spec fn syntax_named(syntax_set: SyntaxSet, name: Seq<char>) -> SyntaxReference;

/// A new highlighter's state for `syntax` and `theme`.
pub uninterp spec fn start_state(syntax: SyntaxReference, theme: Theme) -> HighlightLines<'static>;

/// The state of a highlighter in state `highlighter` after it highlighted
/// `line` with `syntax_set`.
pub uninterp spec fn next_state(highlighter: HighlightLines, line: Seq<char>, syntax_set: SyntaxSet) -> HighlightLines<'static>;

/// The styled regions that a highlighter in state `highlighter` gives for
/// `line` with `syntax_set`, each region's text as characters.
pub uninterp spec fn line_regions(
    highlighter: HighlightLines,
    line: Seq<char>,
    syntax_set: SyntaxSet,
) -> Seq<(Style, Seq<char>)>;

/// The HTML that `styled_line_to_highlighted_html` writes for styled
/// regions, without backgrounds.
pub uninterp spec fn styled_html(regions: Seq<(Style, Seq<char>)>) -> Seq<char>;

/// Whether highlighting `line` with `syntax_set` fails for a highlighter in
/// the state `highlighter` (its parse state after the lines before).
pub uninterp spec fn line_highlighting_fails(
    highlighter: HighlightLines,
    line: Seq<char>,
    syntax_set: SyntaxSet,
) -> bool;

/// `SyntaxSet::find_syntax_by_token`: the syntax of a language named by a
/// token such as `rust` or `rs`. Whether the set holds one is a function of
/// the set and the token, named by `set_has_syntax_for_token`; which
/// syntaxes a set holds is not stated.
#[verifier::external_body]
fn find_syntax_by_token<'a>(syntax_set: &'a SyntaxSet, token: &str) -> (r: Option<&'a SyntaxReference>)
    ensures
        r is Some <==> set_has_syntax_for_token(*syntax_set, token@),
        r matches Some(syntax) ==> *syntax == syntax_for_token(*syntax_set, token@),
{
    syntax_set.find_syntax_by_token(token)
}

/// `SyntaxSet::find_syntax_by_name`: the syntax with the given name.
/// Whether there is one is named by `set_has_syntax_named`.
#[verifier::external_body]
fn find_syntax_by_name<'a>(syntax_set: &'a SyntaxSet, name: &str) -> (r: Option<&'a SyntaxReference>)
    ensures
        r is Some <==> set_has_syntax_named(*syntax_set, name@),
        r matches Some(syntax) ==> *syntax == syntax_named(*syntax_set, name@),
{
    syntax_set.find_syntax_by_name(name)
}

/// `HighlightLines::new`: a highlighter for one piece of code, in the state
/// that `syntax` and `theme` give (named by `start_state`).
#[verifier::external_body]
fn new_highlighter<'a>(syntax: &SyntaxReference, theme: &'a Theme) -> (r: HighlightLines<'a>)
    ensures
        r == start_state(*syntax, *theme),
{
    HighlightLines::new(syntax, theme)
}

/// Styled regions, each region's text as characters.
pub open spec fn regions_view(regions: Seq<(Style, &str)>) -> Seq<(Style, Seq<char>)> {
    regions.map_values(|region: (Style, &str)| (region.0, region.1@))
}

/// The text of styled regions, one after another.
pub open spec fn regions_text(regions: Seq<(Style, &str)>) -> Seq<char>
    decreases regions.len(),
{
    if regions.len() == 0 {
        Seq::empty()
    } else {
        regions_text(regions.drop_last()) + regions.last().1@
    }
}

/// `HighlightLines::highlight_line`: the styled regions of the next line. As
/// its documentation says, the texts of the regions, one after another,
/// make the line. Whether it fails, the regions and the highlighter's next
/// state are functions of the highlighter's state, the line and the syntax
/// set (the parse and highlight states and the set's syntaxes), named by
/// `line_highlighting_fails`, `line_regions` and `next_state`. The styles
/// themselves are not stated.
#[verifier::external_body]
fn highlight_line<'b>(
    highlighter: &mut HighlightLines,
    line: &'b str,
    syntax_set: &SyntaxSet,
) -> (r: Result<Vec<(Style, &'b str)>, syntect::Error>)
    ensures
        r matches Ok(regions) ==> regions_text(regions@) == line@ && regions_view(regions@)
            == line_regions(*old(highlighter), line@, *syntax_set) && *final(highlighter) == next_state(
            *old(highlighter),
            line@,
            *syntax_set,
        ),
        r is Err <==> line_highlighting_fails(*old(highlighter), line@, *syntax_set),
{
    highlighter.highlight_line(line, syntax_set)
}

/// The text that HTML escaped the way `syntect` escapes it (`&lt;`, `&gt;`,
/// `&amp;`, `&#39;`, `&quot;`) stands for, read from left to right.
pub open spec fn unescape_html_text(s: Seq<char>) -> Seq<char>
    decreases s.len(),
{
    if s.len() == 0 {
        s
    } else if starts_with(s, seq!['&', 'l', 't', ';']) {
        seq!['<'] + unescape_html_text(s.skip(4))
    } else if starts_with(s, seq!['&', 'g', 't', ';']) {
        seq!['>'] + unescape_html_text(s.skip(4))
    } else if starts_with(s, seq!['&', 'a', 'm', 'p', ';']) {
        seq!['&'] + unescape_html_text(s.skip(5))
    } else if starts_with(s, seq!['&', '#', '3', '9', ';']) {
        seq!['\''] + unescape_html_text(s.skip(5))
    } else if starts_with(s, seq!['&', 'q', 'u', 'o', 't', ';']) {
        seq!['"'] + unescape_html_text(s.skip(6))
    } else {
        seq![s[0]] + unescape_html_text(s.drop_first())
    }
}

/// The text that a piece of highlighted HTML shows: its tags removed and
/// its escapes read back.
pub open spec fn markup_text(html: Seq<char>) -> Seq<char> {
    unescape_html_text(strip_tags_spec(html))
}

/// `syntect::html::styled_line_to_highlighted_html` without backgrounds: the
/// HTML of styled regions. As its source shows, it writes each region's
/// text escaped (`html::Escape`) inside `<span style="...">` tags whose
/// style holds no `<` or `>`, and it writes into a `String`, so it always
/// succeeds; the text that the HTML shows is the regions' text. The HTML
/// is a function of the regions, named by `styled_html`; the styles written
/// are not stated.
#[verifier::external_body]
fn styled_line_to_html(regions: &Vec<(Style, &str)>) -> (r: Result<String, syntect::Error>)
    ensures
        r is Ok,
        r matches Ok(html) ==> markup_text(html@) == regions_text(regions@) && html@ == styled_html(
            regions_view(regions@),
        ),
{
    syntect::html::styled_line_to_highlighted_html(regions, syntect::html::IncludeBackground::No)
}

/// The message of a `syntect` error (its `Display` text).
#[verifier::external_body]
fn syntect_error_message(e: &syntect::Error) -> String {
    format!("{e}")
}

/// The theme used to highlight code: the first of `InspiredGitHub`,
/// `base16-ocean.light` and `Solarized (light)` that `syntect` ships, or else
/// any theme it ships. `syntect` ships `InspiredGitHub`, so that is the
/// theme that comes back.
pub fn preferred_highlight_theme() -> (r: Result<Theme, String>)
    ensures
        r == Ok::<Theme, String>(bundled_theme("InspiredGitHub"@)),
{
    if let Some(t) = default_theme_named("InspiredGitHub") {
        return Ok(t);
    }
    if let Some(t) = default_theme_named("base16-ocean.light") {
        return Ok(t);
    }
    if let Some(t) = default_theme_named("Solarized (light)") {
        return Ok(t);
    }
    match first_default_theme() {
        Some(t) => Ok(t),
        None => Err("No syntax highlighting themes available".to_owned()),
    }
}

/// What opens a highlighted code block.
pub open spec fn highlight_open() -> Seq<char> {
    "<pre class=\"playground\"><code>"@
}

/// What closes a highlighted code block.
pub open spec fn highlight_close() -> Seq<char> {
    "</code></pre>"@
}

/// The text that a code block hands to the highlighter: its code without
/// markup tags, with HTML entities decoded.
pub open spec fn code_text_spec(raw_code_html: Seq<char>) -> Seq<char> {
    html_entities_decoded(strip_tags_spec(raw_code_html))
}

/// The text of a code block that the highlighter colours.
pub fn code_text(raw_code_html: &str) -> (r: String)
    ensures
        r@ == code_text_spec(raw_code_html@),
{
    let v = chars_of(raw_code_html);
    let stripped = strip_tags_chars(&v);
    let s = string_of(&stripped);
    decode_html_entities(s.as_str())
}

/// The language a code block is highlighted as: the one its `class` names,
/// or `txt`.
pub open spec fn block_language_spec(attrs: Seq<char>) -> Seq<char> {
    match code_language_spec(attrs) {
        Some(l) => l,
        None => "txt"@,
    }
}

/// The language a code block is highlighted as.
pub fn block_language(code_attrs: &str) -> (r: String)
    ensures
        r@ == block_language_spec(code_attrs@),
{
    let v = chars_of(code_attrs);
    match language_chars(&v) {
        Some(l) => string_of(&l),
        None => "txt".to_owned(),
    }
}

/// Whether `out` is a highlighted code block: the opening, some HTML, the closing.
pub open spec fn is_highlighted_block(out: Seq<char>) -> bool {
    starts_with(out, highlight_open()) && ends_with(out, highlight_close()) && out.len()
        >= highlight_open().len() + highlight_close().len()
}

/// The messages that highlighting fails with.
pub open spec fn is_highlight_error(e: Seq<char>) -> bool {
    ||| e == "No plain text syntax available"@
    ||| starts_with(e, "Syntax highlighting failed: "@)
    ||| starts_with(e, "Highlight HTML conversion failed: "@)
}

/// Whether `syntax_set` gives a syntax to highlight `language` with: its
/// own, or else plain text.
pub open spec fn syntax_available(syntax_set: SyntaxSet, language: Seq<char>) -> bool {
    set_has_syntax_for_token(syntax_set, language) || set_has_syntax_named(syntax_set, "Plain Text"@)
}

/// The syntax that `language` is highlighted with: the set's syntax for
/// it, or else the set's plain text syntax.
pub open spec fn chosen_syntax(syntax_set: SyntaxSet, language: Seq<char>) -> SyntaxReference {
    if set_has_syntax_for_token(syntax_set, language) {
        syntax_for_token(syntax_set, language)
    } else {
        syntax_named(syntax_set, "Plain Text"@)
    }
}

/// Where the line of `text` that starts at `i` ends, its `'\n'` included.
pub open spec fn line_end_inclusive(text: Seq<char>, i: int) -> int {
    if line_end(text, i) < text.len() {
        line_end(text, i) + 1
    } else {
        text.len() as int
    }
}

/// The HTML of the lines of `text` from index `i` on, highlighted one after
/// another by a highlighter that starts in state `highlighter`; `None` if
/// highlighting one of them fails.
pub open spec fn highlighted_lines(
    highlighter: HighlightLines,
    text: Seq<char>,
    i: int,
    syntax_set: SyntaxSet,
) -> Option<Seq<char>>
    decreases text.len() - i,
{
    if i < 0 || i >= text.len() {
        Some(Seq::empty())
    } else {
        proof {
            lemma_line_end(text, i);
        }
        let end = line_end_inclusive(text, i);
        let line = text.subrange(i, end);
        if line_highlighting_fails(highlighter, line, syntax_set) {
            None
        } else {
            match highlighted_lines(next_state(highlighter, line, syntax_set), text, end, syntax_set) {
                Some(rest) => Some(styled_html(line_regions(highlighter, line, syntax_set)) + rest),
                None => None,
            }
        }
    }
}

/// What highlighting a code block's raw HTML as `language` gives: `None`
/// if there is no syntax for it (plain text included) or a line fails;
/// else the opening, the highlighted lines of the code text, the closing.
pub open spec fn highlight_spec(
    syntax_set: SyntaxSet,
    theme: Theme,
    language: Seq<char>,
    raw_code_html: Seq<char>,
) -> Option<Seq<char>> {
    if !syntax_available(syntax_set, language) {
        None
    } else {
        match highlighted_lines(
            start_state(chosen_syntax(syntax_set, language), theme),
            code_text_spec(raw_code_html),
            0,
            syntax_set,
        ) {
            Some(body) => Some(highlight_open() + body + highlight_close()),
            None => None,
        }
    }
}

/// `b` after `a`, if there is a `b`.
pub open spec fn prepend(a: Seq<char>, b: Option<Seq<char>>) -> Option<Seq<char>> {
    match b {
        Some(x) => Some(a + x),
        None => None,
    }
}

/// Highlights a piece of code as HTML, line by line. The code is taken
/// without its markup tags and with HTML entities decoded; an unknown
/// language is highlighted as plain text.
pub fn highlight_source(
    raw_code_html: &str,
    language: &str,
    syntax_set: &SyntaxSet,
    theme: &Theme,
) -> (r: Result<String, String>)
    ensures
        r matches Ok(out) ==> is_highlighted_block(out@) && is_highlighting_of(raw_code_html@, out@),
        r matches Err(e) ==> is_highlight_error(e@),
        (match r {
            Err(e) => e@ == "No plain text syntax available"@,
            Ok(_) => false,
        }) <==> !syntax_available(
            *syntax_set,
            language@,
        ),
        r matches Err(e) ==> (e@ != "No plain text syntax available"@ ==> starts_with(
            e@,
            "Syntax highlighting failed: "@,
        )),
        match highlight_spec(*syntax_set, *theme, language@, raw_code_html@) {
            Some(out) => r matches Ok(o) && o@ == out,
            None => r is Err,
        },
{
    let decoded = code_text(raw_code_html);
    let syntax = match find_syntax_by_token(syntax_set, language) {
        Some(s) => s,
        None => match find_syntax_by_name(syntax_set, "Plain Text") {
            Some(s) => s,
            None => return Err("No plain text syntax available".to_owned()),
        },
    };
    let mut highlighter = new_highlighter(syntax, theme);
    let ghost h0 = highlighter;
    assert(h0 == start_state(chosen_syntax(*syntax_set, language@), *theme));
    let mut out: Vec<char> = Vec::new();
    push_str(&mut out, "<pre class=\"playground\"><code>");
    let ghost start = out@;
    assert(out@.subrange(0, out@.len() as int) =~= out@);
    let text = chars_of(decoded.as_str());
    let n = text.len();
    let mut i: usize = 0;
    let ghost mut parts: Seq<Seq<char>> = Seq::empty();
    assert(out@ =~= start + join_parts(parts));
    assert(join_texts(parts) =~= text@.subrange(0, 0));
    assert(text@ == code_text_spec(raw_code_html@));
    assert(highlighted_lines(h0, text@, 0, *syntax_set) == prepend(
        join_parts(parts),
        highlighted_lines(highlighter, text@, 0, *syntax_set),
    )) by {
        match highlighted_lines(h0, text@, 0, *syntax_set) {
            Some(b) => assert(join_parts(parts) + b =~= b),
            None => {},
        }
    }
    while i < n
        invariant
            n == text@.len(),
            i <= n,
            starts_with(out@, start),
            start == highlight_open(),
            out@ == start + join_parts(parts),
            join_texts(parts) == text@.subrange(0, i as int),
            syntax_available(*syntax_set, language@),
            h0 == start_state(chosen_syntax(*syntax_set, language@), *theme),
            text@ == code_text_spec(raw_code_html@),
            highlighted_lines(h0, text@, 0, *syntax_set) == prepend(
                join_parts(parts),
                highlighted_lines(highlighter, text@, i as int, *syntax_set),
            ),
        decreases n - i,
    {
        proof {
            lemma_line_end(text@, i as int);
        }
        let e = find_line_end(&text, i);
        let end = if e < n {
            e + 1
        } else {
            n
        };
        let line = string_of(&slice_chars(&text, i, end));
        assert(line@ == text@.subrange(i as int, end as int));
        let ghost state = highlighter;
        let regions = match highlight_line(&mut highlighter, line.as_str(), syntax_set) {
            Ok(r) => r,
            Err(err) => {
                assert(line_highlighting_fails(state, line@, *syntax_set));
                assert(end as int == line_end_inclusive(text@, i as int));
                assert(highlighted_lines(state, text@, i as int, *syntax_set) is None);
                let m = syntect_error_message(&err);
                let prefix = "Syntax highlighting failed: ".to_owned();
                let msg = concat_strings(&prefix, &m);
                assert(msg@.subrange(0, prefix@.len() as int) =~= prefix@);
                proof {
                    reveal_strlit("Syntax highlighting failed: ");
                    reveal_strlit("No plain text syntax available");
                    assert(msg@[0] == prefix@[0]);
                    assert(msg@ != "No plain text syntax available"@);
                }
                return Err(msg);
            },
        };
        let html = match styled_line_to_html(&regions) {
            Ok(h) => h,
            Err(err) => {
                let m = syntect_error_message(&err);
                let prefix = "Highlight HTML conversion failed: ".to_owned();
                let msg = concat_strings(&prefix, &m);
                assert(msg@.subrange(0, prefix@.len() as int) =~= prefix@);
                return Err(msg);
            },
        };
        let ghost before = out@;
        push_str(&mut out, html.as_str());
        assert(out@.subrange(0, start.len() as int) =~= before.subrange(0, start.len() as int));
        proof {
            let old_parts = parts;
            assert(end as int == line_end_inclusive(text@, i as int));
            assert(!line_highlighting_fails(state, line@, *syntax_set));
            assert(highlighted_lines(state, text@, i as int, *syntax_set) == prepend(
                html@,
                highlighted_lines(highlighter, text@, end as int, *syntax_set),
            ));
            parts = parts.push(html@);
            assert(parts.drop_last() =~= old_parts);
            assert(out@ =~= start + join_parts(parts));
            assert(join_texts(parts) =~= text@.subrange(0, end as int));
            match highlighted_lines(highlighter, text@, end as int, *syntax_set) {
                Some(b) => assert(join_parts(old_parts) + (html@ + b) =~= join_parts(parts) + b),
                None => {},
            }
        }
        i = end;
    }
    let ghost before = out@;
    push_str(&mut out, "</code></pre>");
    assert(out@.subrange(0, start.len() as int) =~= before.subrange(0, start.len() as int));
    assert(out@.subrange(out@.len() - highlight_close().len(), out@.len() as int)
        =~= highlight_close());
    assert(text@.subrange(0, n as int) =~= text@);
    assert(out@ == highlight_open() + join_parts(parts) + highlight_close());
    assert(highlighted_lines(highlighter, text@, n as int, *syntax_set) == Some(Seq::<char>::empty()));
    assert(join_parts(parts) + Seq::<char>::empty() =~= join_parts(parts));
    assert(is_highlighting_of(raw_code_html@, out@));
    Ok(string_of(&out))
}

fn concat_strings(a: &String, b: &String) -> (r: String)
    ensures
        r@ == a@ + b@,
{
    let mut v = chars_of(a.as_str());
    push_str(&mut v, b.as_str());
    string_of(&v)
}

/// The code blocks of a fragment and the text around them.
pub open spec fn code_pieces_spec_of(s: Seq<char>) -> Seq<PieceSpec> {
    code_pieces_spec(s)
}

/// The parts one after another.
pub open spec fn join_parts(parts: Seq<Seq<char>>) -> Seq<char>
    decreases parts.len(),
{
    if parts.len() == 0 {
        Seq::empty()
    } else {
        join_parts(parts.drop_last()) + parts.last()
    }
}

/// The texts that highlighted pieces of HTML show, one after another.
pub open spec fn join_texts(parts: Seq<Seq<char>>) -> Seq<char>
    decreases parts.len(),
{
    if parts.len() == 0 {
        Seq::empty()
    } else {
        join_texts(parts.drop_last()) + markup_text(parts.last())
    }
}

/// Whether `out` is a highlighting of a code block's raw HTML: the opening,
/// highlighted lines, the closing, where the text that the lines show, one
/// after another, is the block's code text (markup removed, entities
/// decoded). Highlighting adds markup only.
pub open spec fn is_highlighting_of(raw_code_html: Seq<char>, out: Seq<char>) -> bool {
    exists|parts: Seq<Seq<char>>|
        out == highlight_open() + join_parts(parts) + highlight_close() && join_texts(parts)
            == code_text_spec(raw_code_html)
}

/// Whether `parts` is what highlighting makes of `pieces`: each text piece
/// kept as it is, each code block replaced by its highlighting in the
/// language that its `class` names, or `txt`.
pub open spec fn highlighted_parts(
    syntax_set: SyntaxSet,
    theme: Theme,
    pieces: Seq<PieceSpec>,
    parts: Seq<Seq<char>>,
) -> bool {
    &&& parts.len() == pieces.len()
    &&& forall|k: int|
        0 <= k < pieces.len() ==> match #[trigger] pieces[k] {
            PieceSpec::Text(t) => parts[k] == t,
            PieceSpec::Code(attrs, code) => highlight_spec(
                syntax_set,
                theme,
                block_language_spec(attrs),
                code,
            ) == Some(parts[k]) && is_highlighting_of(code, parts[k]),
        }
}

/// Whether a piece is a code block whose highlighting fails.
pub open spec fn block_fails(syntax_set: SyntaxSet, theme: Theme, piece: PieceSpec) -> bool {
    match piece {
        PieceSpec::Code(attrs, code) => highlight_spec(syntax_set, theme, block_language_spec(attrs), code) is None,
        PieceSpec::Text(_) => false,
    }
}

/// Whether every code block among `pieces` highlights.
pub open spec fn blocks_highlight(syntax_set: SyntaxSet, theme: Theme, pieces: Seq<PieceSpec>) -> bool {
    forall|k: int| 0 <= k < pieces.len() ==> !block_fails(syntax_set, theme, #[trigger] pieces[k])
}

/// The error that a failing code block gives: no syntax for its language
/// (plain text included), or a line that the highlighter cannot parse.
pub open spec fn block_error(syntax_set: SyntaxSet, piece: PieceSpec, e: Seq<char>) -> bool {
    match piece {
        PieceSpec::Code(attrs, _) => {
            &&& (e == "No plain text syntax available"@ <==> !syntax_available(
                syntax_set,
                block_language_spec(attrs),
            ))
            &&& (e != "No plain text syntax available"@ ==> starts_with(e, "Syntax highlighting failed: "@))
        },
        PieceSpec::Text(_) => false,
    }
}

/// Whether `e` is the error of the first code block among `pieces` whose
/// highlighting fails.
pub open spec fn highlight_failure(
    syntax_set: SyntaxSet,
    theme: Theme,
    pieces: Seq<PieceSpec>,
    e: Seq<char>,
) -> bool {
    exists|k: int|
        0 <= k < pieces.len() && block_fails(syntax_set, theme, #[trigger] pieces[k]) && (forall|j: int|
            0 <= j < k ==> !block_fails(syntax_set, theme, #[trigger] pieces[j])) && block_error(
            syntax_set,
            pieces[k],
            e,
        )
}

/// Replaces every code block of an HTML fragment by its syntax-highlighted
/// HTML, keeping the text around the blocks. Each block is highlighted as the
/// language that its `class` names, or as `txt`.
pub fn highlight_code_blocks(html_fragment: &str, syntax_set: &SyntaxSet, theme: &Theme) -> (r:
    Result<String, String>)
    ensures
        r is Ok <==> blocks_highlight(*syntax_set, *theme, code_pieces_spec(html_fragment@)),
        r matches Ok(out) ==> exists|parts: Seq<Seq<char>>|
            highlighted_parts(*syntax_set, *theme, code_pieces_spec(html_fragment@), parts) && out@
                == join_parts(parts),
        r matches Err(e) ==> is_highlight_error(e@) && highlight_failure(
            *syntax_set,
            *theme,
            code_pieces_spec(html_fragment@),
            e@,
        ),
{
    let pieces = split_code_blocks(html_fragment);
    let ghost ps = pieces_view(pieces@);
    let mut out: Vec<char> = Vec::new();
    let ghost mut parts: Seq<Seq<char>> = Seq::empty();
    let mut i: usize = 0;
    while i < pieces.len()
        invariant
            i <= pieces@.len(),
            ps == pieces_view(pieces@),
            ps == code_pieces_spec(html_fragment@),
            parts.len() == i,
            forall|k: int|
                0 <= k < i ==> match #[trigger] ps[k] {
                    PieceSpec::Text(t) => parts[k] == t,
                    PieceSpec::Code(attrs, code) => highlight_spec(
                        *syntax_set,
                        *theme,
                        block_language_spec(attrs),
                        code,
                    ) == Some(parts[k]) && is_highlighting_of(code, parts[k]),
                },
            forall|k: int| 0 <= k < i ==> !block_fails(*syntax_set, *theme, #[trigger] ps[k]),
            out@ == join_parts(parts),
        decreases pieces.len() - i,
    {
        let ghost before = out@;
        let ghost old_parts = parts;
        let ghost part: Seq<char>;
        match &pieces[i] {
            HtmlPiece::Text(t) => {
                push_str(&mut out, t.as_str());
                proof {
                    part = t@;
                }
            },
            HtmlPiece::Code { attrs, code } => {
                let lang = block_language(attrs.as_str());
                assert(ps[i as int] == PieceSpec::Code(attrs@, code@));
                let h = match highlight_source(code.as_str(), lang.as_str(), syntax_set, theme) {
                    Ok(h) => h,
                    Err(e) => {
                        assert(block_fails(*syntax_set, *theme, ps[i as int]));
                        assert(block_error(*syntax_set, ps[i as int], e@));
                        assert(!blocks_highlight(*syntax_set, *theme, ps));
                        return Err(e);
                    },
                };
                push_str(&mut out, h.as_str());
                proof {
                    part = h@;
                }
            },
        }
        proof {
            parts = parts.push(part);
            assert(parts.drop_last() =~= old_parts);
        }
        assert(out@ == join_parts(parts));
        i = i + 1;
    }
    assert(highlighted_parts(*syntax_set, *theme, code_pieces_spec(html_fragment@), parts));
    Ok(string_of(&out))
}

} // verus!
