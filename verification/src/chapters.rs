//! Turning the HTML page of a summary entry into a chapter of the EPUB.

use vstd::prelude::*;
use crate::epub::Chapter;
use crate::html::code_pieces_spec;
use crate::highlight::{
    blocks_highlight, code_pieces_spec_of, highlight_code_blocks, highlight_failure, highlighted_parts,
    is_highlight_error, join_parts,
};
use crate::html::{extract_main_content, html_title_spec, main_content_spec, parse_html_title};
use crate::naming::{decimal_pad3, decimal_pad3_chars, decimal_pad3_is_injective, is_digit_char};
use crate::text::{chars_of, push_all, push_str, string_of};
use crate::urls::{
    chapter_file_name, chapter_file_name_chars, md_to_html_chars, md_to_html_spec,
    rewrite_content_spec, rewrite_content_urls, ChapterPathMap, SummaryEntry,
};
use syntect::highlighting::Theme;
use syntect::parsing::SyntaxSet;

verus! {

/// Why a page could not become a chapter.
pub enum ChapterError {
    /// The page has no `<main>` element.
    NoMainContent,
    /// Highlighting a code block failed, with this message.
    Highlight(String),
}

/// The id of the chapter at position `idx` (from 0): `chap` and its position
/// from 1 in three or more digits.
pub open spec fn chapter_id(idx: nat) -> Seq<char> {
    "chap"@ + decimal_pad3(idx + 1)
}

/// The title of a chapter: the page's title, or else the summary's.
pub open spec fn chapter_title(html: Seq<char>, summary_title: Seq<char>) -> Seq<char> {
    match html_title_spec(html) {
        Some(t) => t,
        None => summary_title,
    }
}

/// Every chapter has an id and a file of its own: the chapters at two
/// different positions of the summary get different ids and different file
/// names, whatever their pages.
pub proof fn chapters_get_distinct_ids_and_files(i: nat, j: nat, p: Seq<char>, q: Seq<char>)
    requires
        i != j,
    ensures
        chapter_id(i) != chapter_id(j),
        chapter_file_name(i, p) != chapter_file_name(j, q),
{
    decimal_pad3_is_injective(i + 1, j + 1);
    decimal_pad3_is_injective(j + 1, i + 1);
    let a = decimal_pad3(i + 1);
    let b = decimal_pad3(j + 1);
    if chapter_id(i) == chapter_id(j) {
        assert(a =~= chapter_id(i).skip("chap"@.len() as int));
        assert(b =~= chapter_id(j).skip("chap"@.len() as int));
    }
    let fa = chapter_file_name(i, p);
    let fb = chapter_file_name(j, q);
    if fa == fb {
        if a.len() == b.len() {
            assert(a =~= fa.take(a.len() as int));
            assert(b =~= fb.take(b.len() as int));
        } else if a.len() < b.len() {
            assert(fa[a.len() as int] == '_');
            assert(fb[a.len() as int] == b[a.len() as int]);
            assert(is_digit_char(b[a.len() as int]));
        } else {
            assert(fb[b.len() as int] == '_');
            assert(fa[b.len() as int] == a[b.len() as int]);
            assert(is_digit_char(a[b.len() as int]));
        }
    }
}

/// Makes the chapter at position `idx` of the summary from the HTML page
/// that mdBook built for it: its title, its `<main>` content with code
/// highlighted and links rewritten, and its names in the EPUB.
pub fn build_chapter(
    idx: usize,
    entry: &SummaryEntry,
    html: &str,
    chapter_path_map: &ChapterPathMap,
    syntax_set: &SyntaxSet,
    theme: &Theme,
) -> (r: Result<Chapter, ChapterError>)
    requires
        idx < usize::MAX,
    ensures
        r matches Err(ChapterError::NoMainContent) <==> main_content_spec(html@) is None,
        r matches Err(ChapterError::Highlight(e)) ==> is_highlight_error(e@) && (main_content_spec(
            html@,
        ) matches Some(m) && highlight_failure(*syntax_set, *theme, code_pieces_spec(m), e@)),
        main_content_spec(html@) matches Some(m) ==> (r is Ok <==> blocks_highlight(
            *syntax_set,
            *theme,
            code_pieces_spec(m),
        )),
        r matches Ok(ch) ==> {
            &&& ch.id@ == chapter_id(idx as nat)
            &&& ch.title@ == chapter_title(html@, entry.title@)
            &&& ch.source_html@ == md_to_html_spec(entry.md_path@)
            &&& ch.xhtml_path@ == "chapters/"@ + chapter_file_name(idx as nat, entry.md_path@)
            &&& exists|parts: Seq<Seq<char>>|
                highlighted_parts(*syntax_set, *theme, code_pieces_spec_of(main_content_spec(html@)->0), parts)
                    && ch.content@ == rewrite_content_spec(join_parts(parts), chapter_path_map@)
        },
{
    let md = chars_of(entry.md_path.as_str());
    let source_html = string_of(&md_to_html_chars(&md));
    let title = match parse_html_title(html) {
        Some(t) => t,
        None => entry.title.clone(),
    };
    let main = match extract_main_content(html) {
        Some(m) => m,
        None => return Err(ChapterError::NoMainContent),
    };
    let highlighted = match highlight_code_blocks(main.as_str(), syntax_set, theme) {
        Ok(h) => h,
        Err(e) => return Err(ChapterError::Highlight(e)),
    };
    let content = rewrite_content_urls(highlighted.as_str(), chapter_path_map);
    let ghost parts = choose|parts: Seq<Seq<char>>|
        highlighted_parts(*syntax_set, *theme, code_pieces_spec(main@), parts) && highlighted@ == join_parts(parts);
    assert(highlighted_parts(*syntax_set, *theme, code_pieces_spec_of(main_content_spec(html@)->0), parts));
    assert(content@ == rewrite_content_spec(join_parts(parts), chapter_path_map@));
    let mut path = chars_of("chapters/");
    let name = chapter_file_name_chars(idx, &md);
    push_all(&mut path, &name);
    let mut id = chars_of("chap");
    let number = decimal_pad3_chars(idx + 1);
    push_all(&mut id, &number);
    Ok(Chapter {
        id: string_of(&id),
        title,
        source_html,
        xhtml_path: string_of(&path),
        content,
    })
}

} // verus!
