//! Chapter file names and the rewriting of the links and image sources of a
//! chapter so that they point into the EPUB.

use vstd::prelude::*;
use crate::naming::{decimal_pad3, decimal_pad3_chars, slugify_chars, slugify_spec};
use crate::text::{
    chars_of, ends_with, matches_at, occurs_at, find_char, find_char_from, lemma_find_char, lemma_find_char_shift, push_all, push_str,
    slice_chars, starts_with, string_of, trim_end_all, trim_start_all, vec_ends_with,
    vec_starts_with, vec_trim_end_all, vec_trim_start_all,
};

verus! {

/// A chapter listed in `SUMMARY.md`: its title and its Markdown path.
pub struct SummaryEntry {
    pub title: String,
    pub md_path: String,
}

/// The HTML page that mdBook builds from a Markdown path: every trailing
/// `.md` removed, then `.html` added.
pub open spec fn md_to_html_spec(md_path: Seq<char>) -> Seq<char> {
    trim_end_all(md_path, ".md"@) + ".html"@
}

/// The file name of the chapter at position `idx` (counted from 0) of the
/// summary: its position counted from 1 in three or more digits, `_`, the
/// slug of its HTML page, `.xhtml`.
pub open spec fn chapter_file_name(idx: nat, md_path: Seq<char>) -> Seq<char> {
    decimal_pad3(idx + 1) + seq!['_'] + slugify_spec(md_to_html_spec(md_path)) + ".xhtml"@
}

/// The map from HTML page to chapter file name that the first entries of a
/// summary give; a later entry for the same page replaces an earlier one.
pub open spec fn chapter_path_map_spec(entries: Seq<SummaryEntry>) -> Map<Seq<char>, Seq<char>>
    decreases entries.len(),
{
    if entries.len() == 0 {
        Map::empty()
    } else {
        let last = entries.last();
        chapter_path_map_spec(entries.drop_last()).insert(
            md_to_html_spec(last.md_path@),
            chapter_file_name((entries.len() - 1) as nat, last.md_path@),
        )
    }
}

/// The map that a list of insertions builds, a later insertion of a key
/// replacing an earlier one.
pub open spec fn pairs_map(pairs: Seq<(String, String)>) -> Map<Seq<char>, Seq<char>>
    decreases pairs.len(),
{
    if pairs.len() == 0 {
        Map::empty()
    } else {
        pairs_map(pairs.drop_last()).insert(pairs.last().0@, pairs.last().1@)
    }
}

/// A map from the HTML page of a chapter to its file name in the EPUB.
pub struct ChapterPathMap {
    pairs: Vec<(String, String)>,
}

impl View for ChapterPathMap {
    type V = Map<Seq<char>, Seq<char>>;

    closed spec fn view(&self) -> Map<Seq<char>, Seq<char>> {
        pairs_map(self.pairs@)
    }
}

impl ChapterPathMap {
    /// An empty map.
    pub fn new() -> (m: ChapterPathMap)
        ensures
            m@ == Map::<Seq<char>, Seq<char>>::empty(),
    {
        ChapterPathMap { pairs: Vec::new() }
    }

    /// Maps `key` to `value`, replacing what `key` mapped to before.
    pub fn insert(&mut self, key: String, value: String)
        ensures
            final(self)@ == old(self)@.insert(key@, value@),
    {
        let ghost before = self.pairs@;
        self.pairs.push((key, value));
        assert(self.pairs@.drop_last() =~= before);
    }

    /// What `key` maps to.
    pub fn get(&self, key: &str) -> (r: Option<&String>)
        ensures
            r is Some <==> self@.contains_key(key@),
            r matches Some(v) ==> v@ == self@[key@],
    {
        let k = key.to_owned();
        let mut found: Option<usize> = None;
        let mut i: usize = 0;
        while i < self.pairs.len()
            invariant
                i <= self.pairs@.len(),
                k@ == key@,
                match found {
                    Some(j) => j < i && pairs_map(self.pairs@.take(i as int)).contains_key(k@)
                        && pairs_map(self.pairs@.take(i as int))[k@] == self.pairs@[j as int].1@,
                    None => !pairs_map(self.pairs@.take(i as int)).contains_key(k@),
                },
            decreases self.pairs.len() - i,
        {
            assert(self.pairs@.take(i + 1).drop_last() =~= self.pairs@.take(i as int));
            if self.pairs[i].0 == k {
                found = Some(i);
            }
            i = i + 1;
        }
        assert(self.pairs@.take(self.pairs@.len() as int) =~= self.pairs@);
        match found {
            Some(j) => Some(&self.pairs[j].1),
            None => None,
        }
    }
}

/// The HTML page that mdBook builds from a Markdown path.
pub fn md_to_html(md_path: &str) -> (r: String)
    ensures
        r@ == md_to_html_spec(md_path@),
{
    let v = chars_of(md_path);
    let r = md_to_html_chars(&v);
    string_of(&r)
}

pub fn md_to_html_chars(v: &Vec<char>) -> (r: Vec<char>)
    ensures
        r@ == md_to_html_spec(v@),
{
    let md = chars_of(".md");
    let mut r = vec_trim_end_all(v, &md);
    push_str(&mut r, ".html");
    r
}

/// The file name of the chapter at position `idx` of the summary.
pub fn chapter_file_name_chars(idx: usize, md_path: &Vec<char>) -> (r: Vec<char>)
    requires
        idx < usize::MAX,
    ensures
        r@ == chapter_file_name(idx as nat, md_path@),
{
    let mut r = decimal_pad3_chars(idx + 1);
    r.push('_');
    let html = md_to_html_chars(md_path);
    let slug = slugify_chars(&html);
    push_all(&mut r, &slug);
    push_str(&mut r, ".xhtml");
    r
}

/// Maps the HTML page of each summary entry to the file name that its
/// chapter gets in the EPUB.
pub fn build_chapter_path_map(summary_entries: &[SummaryEntry]) -> (m: ChapterPathMap)
    ensures
        m@ == chapter_path_map_spec(summary_entries@),
{
    let mut m = ChapterPathMap::new();
    let mut i: usize = 0;
    while i < summary_entries.len()
        invariant
            i <= summary_entries@.len(),
            m@ == chapter_path_map_spec(summary_entries@.take(i as int)),
        decreases summary_entries.len() - i,
    {
        let md = chars_of(summary_entries[i].md_path.as_str());
        let html = md_to_html_chars(&md);
        let name = chapter_file_name_chars(i, &md);
        m.insert(string_of(&html), string_of(&name));
        assert(summary_entries@.take(i + 1).drop_last() =~= summary_entries@.take(i as int));
        i = i + 1;
    }
    assert(summary_entries@.take(summary_entries@.len() as int) =~= summary_entries@);
    m
}

/// No entry after index `j` of `entries` builds the same HTML page as entry `j`.
pub open spec fn last_for_page(entries: Seq<SummaryEntry>, j: int) -> bool {
    forall|k: int| j < k < entries.len() ==> md_to_html_spec(#[trigger] entries[k].md_path@) != md_to_html_spec(
        entries[j].md_path@,
    )
}

proof fn lemma_chapter_path_map_at(entries: Seq<SummaryEntry>, j: int)
    requires
        0 <= j < entries.len(),
        last_for_page(entries, j),
    ensures
        chapter_path_map_spec(entries).contains_key(md_to_html_spec(entries[j].md_path@)),
        chapter_path_map_spec(entries)[md_to_html_spec(entries[j].md_path@)] == chapter_file_name(
            j as nat,
            entries[j].md_path@,
        ),
    decreases entries.len(),
{
    if j < entries.len() - 1 {
        let d = entries.drop_last();
        assert(md_to_html_spec(entries[entries.len() - 1].md_path@) != md_to_html_spec(entries[j].md_path@));
        assert(last_for_page(d, j)) by {
            assert forall|k: int| j < k < d.len() implies md_to_html_spec(#[trigger] d[k].md_path@)
                != md_to_html_spec(d[j].md_path@) by {
                assert(d[k] == entries[k]);
            }
        }
        lemma_chapter_path_map_at(d, j);
    }
}

/// A link of a chapter to the page of a summary entry leads to the file of
/// that entry's chapter (the last entry, where several build the same page),
/// keeping the link's fragment or query.
pub proof fn links_to_summary_pages_reach_their_chapters(entries: Seq<SummaryEntry>, j: int, href: Seq<char>)
    requires
        0 <= j < entries.len(),
        last_for_page(entries, j),
        !is_external_or_anchor_spec(href),
        normalize_spec(split_url_spec(href).0) == md_to_html_spec(entries[j].md_path@),
    ensures
        rewrite_href_spec(href, chapter_path_map_spec(entries)) == chapter_file_name(
            j as nat,
            entries[j].md_path@,
        ) + split_url_spec(href).1,
{
    lemma_chapter_path_map_at(entries, j);
    let n = md_to_html_spec(entries[j].md_path@);
    let t = trim_end_all(entries[j].md_path@, ".md"@);
    assert(n.subrange(n.len() - ".html"@.len(), n.len() as int) =~= ".html"@);
}

/// A URL that leaves the book or stays on the page: it starts with
/// `http://`, `https://`, `mailto:`, `#`, `javascript:` or `data:`.
pub open spec fn is_external_or_anchor_spec(url: Seq<char>) -> bool {
    ||| starts_with(url, "http://"@)
    ||| starts_with(url, "https://"@)
    ||| starts_with(url, "mailto:"@)
    ||| starts_with(url, "#"@)
    ||| starts_with(url, "javascript:"@)
    ||| starts_with(url, "data:"@)
}

fn starts_with_lit(v: &Vec<char>, lit: &str) -> (b: bool)
    ensures
        b == starts_with(v@, lit@),
{
    let l = chars_of(lit);
    vec_starts_with(v, &l)
}

fn is_external_chars(v: &Vec<char>) -> (b: bool)
    ensures
        b == is_external_or_anchor_spec(v@),
{
    starts_with_lit(v, "http://") || starts_with_lit(v, "https://") || starts_with_lit(
        v,
        "mailto:",
    ) || starts_with_lit(v, "#") || starts_with_lit(v, "javascript:") || starts_with_lit(
        v,
        "data:",
    )
}

/// Whether `url` leaves the book or only points into the current page.
pub fn is_external_or_anchor_url(url: &str) -> (b: bool)
    ensures
        b == is_external_or_anchor_spec(url@),
{
    let v = chars_of(url);
    is_external_chars(&v)
}

/// A URL cut before its fragment (at the first `#`), or, if it has none,
/// before its query (at the first `?`); the second part keeps the `#` or `?`.
pub open spec fn split_url_spec(url: Seq<char>) -> (Seq<char>, Seq<char>) {
    let h = find_char(url, 0, '#');
    if h < url.len() {
        (url.take(h), url.skip(h))
    } else {
        let q = find_char(url, 0, '?');
        if q < url.len() {
            (url.take(q), url.skip(q))
        } else {
            (url, Seq::empty())
        }
    }
}

fn split_url_chars(v: &Vec<char>) -> (r: (Vec<char>, Vec<char>))
    ensures
        (r.0@, r.1@) == split_url_spec(v@),
{
    let h = find_char_from(v, 0, '#');
    if h < v.len() {
        (slice_chars(v, 0, h), slice_chars(v, h, v.len()))
    } else {
        let q = find_char_from(v, 0, '?');
        if q < v.len() {
            (slice_chars(v, 0, q), slice_chars(v, q, v.len()))
        } else {
            (v.clone(), Vec::new())
        }
    }
}

/// Splits a URL into its path and the fragment or query that follows it.
pub fn split_url_path_and_suffix(url: &str) -> (r: (String, String))
    ensures
        (r.0@, r.1@) == split_url_spec(url@),
{
    let v = chars_of(url);
    let (a, b) = split_url_chars(&v);
    (string_of(&a), string_of(&b))
}

/// A local path without its leading `./` and `/` segments.
pub open spec fn normalize_spec(path: Seq<char>) -> Seq<char> {
    trim_start_all(trim_start_all(path, "./"@), "/"@)
}

fn normalize_chars(v: &Vec<char>) -> (r: Vec<char>)
    ensures
        r@ == normalize_spec(v@),
{
    let dot_slash = chars_of("./");
    let slash = chars_of("/");
    let a = vec_trim_start_all(v, &dot_slash);
    vec_trim_start_all(&a, &slash)
}

/// Removes the leading `./` and `/` segments of a local path.
pub fn normalize_local_path(path: &str) -> (r: String)
    ensures
        r@ == normalize_spec(path@),
{
    let v = chars_of(path);
    let r = normalize_chars(&v);
    string_of(&r)
}

/// Where a link of a chapter points in the EPUB: an external or in-page link
/// stays; a link to an HTML page goes to the chapter file that `map` gives
/// for the page, or else to the page with `.xhtml` in place of `.html`,
/// keeping its fragment or query; any other link stays.
pub open spec fn rewrite_href_spec(href: Seq<char>, map: Map<Seq<char>, Seq<char>>) -> Seq<char> {
    if is_external_or_anchor_spec(href) {
        href
    } else {
        let (path, suffix) = split_url_spec(href);
        let n = normalize_spec(path);
        if ends_with(n, ".html"@) {
            if map.contains_key(n) {
                map[n] + suffix
            } else {
                trim_end_all(n, ".html"@) + ".xhtml"@ + suffix
            }
        } else {
            href
        }
    }
}

/// Where an image source of a chapter points in the EPUB: an external source
/// stays; a local one goes under `../book/`, an SVG image being replaced by
/// the PNG rendering of it.
pub open spec fn rewrite_src_spec(src: Seq<char>) -> Seq<char> {
    if is_external_or_anchor_spec(src) {
        src
    } else {
        let (path, suffix) = split_url_spec(src);
        let n = normalize_spec(path);
        let p = if ends_with(n, ".svg"@) {
            trim_end_all(n, ".svg"@) + ".png"@
        } else {
            n
        };
        "../book/"@ + p + suffix
    }
}

pub fn rewrite_href_chars(href: &Vec<char>, chapter_path_map: &ChapterPathMap) -> (r: Vec<char>)
    ensures
        r@ == rewrite_href_spec(href@, chapter_path_map@),
{
    if is_external_chars(href) {
        return href.clone();
    }
    let (path, suffix) = split_url_chars(href);
    let normalized = normalize_chars(&path);
    let html = chars_of(".html");
    if vec_ends_with(&normalized, &html) {
        let key = string_of(&normalized);
        match chapter_path_map.get(key.as_str()) {
            Some(mapped) => {
                let mut r = chars_of(mapped.as_str());
                push_all(&mut r, &suffix);
                r
            },
            None => {
                let mut r = vec_trim_end_all(&normalized, &html);
                push_str(&mut r, ".xhtml");
                push_all(&mut r, &suffix);
                r
            },
        }
    } else {
        href.clone()
    }
}

/// Rewrites the target of a chapter link so that it points into the EPUB.
pub fn rewrite_href_url(href: &str, chapter_path_map: &ChapterPathMap) -> (r: String)
    ensures
        r@ == rewrite_href_spec(href@, chapter_path_map@),
{
    let v = chars_of(href);
    let r = rewrite_href_chars(&v, chapter_path_map);
    string_of(&r)
}

pub fn rewrite_src_chars(src: &Vec<char>) -> (r: Vec<char>)
    ensures
        r@ == rewrite_src_spec(src@),
{
    if is_external_chars(src) {
        return src.clone();
    }
    let (path, suffix) = split_url_chars(src);
    let normalized = normalize_chars(&path);
    let svg = chars_of(".svg");
    let p = if vec_ends_with(&normalized, &svg) {
        let mut p = vec_trim_end_all(&normalized, &svg);
        push_str(&mut p, ".png");
        p
    } else {
        normalized
    };
    let mut r = chars_of("../book/");
    push_all(&mut r, &p);
    push_all(&mut r, &suffix);
    r
}

/// Rewrites an image source of a chapter so that it points at the book's
/// assets in the EPUB.
pub fn rewrite_src_url(src: &str) -> (r: String)
    ensures
        r@ == rewrite_src_spec(src@),
{
    let v = chars_of(src);
    let r = rewrite_src_chars(&v);
    string_of(&r)
}

/// The attribute whose value `rewrite_content_urls` rewrites in one pass.
pub enum UrlAttr {
    Href,
    Src,
}

/// What opens the attribute: `href="` or `src="`.
pub open spec fn attr_prefix(kind: UrlAttr) -> Seq<char> {
    match kind {
        UrlAttr::Href => seq!['h', 'r', 'e', 'f', '=', '"'],
        UrlAttr::Src => seq!['s', 'r', 'c', '=', '"'],
    }
}

/// What an attribute value becomes.
pub open spec fn rewrite_attr_value(kind: UrlAttr, url: Seq<char>, map: Map<Seq<char>, Seq<char>>) -> Seq<char> {
    match kind {
        UrlAttr::Href => rewrite_href_spec(url, map),
        UrlAttr::Src => rewrite_src_spec(url),
    }
}

/// If the attribute opens at index `i` and holds one or more characters
/// before its closing `"`, the index of that `"`.
pub open spec fn attr_value_end(s: Seq<char>, i: int, pre: Seq<char>) -> Option<int> {
    if occurs_at(s, pre, i) {
        let r = find_char(s, i + pre.len(), '"');
        if r < s.len() && r > i + pre.len() {
            Some(r)
        } else {
            None
        }
    } else {
        None
    }
}

/// `s` from index `i` on with the value of every attribute of the given kind
/// rewritten, the attributes found leftmost first and without overlap.
pub open spec fn rewrite_attrs_from(
    s: Seq<char>,
    i: int,
    kind: UrlAttr,
    map: Map<Seq<char>, Seq<char>>,
) -> Seq<char>
    decreases s.len() - i,
{
    if i < 0 || i >= s.len() {
        Seq::empty()
    } else {
        let pre = attr_prefix(kind);
        match attr_value_end(s, i, pre) {
            Some(r) => {
                proof {
                    lemma_find_char(s, i + pre.len(), '"');
                }
                pre + rewrite_attr_value(kind, s.subrange(i + pre.len(), r), map) + seq!['"']
                    + rewrite_attrs_from(s, r + 1, kind, map)
            },
            None => seq![s[i]] + rewrite_attrs_from(s, i + 1, kind, map),
        }
    }
}

/// A chapter with every `href="…"` value, then every `src="…"` value, rewritten
/// to point into the EPUB.
pub open spec fn rewrite_content_spec(html: Seq<char>, map: Map<Seq<char>, Seq<char>>) -> Seq<char> {
    rewrite_attrs_from(rewrite_attrs_from(html, 0, UrlAttr::Href, map), 0, UrlAttr::Src, map)
}

fn rewrite_attrs_chars(v: &Vec<char>, kind: UrlAttr, map: &ChapterPathMap) -> (r: Vec<char>)
    ensures
        r@ == rewrite_attrs_from(v@, 0, kind, map@),
{
    let pre: Vec<char> = match kind {
        UrlAttr::Href => vec!['h', 'r', 'e', 'f', '=', '"'],
        UrlAttr::Src => vec!['s', 'r', 'c', '=', '"'],
    };
    assert(pre@ =~= attr_prefix(kind));
    let mut out: Vec<char> = Vec::new();
    let mut i: usize = 0;
    while i < v.len()
        invariant
            i <= v.len(),
            pre@ == attr_prefix(kind),
            out@ + rewrite_attrs_from(v@, i as int, kind, map@) == rewrite_attrs_from(
                v@,
                0,
                kind,
                map@,
            ),
        decreases v.len() - i,
    {
        let ghost before = out@;
        let mut matched = false;
        if matches_at(v, i, &pre) {
            let r = find_char_from(v, i + pre.len(), '"');
            if r < v.len() && r > i + pre.len() {
                let url = slice_chars(v, i + pre.len(), r);
                let new_url = match kind {
                    UrlAttr::Href => rewrite_href_chars(&url, map),
                    UrlAttr::Src => rewrite_src_chars(&url),
                };
                push_all(&mut out, &pre);
                push_all(&mut out, &new_url);
                out.push('"');
                assert(out@ + rewrite_attrs_from(v@, r + 1, kind, map@) =~= before
                    + rewrite_attrs_from(v@, i as int, kind, map@));
                i = r + 1;
                matched = true;
            }
        }
        if !matched {
            out.push(v[i]);
            assert(out@ + rewrite_attrs_from(v@, i + 1, kind, map@) =~= before + rewrite_attrs_from(
                v@,
                i as int,
                kind,
                map@,
            ));
            i = i + 1;
        }
    }
    assert(out@ + rewrite_attrs_from(v@, i as int, kind, map@) =~= out@);
    out
}

/// Rewrites the links and image sources of a chapter so that they point into
/// the EPUB.
pub fn rewrite_content_urls(html_fragment: &str, chapter_path_map: &ChapterPathMap) -> (r: String)
    ensures
        r@ == rewrite_content_spec(html_fragment@, chapter_path_map@),
{
    let v = chars_of(html_fragment);
    let a = rewrite_attrs_chars(&v, UrlAttr::Href, chapter_path_map);
    let b = rewrite_attrs_chars(&a, UrlAttr::Src, chapter_path_map);
    string_of(&b)
}

/// No attribute of the given kind straddles the join of `a` and `b`: every
/// attribute that `a + b` holds from an index of `a` on is found in `a`
/// alone, and ends there.
pub open spec fn no_attr_straddles(a: Seq<char>, b: Seq<char>, kind: UrlAttr) -> bool {
    forall|i: int|
        0 <= i < a.len() ==> #[trigger] attr_value_end(a + b, i, attr_prefix(kind)) == attr_value_end(
            a,
            i,
            attr_prefix(kind),
        )
}

proof fn lemma_attr_value_end_shift(pre: Seq<char>, q: Seq<char>, j: int, p: Seq<char>)
    requires
        0 <= j < q.len(),
    ensures
        attr_value_end(pre + q, pre.len() + j, p) == (match attr_value_end(q, j, p) {
            Some(r) => Some(pre.len() + r),
            None => None::<int>,
        }),
{
    let s = pre + q;
    let i = pre.len() + j;
    if occurs_at(q, p, j) {
        assert(s.subrange(i, i + p.len()) =~= q.subrange(j, j + p.len()));
        lemma_find_char_shift(pre, q, j + p.len(), '"');
    } else if occurs_at(s, p, i) {
        assert(s.subrange(i, i + p.len()) =~= q.subrange(j, j + p.len()));
    }
}

/// Rewriting `pre + q` from the start of `q` on rewrites `q` alone.
proof fn lemma_attrs_shift(pre: Seq<char>, q: Seq<char>, j: int, kind: UrlAttr, map: Map<Seq<char>, Seq<char>>)
    requires
        0 <= j <= q.len(),
    ensures
        rewrite_attrs_from(pre + q, pre.len() + j, kind, map) == rewrite_attrs_from(q, j, kind, map),
    decreases q.len() - j,
{
    let s = pre + q;
    if j < q.len() {
        let p = attr_prefix(kind);
        lemma_attr_value_end_shift(pre, q, j, p);
        match attr_value_end(q, j, p) {
            Some(r) => {
                lemma_find_char(q, j + p.len(), '"');
                assert(s.subrange(pre.len() + j + p.len(), pre.len() + r) =~= q.subrange(j + p.len(), r));
                lemma_attrs_shift(pre, q, r + 1, kind, map);
            },
            None => {
                assert(s[pre.len() + j] == q[j]);
                lemma_attrs_shift(pre, q, j + 1, kind, map);
            },
        }
    }
}

proof fn lemma_attrs_concat(a: Seq<char>, b: Seq<char>, i: int, kind: UrlAttr, map: Map<Seq<char>, Seq<char>>)
    requires
        0 <= i <= a.len(),
        no_attr_straddles(a, b, kind),
    ensures
        rewrite_attrs_from(a + b, i, kind, map) == rewrite_attrs_from(a, i, kind, map) + rewrite_attrs_from(
            b,
            0,
            kind,
            map,
        ),
    decreases a.len() - i,
{
    let s = a + b;
    let tail = rewrite_attrs_from(b, 0, kind, map);
    if i == a.len() {
        lemma_attrs_shift(a, b, 0, kind, map);
        assert(rewrite_attrs_from(a, i, kind, map) =~= Seq::<char>::empty());
        assert(rewrite_attrs_from(a, i, kind, map) + tail =~= tail);
    } else {
        let p = attr_prefix(kind);
        assert(attr_value_end(s, i, p) == attr_value_end(a, i, p));
        match attr_value_end(a, i, p) {
            Some(r) => {
                lemma_find_char(a, i + p.len(), '"');
                assert(s.subrange(i + p.len(), r) =~= a.subrange(i + p.len(), r));
                lemma_attrs_concat(a, b, r + 1, kind, map);
                let head = p + rewrite_attr_value(kind, a.subrange(i + p.len(), r), map) + seq!['"'];
                assert(rewrite_attrs_from(s, i, kind, map) == head + rewrite_attrs_from(s, r + 1, kind, map));
                assert(rewrite_attrs_from(a, i, kind, map) == head + rewrite_attrs_from(a, r + 1, kind, map));
                assert(head + (rewrite_attrs_from(a, r + 1, kind, map) + tail) =~= (head
                    + rewrite_attrs_from(a, r + 1, kind, map)) + tail);
            },
            None => {
                assert(s[i] == a[i]);
                lemma_attrs_concat(a, b, i + 1, kind, map);
                assert(seq![a[i]] + (rewrite_attrs_from(a, i + 1, kind, map) + tail) =~= (seq![a[i]]
                    + rewrite_attrs_from(a, i + 1, kind, map)) + tail);
            },
        }
    }
}

/// Every attribute of the text is rewritten, not only the first: for two
/// fragments `a` and `b` where no attribute straddles the join, rewriting
/// `a + b` gives the rewriting of `a` followed by the rewriting of `b`.
pub proof fn rewriting_attrs_distributes_over_concat(
    a: Seq<char>,
    b: Seq<char>,
    kind: UrlAttr,
    map: Map<Seq<char>, Seq<char>>,
)
    requires
        no_attr_straddles(a, b, kind),
    ensures
        rewrite_attrs_from(a + b, 0, kind, map) == rewrite_attrs_from(a, 0, kind, map) + rewrite_attrs_from(
            b,
            0,
            kind,
            map,
        ),
{
    lemma_attrs_concat(a, b, 0, kind, map);
}

} // verus!
