//! What the EPUB builder reads from a page of mdBook's HTML output: its
//! title, its `<main>` content, its code blocks and their language, the text
//! of code without its markup, and the links and image sources it holds.
//!
//! Each reader recognises a small fixed pattern. The specifications state the
//! pattern directly: the first place where it occurs, with each
//! `[^x]+`-style part running to the first `x` that follows, whitespace runs
//! taken whole, and a shortest body before a closing tag.

use vstd::prelude::*;
use crate::text::{
    char_is_ws, count_ws_run, find_char, find_char_from, find_seq, find_seq_from, is_ws,
    lemma_find_char, lemma_find_char_at, lemma_find_char_shift, lemma_ws_run_bounds, matches_at, occurs_at, push_all, slice_chars,
    starts_with, string_of, chars_of, trim, vec_starts_with, vec_trim, ws_run,
};

verus! {

pub open spec fn title_open() -> Seq<char> {
    seq!['<', 't', 'i', 't', 'l', 'e', '>']
}

pub open spec fn title_close() -> Seq<char> {
    seq!['<', '/', 't', 'i', 't', 'l', 'e', '>']
}

pub open spec fn title_sep() -> Seq<char> {
    seq![' ', '-', ' ']
}

/// `s` cut before the first ` - ` it holds (`s.split(" - ").next()`).
pub open spec fn before_title_sep(s: Seq<char>) -> Seq<char> {
    match find_seq(s, title_sep(), 0) {
        Some(k) => s.take(k),
        None => s,
    }
}

/// The title of a page: the text between the first `<title>` and the first
/// `</title>` after it, trimmed, cut before its first ` - `, trimmed again.
pub open spec fn html_title_spec(html: Seq<char>) -> Option<Seq<char>> {
    match find_seq(html, title_open(), 0) {
        None => None,
        Some(i) => match find_seq(html, title_close(), i + 7) {
            None => None,
            Some(j) => Some(trim(before_title_sep(trim(html.subrange(i + 7, j))))),
        },
    }
}

/// The title of an HTML page, without the book name that follows ` - `.
pub fn parse_html_title(html: &str) -> (r: Option<String>)
    ensures
        r is Some <==> html_title_spec(html@) is Some,
        r matches Some(t) ==> t@ == html_title_spec(html@)->0,
{
    let v = chars_of(html);
    let open: Vec<char> = vec!['<', 't', 'i', 't', 'l', 'e', '>'];
    let close: Vec<char> = vec!['<', '/', 't', 'i', 't', 'l', 'e', '>'];
    let sep: Vec<char> = vec![' ', '-', ' '];
    assert(open@ =~= title_open());
    assert(close@ =~= title_close());
    assert(sep@ =~= title_sep());
    proof {
        crate::text::lemma_find_seq(v@, open@, 0);
    }
    let i = match find_seq_from(&v, &open, 0) {
        Some(i) => i,
        None => return None,
    };
    let n = v.len();
    proof {
        crate::text::lemma_find_seq(v@, close@, i + 7);
    }
    let j = match find_seq_from(&v, &close, i + 7) {
        Some(j) => j,
        None => return None,
    };
    let inner = slice_chars(&v, i + 7, j);
    let full = vec_trim(&inner);
    let head = match find_seq_from(&full, &sep, 0) {
        Some(k) => {
            proof {
                crate::text::lemma_find_seq(full@, sep@, 0);
            }
            slice_chars(&full, 0, k)
        },
        None => full,
    };
    let t = vec_trim(&head);
    Some(string_of(&t))
}

pub open spec fn main_open() -> Seq<char> {
    seq!['<', 'm', 'a', 'i', 'n', '>']
}

pub open spec fn main_close() -> Seq<char> {
    seq!['<', '/', 'm', 'a', 'i', 'n', '>']
}

/// The first index `e` at or after `e0` from which a whitespace run and then
/// `</main>` follow.
pub open spec fn main_end_from(s: Seq<char>, e: int) -> Option<int>
    decreases s.len() + 1 - e,
{
    if e < 0 || e > s.len() {
        None
    } else if occurs_at(s, main_close(), e + ws_run(s, e)) {
        Some(e)
    } else {
        main_end_from(s, e + 1)
    }
}

/// The content of the first `<main>` element of a page: from the first
/// `<main>` and the whitespace after it, to the shortest end from which
/// whitespace and `</main>` follow.
pub open spec fn main_content_spec(html: Seq<char>) -> Option<Seq<char>> {
    match find_seq(html, main_open(), 0) {
        None => None,
        Some(i) => {
            let a = i + 6 + ws_run(html, i + 6);
            match main_end_from(html, a) {
                None => None,
                Some(e) => Some(html.subrange(a, e)),
            }
        },
    }
}

pub proof fn lemma_main_end_from(s: Seq<char>, e: int)
    requires
        0 <= e,
    ensures
        main_end_from(s, e) matches Some(f) ==> e <= f <= s.len(),
    decreases s.len() + 1 - e,
{
    if e <= s.len() && !occurs_at(s, main_close(), e + ws_run(s, e)) {
        lemma_main_end_from(s, e + 1);
    }
}

/// The content of the `<main>` element of an HTML page.
pub fn extract_main_content(html: &str) -> (r: Option<String>)
    ensures
        r is Some <==> main_content_spec(html@) is Some,
        r matches Some(t) ==> t@ == main_content_spec(html@)->0,
{
    let v = chars_of(html);
    let open: Vec<char> = vec!['<', 'm', 'a', 'i', 'n', '>'];
    let close: Vec<char> = vec!['<', '/', 'm', 'a', 'i', 'n', '>'];
    assert(open@ =~= main_open());
    assert(close@ =~= main_close());
    let i = match find_seq_from(&v, &open, 0) {
        Some(i) => i,
        None => return None,
    };
    proof {
        crate::text::lemma_find_seq(v@, open@, 0);
    }
    let n = v.len();
    let a = i + 6 + count_ws_run(&v, i + 6);
    let mut e = a;
    while e < v.len()
        invariant
            a <= e <= v.len(),
            v@ == html@,
            find_seq(v@, main_open(), 0) == Some(i as int),
            a == i + 6 + ws_run(v@, i + 6),
            main_end_from(v@, a as int) == main_end_from(v@, e as int),
            close@ == main_close(),
        decreases v.len() - e,
    {
        let w = count_ws_run(&v, e);
        if matches_at(&v, e + w, &close) {
            assert(main_end_from(v@, e as int) == Some(e as int));
            let t = slice_chars(&v, a, e);
            return Some(string_of(&t));
        }
        assert(main_end_from(v@, e as int) == main_end_from(v@, e + 1));
        e = e + 1;
    }
    assert(main_end_from(v@, e as int) == main_end_from(v@, e + 1));
    assert(main_end_from(v@, e as int) is None);
    None
}

pub open spec fn class_kw() -> Seq<char> {
    seq!['c', 'l', 'a', 's', 's']
}

pub open spec fn language_prefix() -> Seq<char> {
    seq!['l', 'a', 'n', 'g', 'u', 'a', 'g', 'e', '-']
}

/// The value of a `class` attribute that starts at index `i`: `class`,
/// whitespace, `=`, whitespace, `"`, one or more characters other than `"`,
/// `"`. The result is the range of the value.
pub open spec fn class_value_at(s: Seq<char>, i: int) -> Option<(int, int)> {
    if occurs_at(s, class_kw(), i) {
        let p = i + 5 + ws_run(s, i + 5);
        if p < s.len() && s[p] == '=' {
            let q = p + 1 + ws_run(s, p + 1);
            if q < s.len() && s[q] == '"' {
                let r = find_char(s, q + 1, '"');
                if r < s.len() && r > q + 1 {
                    Some((q + 1, r))
                } else {
                    None
                }
            } else {
                None
            }
        } else {
            None
        }
    } else {
        None
    }
}

/// The first `class` attribute value of `s` that starts at or after `i`.
pub open spec fn class_value_from(s: Seq<char>, i: int) -> Option<(int, int)>
    decreases s.len() + 1 - i,
{
    if i < 0 || i > s.len() {
        None
    } else if class_value_at(s, i) is Some {
        class_value_at(s, i)
    } else {
        class_value_from(s, i + 1)
    }
}

/// Number of consecutive non-whitespace characters of `s` from index `i`.
pub open spec fn non_ws_run(s: Seq<char>, i: int) -> nat
    decreases s.len() - i,
{
    if 0 <= i < s.len() && !is_ws(s[i]) {
        1 + non_ws_run(s, i + 1)
    } else {
        0
    }
}

pub proof fn lemma_non_ws_run_bounds(s: Seq<char>, i: int)
    requires
        0 <= i <= s.len(),
    ensures
        i + non_ws_run(s, i) <= s.len(),
        i < s.len() && !is_ws(s[i]) ==> non_ws_run(s, i) >= 1,
    decreases s.len() - i,
{
    if i < s.len() && !is_ws(s[i]) {
        lemma_non_ws_run_bounds(s, i + 1);
    }
}

/// The language named by the first whitespace-separated word of `c`, from
/// index `i` on, that starts with `language-` and holds more after it.
pub open spec fn language_from(c: Seq<char>, i: int) -> Option<Seq<char>>
    decreases c.len() + 1 - i,
{
    if i < 0 || i > c.len() {
        None
    } else {
        let a = i + ws_run(c, i);
        if a >= c.len() {
            None
        } else {
            proof {
                lemma_ws_run_bounds(c, i);
                lemma_non_ws_run_bounds(c, a);
            }
            let b = a + non_ws_run(c, a);
            let tok = c.subrange(a, b);
            if starts_with(tok, language_prefix()) && tok.len() > 9 {
                Some(tok.skip(9))
            } else {
                language_from(c, b)
            }
        }
    }
}

/// The language that the `class` attribute of a `<code>` element names.
pub open spec fn code_language_spec(attrs: Seq<char>) -> Option<Seq<char>> {
    match class_value_from(attrs, 0) {
        None => None,
        Some((x, y)) => language_from(attrs.subrange(x, y), 0),
    }
}

fn class_value_at_exec(v: &Vec<char>, i: usize) -> (r: Option<(usize, usize)>)
    requires
        i <= v.len(),
    ensures
        r matches Some((x, y)) ==> class_value_at(v@, i as int) == Some((x as int, y as int)),
        r is None ==> class_value_at(v@, i as int) is None,
        r matches Some((x, y)) ==> x <= y <= v.len(),
{
    let kw: Vec<char> = vec!['c', 'l', 'a', 's', 's'];
    assert(kw@ =~= class_kw());
    if !matches_at(v, i, &kw) {
        return None;
    }
    let p = i + 5 + count_ws_run(v, i + 5);
    if !(p < v.len() && v[p] == '=') {
        return None;
    }
    let q = p + 1 + count_ws_run(v, p + 1);
    if !(q < v.len() && v[q] == '"') {
        return None;
    }
    let r = find_char_from(v, q + 1, '"');
    if r < v.len() && r > q + 1 {
        Some((q + 1, r))
    } else {
        None
    }
}

fn count_non_ws_run(v: &Vec<char>, i: usize) -> (n: usize)
    requires
        i <= v.len(),
    ensures
        n == non_ws_run(v@, i as int),
        i + n <= v.len(),
{
    let mut k: usize = i;
    while k < v.len() && !char_is_ws(v[k])
        invariant
            i <= k <= v.len(),
            non_ws_run(v@, i as int) == (k - i) + non_ws_run(v@, k as int),
        decreases v.len() - k,
    {
        k = k + 1;
    }
    k - i
}

/// The language named by the `class` attribute of a `<code>` element
/// (`language-rust` names `rust`).
pub fn language_from_code_attrs(code_attrs: &str) -> (r: Option<String>)
    ensures
        r is Some <==> code_language_spec(code_attrs@) is Some,
        r matches Some(l) ==> l@ == code_language_spec(code_attrs@)->0,
{
    let v = chars_of(code_attrs);
    match language_chars(&v) {
        Some(l) => Some(string_of(&l)),
        None => None,
    }
}

fn class_value_from_exec(v: &Vec<char>) -> (r: Option<(usize, usize)>)
    ensures
        r matches Some((x, y)) ==> class_value_from(v@, 0) == Some((x as int, y as int)) && x <= y
            <= v.len(),
        r is None ==> class_value_from(v@, 0) is None,
{
    let mut i: usize = 0;
    while i < v.len()
        invariant
            i <= v.len(),
            class_value_from(v@, 0) == class_value_from(v@, i as int),
        decreases v.len() - i,
    {
        match class_value_at_exec(v, i) {
            Some(xy) => {
                return Some(xy);
            },
            None => {},
        }
        i = i + 1;
    }
    assert(class_value_at(v@, i as int) is None);
    assert(class_value_from(v@, i as int) == class_value_from(v@, i + 1));
    None
}

pub fn language_chars(v: &Vec<char>) -> (r: Option<Vec<char>>)
    ensures
        r is Some <==> code_language_spec(v@) is Some,
        r matches Some(l) ==> l@ == code_language_spec(v@)->0,
{
    let (x, y) = match class_value_from_exec(v) {
        Some(xy) => xy,
        None => return None,
    };
    let c = slice_chars(v, x, y);
    let prefix: Vec<char> = vec!['l', 'a', 'n', 'g', 'u', 'a', 'g', 'e', '-'];
    assert(prefix@ =~= language_prefix());
    let mut k: usize = 0;
    while k <= c.len()
        invariant
            k <= c.len() + 1,
            language_from(c@, 0) == language_from(c@, k as int),
            prefix@ == language_prefix(),
            c@ == v@.subrange(x as int, y as int),
            class_value_from(v@, 0) == Some((x as int, y as int)),
        decreases c.len() + 1 - k,
    {
        let a = k + count_ws_run(&c, k);
        if a >= c.len() {
            assert(language_from(c@, k as int) is None);
            return None;
        }
        proof {
            lemma_non_ws_run_bounds(c@, a as int);
        }
        let b = a + count_non_ws_run(&c, a);
        let tok = slice_chars(&c, a, b);
        if vec_starts_with(&tok, &prefix) && tok.len() > 9 {
            assert(language_from(c@, k as int) == Some(tok@.skip(9)));
            let l = slice_chars(&tok, 9, tok.len());
            assert(l@ =~= tok@.skip(9));
            return Some(l);
        }
        assert(language_from(c@, k as int) == language_from(c@, b as int));
        k = b;
    }
    assert(language_from(c@, k as int) is None);
    None
}

/// `s` from index `p` on with every tag removed: a `<`, one or more
/// characters other than `>`, and the first `>` after them.
pub open spec fn strip_tags_from(s: Seq<char>, p: int) -> Seq<char>
    decreases s.len() - p,
{
    if p < 0 || p >= s.len() {
        Seq::empty()
    } else {
        let q = find_char(s, p + 1, '>');
        if s[p] == '<' && q < s.len() && q > p + 1 {
            proof {
                lemma_find_char(s, p + 1, '>');
            }
            strip_tags_from(s, q + 1)
        } else {
            seq![s[p]] + strip_tags_from(s, p + 1)
        }
    }
}

/// `s` with every tag removed.
pub open spec fn strip_tags_spec(s: Seq<char>) -> Seq<char> {
    strip_tags_from(s, 0)
}

/// Every `<` of `a` is followed, further on in `a`, by a `>`: no tag that
/// opens in `a` runs past its end.
pub open spec fn tags_close_within(a: Seq<char>) -> bool {
    forall|p: int| 0 <= p < a.len() && a[p] == '<' ==> #[trigger] find_char(a, p + 1, '>') < a.len()
}

proof fn lemma_strip_tags_shift(pre: Seq<char>, q: Seq<char>, j: int)
    requires
        0 <= j <= q.len(),
    ensures
        strip_tags_from(pre + q, pre.len() + j) == strip_tags_from(q, j),
    decreases q.len() - j,
{
    let s = pre + q;
    if j < q.len() {
        assert(s[pre.len() + j] == q[j]);
        lemma_find_char_shift(pre, q, j + 1, '>');
        lemma_find_char(q, j + 1, '>');
        let r = find_char(q, j + 1, '>');
        if q[j] == '<' && r < q.len() && r > j + 1 {
            lemma_strip_tags_shift(pre, q, r + 1);
        } else {
            lemma_strip_tags_shift(pre, q, j + 1);
        }
    }
}

proof fn lemma_strip_tags_concat(a: Seq<char>, b: Seq<char>, p: int)
    requires
        0 <= p <= a.len(),
        tags_close_within(a),
    ensures
        strip_tags_from(a + b, p) == strip_tags_from(a, p) + strip_tags_spec(b),
    decreases a.len() - p,
{
    let s = a + b;
    let tail = strip_tags_spec(b);
    if p == a.len() {
        lemma_strip_tags_shift(a, b, 0);
        assert(strip_tags_from(a, p) + tail =~= tail);
    } else {
        assert(s[p] == a[p]);
        lemma_find_char(a, p + 1, '>');
        let q = find_char(a, p + 1, '>');
        if a[p] == '<' {
            assert(q < a.len());
            assert(a[q] == '>');
            lemma_find_char_at(s, p + 1, q, '>');
        }
        if a[p] == '<' && q > p + 1 {
            lemma_strip_tags_concat(a, b, q + 1);
        } else {
            lemma_strip_tags_concat(a, b, p + 1);
            assert(seq![a[p]] + (strip_tags_from(a, p + 1) + tail) =~= (seq![a[p]] + strip_tags_from(a, p + 1))
                + tail);
        }
    }
}

/// Every tag of the text is removed, not only the first: when no tag that
/// opens in `a` runs past its end, stripping `a + b` gives the stripping of
/// `a` followed by the stripping of `b`.
pub proof fn stripping_tags_distributes_over_concat(a: Seq<char>, b: Seq<char>)
    requires
        tags_close_within(a),
    ensures
        strip_tags_spec(a + b) == strip_tags_spec(a) + strip_tags_spec(b),
{
    lemma_strip_tags_concat(a, b, 0);
}

proof fn lemma_strip_plain_text(s: Seq<char>, p: int)
    requires
        0 <= p <= s.len(),
        !s.contains('<'),
    ensures
        strip_tags_from(s, p) == s.skip(p),
    decreases s.len() - p,
{
    if p < s.len() {
        if s[p] == '<' {
            assert(s.contains('<'));
        }
        lemma_strip_plain_text(s, p + 1);
        assert(seq![s[p]] + s.skip(p + 1) =~= s.skip(p));
    } else {
        assert(s.skip(p) =~= Seq::<char>::empty());
    }
}

/// Text with no `<` has no tag, and stripping gives it back unchanged.
pub proof fn text_without_tags_is_unchanged(s: Seq<char>)
    requires
        !s.contains('<'),
    ensures
        strip_tags_spec(s) == s,
{
    lemma_strip_plain_text(s, 0);
    assert(s.skip(0) =~= s);
}

/// Removes the markup tags of an HTML fragment, keeping the text between them.
pub fn strip_html_tags(html: &str) -> (r: String)
    ensures
        r@ == strip_tags_spec(html@),
{
    let v = chars_of(html);
    let out = strip_tags_chars(&v);
    string_of(&out)
}

pub fn strip_tags_chars(v: &Vec<char>) -> (r: Vec<char>)
    ensures
        r@ == strip_tags_spec(v@),
{
    let mut out: Vec<char> = Vec::new();
    let mut p: usize = 0;
    while p < v.len()
        invariant
            p <= v.len(),
            out@ + strip_tags_from(v@, p as int) == strip_tags_from(v@, 0),
        decreases v.len() - p,
    {
        let q = find_char_from(v, p + 1, '>');
        if v[p] == '<' && q < v.len() && q > p + 1 {
            p = q + 1;
        } else {
            let ghost before = out@;
            out.push(v[p]);
            assert(before + strip_tags_from(v@, p as int) =~= out@ + strip_tags_from(
                v@,
                p + 1,
            ));
            p = p + 1;
        }
    }
    assert(out@ + strip_tags_from(v@, p as int) =~= out@);
    out
}

pub open spec fn pre_open() -> Seq<char> {
    seq!['<', 'p', 'r', 'e']
}

pub open spec fn code_open() -> Seq<char> {
    seq!['<', 'c', 'o', 'd', 'e']
}

pub open spec fn code_close() -> Seq<char> {
    seq!['<', '/', 'c', 'o', 'd', 'e', '>']
}

pub open spec fn pre_close() -> Seq<char> {
    seq!['<', '/', 'p', 'r', 'e', '>']
}

/// Whether a code block may end at index `e`: `</code>`, whitespace, `</pre>`.
pub open spec fn code_ends_at(s: Seq<char>, e: int) -> bool {
    occurs_at(s, code_close(), e) && occurs_at(s, pre_close(), e + 7 + ws_run(s, e + 7))
}

/// The first index at or after `e` where a code block may end.
pub open spec fn code_end_from(s: Seq<char>, e: int) -> Option<int>
    decreases s.len() + 1 - e,
{
    if e < 0 || e > s.len() {
        None
    } else if code_ends_at(s, e) {
        Some(e)
    } else {
        code_end_from(s, e + 1)
    }
}

/// A code block that starts at index `i`: `<pre`, attributes up to the first
/// `>`, whitespace, `<code`, attributes up to the first `>`, the code, and
/// `</code>`, whitespace, `</pre>` at the first place where they follow.
/// The result gives the range of the `<code>` attributes, the range of the
/// code, and the index just after the block.
pub open spec fn code_block_at(s: Seq<char>, i: int) -> Option<(int, int, int, int, int)> {
    if !occurs_at(s, pre_open(), i) {
        None
    } else {
        let g = find_char(s, i + 4, '>');
        if g >= s.len() {
            None
        } else {
            let c0 = g + 1 + ws_run(s, g + 1);
            if !occurs_at(s, code_open(), c0) {
                None
            } else {
                let h = find_char(s, c0 + 5, '>');
                if h >= s.len() {
                    None
                } else {
                    match code_end_from(s, h + 1) {
                        None => None,
                        Some(e) => Some((c0 + 5, h, h + 1, e, e + 7 + ws_run(s, e + 7) + 6)),
                    }
                }
            }
        }
    }
}

pub proof fn lemma_code_end_from(s: Seq<char>, e: int)
    requires
        0 <= e,
    ensures
        code_end_from(s, e) matches Some(f) ==> e <= f && code_ends_at(s, f),
    decreases s.len() + 1 - e,
{
    if e <= s.len() && !code_ends_at(s, e) {
        lemma_code_end_from(s, e + 1);
    }
}

pub proof fn lemma_code_block_at(s: Seq<char>, i: int)
    requires
        0 <= i,
    ensures
        code_block_at(s, i) matches Some((a0, a1, c0, c1, end)) ==> i < a0 <= a1 < c0 <= c1 < end
            <= s.len(),
{
    if occurs_at(s, pre_open(), i) {
        lemma_find_char(s, i + 4, '>');
        let g = find_char(s, i + 4, '>');
        if g < s.len() {
            lemma_ws_run_bounds(s, g + 1);
            let c0 = g + 1 + ws_run(s, g + 1);
            if occurs_at(s, code_open(), c0) {
                lemma_find_char(s, c0 + 5, '>');
                let h = find_char(s, c0 + 5, '>');
                if h < s.len() {
                    lemma_code_end_from(s, h + 1);
                }
            }
        }
    }
}

/// A piece of an HTML fragment: text, or a code block given by the
/// attributes of its `<code>` element and its code.
pub enum HtmlPiece {
    Text(String),
    Code { attrs: String, code: String },
}

/// A piece of an HTML fragment, by the characters it holds.
pub enum PieceSpec {
    Text(Seq<char>),
    Code(Seq<char>, Seq<char>),
}

impl View for HtmlPiece {
    type V = PieceSpec;

    open spec fn view(&self) -> PieceSpec {
        match self {
            HtmlPiece::Text(t) => PieceSpec::Text(t@),
            HtmlPiece::Code { attrs, code } => PieceSpec::Code(attrs@, code@),
        }
    }
}

pub open spec fn pieces_view(v: Seq<HtmlPiece>) -> Seq<PieceSpec> {
    v.map_values(|p: HtmlPiece| p@)
}

/// The pieces of `s` from the search position `p` on, the current text
/// piece having begun at `last`: each code block found, leftmost first and
/// without overlap, with the text before it.
pub open spec fn code_pieces_from(s: Seq<char>, p: int, last: int) -> Seq<PieceSpec>
    decreases s.len() + 1 - p,
{
    if p < 0 || p > s.len() {
        seq![PieceSpec::Text(s.subrange(last, s.len() as int))]
    } else {
        match code_block_at(s, p) {
            Some((a0, a1, c0, c1, end)) => {
                proof {
                    lemma_code_block_at(s, p);
                }
                seq![
                    PieceSpec::Text(s.subrange(last, p)),
                    PieceSpec::Code(s.subrange(a0, a1), s.subrange(c0, c1)),
                ] + code_pieces_from(s, end, end)
            },
            None => code_pieces_from(s, p + 1, last),
        }
    }
}

/// The code blocks of `s` and the text around them.
pub open spec fn code_pieces_spec(s: Seq<char>) -> Seq<PieceSpec> {
    code_pieces_from(s, 0, 0)
}

fn code_end_exec(v: &Vec<char>, e0: usize) -> (r: Option<usize>)
    requires
        e0 <= v.len(),
    ensures
        r matches Some(e) ==> code_end_from(v@, e0 as int) == Some(e as int),
        r is None ==> code_end_from(v@, e0 as int) is None,
{
    let cc: Vec<char> = vec!['<', '/', 'c', 'o', 'd', 'e', '>'];
    let pc: Vec<char> = vec!['<', '/', 'p', 'r', 'e', '>'];
    assert(cc@ =~= code_close());
    assert(pc@ =~= pre_close());
    let mut e = e0;
    while e < v.len()
        invariant
            e0 <= e <= v.len(),
            cc@ == code_close(),
            pc@ == pre_close(),
            code_end_from(v@, e0 as int) == code_end_from(v@, e as int),
        decreases v.len() - e,
    {
        if matches_at(v, e, &cc) {
            let w = count_ws_run(v, e + 7);
            if matches_at(v, e + 7 + w, &pc) {
                return Some(e);
            }
        }
        e = e + 1;
    }
    assert(code_end_from(v@, e as int) == code_end_from(v@, e + 1));
    None
}

fn code_block_exec(v: &Vec<char>, i: usize) -> (r: Option<(usize, usize, usize, usize, usize)>)
    requires
        i <= v.len(),
    ensures
        r matches Some((a0, a1, c0, c1, end)) ==> code_block_at(v@, i as int) == Some(
            (a0 as int, a1 as int, c0 as int, c1 as int, end as int),
        ),
        r is None ==> code_block_at(v@, i as int) is None,
{
    let po: Vec<char> = vec!['<', 'p', 'r', 'e'];
    let co: Vec<char> = vec!['<', 'c', 'o', 'd', 'e'];
    assert(po@ =~= pre_open());
    assert(co@ =~= code_open());
    proof {
        lemma_code_block_at(v@, i as int);
    }
    if !matches_at(v, i, &po) {
        return None;
    }
    let g = find_char_from(v, i + 4, '>');
    if g >= v.len() {
        return None;
    }
    let c0 = g + 1 + count_ws_run(v, g + 1);
    if !matches_at(v, c0, &co) {
        return None;
    }
    let h = find_char_from(v, c0 + 5, '>');
    if h >= v.len() {
        return None;
    }
    proof {
        lemma_code_end_from(v@, h + 1);
    }
    match code_end_exec(v, h + 1) {
        None => None,
        Some(e) => {
            let w = count_ws_run(v, e + 7);
            Some((c0 + 5, h, h + 1, e, e + 7 + w + 6))
        },
    }
}

/// Splits an HTML fragment into its code blocks and the text around them.
pub fn split_code_blocks(html: &str) -> (r: Vec<HtmlPiece>)
    ensures
        pieces_view(r@) == code_pieces_spec(html@),
{
    let v = chars_of(html);
    let mut out: Vec<HtmlPiece> = Vec::new();
    let mut p: usize = 0;
    let mut last: usize = 0;
    while p < v.len()
        invariant
            last <= p <= v.len(),
            v@ == html@,
            pieces_view(out@) + code_pieces_from(v@, p as int, last as int) == code_pieces_spec(
                v@,
            ),
        decreases v.len() - p,
    {
        proof {
            lemma_code_block_at(v@, p as int);
        }
        match code_block_exec(&v, p) {
            Some((a0, a1, c0, c1, end)) => {
                let ghost before = pieces_view(out@);
                let text = slice_chars(&v, last, p);
                let attrs = slice_chars(&v, a0, a1);
                let code = slice_chars(&v, c0, c1);
                out.push(HtmlPiece::Text(string_of(&text)));
                out.push(HtmlPiece::Code { attrs: string_of(&attrs), code: string_of(&code) });
                assert(pieces_view(out@) =~= before + seq![
                    PieceSpec::Text(v@.subrange(last as int, p as int)),
                    PieceSpec::Code(v@.subrange(a0 as int, a1 as int), v@.subrange(c0 as int, c1 as int)),
                ]);
                p = end;
                last = end;
            },
            None => {
                p = p + 1;
            },
        }
    }
    assert(code_block_at(v@, p as int) is None);
    assert(code_pieces_from(v@, p as int, last as int) == code_pieces_from(v@, p + 1, last as int));
    let ghost before = pieces_view(out@);
    let text = slice_chars(&v, last, v.len());
    out.push(HtmlPiece::Text(string_of(&text)));
    assert(pieces_view(out@) =~= before + seq![PieceSpec::Text(v@.subrange(last as int, v@.len() as int))]);
    out
}

proof fn lemma_ws_run_shift(pre: Seq<char>, q: Seq<char>, j: int)
    requires
        0 <= j <= q.len(),
    ensures
        ws_run(pre + q, pre.len() + j) == ws_run(q, j),
    decreases q.len() - j,
{
    if j < q.len() {
        assert((pre + q)[pre.len() + j] == q[j]);
        lemma_ws_run_shift(pre, q, j + 1);
    }
}

proof fn lemma_occurs_at_shift(pre: Seq<char>, q: Seq<char>, p: Seq<char>, j: int)
    requires
        0 <= j,
    ensures
        occurs_at(pre + q, p, pre.len() + j) == occurs_at(q, p, j),
{
    if j + p.len() <= q.len() {
        assert((pre + q).subrange(pre.len() + j, pre.len() + j + p.len()) =~= q.subrange(j, j + p.len()));
    }
}

proof fn lemma_code_ends_at_shift(pre: Seq<char>, q: Seq<char>, e: int)
    requires
        0 <= e <= q.len(),
    ensures
        code_ends_at(pre + q, pre.len() + e) == code_ends_at(q, e),
{
    lemma_occurs_at_shift(pre, q, code_close(), e);
    if e + 7 <= q.len() {
        lemma_ws_run_shift(pre, q, e + 7);
        lemma_occurs_at_shift(pre, q, pre_close(), e + 7 + ws_run(q, e + 7));
    }
}

proof fn lemma_code_end_from_shift(pre: Seq<char>, q: Seq<char>, e: int)
    requires
        0 <= e <= q.len() + 1,
    ensures
        code_end_from(pre + q, pre.len() + e) == (match code_end_from(q, e) {
            Some(f) => Some(pre.len() + f),
            None => None::<int>,
        }),
    decreases q.len() + 1 - e,
{
    if e <= q.len() {
        lemma_code_ends_at_shift(pre, q, e);
        if !code_ends_at(q, e) {
            lemma_code_end_from_shift(pre, q, e + 1);
        }
    }
}

pub open spec fn shift_block(b: Option<(int, int, int, int, int)>, d: int) -> Option<(int, int, int, int, int)> {
    match b {
        Some((a0, a1, c0, c1, end)) => Some((a0 + d, a1 + d, c0 + d, c1 + d, end + d)),
        None => None,
    }
}

proof fn lemma_code_block_at_shift(pre: Seq<char>, q: Seq<char>, i: int)
    requires
        0 <= i <= q.len(),
    ensures
        code_block_at(pre + q, pre.len() + i) == shift_block(code_block_at(q, i), pre.len() as int),
{
    let s = pre + q;
    let d = pre.len() as int;
    lemma_occurs_at_shift(pre, q, pre_open(), i);
    if occurs_at(q, pre_open(), i) {
        lemma_find_char_shift(pre, q, i + 4, '>');
        lemma_find_char(q, i + 4, '>');
        let g = find_char(q, i + 4, '>');
        if g < q.len() {
            lemma_ws_run_shift(pre, q, g + 1);
            lemma_ws_run_bounds(q, g + 1);
            let c0 = g + 1 + ws_run(q, g + 1);
            lemma_occurs_at_shift(pre, q, code_open(), c0);
            if occurs_at(q, code_open(), c0) {
                lemma_find_char_shift(pre, q, c0 + 5, '>');
                lemma_find_char(q, c0 + 5, '>');
                let h = find_char(q, c0 + 5, '>');
                if h < q.len() {
                    lemma_code_end_from_shift(pre, q, h + 1);
                    lemma_code_end_from(q, h + 1);
                    match code_end_from(q, h + 1) {
                        Some(e) => {
                            lemma_ws_run_shift(pre, q, e + 7);
                        },
                        None => {},
                    }
                }
            }
        }
    }
}

/// The text of a text piece (nothing for a code block).
pub open spec fn piece_text(p: PieceSpec) -> Seq<char> {
    match p {
        PieceSpec::Text(t) => t,
        PieceSpec::Code(_, _) => Seq::empty(),
    }
}

/// `t` put before the text of the first piece.
pub open spec fn prefix_first(t: Seq<char>, y: Seq<PieceSpec>) -> Seq<PieceSpec> {
    seq![PieceSpec::Text(t + piece_text(y[0]))] + y.skip(1)
}

/// The pieces of one text followed by those of another, the text at the
/// end of the first joined to the text at the start of the second.
pub open spec fn join_pieces(x: Seq<PieceSpec>, y: Seq<PieceSpec>) -> Seq<PieceSpec> {
    x.drop_last() + prefix_first(piece_text(x.last()), y)
}

proof fn lemma_pieces_shape(s: Seq<char>, p: int, last: int)
    requires
        0 <= last <= p,
    ensures
        code_pieces_from(s, p, last).len() > 0,
        code_pieces_from(s, p, last)[0] is Text,
    decreases s.len() + 1 - p,
{
    if p <= s.len() {
        lemma_code_block_at(s, p);
        match code_block_at(s, p) {
            Some((a0, a1, c0, c1, end)) => {},
            None => {
                lemma_pieces_shape(s, p + 1, last);
            },
        }
    }
}

proof fn lemma_pieces_shift(pre: Seq<char>, q: Seq<char>, p: int, l: int)
    requires
        0 <= l <= p <= q.len() + 1,
        l <= q.len(),
    ensures
        code_pieces_from(pre + q, pre.len() + p, pre.len() + l) == code_pieces_from(q, p, l),
    decreases q.len() + 1 - p,
{
    let s = pre + q;
    let d = pre.len() as int;
    if p > q.len() {
        assert(s.subrange(d + l, s.len() as int) =~= q.subrange(l, q.len() as int));
    } else {
        lemma_code_block_at_shift(pre, q, p);
        lemma_code_block_at(q, p);
        match code_block_at(q, p) {
            Some((a0, a1, c0, c1, end)) => {
                assert(s.subrange(d + l, d + p) =~= q.subrange(l, p));
                assert(s.subrange(d + a0, d + a1) =~= q.subrange(a0, a1));
                assert(s.subrange(d + c0, d + c1) =~= q.subrange(c0, c1));
                lemma_pieces_shift(pre, q, end, end);
            },
            None => {
                lemma_pieces_shift(pre, q, p + 1, l);
            },
        }
    }
}

proof fn lemma_pieces_shift_prefixed(pre: Seq<char>, q: Seq<char>, p: int, last: int)
    requires
        0 <= last <= pre.len(),
        0 <= p <= q.len() + 1,
    ensures
        code_pieces_from(pre + q, pre.len() + p, last) == prefix_first(
            pre.subrange(last, pre.len() as int),
            code_pieces_from(q, p, 0),
        ),
    decreases q.len() + 1 - p,
{
    let s = pre + q;
    let d = pre.len() as int;
    let t = pre.subrange(last, d);
    if p > q.len() {
        assert(s.subrange(last, s.len() as int) =~= t + q.subrange(0, q.len() as int));
        assert(prefix_first(t, code_pieces_from(q, p, 0)) =~= seq![PieceSpec::Text(t + q.subrange(0, q.len() as int))]);
    } else {
        lemma_code_block_at_shift(pre, q, p);
        lemma_code_block_at(q, p);
        match code_block_at(q, p) {
            Some((a0, a1, c0, c1, end)) => {
                assert(s.subrange(last, d + p) =~= t + q.subrange(0, p));
                assert(s.subrange(d + a0, d + a1) =~= q.subrange(a0, a1));
                assert(s.subrange(d + c0, d + c1) =~= q.subrange(c0, c1));
                lemma_pieces_shift(pre, q, end, end);
                let rest = code_pieces_from(q, end, end);
                let y = seq![PieceSpec::Text(q.subrange(0, p)), PieceSpec::Code(q.subrange(a0, a1), q.subrange(c0, c1))]
                    + rest;
                assert(code_pieces_from(q, p, 0) == y);
                assert(prefix_first(t, y) =~= seq![
                    PieceSpec::Text(t + q.subrange(0, p)),
                    PieceSpec::Code(q.subrange(a0, a1), q.subrange(c0, c1)),
                ] + rest);
            },
            None => {
                lemma_pieces_shift_prefixed(pre, q, p + 1, last);
            },
        }
    }
}

/// No code block straddles the join of `a` and `b`: every code block that
/// `a + b` holds from an index of `a` on is found in `a` alone.
pub open spec fn no_block_straddles(a: Seq<char>, b: Seq<char>) -> bool {
    forall|p: int| 0 <= p < a.len() ==> #[trigger] code_block_at(a + b, p) == code_block_at(a, p)
}

proof fn lemma_pieces_concat(a: Seq<char>, b: Seq<char>, p: int, last: int)
    requires
        0 <= last <= p <= a.len(),
        no_block_straddles(a, b),
    ensures
        code_pieces_from(a + b, p, last) == join_pieces(code_pieces_from(a, p, last), code_pieces_spec(b)),
    decreases a.len() - p,
{
    let s = a + b;
    let y = code_pieces_spec(b);
    lemma_pieces_shape(b, 0, 0);
    if p == a.len() {
        lemma_pieces_shift_prefixed(a, b, 0, last);
        assert(code_block_at(a, p) is None);
        assert(code_pieces_from(a, p, last) == code_pieces_from(a, p + 1, last));
        assert(code_pieces_from(a, p + 1, last) == seq![PieceSpec::Text(a.subrange(last, a.len() as int))]);
        assert(join_pieces(code_pieces_from(a, p, last), y) =~= prefix_first(a.subrange(last, a.len() as int), y));
    } else {
        assert(code_block_at(s, p) == code_block_at(a, p));
        lemma_code_block_at(a, p);
        match code_block_at(a, p) {
            Some((a0, a1, c0, c1, end)) => {
                assert(s.subrange(last, p) =~= a.subrange(last, p));
                assert(s.subrange(a0, a1) =~= a.subrange(a0, a1));
                assert(s.subrange(c0, c1) =~= a.subrange(c0, c1));
                lemma_pieces_concat(a, b, end, end);
                lemma_pieces_shape(a, end, end);
                let x = seq![
                    PieceSpec::Text(a.subrange(last, p)),
                    PieceSpec::Code(a.subrange(a0, a1), a.subrange(c0, c1)),
                ];
                let z = code_pieces_from(a, end, end);
                assert(code_pieces_from(a, p, last) == x + z);
                assert(join_pieces(x + z, y) =~= x + join_pieces(z, y));
            },
            None => {
                lemma_pieces_concat(a, b, p + 1, last);
            },
        }
    }
}

/// Every code block of the fragment is found, not only the first: when no
/// code block straddles the join of `a` and `b`, the pieces of `a + b` are
/// those of `a` followed by those of `b`, the text that ends `a` joined to
/// the text that starts `b`.
pub proof fn code_pieces_of_concat(a: Seq<char>, b: Seq<char>)
    requires
        no_block_straddles(a, b),
    ensures
        code_pieces_spec(a + b) == join_pieces(code_pieces_spec(a), code_pieces_spec(b)),
{
    lemma_pieces_concat(a, b, 0, 0);
}

} // verus!
