//! Names and escapes: file-name slugs, XML escaping, media types by file
//! extension, and decimal numbers.

use vstd::prelude::*;
use crate::text::{
    char_run, char_run_back, chars_of, count_char_run, count_char_run_back, lemma_char_run_bounds,
    lemma_char_run_back_bounds, push_all, push_str, slice_chars, starts_with, string_of, vec_eq,
};

verus! {

/// `char::is_ascii_alphanumeric`.
pub open spec fn is_ascii_alnum(c: char) -> bool {
    ('a' <= c && c <= 'z') || ('A' <= c && c <= 'Z') || ('0' <= c && c <= '9')
}

/// `char::to_ascii_lowercase`.
pub open spec fn ascii_lower(c: char) -> char {
    if 'A' <= c && c <= 'Z' {
        ((c as u8) + 32) as u8 as char
    } else {
        c
    }
}

pub fn char_ascii_lower(c: char) -> (r: char)
    ensures
        r == ascii_lower(c),
{
    if 'A' <= c && c <= 'Z' {
        ((c as u8) + 32) as u8 as char
    } else {
        c
    }
}

/// `str::to_ascii_lowercase`.
pub open spec fn ascii_lower_seq(s: Seq<char>) -> Seq<char> {
    Seq::new(s.len(), |i: int| ascii_lower(s[i]))
}

/// What a character becomes in a slug, before runs of `_` are collapsed.
pub open spec fn slug_char(c: char) -> char {
    if is_ascii_alnum(c) {
        ascii_lower(c)
    } else {
        '_'
    }
}

/// `s` with every run of `_` shortened to a single `_`.
pub open spec fn collapse_underscores(s: Seq<char>) -> Seq<char>
    decreases s.len(),
{
    if s.len() == 0 {
        s
    } else {
        let p = collapse_underscores(s.drop_last());
        if s.last() == '_' && p.len() > 0 && p.last() == '_' {
            p
        } else {
            p.push(s.last())
        }
    }
}

/// `s` without leading and trailing `_` (`str::trim_matches('_')`).
pub open spec fn trim_underscores(s: Seq<char>) -> Seq<char> {
    let t = s.skip(char_run(s, 0, '_') as int);
    t.take(t.len() - char_run_back(t, t.len() as int, '_'))
}

/// The slug of `s`: ASCII letters and digits lowercased, every other
/// character turned into `_`, runs of `_` collapsed to one, and `_` removed
/// at both ends.
pub open spec fn slugify_spec(s: Seq<char>) -> Seq<char> {
    trim_underscores(collapse_underscores(Seq::new(s.len(), |i: int| slug_char(s[i]))))
}

/// A character of a slug.
pub open spec fn is_slug_char(c: char) -> bool {
    ('a' <= c && c <= 'z') || ('0' <= c && c <= '9') || c == '_'
}

/// Every character of `s` can stand in a slug.
pub open spec fn all_slug_chars(s: Seq<char>) -> bool {
    forall|i: int| 0 <= i < s.len() ==> is_slug_char(#[trigger] s[i])
}

/// No `_` of `s` is followed by another.
pub open spec fn no_double_underscore(s: Seq<char>) -> bool {
    forall|i: int| 0 <= i < s.len() - 1 ==> !(#[trigger] s[i] == '_' && s[i + 1] == '_')
}

proof fn lemma_collapse_underscores(s: Seq<char>)
    requires
        all_slug_chars(s),
    ensures
        all_slug_chars(collapse_underscores(s)),
        no_double_underscore(collapse_underscores(s)),
    decreases s.len(),
{
    if s.len() > 0 {
        let d = s.drop_last();
        assert(all_slug_chars(d)) by {
            assert forall|i: int| 0 <= i < d.len() implies is_slug_char(#[trigger] d[i]) by {
                assert(d[i] == s[i]);
            }
        }
        lemma_collapse_underscores(d);
        let p = collapse_underscores(d);
        assert(is_slug_char(s[s.len() - 1]));
        if !(s.last() == '_' && p.len() > 0 && p.last() == '_') {
            let q = p.push(s.last());
            assert forall|i: int| 0 <= i < q.len() - 1 implies !(#[trigger] q[i] == '_' && q[i + 1]
                == '_') by {
                if i < p.len() - 1 {
                    assert(q[i] == p[i] && q[i + 1] == p[i + 1]);
                }
            }
        }
    }
}

/// A slug is an identifier: it is made of lowercase ASCII letters, digits
/// and `_`, holds no two `_` in a row, and neither starts nor ends with `_`.
pub proof fn slug_is_identifier(s: Seq<char>)
    ensures
        all_slug_chars(slugify_spec(s)),
        no_double_underscore(slugify_spec(s)),
        slugify_spec(s).len() > 0 ==> slugify_spec(s)[0] != '_' && slugify_spec(s).last() != '_',
{
    let mapped = Seq::new(s.len(), |i: int| slug_char(s[i]));
    assert(all_slug_chars(mapped)) by {
        assert forall|i: int| 0 <= i < mapped.len() implies is_slug_char(#[trigger] mapped[i]) by {
            let c = s[i];
            if 'A' <= c && c <= 'Z' {
                assert(ascii_lower(c) as u32 == (c as u32) + 32);
            }
        }
    }
    lemma_collapse_underscores(mapped);
    let c = collapse_underscores(mapped);
    lemma_char_run_bounds(c, 0, '_');
    let a = char_run(c, 0, '_');
    let t = c.skip(a as int);
    lemma_char_run_back_bounds(t, t.len() as int, '_');
    let b = char_run_back(t, t.len() as int, '_');
    let r = t.take(t.len() - b);
    assert(r == slugify_spec(s));
    assert forall|i: int| 0 <= i < r.len() implies is_slug_char(#[trigger] r[i]) by {
        assert(r[i] == c[i + a]);
    }
    assert forall|i: int| 0 <= i < r.len() - 1 implies !(#[trigger] r[i] == '_' && r[i + 1] == '_') by {
        assert(r[i] == c[i + a] && r[i + 1] == c[i + 1 + a]);
    }
    if r.len() > 0 {
        assert(r[0] == c[a as int]);
        assert(r.last() == t[t.len() - b - 1]);
    }
}

/// Turns `input` into a lowercase identifier made of ASCII letters, digits
/// and single underscores.
pub fn slugify(input: &str) -> (r: String)
    ensures
        r@ == slugify_spec(input@),
{
    let v = chars_of(input);
    let t = slugify_chars(&v);
    string_of(&t)
}

pub fn slugify_chars(v: &Vec<char>) -> (r: Vec<char>)
    ensures
        r@ == slugify_spec(v@),
{
    let ghost mapped = Seq::new(v@.len(), |i: int| slug_char(v@[i]));
    let mut out: Vec<char> = Vec::new();
    let mut k: usize = 0;
    while k < v.len()
        invariant
            k <= v.len(),
            mapped == Seq::new(v@.len(), |i: int| slug_char(v@[i])),
            out@ == collapse_underscores(mapped.take(k as int)),
        decreases v.len() - k,
    {
        let c = v[k];
        let m = if ('a' <= c && c <= 'z') || ('A' <= c && c <= 'Z') || ('0' <= c && c <= '9') {
            char_ascii_lower(c)
        } else {
            '_'
        };
        assert(mapped.take(k + 1).drop_last() =~= mapped.take(k as int));
        if !(m == '_' && out.len() > 0 && out[out.len() - 1] == '_') {
            out.push(m);
        }
        k = k + 1;
    }
    assert(mapped.take(v.len() as int) =~= mapped);
    let a = count_char_run(&out, 0, '_');
    let t = slice_chars(&out, a, out.len());
    let b = count_char_run_back(&t, t.len(), '_');
    slice_chars(&t, 0, t.len() - b)
}

/// What `xml_escape` turns one character into.
pub open spec fn xml_escape_char(c: char) -> Seq<char> {
    if c == '&' {
        seq!['&', 'a', 'm', 'p', ';']
    } else if c == '<' {
        seq!['&', 'l', 't', ';']
    } else if c == '>' {
        seq!['&', 'g', 't', ';']
    } else if c == '"' {
        seq!['&', 'q', 'u', 'o', 't', ';']
    } else if c == '\'' {
        seq!['&', 'a', 'p', 'o', 's', ';']
    } else {
        seq![c]
    }
}

/// `s` with `&`, `<`, `>`, `"` and `'` replaced by their XML entities.
pub open spec fn xml_escape_spec(s: Seq<char>) -> Seq<char>
    decreases s.len(),
{
    if s.len() == 0 {
        s
    } else {
        xml_escape_char(s[0]) + xml_escape_spec(s.drop_first())
    }
}

pub proof fn lemma_xml_escape_push(s: Seq<char>, c: char)
    ensures
        xml_escape_spec(s.push(c)) == xml_escape_spec(s) + xml_escape_char(c),
    decreases s.len(),
{
    if s.len() == 0 {
        assert(s.push(c).drop_first() =~= s);
        assert(xml_escape_spec(s) == s);
        assert(xml_escape_spec(s.push(c)) =~= xml_escape_char(c));
    } else {
        lemma_xml_escape_push(s.drop_first(), c);
        assert(s.push(c).drop_first() =~= s.drop_first().push(c));
        assert(xml_escape_spec(s.push(c)) =~= xml_escape_char(s[0]) + (xml_escape_spec(
            s.drop_first(),
        ) + xml_escape_char(c)));
    }
}

pub proof fn lemma_xml_escape_concat(a: Seq<char>, b: Seq<char>)
    ensures
        xml_escape_spec(a + b) == xml_escape_spec(a) + xml_escape_spec(b),
    decreases a.len(),
{
    if a.len() == 0 {
        assert(a + b =~= b);
        assert(xml_escape_spec(a) + xml_escape_spec(b) =~= xml_escape_spec(b));
    } else {
        lemma_xml_escape_concat(a.drop_first(), b);
        assert((a + b).drop_first() =~= a.drop_first() + b);
        assert(xml_escape_spec(a + b) =~= xml_escape_char(a[0]) + (xml_escape_spec(a.drop_first())
            + xml_escape_spec(b)));
    }
}

/// A character that XML markup gives a meaning outside entities.
pub open spec fn is_markup_char(c: char) -> bool {
    c == '<' || c == '>' || c == '"' || c == '\''
}

proof fn lemma_escape_char_first(c: char)
    ensures
        xml_escape_char(c).len() > 0,
        xml_escape_char(c)[0] == '&' <==> (c == '&' || is_markup_char(c)),
        !(c == '&' || is_markup_char(c)) ==> xml_escape_char(c) == seq![c],
{
}

proof fn lemma_escape_char_prefix(a: char, b: char, x: Seq<char>, y: Seq<char>)
    requires
        xml_escape_char(a) + x == xml_escape_char(b) + y,
    ensures
        a == b,
{
    let ea = xml_escape_char(a);
    let eb = xml_escape_char(b);
    let s = ea + x;
    lemma_escape_char_first(a);
    lemma_escape_char_first(b);
    assert(s[0] == ea[0] && s[0] == eb[0]);
    if ea[0] == '&' {
        assert(s[1] == ea[1] && s[1] == eb[1]);
        assert(s[2] == ea[2] && s[2] == eb[2]);
    }
}

/// Escaping keeps apart what differs: two texts with the same escaped form
/// are the same text, so the escaped form can be read back.
pub proof fn xml_escape_is_injective(a: Seq<char>, b: Seq<char>)
    requires
        xml_escape_spec(a) == xml_escape_spec(b),
    ensures
        a == b,
    decreases a.len(),
{
    if a.len() == 0 {
        if b.len() > 0 {
            lemma_escape_char_first(b[0]);
            assert(xml_escape_spec(b).len() > 0);
        }
        assert(a =~= b);
    } else {
        lemma_escape_char_first(a[0]);
        if b.len() == 0 {
            assert(xml_escape_spec(a).len() > 0);
        } else {
            let ea = xml_escape_char(a[0]);
            let eb = xml_escape_char(b[0]);
            lemma_escape_char_prefix(a[0], b[0], xml_escape_spec(a.drop_first()), xml_escape_spec(b.drop_first()));
            let ra = xml_escape_spec(a.drop_first());
            let rb = xml_escape_spec(b.drop_first());
            assert(ra =~= (ea + ra).skip(ea.len() as int));
            assert(rb =~= (eb + rb).skip(eb.len() as int));
            xml_escape_is_injective(a.drop_first(), b.drop_first());
            assert(a =~= seq![a[0]] + a.drop_first());
            assert(b =~= seq![b[0]] + b.drop_first());
        }
    }
}

/// The text that XML-escaped text stands for, read from left to right:
/// `&amp;`, `&lt;`, `&gt;`, `&quot;` and `&apos;` decoded, every other
/// character kept.
pub open spec fn xml_unescape_spec(s: Seq<char>) -> Seq<char>
    decreases s.len(),
{
    if s.len() == 0 {
        s
    } else if starts_with(s, seq!['&', 'a', 'm', 'p', ';']) {
        seq!['&'] + xml_unescape_spec(s.skip(5))
    } else if starts_with(s, seq!['&', 'l', 't', ';']) {
        seq!['<'] + xml_unescape_spec(s.skip(4))
    } else if starts_with(s, seq!['&', 'g', 't', ';']) {
        seq!['>'] + xml_unescape_spec(s.skip(4))
    } else if starts_with(s, seq!['&', 'q', 'u', 'o', 't', ';']) {
        seq!['"'] + xml_unescape_spec(s.skip(6))
    } else if starts_with(s, seq!['&', 'a', 'p', 'o', 's', ';']) {
        seq!['\''] + xml_unescape_spec(s.skip(6))
    } else {
        seq![s[0]] + xml_unescape_spec(s.drop_first())
    }
}

/// Decoding the five XML entities from left to right gives back exactly the
/// text that was escaped.
pub proof fn xml_escape_is_decoded_back(s: Seq<char>)
    ensures
        xml_unescape_spec(xml_escape_spec(s)) == s,
    decreases s.len(),
{
    if s.len() > 0 {
        xml_escape_is_decoded_back(s.drop_first());
        let c = s[0];
        let e = xml_escape_char(c);
        let r = xml_escape_spec(s.drop_first());
        let t = e + r;
        assert(xml_escape_spec(s) == t);
        assert(t.skip(e.len() as int) =~= r);
        assert(t.subrange(0, e.len() as int) =~= e);
        if c == '&' || c == '<' || c == '>' || c == '"' || c == '\'' {
            assert(t[0] == '&' && t[1] == e[1] && t[2] == e[2]);
            if e.len() > 4 {
                assert(t[3] == e[3] && t[4] == e[4]);
            }
        } else {
            assert(t[0] == c);
            assert(t.drop_first() =~= r);
        }
        assert(s =~= seq![c] + s.drop_first());
    }
}

/// `s` begins with one of the five XML entities that escaping writes.
pub open spec fn begins_xml_entity(s: Seq<char>) -> bool {
    ||| starts_with(s, seq!['&', 'a', 'm', 'p', ';'])
    ||| starts_with(s, seq!['&', 'l', 't', ';'])
    ||| starts_with(s, seq!['&', 'g', 't', ';'])
    ||| starts_with(s, seq!['&', 'q', 'u', 'o', 't', ';'])
    ||| starts_with(s, seq!['&', 'a', 'p', 'o', 's', ';'])
}

/// Every `&` of escaped text begins one of `&amp;`, `&lt;`, `&gt;`,
/// `&quot;` and `&apos;`.
pub proof fn xml_escape_ampersands_begin_entities(s: Seq<char>)
    ensures
        forall|i: int|
            0 <= i < xml_escape_spec(s).len() && #[trigger] xml_escape_spec(s)[i] == '&' ==> begins_xml_entity(
                xml_escape_spec(s).skip(i),
            ),
    decreases s.len(),
{
    if s.len() > 0 {
        xml_escape_ampersands_begin_entities(s.drop_first());
        let c = s[0];
        let e = xml_escape_char(c);
        let r = xml_escape_spec(s.drop_first());
        let t = e + r;
        assert(xml_escape_spec(s) == t);
        assert forall|i: int| 0 <= i < t.len() && #[trigger] t[i] == '&' implies begins_xml_entity(t.skip(i)) by {
            if i >= e.len() {
                assert(t[i] == r[i - e.len()]);
                assert(t.skip(i) =~= r.skip(i - e.len()));
            } else {
                assert(t[i] == e[i]);
                assert(i == 0);
                assert(t.skip(0) =~= t);
                assert(t.subrange(0, e.len() as int) =~= e);
            }
        }
    }
}

/// Escaped text holds none of `<`, `>`, `"` and `'`.
pub proof fn xml_escape_leaves_no_markup(s: Seq<char>)
    ensures
        forall|i: int| 0 <= i < xml_escape_spec(s).len() ==> !is_markup_char(#[trigger] xml_escape_spec(s)[i]),
    decreases s.len(),
{
    if s.len() > 0 {
        xml_escape_leaves_no_markup(s.drop_first());
        let e = xml_escape_char(s[0]);
        let r = xml_escape_spec(s.drop_first());
        assert forall|i: int| 0 <= i < (e + r).len() implies !is_markup_char(#[trigger] (e + r)[i]) by {
            if i >= e.len() {
                assert((e + r)[i] == r[i - e.len()]);
            }
        }
    }
}

/// Escapes the characters that XML gives a meaning: `&`, `<`, `>`, `"`, `'`.
pub fn xml_escape(input: &str) -> (r: String)
    ensures
        r@ == xml_escape_spec(input@),
{
    let v = chars_of(input);
    let out = xml_escape_chars(&v);
    string_of(&out)
}

pub fn xml_escape_chars(v: &Vec<char>) -> (r: Vec<char>)
    ensures
        r@ == xml_escape_spec(v@),
{
    let mut out: Vec<char> = Vec::new();
    let mut k: usize = 0;
    while k < v.len()
        invariant
            k <= v.len(),
            out@ == xml_escape_spec(v@.take(k as int)),
        decreases v.len() - k,
    {
        let c = v[k];
        let ghost before = out@;
        if c == '&' {
            out.push('&');
            out.push('a');
            out.push('m');
            out.push('p');
            out.push(';');
        } else if c == '<' {
            out.push('&');
            out.push('l');
            out.push('t');
            out.push(';');
        } else if c == '>' {
            out.push('&');
            out.push('g');
            out.push('t');
            out.push(';');
        } else if c == '"' {
            out.push('&');
            out.push('q');
            out.push('u');
            out.push('o');
            out.push('t');
            out.push(';');
        } else if c == '\'' {
            out.push('&');
            out.push('a');
            out.push('p');
            out.push('o');
            out.push('s');
            out.push(';');
        } else {
            out.push(c);
        }
        assert(out@ =~= before + xml_escape_char(c));
        proof {
            lemma_xml_escape_push(v@.take(k as int), c);
            assert(v@.take(k + 1) =~= v@.take(k as int).push(c));
        }
        k = k + 1;
    }
    assert(v@.take(v.len() as int) =~= v@);
    out
}

/// Index just after the last `.` of `s` before index `j`, or 0 if there is none.
pub open spec fn after_last_dot(s: Seq<char>, j: int) -> int
    decreases j,
{
    if j <= 0 {
        0
    } else if s[j - 1] == '.' {
        j
    } else {
        after_last_dot(s, j - 1)
    }
}

/// The text after the last `.` of `path`, or the whole of `path` if it holds
/// no `.` (`path.rsplit('.').next()`).
pub open spec fn last_dot_segment(path: Seq<char>) -> Seq<char> {
    path.skip(after_last_dot(path, path.len() as int))
}

/// The media type that an extension (already lowercased) stands for.
pub open spec fn media_type_of_ext(e: Seq<char>) -> Seq<char> {
    if e == "xhtml"@ {
        "application/xhtml+xml"@
    } else if e == "html"@ {
        "text/html"@
    } else if e == "css"@ {
        "text/css"@
    } else if e == "js"@ {
        "application/javascript"@
    } else if e == "png"@ {
        "image/png"@
    } else if e == "jpg"@ || e == "jpeg"@ {
        "image/jpeg"@
    } else if e == "gif"@ {
        "image/gif"@
    } else if e == "svg"@ {
        "image/svg+xml"@
    } else if e == "webp"@ {
        "image/webp"@
    } else if e == "ico"@ {
        "image/x-icon"@
    } else if e == "woff"@ {
        "font/woff"@
    } else if e == "woff2"@ {
        "font/woff2"@
    } else if e == "ttf"@ {
        "font/ttf"@
    } else if e == "otf"@ {
        "font/otf"@
    } else if e == "eot"@ {
        "application/vnd.ms-fontobject"@
    } else if e == "json"@ {
        "application/json"@
    } else if e == "txt"@ {
        "text/plain"@
    } else {
        "application/octet-stream"@
    }
}

/// The media type of a file, decided by the text after the last `.` of its
/// path, compared without regard to ASCII case.
pub open spec fn media_type_spec(path: Seq<char>) -> Seq<char> {
    media_type_of_ext(ascii_lower_seq(last_dot_segment(path)))
}

proof fn lemma_ascii_lower_char(c: char)
    ensures
        ascii_lower(ascii_lower(c)) == ascii_lower(c),
        (ascii_lower(c) == '.') == (c == '.'),
{
    if 'A' <= c && c <= 'Z' {
        assert(ascii_lower(c) as u32 == (c as u32) + 32);
    }
}

proof fn lemma_after_last_dot_lower(s: Seq<char>, j: int)
    requires
        0 <= j <= s.len(),
    ensures
        after_last_dot(ascii_lower_seq(s), j) == after_last_dot(s, j),
        0 <= after_last_dot(s, j) <= j,
    decreases j,
{
    if j > 0 {
        lemma_ascii_lower_char(s[j - 1]);
        lemma_after_last_dot_lower(s, j - 1);
    }
}

/// The media type does not depend on the ASCII case of the path.
pub proof fn media_type_ignores_ascii_case(path: Seq<char>)
    ensures
        media_type_spec(ascii_lower_seq(path)) == media_type_spec(path),
{
    let l = ascii_lower_seq(path);
    lemma_after_last_dot_lower(path, path.len() as int);
    let k = after_last_dot(path, path.len() as int);
    assert(ascii_lower_seq(last_dot_segment(l)) =~= ascii_lower_seq(last_dot_segment(path))) by {
        assert forall|i: int| 0 <= i < path.len() - k implies #[trigger] ascii_lower_seq(
            last_dot_segment(l),
        )[i] == ascii_lower_seq(last_dot_segment(path))[i] by {
            lemma_ascii_lower_char(path[i + k]);
        }
    }
}

/// The extensions whose media type is an image type.
pub open spec fn is_image_extension(e: Seq<char>) -> bool {
    ||| e == "png"@
    ||| e == "jpg"@
    ||| e == "jpeg"@
    ||| e == "gif"@
    ||| e == "svg"@
    ||| e == "webp"@
    ||| e == "ico"@
}

proof fn lemma_after_last_dot_no_dot(s: Seq<char>, j: int, k: int)
    requires
        0 <= k <= j <= s.len(),
        k > 0 && s[k - 1] == '.',
        forall|i: int| k <= i < j ==> #[trigger] s[i] != '.',
    ensures
        after_last_dot(s, j) == k,
    decreases j,
{
    if j > k {
        lemma_after_last_dot_no_dot(s, j - 1, k);
    }
}

/// The media type of a path is decided by the text after its last `.`
/// alone, without regard to ASCII case, and it is an image type exactly for
/// the extensions `png`, `jpg`, `jpeg`, `gif`, `svg`, `webp` and `ico`.
pub proof fn media_type_by_last_extension(prefix: Seq<char>, ext: Seq<char>)
    requires
        forall|i: int| 0 <= i < ext.len() ==> #[trigger] ext[i] != '.',
    ensures
        media_type_spec(prefix + seq!['.'] + ext) == media_type_of_ext(ascii_lower_seq(ext)),
        starts_with(media_type_spec(prefix + seq!['.'] + ext), "image/"@) <==> is_image_extension(
            ascii_lower_seq(ext),
        ),
{
    let p = prefix + seq!['.'] + ext;
    let k: int = prefix.len() as int + 1;
    assert forall|i: int| k <= i < p.len() implies #[trigger] p[i] != '.' by {
        assert(p[i] == ext[i - k]);
    }
    lemma_after_last_dot_no_dot(p, p.len() as int, k);
    assert(last_dot_segment(p) =~= ext);
    lemma_image_media_types(ascii_lower_seq(ext));
}

/// An extension's media type starts with `image/` exactly for the image
/// extensions.
pub proof fn lemma_image_media_types(e: Seq<char>)
    ensures
        starts_with(media_type_of_ext(e), "image/"@) <==> is_image_extension(e),
{
    reveal_strlit("image/");
    reveal_strlit("application/xhtml+xml");
    reveal_strlit("text/html");
    reveal_strlit("text/css");
    reveal_strlit("application/javascript");
    reveal_strlit("image/png");
    reveal_strlit("image/jpeg");
    reveal_strlit("image/gif");
    reveal_strlit("image/svg+xml");
    reveal_strlit("image/webp");
    reveal_strlit("image/x-icon");
    reveal_strlit("font/woff");
    reveal_strlit("font/woff2");
    reveal_strlit("font/ttf");
    reveal_strlit("font/otf");
    reveal_strlit("application/vnd.ms-fontobject");
    reveal_strlit("application/json");
    reveal_strlit("text/plain");
    reveal_strlit("application/octet-stream");
    reveal_strlit("xhtml");
    reveal_strlit("html");
    reveal_strlit("css");
    reveal_strlit("js");
    reveal_strlit("png");
    reveal_strlit("jpg");
    reveal_strlit("jpeg");
    reveal_strlit("gif");
    reveal_strlit("svg");
    reveal_strlit("webp");
    reveal_strlit("ico");
    let m = media_type_of_ext(e);
    if is_image_extension(e) {
        if e == "png"@ {
            assert(e.len() != "xhtml"@.len() && e.len() != "html"@.len() && e[0] != "css"@[0] && e.len() != "js"@.len());
            assert(m == "image/png"@);
        } else if e == "jpg"@ {
            assert(e.len() != "xhtml"@.len() && e.len() != "html"@.len() && e[0] != "css"@[0] && e.len() != "js"@.len() && e[0] != "png"@[0]);
            assert(m == "image/jpeg"@);
        } else if e == "jpeg"@ {
            assert(e.len() != "xhtml"@.len() && e[0] != "html"@[0] && e.len() != "css"@.len() && e.len() != "js"@.len() && e.len() != "png"@.len() && e.len() != "jpg"@.len());
            assert(m == "image/jpeg"@);
        } else if e == "gif"@ {
            assert(e.len() != "xhtml"@.len() && e.len() != "html"@.len() && e[0] != "css"@[0] && e.len() != "js"@.len() && e[0] != "png"@[0] && e[0] != "jpg"@[0] && e.len() != "jpeg"@.len());
            assert(m == "image/gif"@);
        } else if e == "svg"@ {
            assert(e.len() != "xhtml"@.len() && e.len() != "html"@.len() && e[0] != "css"@[0] && e.len() != "js"@.len() && e[0] != "png"@[0] && e[0] != "jpg"@[0] && e.len() != "jpeg"@.len() && e[0] != "gif"@[0]);
            assert(m == "image/svg+xml"@);
        } else if e == "webp"@ {
            assert(e.len() != "xhtml"@.len() && e[0] != "html"@[0] && e.len() != "css"@.len() && e.len() != "js"@.len() && e.len() != "png"@.len() && e.len() != "jpg"@.len() && e[0] != "jpeg"@[0] && e.len() != "gif"@.len() && e.len() != "svg"@.len());
            assert(m == "image/webp"@);
        } else {
            assert(e.len() != "xhtml"@.len() && e.len() != "html"@.len() && e[0] != "css"@[0] && e.len() != "js"@.len() && e[0] != "png"@[0] && e[0] != "jpg"@[0] && e.len() != "jpeg"@.len() && e[0] != "gif"@[0] && e[0] != "svg"@[0] && e.len() != "webp"@.len());
            assert(m == "image/x-icon"@);
        }
        assert(m.subrange(0, 6) =~= "image/"@);
    } else {
        assert(m[0] == 'a' || m[0] == 't' || m[0] == 'f');
        if starts_with(m, "image/"@) {
            assert(m.subrange(0, 6)[0] == m[0]);
        }
    }
}

/// A slug is its own slug: slugifying twice gives what slugifying once gives.
pub proof fn slugify_is_idempotent(s: Seq<char>)
    ensures
        slugify_spec(slugify_spec(s)) == slugify_spec(s),
{
    slug_is_identifier(s);
    let t = slugify_spec(s);
    let mapped = Seq::new(t.len(), |i: int| slug_char(t[i]));
    assert(mapped =~= t) by {
        assert forall|i: int| 0 <= i < t.len() implies mapped[i] == t[i] by {
            assert(is_slug_char(t[i]));
        }
    }
    lemma_collapse_identity(t);
    lemma_char_run_bounds(t, 0, '_');
    lemma_char_run_back_bounds(t, t.len() as int, '_');
    if t.len() > 0 {
        assert(char_run(t, 0, '_') == 0);
        assert(t.skip(0) =~= t);
        assert(char_run_back(t, t.len() as int, '_') == 0);
    }
    assert(trim_underscores(t) =~= t);
}

proof fn lemma_collapse_identity(t: Seq<char>)
    requires
        no_double_underscore(t),
    ensures
        collapse_underscores(t) == t,
    decreases t.len(),
{
    if t.len() > 0 {
        let d = t.drop_last();
        assert(no_double_underscore(d)) by {
            assert forall|i: int| 0 <= i < d.len() - 1 implies !(#[trigger] d[i] == '_' && d[i + 1] == '_') by {
                assert(d[i] == t[i] && d[i + 1] == t[i + 1]);
            }
        }
        lemma_collapse_identity(d);
        if t.last() == '_' && d.len() > 0 && d.last() == '_' {
            assert(t[t.len() - 2] == '_' && t[t.len() - 2 + 1] == '_');
        }
        assert(d.push(t.last()) =~= t);
    }
}

pub proof fn lemma_after_last_dot_bounds(s: Seq<char>, j: int)
    requires
        0 <= j <= s.len(),
    ensures
        0 <= after_last_dot(s, j) <= j,
        after_last_dot(s, j) > 0 ==> s[after_last_dot(s, j) - 1] == '.',
        forall|i: int| after_last_dot(s, j) <= i < j ==> #[trigger] s[i] != '.',
    decreases j,
{
    if j > 0 && s[j - 1] != '.' {
        lemma_after_last_dot_bounds(s, j - 1);
    }
}

/// A path whose media type is an image type has an extension: its text
/// after the last `.` decides the type, whatever comes before the path.
pub proof fn lemma_image_media_type_prefix(prefix: Seq<char>, path: Seq<char>)
    requires
        path.len() >= 5,
        starts_with(media_type_spec(path), "image/"@),
    ensures
        media_type_spec(prefix + path) == media_type_spec(path),
{
    lemma_after_last_dot_bounds(path, path.len() as int);
    let k = after_last_dot(path, path.len() as int);
    lemma_image_media_types(ascii_lower_seq(last_dot_segment(path)));
    if k == 0 {
        assert(last_dot_segment(path) =~= path);
        reveal_strlit("png");
        reveal_strlit("jpg");
        reveal_strlit("jpeg");
        reveal_strlit("gif");
        reveal_strlit("svg");
        reveal_strlit("webp");
        reveal_strlit("ico");
        assert(ascii_lower_seq(path).len() >= 5);
    } else {
        let ext = path.skip(k);
        assert forall|i: int| 0 <= i < ext.len() implies #[trigger] ext[i] != '.' by {
            assert(ext[i] == path[i + k]);
        }
        assert(path =~= path.take(k - 1) + seq!['.'] + ext);
        assert(prefix + path =~= (prefix + path.take(k - 1)) + seq!['.'] + ext);
        media_type_by_last_extension(path.take(k - 1), ext);
        media_type_by_last_extension(prefix + path.take(k - 1), ext);
    }
}

fn find_after_last_dot(v: &Vec<char>) -> (k: usize)
    ensures
        k == after_last_dot(v@, v.len() as int),
        k <= v.len(),
{
    let mut j: usize = v.len();
    while j > 0 && v[j - 1] != '.'
        invariant
            j <= v.len(),
            after_last_dot(v@, v.len() as int) == after_last_dot(v@, j as int),
        decreases j,
    {
        j = j - 1;
    }
    j
}

fn is_ext(e: &Vec<char>, lit: &str) -> (b: bool)
    ensures
        b == (e@ == lit@),
{
    let l = chars_of(lit);
    vec_eq(e, &l)
}

/// The media type to declare for a file in the EPUB manifest.
pub fn media_type_for_path(path: &str) -> (r: &'static str)
    ensures
        r@ == media_type_spec(path@),
{
    let v = chars_of(path);
    let k = find_after_last_dot(&v);
    let seg = slice_chars(&v, k, v.len());
    let mut e: Vec<char> = Vec::new();
    let mut i: usize = 0;
    while i < seg.len()
        invariant
            i <= seg.len(),
            e@ == ascii_lower_seq(seg@).take(i as int),
        decreases seg.len() - i,
    {
        e.push(char_ascii_lower(seg[i]));
        i = i + 1;
        assert(e@ =~= ascii_lower_seq(seg@).take(i as int));
    }
    assert(e@ =~= ascii_lower_seq(last_dot_segment(v@)));
    if is_ext(&e, "xhtml") {
        "application/xhtml+xml"
    } else if is_ext(&e, "html") {
        "text/html"
    } else if is_ext(&e, "css") {
        "text/css"
    } else if is_ext(&e, "js") {
        "application/javascript"
    } else if is_ext(&e, "png") {
        "image/png"
    } else if is_ext(&e, "jpg") || is_ext(&e, "jpeg") {
        "image/jpeg"
    } else if is_ext(&e, "gif") {
        "image/gif"
    } else if is_ext(&e, "svg") {
        "image/svg+xml"
    } else if is_ext(&e, "webp") {
        "image/webp"
    } else if is_ext(&e, "ico") {
        "image/x-icon"
    } else if is_ext(&e, "woff") {
        "font/woff"
    } else if is_ext(&e, "woff2") {
        "font/woff2"
    } else if is_ext(&e, "ttf") {
        "font/ttf"
    } else if is_ext(&e, "otf") {
        "font/otf"
    } else if is_ext(&e, "eot") {
        "application/vnd.ms-fontobject"
    } else if is_ext(&e, "json") {
        "application/json"
    } else if is_ext(&e, "txt") {
        "text/plain"
    } else {
        "application/octet-stream"
    }
}

/// The decimal digit for `d < 10`.
pub open spec fn digit_char(d: nat) -> char {
    ((d + 48) as u8) as char
}

/// `n` written in decimal, without leading zeros.
pub open spec fn decimal(n: nat) -> Seq<char>
    decreases n,
{
    if n < 10 {
        seq![digit_char(n)]
    } else {
        decimal(n / 10).push(digit_char(n % 10))
    }
}

/// `n` in decimal, padded with leading zeros to at least three digits
/// (`format!("{:03}", n)`).
pub open spec fn decimal_pad3(n: nat) -> Seq<char> {
    let d = decimal(n);
    Seq::new(if d.len() < 3 {
        (3 - d.len()) as nat
    } else {
        0
    }, |i: int| '0') + d
}

pub proof fn lemma_decimal_len(n: nat)
    ensures
        1 <= decimal(n).len(),
        decimal(n).len() <= 20 || n >= 10,
    decreases n,
{
    if n >= 10 {
        lemma_decimal_len(n / 10);
    }
}

/// A decimal digit character.
pub open spec fn is_digit_char(c: char) -> bool {
    '0' <= c && c <= '9'
}

proof fn lemma_digit_char(d: nat)
    requires
        d < 10,
    ensures
        digit_char(d) as u32 == d + 48,
        is_digit_char(digit_char(d)),
        (digit_char(d) == '0') == (d == 0),
{
}

/// Facts about decimal numerals: they are made of digits, and only zero is
/// written with a leading `0`.
pub proof fn lemma_decimal_digits(n: nat)
    ensures
        decimal(n).len() >= 1,
        forall|i: int| 0 <= i < decimal(n).len() ==> is_digit_char(#[trigger] decimal(n)[i]),
        (decimal(n)[0] == '0') == (n == 0),
        n == 0 ==> decimal(n) == seq!['0'],
    decreases n,
{
    if n < 10 {
        lemma_digit_char(n);
    } else {
        lemma_decimal_digits(n / 10);
        lemma_digit_char(n % 10);
        let d = decimal(n / 10);
        assert forall|i: int| 0 <= i < decimal(n).len() implies is_digit_char(#[trigger] decimal(n)[i]) by {
            if i < d.len() {
                assert(decimal(n)[i] == d[i]);
            }
        }
        assert(decimal(n)[0] == d[0]);
    }
}

/// Different numbers are written differently in decimal.
pub proof fn decimal_is_injective(n: nat, m: nat)
    requires
        decimal(n) == decimal(m),
    ensures
        n == m,
    decreases n,
{
    lemma_decimal_digits(n);
    lemma_decimal_digits(m);
    if n < 10 && m < 10 {
        lemma_digit_char(n);
        lemma_digit_char(m);
    } else if n < 10 {
        lemma_decimal_digits(m / 10);
        assert(decimal(m).len() >= 2);
    } else if m < 10 {
        lemma_decimal_digits(n / 10);
        assert(decimal(n).len() >= 2);
    } else {
        let a = decimal(n);
        lemma_digit_char(n % 10);
        lemma_digit_char(m % 10);
        assert(a.last() == digit_char(n % 10));
        assert(decimal(m).last() == digit_char(m % 10));
        assert(decimal(n / 10) =~= a.drop_last());
        assert(decimal(m / 10) =~= decimal(m).drop_last());
        decimal_is_injective(n / 10, m / 10);
    }
}

/// Different numbers are written differently when padded to three digits,
/// and the padded numeral is made of digits.
pub proof fn decimal_pad3_is_injective(n: nat, m: nat)
    ensures
        decimal_pad3(n) == decimal_pad3(m) ==> n == m,
        decimal_pad3(n).len() >= 3,
        forall|i: int| 0 <= i < decimal_pad3(n).len() ==> is_digit_char(#[trigger] decimal_pad3(n)[i]),
{
    lemma_decimal_digits(n);
    lemma_decimal_digits(m);
    let dn = decimal(n);
    let dm = decimal(m);
    let pn: int = if dn.len() < 3 { 3 - dn.len() } else { 0 };
    let pm: int = if dm.len() < 3 { 3 - dm.len() } else { 0 };
    let a = decimal_pad3(n);
    let b = decimal_pad3(m);
    assert forall|i: int| 0 <= i < a.len() implies is_digit_char(#[trigger] a[i]) by {
        if i >= pn {
            assert(a[i] == dn[i - pn]);
        }
    }
    if a == b {
        if pn == pm {
            assert(dn =~= a.skip(pn));
            assert(dm =~= b.skip(pm));
            decimal_is_injective(n, m);
        } else if pn < pm {
            assert(a[pn] == dn[0]);
            assert(b[pn] == '0');
        } else {
            assert(b[pm] == dm[0]);
            assert(a[pm] == '0');
        }
    }
}

/// `n` written in decimal.
pub fn decimal_chars(n: usize) -> (r: Vec<char>)
    ensures
        r@ == decimal(n as nat),
    decreases n,
{
    if n < 10 {
        let mut r: Vec<char> = Vec::new();
        r.push(((n as u8) + 48) as u8 as char);
        assert(r@ =~= decimal(n as nat));
        r
    } else {
        let mut r = decimal_chars(n / 10);
        r.push((((n % 10) as u8) + 48) as u8 as char);
        r
    }
}

/// `n` in decimal padded with zeros to at least three digits.
pub fn decimal_pad3_chars(n: usize) -> (r: Vec<char>)
    ensures
        r@ == decimal_pad3(n as nat),
{
    let d = decimal_chars(n);
    let mut r: Vec<char> = Vec::new();
    let pad: usize = if d.len() < 3 {
        3 - d.len()
    } else {
        0
    };
    let mut k: usize = 0;
    while k < pad
        invariant
            k <= pad,
            r@ == Seq::new(k as nat, |i: int| '0'),
        decreases pad - k,
    {
        r.push('0');
        k = k + 1;
        assert(r@ =~= Seq::new(k as nat, |i: int| '0'));
    }
    push_all(&mut r, &d);
    r
}

} // verus!
