//! The chapters that `SUMMARY.md` lists, in order.
//!
//! A line of the summary counts when, after its leading whitespace, it starts
//! with `- ` or `[`, and holds a link: `[`, one or more characters other than
//! `]`, `]`, `(`, one or more characters other than `)`, `)`. Its title and
//! target are trimmed; the target loses its fragment and query. Links to the
//! web, empty links and links to anything but a `.md` file are left out.

use vstd::prelude::*;
use crate::text::{
    chars_of, ends_with, find_char, find_char_from, find_line_end, lemma_find_char,
    lemma_find_char_at, lemma_line_end, lemma_line_end_at, lemma_line_end_prefix, lemma_line_end_shift, is_ws, ws_run, ws_run_back, trim_end,
    line_at, line_end, slice_chars, starts_with, string_of, trim, trim_start,
    vec_ends_with, vec_starts_with, vec_trim, vec_trim_start,
};
use crate::urls::SummaryEntry;

verus! {

/// A link that starts at index `i`: the ranges of its title and its target.
pub open spec fn summary_link_at(s: Seq<char>, i: int) -> Option<(int, int, int, int)> {
    if 0 <= i < s.len() && s[i] == '[' {
        let j = find_char(s, i + 1, ']');
        if j < s.len() && j > i + 1 && j + 1 < s.len() && s[j + 1] == '(' {
            let k = find_char(s, j + 2, ')');
            if k < s.len() && k > j + 2 {
                Some((i + 1, j, j + 2, k))
            } else {
                None
            }
        } else {
            None
        }
    } else {
        None
    }
}

/// The first link of `s` that starts at or after index `i`.
pub open spec fn summary_link_from(s: Seq<char>, i: int) -> Option<(int, int, int, int)>
    decreases s.len() + 1 - i,
{
    if i < 0 || i > s.len() {
        None
    } else if summary_link_at(s, i) is Some {
        summary_link_at(s, i)
    } else {
        summary_link_from(s, i + 1)
    }
}

/// `s` cut before the first `c` it holds (the first part of `split_once`).
pub open spec fn before_char(s: Seq<char>, c: char) -> Seq<char> {
    s.take(find_char(s, 0, c))
}

/// The entry that a line of the summary gives: its title and Markdown path.
pub open spec fn summary_line_entry(line: Seq<char>) -> Option<(Seq<char>, Seq<char>)> {
    let t = trim_start(line);
    if !starts_with(t, seq!['-', ' ']) && !starts_with(t, seq!['[']) {
        None
    } else {
        match summary_link_from(t, 0) {
            None => None,
            Some((a, b, c, d)) => {
                let title = trim(t.subrange(a, b));
                let link = before_char(before_char(trim(t.subrange(c, d)), '#'), '?');
                if starts_with(link, "http://"@) || starts_with(link, "https://"@) || link.len()
                    == 0 {
                    None
                } else if !ends_with(link, ".md"@) {
                    None
                } else {
                    Some((title, link))
                }
            },
        }
    }
}

/// The entries of the lines of `s` from index `i` on.
pub open spec fn summary_entries_from(s: Seq<char>, i: int) -> Seq<(Seq<char>, Seq<char>)>
    decreases s.len() + 1 - i,
{
    if i < 0 || i >= s.len() {
        Seq::empty()
    } else {
        proof {
            lemma_line_end(s, i);
        }
        let rest = summary_entries_from(s, line_end(s, i) + 1);
        match summary_line_entry(line_at(s, i)) {
            Some(e) => seq![e] + rest,
            None => rest,
        }
    }
}

/// The entries of a whole summary, in order.
pub open spec fn summary_spec(s: Seq<char>) -> Seq<(Seq<char>, Seq<char>)> {
    summary_entries_from(s, 0)
}

/// A chapter path that the summary can give: a non-empty path to a `.md`
/// file, not a web link, with no fragment (`#`) and no query (`?`).
pub open spec fn is_chapter_path(p: Seq<char>) -> bool {
    &&& p.len() > 0
    &&& ends_with(p, ".md"@)
    &&& !starts_with(p, "http://"@)
    &&& !starts_with(p, "https://"@)
    &&& forall|k: int| 0 <= k < p.len() ==> #[trigger] p[k] != '#' && p[k] != '?'
}

proof fn lemma_line_entry_path(line: Seq<char>)
    requires
        summary_line_entry(line) is Some,
    ensures
        summary_line_entry(line) matches Some((title, path)) && is_chapter_path(path),
{
    let t = trim_start(line);
    let (a, b, c, d) = summary_link_from(t, 0)->0;
    let x = trim(t.subrange(c, d));
    lemma_find_char(x, 0, '#');
    let y = before_char(x, '#');
    lemma_find_char(y, 0, '?');
    let link = before_char(y, '?');
    assert forall|k: int| 0 <= k < link.len() implies #[trigger] link[k] != '#' && link[k] != '?' by {
        assert(link[k] == y[k]);
        assert(y[k] == x[k]);
    }
}

proof fn lemma_entries_from_paths(s: Seq<char>, i: int)
    ensures
        forall|k: int|
            0 <= k < summary_entries_from(s, i).len() ==> is_chapter_path(
                (#[trigger] summary_entries_from(s, i)[k]).1,
            ),
    decreases s.len() + 1 - i,
{
    if 0 <= i < s.len() {
        lemma_line_end(s, i);
        lemma_entries_from_paths(s, line_end(s, i) + 1);
        let rest = summary_entries_from(s, line_end(s, i) + 1);
        if summary_line_entry(line_at(s, i)) is Some {
            lemma_line_entry_path(line_at(s, i));
            let e = summary_line_entry(line_at(s, i))->0;
            assert forall|k: int| 0 <= k < (seq![e] + rest).len() implies is_chapter_path(
                #[trigger] (seq![e] + rest)[k].1,
            ) by {
                if k > 0 {
                    assert((seq![e] + rest)[k] == rest[k - 1]);
                }
            }
        }
    }
}

/// Every entry that the summary gives has a chapter path: a non-empty path
/// to a `.md` file, not a web link, without fragment or query.
pub proof fn summary_entries_have_chapter_paths(s: Seq<char>)
    ensures
        forall|k: int| 0 <= k < summary_spec(s).len() ==> is_chapter_path(#[trigger] summary_spec(s)[k].1),
{
    lemma_entries_from_paths(s, 0);
}

pub open spec fn entries_view(v: Seq<SummaryEntry>) -> Seq<(Seq<char>, Seq<char>)> {
    v.map_values(|e: SummaryEntry| (e.title@, e.md_path@))
}

fn link_at_exec(v: &Vec<char>, i: usize) -> (r: Option<(usize, usize, usize, usize)>)
    requires
        i <= v.len(),
    ensures
        r matches Some((a, b, c, d)) ==> summary_link_at(v@, i as int) == Some(
            (a as int, b as int, c as int, d as int),
        ) && a <= b <= c <= d <= v.len(),
        r is None ==> summary_link_at(v@, i as int) is None,
{
    if !(i < v.len() && v[i] == '[') {
        return None;
    }
    let j = find_char_from(v, i + 1, ']');
    if !(j < v.len() && j > i + 1 && j + 1 < v.len() && v[j + 1] == '(') {
        return None;
    }
    let k = find_char_from(v, j + 2, ')');
    if k < v.len() && k > j + 2 {
        Some((i + 1, j, j + 2, k))
    } else {
        None
    }
}

fn link_from_exec(v: &Vec<char>) -> (r: Option<(usize, usize, usize, usize)>)
    ensures
        r matches Some((a, b, c, d)) ==> summary_link_from(v@, 0) == Some(
            (a as int, b as int, c as int, d as int),
        ) && a <= b <= c <= d <= v.len(),
        r is None ==> summary_link_from(v@, 0) is None,
{
    let mut i: usize = 0;
    while i < v.len()
        invariant
            i <= v.len(),
            summary_link_from(v@, 0) == summary_link_from(v@, i as int),
        decreases v.len() - i,
    {
        match link_at_exec(v, i) {
            Some(x) => {
                return Some(x);
            },
            None => {},
        }
        i = i + 1;
    }
    assert(summary_link_from(v@, i as int) == summary_link_from(v@, i + 1));
    None
}

fn before_char_exec(v: &Vec<char>, c: char) -> (r: Vec<char>)
    ensures
        r@ == before_char(v@, c),
{
    let k = find_char_from(v, 0, c);
    slice_chars(v, 0, k)
}

fn starts_with_lit(v: &Vec<char>, lit: &str) -> (b: bool)
    ensures
        b == starts_with(v@, lit@),
{
    let l = chars_of(lit);
    vec_starts_with(v, &l)
}

fn line_entry_exec(line: &Vec<char>) -> (r: Option<SummaryEntry>)
    ensures
        r is Some <==> summary_line_entry(line@) is Some,
        r matches Some(e) ==> (e.title@, e.md_path@) == summary_line_entry(line@)->0,
{
    let t = vec_trim_start(line);
    let dash: Vec<char> = vec!['-', ' '];
    let bracket: Vec<char> = vec!['['];
    assert(dash@ =~= seq!['-', ' ']);
    assert(bracket@ =~= seq!['[']);
    if !vec_starts_with(&t, &dash) && !vec_starts_with(&t, &bracket) {
        return None;
    }
    let (a, b, c, d) = match link_from_exec(&t) {
        Some(x) => x,
        None => return None,
    };
    let title = vec_trim(&slice_chars(&t, a, b));
    let raw_link = vec_trim(&slice_chars(&t, c, d));
    let link = before_char_exec(&before_char_exec(&raw_link, '#'), '?');
    if starts_with_lit(&link, "http://") || starts_with_lit(&link, "https://") || link.len() == 0 {
        return None;
    }
    let md = chars_of(".md");
    if !vec_ends_with(&link, &md) {
        return None;
    }
    Some(SummaryEntry { title: string_of(&title), md_path: string_of(&link) })
}

/// The chapters that a `SUMMARY.md` text lists, in order.
pub fn parse_summary(raw: &str) -> (r: Vec<SummaryEntry>)
    ensures
        entries_view(r@) == summary_spec(raw@),
{
    let s = chars_of(raw);
    let n = s.len();
    let mut out: Vec<SummaryEntry> = Vec::new();
    let mut i: usize = 0;
    while i < n
        invariant
            n == s@.len(),
            i <= n,
            s@ == raw@,
            entries_view(out@) + summary_entries_from(s@, i as int) == summary_spec(s@),
        decreases n - i,
    {
        proof {
            lemma_line_end(s@, i as int);
        }
        let e = find_line_end(&s, i);
        let mut line = slice_chars(&s, i, e);
        if e < n && line.len() > 0 && line[line.len() - 1] == '\r' {
            line = slice_chars(&line, 0, line.len() - 1);
        }
        assert(line@ =~= line_at(s@, i as int));
        let ghost before = entries_view(out@);
        let ghost next: int = if e < n {
            e + 1
        } else {
            n as int
        };
        assert(summary_entries_from(s@, e + 1) =~= summary_entries_from(s@, next)) by {
            if e >= n {
                assert(summary_entries_from(s@, e + 1) =~= Seq::empty());
                assert(summary_entries_from(s@, next) =~= Seq::empty());
            }
        }
        match line_entry_exec(&line) {
            Some(entry) => {
                out.push(entry);
                assert(entries_view(out@) =~= before + seq![summary_line_entry(line@)->0]);
                assert(entries_view(out@) + summary_entries_from(s@, e + 1) =~= before
                    + summary_entries_from(s@, i as int));
            },
            None => {
                assert(entries_view(out@) =~= before);
                assert(entries_view(out@) + summary_entries_from(s@, e + 1) =~= before
                    + summary_entries_from(s@, i as int));
            },
        }
        i = if e < n {
            e + 1
        } else {
            n
        };
    }
    assert(entries_view(out@) + summary_entries_from(s@, i as int) =~= entries_view(out@));
    out
}

/// The text of a summary line `- [title](path)`.
pub open spec fn dash_link_line(title: Seq<char>, path: Seq<char>) -> Seq<char> {
    seq!['-', ' ', '['] + title + seq![']', '('] + path + seq![')']
}

/// The title of a summary entry is the whole text between the link's `[`
/// and `]`, trimmed, and its path is the link's target: a line
/// `- [title](path)` gives the entry `(trim(title), path)` for every title
/// without `]` and every chapter path without `)` that does not start with
/// whitespace.
pub proof fn summary_line_gives_whole_title(title: Seq<char>, path: Seq<char>)
    requires
        title.len() > 0,
        !title.contains(']'),
        is_chapter_path(path),
        !path.contains(')'),
        !is_ws(path[0]),
    ensures
        summary_line_entry(dash_link_line(title, path)) == Some((trim(title), path)),
{
    let line = dash_link_line(title, path);
    let n1 = title.len() as int;
    let n2 = path.len() as int;
    let j = 3 + n1;
    let k = j + 2 + n2;
    assert(line.len() == k + 1);
    assert(line[0] == '-');
    assert(ws_run(line, 0) == 0);
    assert(trim_start(line) =~= line);
    assert(line.subrange(0, 2) =~= seq!['-', ' ']);
    assert(starts_with(line, seq!['-', ' ']));
    assert forall|x: int| 3 <= x < j implies line[x] != ']' by {
        assert(line[x] == title[x - 3]);
        if title[x - 3] == ']' {
            assert(title.contains(']'));
        }
    }
    assert(line[j] == ']');
    lemma_find_char_at(line, 3, j, ']');
    assert(line[j + 1] == '(');
    assert forall|x: int| j + 2 <= x < k implies line[x] != ')' by {
        assert(line[x] == path[x - j - 2]);
        if path[x - j - 2] == ')' {
            assert(path.contains(')'));
        }
    }
    assert(line[k] == ')');
    lemma_find_char_at(line, j + 2, k, ')');
    assert(summary_link_at(line, 2) == Some((3int, j, j + 2, k)));
    assert(summary_link_at(line, 1) is None);
    assert(summary_link_at(line, 0) is None);
    assert(summary_link_from(line, 2) == Some((3int, j, j + 2, k)));
    assert(summary_link_from(line, 1) == Some((3int, j, j + 2, k)));
    assert(summary_link_from(line, 0) == Some((3int, j, j + 2, k)));
    assert(line.subrange(3, j) =~= title);
    assert(line.subrange(j + 2, k) =~= path);
    // The path is already trimmed and has neither fragment nor query.
    assert(ws_run(path, 0) == 0);
    assert(trim_start(path) =~= path);
    reveal_strlit(".md");
    assert(path[n2 - 1] == path.subrange(n2 - 3, n2)[2]);
    assert(!is_ws(path[n2 - 1]));
    assert(ws_run_back(path, n2) == 0);
    assert(trim_end(path) =~= path);
    assert(trim(path) == path);
    lemma_find_char_at(path, 0, n2, '#');
    assert(before_char(path, '#') =~= path);
    lemma_find_char_at(path, 0, n2, '?');
    assert(before_char(path, '?') =~= path);
}

/// A summary of one line `- [title](path)` lists the one chapter
/// `(trim(title), path)`.
pub proof fn one_line_summary_lists_its_chapter(title: Seq<char>, path: Seq<char>)
    requires
        title.len() > 0,
        !title.contains(']'),
        !title.contains('\n'),
        is_chapter_path(path),
        !path.contains(')'),
        !path.contains('\n'),
        !is_ws(path[0]),
    ensures
        summary_spec(dash_link_line(title, path).push('\n')) == seq![(trim(title), path)],
{
    summary_line_gives_whole_title(title, path);
    let line = dash_link_line(title, path);
    let s = line.push('\n');
    let n = line.len() as int;
    assert forall|x: int| 0 <= x < n implies s[x] != '\n' by {
        let n1 = title.len() as int;
        if 3 <= x < 3 + n1 {
            assert(s[x] == title[x - 3]);
            if title[x - 3] == '\n' {
                assert(title.contains('\n'));
            }
        } else if 5 + n1 <= x < n - 1 {
            assert(s[x] == path[x - 5 - n1]);
            if path[x - 5 - n1] == '\n' {
                assert(path.contains('\n'));
            }
        }
    }
    lemma_line_end_at(s, 0, n);
    assert(s.subrange(0, n) =~= line);
    assert(line_at(s, 0) == line);
    assert(summary_entries_from(s, n + 1) =~= Seq::<(Seq<char>, Seq<char>)>::empty());
    assert(summary_spec(s) =~= seq![(trim(title), path)]);
}

proof fn lemma_entries_shift(pre: Seq<char>, q: Seq<char>, j: int)
    requires
        0 <= j <= q.len(),
    ensures
        summary_entries_from(pre + q, pre.len() + j) == summary_entries_from(q, j),
    decreases q.len() - j,
{
    let s = pre + q;
    if j < q.len() {
        lemma_line_end_shift(pre, q, j);
        lemma_line_end(q, j);
        let e = line_end(q, j);
        assert(s.subrange(pre.len() + j, pre.len() + e) =~= q.subrange(j, e));
        assert(line_at(s, pre.len() + j) == line_at(q, j));
        if e + 1 <= q.len() {
            lemma_entries_shift(pre, q, e + 1);
        } else {
            assert(summary_entries_from(s, pre.len() + e + 1) =~= Seq::<(Seq<char>, Seq<char>)>::empty());
            assert(summary_entries_from(q, e + 1) =~= Seq::<(Seq<char>, Seq<char>)>::empty());
        }
        assert(summary_entries_from(s, pre.len() + e + 1) == summary_entries_from(q, e + 1));
    }
}

proof fn lemma_entries_concat(a: Seq<char>, b: Seq<char>, i: int)
    requires
        0 <= i <= a.len(),
        a.len() == 0 || a.last() == '\n',
    ensures
        summary_entries_from(a + b, i) == summary_entries_from(a, i) + summary_spec(b),
    decreases a.len() - i,
{
    if i == a.len() {
        lemma_entries_shift(a, b, 0);
        assert(summary_entries_from(a, i) + summary_spec(b) =~= summary_spec(b));
    } else {
        lemma_line_end_prefix(a, b, i);
        lemma_line_end(a, i);
        let e = line_end(a, i);
        assert((a + b).subrange(i, e) =~= a.subrange(i, e));
        assert(line_at(a + b, i) == line_at(a, i));
        lemma_entries_concat(a, b, e + 1);
        match summary_line_entry(line_at(a, i)) {
            Some(x) => {
                assert(seq![x] + (summary_entries_from(a, e + 1) + summary_spec(b)) =~= (seq![x]
                    + summary_entries_from(a, e + 1)) + summary_spec(b));
            },
            None => {},
        }
    }
}

/// Every line of the summary is read, each on its own: the entries of a
/// summary whose first part ends with `'\n'` are the entries of that part
/// followed by the entries of the rest.
pub proof fn summary_entries_of_concat(a: Seq<char>, b: Seq<char>)
    requires
        a.len() == 0 || a.last() == '\n',
    ensures
        summary_spec(a + b) == summary_spec(a) + summary_spec(b),
{
    lemma_entries_concat(a, b, 0);
}

} // verus!
