//! Character-level helpers shared by the rest of the library: the model of
//! strings as sequences of `char`, whitespace, prefixes, trimming and
//! conversions between `&str`, `String` and `Vec<char>`.

use vstd::prelude::*;

verus! {

/// `char::is_whitespace`: the Unicode `White_Space` property.
pub open spec fn is_ws(c: char) -> bool {
    ||| c == ' '
    ||| ('\u{9}' <= c && c <= '\u{d}')
    ||| c == '\u{85}'
    ||| c == '\u{a0}'
    ||| c == '\u{1680}'
    ||| ('\u{2000}' <= c && c <= '\u{200a}')
    ||| c == '\u{2028}'
    ||| c == '\u{2029}'
    ||| c == '\u{202f}'
    ||| c == '\u{205f}'
    ||| c == '\u{3000}'
}

pub fn char_is_ws(c: char) -> (b: bool)
    ensures
        b == is_ws(c),
{
    c == ' ' || ('\u{9}' <= c && c <= '\u{d}') || c == '\u{85}' || c == '\u{a0}' || c == '\u{1680}'
        || ('\u{2000}' <= c && c <= '\u{200a}') || c == '\u{2028}' || c == '\u{2029}' || c
        == '\u{202f}' || c == '\u{205f}' || c == '\u{3000}'
}

/// `s` begins with `p`.
pub open spec fn starts_with(s: Seq<char>, p: Seq<char>) -> bool {
    p.len() <= s.len() && s.subrange(0, p.len() as int) == p
}

/// `s` ends with `p`.
pub open spec fn ends_with(s: Seq<char>, p: Seq<char>) -> bool {
    p.len() <= s.len() && s.subrange(s.len() - p.len(), s.len() as int) == p
}

/// `s` holds `p` starting at index `i`.
pub open spec fn occurs_at(s: Seq<char>, p: Seq<char>, i: int) -> bool {
    0 <= i && i + p.len() <= s.len() && s.subrange(i, i + p.len()) == p
}

/// Number of consecutive copies of `c` in `s` starting at index `i`.
pub open spec fn char_run(s: Seq<char>, i: int, c: char) -> nat
    decreases s.len() - i,
{
    if 0 <= i < s.len() && s[i] == c {
        1 + char_run(s, i + 1, c)
    } else {
        0
    }
}

/// Number of consecutive copies of `c` in `s` ending just before index `j`.
pub open spec fn char_run_back(s: Seq<char>, j: int, c: char) -> nat
    decreases j,
{
    if 0 < j <= s.len() && s[j - 1] == c {
        1 + char_run_back(s, j - 1, c)
    } else {
        0
    }
}

/// Number of leading spaces of `s` (what `trim_start_matches(' ')` removes).
pub open spec fn leading_spaces(s: Seq<char>) -> nat {
    char_run(s, 0, ' ')
}

/// Number of consecutive whitespace characters in `s` starting at index `i`.
pub open spec fn ws_run(s: Seq<char>, i: int) -> nat
    decreases s.len() - i,
{
    if 0 <= i < s.len() && is_ws(s[i]) {
        1 + ws_run(s, i + 1)
    } else {
        0
    }
}

/// Number of consecutive whitespace characters of `s` ending just before index `j`.
pub open spec fn ws_run_back(s: Seq<char>, j: int) -> nat
    decreases j,
{
    if 0 < j <= s.len() && is_ws(s[j - 1]) {
        1 + ws_run_back(s, j - 1)
    } else {
        0
    }
}

/// `s` with leading whitespace removed (`str::trim_start`).
pub open spec fn trim_start(s: Seq<char>) -> Seq<char> {
    s.skip(ws_run(s, 0) as int)
}

/// `s` with trailing whitespace removed (`str::trim_end`).
pub open spec fn trim_end(s: Seq<char>) -> Seq<char> {
    s.take(s.len() - ws_run_back(s, s.len() as int))
}

/// `s` with whitespace removed at both ends (`str::trim`).
pub open spec fn trim(s: Seq<char>) -> Seq<char> {
    trim_end(trim_start(s))
}

/// `n` spaces.
pub open spec fn spaces(n: nat) -> Seq<char> {
    Seq::new(n, |i: int| ' ')
}

pub proof fn lemma_char_run_bounds(s: Seq<char>, i: int, c: char)
    requires
        0 <= i <= s.len(),
    ensures
        i + char_run(s, i, c) <= s.len(),
        forall|k: int| i <= k < i + char_run(s, i, c) ==> s[k] == c,
        i + char_run(s, i, c) < s.len() ==> s[i + char_run(s, i, c)] != c,
    decreases s.len() - i,
{
    if i < s.len() && s[i] == c {
        lemma_char_run_bounds(s, i + 1, c);
    }
}

pub proof fn lemma_char_run_back_bounds(s: Seq<char>, j: int, c: char)
    requires
        0 <= j <= s.len(),
    ensures
        char_run_back(s, j, c) <= j,
        forall|k: int| j - char_run_back(s, j, c) <= k < j ==> s[k] == c,
        j - char_run_back(s, j, c) > 0 ==> s[j - char_run_back(s, j, c) - 1] != c,
    decreases j,
{
    if 0 < j && s[j - 1] == c {
        lemma_char_run_back_bounds(s, j - 1, c);
    }
}

pub proof fn lemma_ws_run_bounds(s: Seq<char>, i: int)
    requires
        0 <= i <= s.len(),
    ensures
        i + ws_run(s, i) <= s.len(),
        forall|k: int| i <= k < i + ws_run(s, i) ==> is_ws(s[k]),
        i + ws_run(s, i) < s.len() ==> !is_ws(s[i + ws_run(s, i)]),
    decreases s.len() - i,
{
    if i < s.len() && is_ws(s[i]) {
        lemma_ws_run_bounds(s, i + 1);
    }
}

pub proof fn lemma_ws_run_back_bounds(s: Seq<char>, j: int)
    requires
        0 <= j <= s.len(),
    ensures
        ws_run_back(s, j) <= j,
        forall|k: int| j - ws_run_back(s, j) <= k < j ==> is_ws(s[k]),
        j - ws_run_back(s, j) > 0 ==> !is_ws(s[j - ws_run_back(s, j) - 1]),
    decreases j,
{
    if 0 < j && is_ws(s[j - 1]) {
        lemma_ws_run_back_bounds(s, j - 1);
    }
}

/// Copies the characters of a string slice into a vector.
pub fn chars_of(s: &str) -> (v: Vec<char>)
    ensures
        v@ == s@,
{
    let mut v: Vec<char> = Vec::new();
    for c in it: s.chars()
        invariant
            v@.len() == it.index(),
            forall|j: int| 0 <= j < v@.len() ==> v@[j] == it.seq()[j],
    {
        v.push(c);
    }
    assert(v@ =~= s@);
    v
}

/// Appends one character to a `String` (`String::push`).
#[verifier::external_body]
fn push_char(s: &mut String, c: char)
    ensures
        final(s)@ == old(s)@.push(c),
{
    s.push(c);
}

/// Builds a `String` holding the characters of `v`.
pub fn string_of(v: &Vec<char>) -> (s: String)
    ensures
        s@ == v@,
{
    let mut s = String::new();
    let mut i: usize = 0;
    while i < v.len()
        invariant
            i <= v.len(),
            s@ == v@.subrange(0, i as int),
        decreases v.len() - i,
    {
        push_char(&mut s, v[i]);
        i = i + 1;
        assert(s@ =~= v@.subrange(0, i as int));
    }
    assert(v@.subrange(0, v.len() as int) =~= v@);
    s
}

/// Appends all characters of `src` to `dst`.
pub fn push_all(dst: &mut Vec<char>, src: &Vec<char>)
    ensures
        final(dst)@ == old(dst)@ + src@,
{
    let mut i: usize = 0;
    while i < src.len()
        invariant
            i <= src.len(),
            dst@ == old(dst)@ + src@.subrange(0, i as int),
        decreases src.len() - i,
    {
        dst.push(src[i]);
        i = i + 1;
        assert(dst@ =~= old(dst)@ + src@.subrange(0, i as int));
    }
    assert(src@.subrange(0, src.len() as int) =~= src@);
}

/// Appends the characters of a string slice to `dst`.
pub fn push_str(dst: &mut Vec<char>, src: &str)
    ensures
        final(dst)@ == old(dst)@ + src@,
{
    let v = chars_of(src);
    push_all(dst, &v);
}

/// The characters of `v` between indices `i` and `j`.
pub fn slice_chars(v: &Vec<char>, i: usize, j: usize) -> (r: Vec<char>)
    requires
        i <= j <= v.len(),
    ensures
        r@ == v@.subrange(i as int, j as int),
{
    let mut r: Vec<char> = Vec::new();
    let mut k: usize = i;
    while k < j
        invariant
            i <= k <= j <= v.len(),
            r@ == v@.subrange(i as int, k as int),
        decreases j - k,
    {
        r.push(v[k]);
        k = k + 1;
        assert(r@ =~= v@.subrange(i as int, k as int));
    }
    r
}

/// Whether `p` occurs in `v` at index `i`.
pub fn matches_at(v: &Vec<char>, i: usize, p: &Vec<char>) -> (b: bool)
    ensures
        b == occurs_at(v@, p@, i as int),
{
    if i > v.len() || p.len() > v.len() - i {
        return false;
    }
    let mut k: usize = 0;
    while k < p.len()
        invariant
            k <= p.len(),
            i + p.len() <= v.len(),
            v@.subrange(i as int, i + k) == p@.subrange(0, k as int),
        decreases p.len() - k,
    {
        if v[i + k] != p[k] {
            assert(v@.subrange(i as int, i + p.len())[k as int] != p@[k as int]);
            return false;
        }
        k = k + 1;
        assert(v@.subrange(i as int, i + k) =~= p@.subrange(0, k as int));
    }
    assert(p@.subrange(0, p.len() as int) =~= p@);
    true
}

/// Whether `v` begins with `p`.
pub fn vec_starts_with(v: &Vec<char>, p: &Vec<char>) -> (b: bool)
    ensures
        b == starts_with(v@, p@),
{
    matches_at(v, 0, p)
}

/// Whether `v` ends with `p`.
pub fn vec_ends_with(v: &Vec<char>, p: &Vec<char>) -> (b: bool)
    ensures
        b == ends_with(v@, p@),
{
    if p.len() > v.len() {
        false
    } else {
        matches_at(v, v.len() - p.len(), p)
    }
}

/// Whether the two vectors hold the same characters.
pub fn vec_eq(a: &Vec<char>, b: &Vec<char>) -> (r: bool)
    ensures
        r == (a@ == b@),
{
    if a.len() != b.len() {
        return false;
    }
    let r = matches_at(a, 0, b);
    assert(a@.subrange(0, b@.len() as int) =~= a@);
    r
}

/// Number of consecutive copies of `c` in `v` starting at `i`.
pub fn count_char_run(v: &Vec<char>, i: usize, c: char) -> (n: usize)
    requires
        i <= v.len(),
    ensures
        n == char_run(v@, i as int, c),
        i + n <= v.len(),
{
    let mut k: usize = i;
    while k < v.len() && v[k] == c
        invariant
            i <= k <= v.len(),
            char_run(v@, i as int, c) == (k - i) + char_run(v@, k as int, c),
        decreases v.len() - k,
    {
        k = k + 1;
    }
    k - i
}

/// Number of consecutive copies of `c` in `v` ending just before `j`.
pub fn count_char_run_back(v: &Vec<char>, j: usize, c: char) -> (n: usize)
    requires
        j <= v.len(),
    ensures
        n == char_run_back(v@, j as int, c),
        n <= j,
{
    let mut k: usize = j;
    while k > 0 && v[k - 1] == c
        invariant
            k <= j <= v.len(),
            char_run_back(v@, j as int, c) == (j - k) + char_run_back(v@, k as int, c),
        decreases k,
    {
        k = k - 1;
    }
    j - k
}

/// Number of consecutive whitespace characters of `v` starting at `i`.
pub fn count_ws_run(v: &Vec<char>, i: usize) -> (n: usize)
    requires
        i <= v.len(),
    ensures
        n == ws_run(v@, i as int),
        i + n <= v.len(),
{
    let mut k: usize = i;
    while k < v.len() && char_is_ws(v[k])
        invariant
            i <= k <= v.len(),
            ws_run(v@, i as int) == (k - i) + ws_run(v@, k as int),
        decreases v.len() - k,
    {
        k = k + 1;
    }
    k - i
}

/// Number of consecutive whitespace characters of `v` ending just before `j`.
pub fn count_ws_run_back(v: &Vec<char>, j: usize) -> (n: usize)
    requires
        j <= v.len(),
    ensures
        n == ws_run_back(v@, j as int),
        n <= j,
{
    let mut k: usize = j;
    while k > 0 && char_is_ws(v[k - 1])
        invariant
            k <= j <= v.len(),
            ws_run_back(v@, j as int) == (j - k) + ws_run_back(v@, k as int),
        decreases k,
    {
        k = k - 1;
    }
    j - k
}

/// `v` with whitespace removed at both ends.
pub fn vec_trim(v: &Vec<char>) -> (r: Vec<char>)
    ensures
        r@ == trim(v@),
{
    let a = count_ws_run(v, 0);
    let t = slice_chars(v, a, v.len());
    assert(t@ == trim_start(v@));
    let b = count_ws_run_back(&t, t.len());
    slice_chars(&t, 0, t.len() - b)
}

/// `v` with leading whitespace removed.
pub fn vec_trim_start(v: &Vec<char>) -> (r: Vec<char>)
    ensures
        r@ == trim_start(v@),
{
    let a = count_ws_run(v, 0);
    slice_chars(v, a, v.len())
}

/// A vector of `n` spaces.
pub fn make_spaces(n: usize) -> (r: Vec<char>)
    ensures
        r@ == spaces(n as nat),
{
    let mut r: Vec<char> = Vec::new();
    let mut k: usize = 0;
    while k < n
        invariant
            k <= n,
            r@ == spaces(k as nat),
        decreases n - k,
    {
        r.push(' ');
        k = k + 1;
        assert(r@ =~= spaces(k as nat));
    }
    r
}

/// `s` with every repeated trailing copy of `p` removed (`str::trim_end_matches`).
pub open spec fn trim_end_all(s: Seq<char>, p: Seq<char>) -> Seq<char>
    decreases s.len(),
{
    if p.len() > 0 && ends_with(s, p) {
        trim_end_all(s.take(s.len() - p.len()), p)
    } else {
        s
    }
}

/// `s` with every repeated leading copy of `p` removed (`str::trim_start_matches`).
pub open spec fn trim_start_all(s: Seq<char>, p: Seq<char>) -> Seq<char>
    decreases s.len(),
{
    if p.len() > 0 && starts_with(s, p) {
        trim_start_all(s.skip(p.len() as int), p)
    } else {
        s
    }
}

/// Index of the first `c` of `s` at or after `i`, or `s.len()` if there is none.
pub open spec fn find_char(s: Seq<char>, i: int, c: char) -> int
    decreases s.len() - i,
{
    if i >= s.len() {
        s.len() as int
    } else if s[i] == c {
        i
    } else {
        find_char(s, i + 1, c)
    }
}

/// The first `c` of `s` at or after `i` stands at `e` (or there is none, and
/// `e` is `s.len()`).
pub proof fn lemma_find_char_at(s: Seq<char>, i: int, e: int, c: char)
    requires
        0 <= i <= e <= s.len(),
        e < s.len() ==> s[e] == c,
        forall|k: int| i <= k < e ==> s[k] != c,
    ensures
        find_char(s, i, c) == e,
    decreases e - i,
{
    if i < e {
        lemma_find_char_at(s, i + 1, e, c);
    }
}

/// Searching `pre + q` from inside `q` finds what searching `q` finds.
pub proof fn lemma_find_char_shift(pre: Seq<char>, q: Seq<char>, j: int, c: char)
    requires
        0 <= j <= q.len(),
    ensures
        find_char(pre + q, pre.len() + j, c) == pre.len() + find_char(q, j, c),
    decreases q.len() - j,
{
    if j < q.len() {
        assert((pre + q)[pre.len() + j] == q[j]);
        if q[j] != c {
            lemma_find_char_shift(pre, q, j + 1, c);
        }
    }
}

pub proof fn lemma_find_char(s: Seq<char>, i: int, c: char)
    requires
        0 <= i <= s.len(),
    ensures
        i <= find_char(s, i, c) <= s.len(),
        find_char(s, i, c) < s.len() ==> s[find_char(s, i, c)] == c,
        forall|k: int| i <= k < find_char(s, i, c) ==> s[k] != c,
    decreases s.len() - i,
{
    if i < s.len() && s[i] != c {
        lemma_find_char(s, i + 1, c);
    }
}

/// The index of the first `c` of `v` at or after `i`, or `v.len()`.
pub fn find_char_from(v: &Vec<char>, i: usize, c: char) -> (k: usize)
    requires
        i <= v.len(),
    ensures
        k == find_char(v@, i as int, c),
        i <= k <= v.len(),
{
    proof {
        lemma_find_char(v@, i as int, c);
    }
    let mut k = i;
    while k < v.len() && v[k] != c
        invariant
            i <= k <= v.len(),
            find_char(v@, i as int, c) == find_char(v@, k as int, c),
        decreases v.len() - k,
    {
        k = k + 1;
    }
    k
}

/// `v` with every repeated trailing copy of `p` removed.
pub fn vec_trim_end_all(v: &Vec<char>, p: &Vec<char>) -> (r: Vec<char>)
    ensures
        r@ == trim_end_all(v@, p@),
{
    if p.len() == 0 {
        return v.clone();
    }
    let mut j: usize = v.len();
    assert(v@.take(j as int) =~= v@);
    while j >= p.len() && matches_at(v, j - p.len(), p)
        invariant
            p.len() > 0,
            j <= v.len(),
            trim_end_all(v@, p@) == trim_end_all(v@.take(j as int), p@),
        decreases j,
    {
        assert(v@.take(j as int).subrange(j - p.len(), j as int) =~= v@.subrange(
            j - p.len(),
            j as int,
        ));
        assert(v@.take(j as int).take(j - p.len()) =~= v@.take(j - p.len()));
        j = j - p.len();
    }
    proof {
        if j >= p.len() {
            assert(v@.take(j as int).subrange(j - p.len(), j as int) =~= v@.subrange(
                j - p.len(),
                j as int,
            ));
        }
    }
    slice_chars(v, 0, j)
}

/// `v` with every repeated leading copy of `p` removed.
pub fn vec_trim_start_all(v: &Vec<char>, p: &Vec<char>) -> (r: Vec<char>)
    ensures
        r@ == trim_start_all(v@, p@),
{
    if p.len() == 0 {
        return v.clone();
    }
    let mut i: usize = 0;
    assert(v@.skip(0) =~= v@);
    while matches_at(v, i, p)
        invariant
            p.len() > 0,
            i <= v.len(),
            trim_start_all(v@, p@) == trim_start_all(v@.skip(i as int), p@),
        decreases v.len() - i,
    {
        assert(v@.skip(i as int).subrange(0, p.len() as int) =~= v@.subrange(
            i as int,
            i + p.len(),
        ));
        assert(v@.skip(i as int).skip(p.len() as int) =~= v@.skip(i + p.len()));
        i = i + p.len();
    }
    proof {
        if p.len() <= v@.len() - i {
            assert(v@.skip(i as int).subrange(0, p.len() as int) =~= v@.subrange(
                i as int,
                i + p.len(),
            ));
        }
    }
    slice_chars(v, i, v.len())
}

/// Index of the first occurrence of `p` in `s` at or after `i`.
pub open spec fn find_seq(s: Seq<char>, p: Seq<char>, i: int) -> Option<int>
    decreases s.len() + 1 - i,
{
    if i < 0 || i + p.len() > s.len() {
        None
    } else if occurs_at(s, p, i) {
        Some(i)
    } else {
        find_seq(s, p, i + 1)
    }
}

pub proof fn lemma_find_seq(s: Seq<char>, p: Seq<char>, i: int)
    requires
        0 <= i,
    ensures
        find_seq(s, p, i) matches Some(k) ==> i <= k && k + p.len() <= s.len() && occurs_at(s, p, k),
        forall|k: int| #![trigger occurs_at(s, p, k)]
            i <= k && (find_seq(s, p, i) matches Some(f) ==> k < f) ==> !occurs_at(s, p, k),
    decreases s.len() + 1 - i,
{
    if i + p.len() <= s.len() && !occurs_at(s, p, i) {
        lemma_find_seq(s, p, i + 1);
    }
}

/// The index of the first occurrence of `p` in `v` at or after `i`.
pub fn find_seq_from(v: &Vec<char>, p: &Vec<char>, i: usize) -> (r: Option<usize>)
    ensures
        r matches Some(k) ==> find_seq(v@, p@, i as int) == Some(k as int),
        r is None ==> find_seq(v@, p@, i as int) is None,
{
    if p.len() == 0 {
        if i <= v.len() {
            assert(v@.subrange(i as int, i as int) =~= p@);
            return Some(i);
        }
        return None;
    }
    let mut k = i;
    while k <= v.len() && p.len() <= v.len() - k
        invariant
            i <= k,
            p.len() > 0,
            find_seq(v@, p@, i as int) == find_seq(v@, p@, k as int),
        decreases v.len() + 1 - k,
    {
        if matches_at(v, k, p) {
            return Some(k);
        }
        k = k + 1;
    }
    None
}

/// Index of the first `'\n'` of `s` at or after `i`, or `s.len()` if there is none.
pub open spec fn line_end(s: Seq<char>, i: int) -> int
    decreases s.len() - i,
{
    if i >= s.len() {
        s.len() as int
    } else if s[i] == '\n' {
        i
    } else {
        line_end(s, i + 1)
    }
}

/// The line of `s` that starts at index `i`, as `str::lines` yields it: without
/// its `'\n'`, and without a `'\r'` that stands right before that `'\n'`.
pub open spec fn line_at(s: Seq<char>, i: int) -> Seq<char> {
    let e = line_end(s, i);
    let raw = s.subrange(i, e);
    if e < s.len() && raw.len() > 0 && raw.last() == '\r' {
        raw.drop_last()
    } else {
        raw
    }
}

pub proof fn lemma_line_end(s: Seq<char>, i: int)
    requires
        0 <= i <= s.len(),
    ensures
        i <= line_end(s, i) <= s.len(),
        line_end(s, i) < s.len() ==> s[line_end(s, i)] == '\n',
        forall|k: int| i <= k < line_end(s, i) ==> s[k] != '\n',
    decreases s.len() - i,
{
    if i < s.len() && s[i] != '\n' {
        lemma_line_end(s, i + 1);
    }
}

/// The first `'\n'` of `s` at or after `i` stands at `e`.
pub proof fn lemma_line_end_at(s: Seq<char>, i: int, e: int)
    requires
        0 <= i <= e < s.len(),
        s[e] == '\n',
        forall|k: int| i <= k < e ==> s[k] != '\n',
    ensures
        line_end(s, i) == e,
    decreases e - i,
{
    if i < e {
        lemma_line_end_at(s, i + 1, e);
    }
}

/// Lines of `q` end in `pre + q` where they end in `q`, shifted.
pub proof fn lemma_line_end_shift(pre: Seq<char>, q: Seq<char>, j: int)
    requires
        0 <= j <= q.len(),
    ensures
        line_end(pre + q, pre.len() + j) == pre.len() + line_end(q, j),
    decreases q.len() - j,
{
    let s = pre + q;
    if j < q.len() {
        assert(s[pre.len() + j] == q[j]);
        if q[j] != '\n' {
            lemma_line_end_shift(pre, q, j + 1);
        }
    }
}

/// In a text whose last line is ended by `'\n'`, the lines from `i` on end
/// where they end in the text followed by anything.
pub proof fn lemma_line_end_prefix(a: Seq<char>, b: Seq<char>, i: int)
    requires
        0 <= i < a.len(),
        a.last() == '\n',
    ensures
        line_end(a + b, i) == line_end(a, i),
        line_end(a, i) < a.len(),
    decreases a.len() - i,
{
    assert((a + b)[i] == a[i]);
    if a[i] != '\n' {
        assert(i + 1 < a.len());
        lemma_line_end_prefix(a, b, i + 1);
    }
}

/// The index of the first `'\n'` of `v` at or after `i`, or `v.len()`.
pub fn find_line_end(v: &Vec<char>, i: usize) -> (e: usize)
    requires
        i <= v.len(),
    ensures
        e == line_end(v@, i as int),
{
    let mut k = i;
    while k < v.len() && v[k] != '\n'
        invariant
            i <= k <= v.len(),
            line_end(v@, i as int) == line_end(v@, k as int),
        decreases v.len() - k,
    {
        k = k + 1;
    }
    k
}

/// The texts `f(0)`, `f(1)`, ..., `f(n - 1)` one after another.
pub open spec fn concat_range(n: int, f: spec_fn(int) -> Seq<char>) -> Seq<char>
    decreases n,
{
    if n <= 0 {
        Seq::empty()
    } else {
        concat_range(n - 1, f) + f(n - 1)
    }
}

} // verus!
