//! Removal of mdBook hidden lines from the code blocks of a Markdown text.
//!
//! Inside a fenced code block a line that starts with `# ` (or is exactly
//! `#`) is hidden and is dropped from the output. A hidden line whose content
//! ends with `{` opens a wrapping scope and raises the de-dent level by four
//! spaces; a hidden line whose content is `}`, `};` or `},` closes one and
//! lowers it by four (not below zero). Each visible line of a code block has
//! up to the de-dent level of leading spaces stripped, and its remaining
//! indentation is converted from four-space to two-space levels. Text outside
//! code blocks is kept as it is.

use vstd::prelude::*;
use crate::text::{
    find_line_end, lemma_line_end, lemma_line_end_at, lemma_line_end_prefix, lemma_line_end_shift, line_at, line_end, occurs_at,
    chars_of, count_char_run, ends_with, leading_spaces, lemma_char_run_bounds,
    lemma_ws_run_back_bounds, lemma_ws_run_bounds, make_spaces, push_all, slice_chars, spaces,
    starts_with, string_of, trim, trim_end, trim_start, is_ws, ws_run, ws_run_back, vec_ends_with, vec_eq, vec_starts_with, vec_trim,
};

verus! {

/// The code fence `` ``` ``.
pub open spec fn fence() -> Seq<char> {
    seq!['`', '`', '`']
}

/// `line` with its leading indentation converted from `from` spaces per level
/// to `to` spaces per level; the leftover spaces that make no full level are
/// kept.
pub open spec fn reindent_spec(line: Seq<char>, from: nat, to: nat) -> Seq<char> {
    if from == to || from == 0 {
        line
    } else {
        let lead = leading_spaces(line);
        spaces((lead / from) * to + lead % from) + line.skip(lead as int)
    }
}

/// Whether `reindent_line` can build its result without overflowing `usize`.
pub open spec fn reindent_fits(line: Seq<char>, from: nat, to: nat) -> bool {
    from != to && from != 0 ==> (leading_spaces(line) / from) * to + leading_spaces(line) % from
        <= usize::MAX
}

/// The state of the scan over the lines of the input.
pub struct HiddenScan {
    /// What has been written so far.
    pub out: Seq<char>,
    /// Whether the scan is inside a fenced code block.
    pub within: bool,
    /// How many leading spaces are stripped from visible code lines.
    pub dedent: nat,
    /// Whether a `'\n'` goes before the next line written.
    pub need_nl: bool,
}

pub open spec fn initial_scan() -> HiddenScan {
    HiddenScan { out: Seq::empty(), within: false, dedent: 0, need_nl: false }
}

/// A hidden code line: it starts with `# ` or is `#`.
pub open spec fn is_hidden_line(line: Seq<char>) -> bool {
    starts_with(line, seq!['#', ' ']) || line == seq!['#']
}

/// The text of a hidden line after its `# ` marker, trimmed.
pub open spec fn hidden_content(line: Seq<char>) -> Seq<char> {
    if line == seq!['#'] {
        trim(Seq::empty())
    } else {
        trim(line.skip(2))
    }
}

/// A hidden line that opens a wrapping scope.
pub open spec fn opens_scope(line: Seq<char>) -> bool {
    let t = hidden_content(line);
    t.len() > 0 && t.last() == '{'
}

/// A hidden line that closes a wrapping scope.
pub open spec fn closes_scope(line: Seq<char>) -> bool {
    let t = hidden_content(line);
    t == seq!['}'] || t == seq!['}', ';'] || t == seq!['}', ',']
}

/// `x` written after what `st` has written, on a line of its own.
pub open spec fn emit(st: HiddenScan, x: Seq<char>) -> Seq<char> {
    (if st.need_nl {
        st.out.push('\n')
    } else {
        st.out
    }) + x
}

/// How a visible code line is written when `dedent` spaces are stripped.
pub open spec fn visible_text(line: Seq<char>, dedent: nat) -> Seq<char> {
    let after = if dedent > 0 {
        let lead = leading_spaces(line);
        line.skip((if dedent < lead {
            dedent
        } else {
            lead
        }) as int)
    } else {
        line
    };
    reindent_spec(after, 4, 2)
}

/// One step of the scan: what a line does to the state.
pub open spec fn step(st: HiddenScan, line: Seq<char>) -> HiddenScan {
    if !st.within {
        let opening = starts_with(line, fence());
        HiddenScan {
            out: emit(st, line),
            within: opening,
            dedent: if opening {
                0
            } else {
                st.dedent
            },
            need_nl: true,
        }
    } else if starts_with(line, fence()) {
        HiddenScan { out: emit(st, line), within: false, dedent: 0, need_nl: true }
    } else if is_hidden_line(line) {
        HiddenScan {
            dedent: if opens_scope(line) {
                st.dedent + 4
            } else if closes_scope(line) {
                if st.dedent >= 4 {
                    (st.dedent - 4) as nat
                } else {
                    0
                }
            } else {
                st.dedent
            },
            ..st
        }
    } else {
        HiddenScan { out: emit(st, visible_text(line, st.dedent)), need_nl: true, ..st }
    }
}

/// The scan over the lines of `s` from index `i` on, starting in state `st`.
pub open spec fn run(s: Seq<char>, i: int, st: HiddenScan) -> HiddenScan
    decreases s.len() + 1 - i,
{
    if i < 0 || i >= s.len() {
        st
    } else {
        proof {
            lemma_line_end(s, i);
        }
        run(s, line_end(s, i) + 1, step(st, line_at(s, i)))
    }
}

/// What `remove_hidden_lines` returns for `s`: the lines of the scan joined by
/// `'\n'`, with a final `'\n'` where `s` ends with one.
pub open spec fn remove_hidden_lines_spec(s: Seq<char>) -> Seq<char> {
    let r = run(s, 0, initial_scan()).out;
    if ends_with(s, seq!['\n']) {
        r.push('\n')
    } else {
        r
    }
}

/// Converts the leading indentation of `line` from `from_width` spaces per
/// level to `to_width` spaces per level.
pub fn reindent_line(line: &str, from_width: usize, to_width: usize) -> (r: String)
    requires
        reindent_fits(line@, from_width as nat, to_width as nat),
    ensures
        r@ == reindent_spec(line@, from_width as nat, to_width as nat),
{
    let v = chars_of(line);
    let r = reindent_chars(&v, from_width, to_width);
    string_of(&r)
}

fn reindent_chars(line: &Vec<char>, from_width: usize, to_width: usize) -> (r: Vec<char>)
    requires
        reindent_fits(line@, from_width as nat, to_width as nat),
    ensures
        r@ == reindent_spec(line@, from_width as nat, to_width as nat),
{
    if from_width == to_width || from_width == 0 {
        return line.clone();
    }
    let leading = count_char_run(line, 0, ' ');
    let levels = leading / from_width;
    let remainder = leading % from_width;
    let new_indent = levels * to_width + remainder;
    let mut result = make_spaces(new_indent);
    let rest = slice_chars(line, leading, line.len());
    push_all(&mut result, &rest);
    result
}

/// The scan state as the executable code holds it.
struct Scan {
    out: Vec<char>,
    within: bool,
    dedent: usize,
    need_nl: bool,
}

impl Scan {
    spec fn model(&self) -> HiddenScan {
        HiddenScan {
            out: self.out@,
            within: self.within,
            dedent: self.dedent as nat,
            need_nl: self.need_nl,
        }
    }

    fn write_line(&mut self, x: &Vec<char>)
        ensures
            final(self).out@ == emit(old(self).model(), x@),
            final(self).within == old(self).within,
            final(self).dedent == old(self).dedent,
            final(self).need_nl,
    {
        if self.need_nl {
            self.out.push('\n');
        }
        push_all(&mut self.out, x);
        self.need_nl = true;
    }

    fn step(&mut self, line: &Vec<char>)
        requires
            old(self).dedent + 4 <= usize::MAX,
        ensures
            final(self).model() == step(old(self).model(), line@),
    {
        let fence_v: Vec<char> = vec!['`', '`', '`'];
        let hash_space: Vec<char> = vec!['#', ' '];
        let hash: Vec<char> = vec!['#'];
        assert(fence_v@ =~= fence());
        assert(hash_space@ =~= seq!['#', ' ']);
        assert(hash@ =~= seq!['#']);
        let ghost st = self.model();
        if !self.within {
            let opening = vec_starts_with(line, &fence_v);
            if opening {
                self.within = true;
                self.dedent = 0;
            }
            self.write_line(line);
        } else if vec_starts_with(line, &fence_v) {
            self.within = false;
            self.dedent = 0;
            self.write_line(line);
        } else if vec_starts_with(line, &hash_space) || vec_eq(line, &hash) {
            let content = if vec_eq(line, &hash) {
                Vec::new()
            } else {
                slice_chars(line, 2, line.len())
            };
            let t = vec_trim(&content);
            assert(t@ == hidden_content(line@));
            let close1: Vec<char> = vec!['}'];
            let close2: Vec<char> = vec!['}', ';'];
            let close3: Vec<char> = vec!['}', ','];
            assert(close1@ =~= seq!['}']);
            assert(close2@ =~= seq!['}', ';']);
            assert(close3@ =~= seq!['}', ',']);
            if t.len() > 0 && t[t.len() - 1] == '{' {
                self.dedent = self.dedent + 4;
            } else if vec_eq(&t, &close1) || vec_eq(&t, &close2) || vec_eq(&t, &close3) {
                self.dedent = if self.dedent >= 4 {
                    self.dedent - 4
                } else {
                    0
                };
            }
        } else {
            let after = if self.dedent > 0 {
                let leading = count_char_run(line, 0, ' ');
                let strip = if self.dedent < leading {
                    self.dedent
                } else {
                    leading
                };
                slice_chars(line, strip, line.len())
            } else {
                line.clone()
            };
            proof {
                lemma_reindent_fits_4_2(after@);
            }
            let re = reindent_chars(&after, 4, 2);
            self.write_line(&re);
        }
        assert(self.model() == step(st, line@));
    }
}

proof fn lemma_reindent_fits_4_2(line: Seq<char>)
    requires
        line.len() <= usize::MAX,
    ensures
        reindent_fits(line, 4, 2),
{
    lemma_char_run_bounds(line, 0, ' ');
    let lead = leading_spaces(line);
    assert((lead / 4) * 2 + lead % 4 <= lead) by (nonlinear_arith);
}

proof fn lemma_trim_len(s: Seq<char>)
    ensures
        trim(s).len() <= s.len(),
{
    lemma_ws_run_bounds(s, 0);
    let t = trim_start(s);
    lemma_ws_run_back_bounds(t, t.len() as int);
}

/// A hidden line that opens a scope holds at least three characters.
proof fn lemma_opening_line_len(line: Seq<char>)
    requires
        is_hidden_line(line),
        opens_scope(line),
    ensures
        line.len() >= 3,
{
    if line == seq!['#'] {
        lemma_trim_len(Seq::<char>::empty());
    } else {
        lemma_trim_len(line.skip(2));
    }
}

/// Removes hidden lines from the code blocks of `input` and de-dents the
/// visible lines of the scopes that hidden lines opened.
///
/// A string never holds more than `isize::MAX` bytes, hence never more
/// characters.
pub fn remove_hidden_lines(input: &str) -> (r: String)
    requires
        input@.len() <= isize::MAX,
    ensures
        r@ == remove_hidden_lines_spec(input@),
{
    let s = chars_of(input);
    let n = s.len();
    let mut scan = Scan { out: Vec::new(), within: false, dedent: 0, need_nl: false };
    let mut i: usize = 0;
    while i < n
        invariant
            n == s@.len(),
            n <= isize::MAX,
            i <= n + 1,
            scan.dedent <= i,
            run(s@, i as int, scan.model()) == run(s@, 0, initial_scan()),
        decreases n + 1 - i,
    {
        proof {
            lemma_line_end(s@, i as int);
        }
        let e = find_line_end(&s, i);
        let mut line = slice_chars(&s, i, e);
        if e < n && line.len() > 0 && line[line.len() - 1] == '\r' {
            line = slice_chars(&line, 0, line.len() - 1);
        }
        assert(line@ =~= line_at(s@, i as int));
        proof {
            if is_hidden_line(line@) && opens_scope(line@) {
                lemma_opening_line_len(line@);
            }
        }
        scan.step(&line);
        i = e + 1;
    }
    let newline: Vec<char> = vec!['\n'];
    assert(newline@ =~= seq!['\n']);
    if vec_ends_with(&s, &newline) {
        scan.out.push('\n');
    }
    string_of(&scan.out)
}


/// `s` has a line that starts with a code fence.
pub open spec fn has_fence_line(s: Seq<char>) -> bool {
    exists|i: int| 0 <= i < s.len() && (i == 0 || s[i - 1] == '\n') && #[trigger] occurs_at(s, fence(), i)
}

/// `s` has a `'\r'` right before a `'\n'` (a line that `str::lines` shortens).
pub open spec fn has_crlf(s: Seq<char>) -> bool {
    exists|i: int| 0 <= i < s.len() - 1 && #[trigger] s[i] == '\r' && s[i + 1] == '\n'
}

proof fn lemma_passthrough_from(s: Seq<char>, i: int, st: HiddenScan)
    requires
        0 <= i <= s.len(),
        i == 0 || s[i - 1] == '\n',
        !has_fence_line(s),
        !has_crlf(s),
        !st.within,
        st.need_nl == (i > 0),
        st.out == (if i > 0 { s.take(i - 1) } else { Seq::empty() }),
    ensures
        run(s, i, st).out == s.take(if ends_with(s, seq!['\n']) { s.len() - 1 } else { s.len() as int }),
    decreases s.len() - i,
{
    if i >= s.len() {
        assert(run(s, i, st) == st);
        if i > 0 {
            assert(s.subrange(s.len() - 1, s.len() as int) =~= seq!['\n']);
        } else {
            assert(s.take(0) =~= Seq::<char>::empty());
        }
    } else {
        lemma_line_end(s, i);
        let e = line_end(s, i);
        let line = line_at(s, i);
        assert(line =~= s.subrange(i, e)) by {
            if e < s.len() && e > i && s[e - 1] == '\r' {
                assert(s[e - 1] == '\r' && s[e - 1 + 1] == '\n');
                assert(has_crlf(s));
            }
        }
        assert(!starts_with(line, fence())) by {
            if starts_with(line, fence()) {
                assert(line.subrange(0, 3) =~= s.subrange(i, i + 3));
                assert(occurs_at(s, fence(), i));
            }
        }
        let st2 = step(st, line);
        assert(run(s, i, st) == run(s, e + 1, st2));
        assert(st2.out =~= s.take(e)) by {
            if i > 0 {
                assert(s.take(i - 1).push('\n') =~= s.take(i));
            }
        }
        if e < s.len() {
            assert(s.take(e + 1 - 1) =~= s.take(e));
            lemma_passthrough_from(s, e + 1, st2);
        } else {
            assert(run(s, e + 1, st2) == st2);
            assert(!ends_with(s, seq!['\n'])) by {
                if ends_with(s, seq!['\n']) {
                    assert(s.subrange(s.len() - 1, s.len() as int)[0] == s[s.len() - 1]);
                }
            }
            assert(s.take(e) =~= s.take(s.len() as int));
        }
    }
}

/// Text without code blocks passes through unchanged: when no line of `s`
/// starts with a code fence (and no line ends in `"\r\n"`, which
/// `str::lines` shortens), `remove_hidden_lines` gives `s` back.
pub proof fn text_without_code_blocks_is_unchanged(s: Seq<char>)
    requires
        !has_fence_line(s),
        !has_crlf(s),
    ensures
        remove_hidden_lines_spec(s) == s,
{
    lemma_passthrough_from(s, 0, initial_scan());
    if ends_with(s, seq!['\n']) {
        assert(s.take(s.len() - 1).push('\n') =~= s) by {
            assert(s.subrange(s.len() - 1, s.len() as int)[0] == s[s.len() - 1]);
        }
    } else {
        assert(s.take(s.len() as int) =~= s);
    }
}

/// The scan of the lines of `pre + q` from the start of `q` on is the scan
/// of `q` alone.
proof fn lemma_run_shift(pre: Seq<char>, q: Seq<char>, j: int, st: HiddenScan)
    requires
        0 <= j <= q.len(),
    ensures
        run(pre + q, pre.len() + j, st) == run(q, j, st),
    decreases q.len() - j,
{
    let s = pre + q;
    if j < q.len() {
        lemma_line_end_shift(pre, q, j);
        lemma_line_end(q, j);
        let e = line_end(q, j);
        assert(s.subrange(pre.len() + j, pre.len() + e) =~= q.subrange(j, e));
        assert(line_at(s, pre.len() + j) == line_at(q, j));
        let st2 = step(st, line_at(q, j));
        assert(run(s, pre.len() + j, st) == run(s, pre.len() + e + 1, st2));
        assert(run(q, j, st) == run(q, e + 1, st2));
        if e + 1 <= q.len() {
            lemma_run_shift(pre, q, e + 1, st2);
        }
    }
}

/// Trimming keeps a last character that is not whitespace.
proof fn lemma_trim_keeps_last(y: Seq<char>)
    requires
        y.len() > 0,
        !is_ws(y.last()),
    ensures
        trim(y).len() > 0,
        trim(y).last() == y.last(),
{
    lemma_ws_run_bounds(y, 0);
    let w = ws_run(y, 0);
    assert(w < y.len());
    let z = trim_start(y);
    assert(z.last() == y.last());
    lemma_ws_run_back_bounds(z, z.len() as int);
    assert(ws_run_back(z, z.len() as int) == 0);
    assert(trim(y) =~= z);
}

/// What a hidden closing line is to the scan.
proof fn lemma_closer_line(line: Seq<char>)
    requires
        line == seq!['#', ' ', '}'] || line == seq!['#', ' ', '}', ';'] || line == seq![
            '#',
            ' ',
            '}',
            ',',
        ],
    ensures
        !starts_with(line, fence()),
        is_hidden_line(line),
        !opens_scope(line),
        closes_scope(line),
{
    let c = line.skip(2);
    assert(line.subrange(0, 2) =~= seq!['#', ' ']);
    assert(line.subrange(0, 3) != fence()) by {
        assert(line.subrange(0, 3)[0] == '#');
    }
    assert(c[0] == '}');
    assert(ws_run(c, 0) == 0);
    assert(trim_start(c) =~= c);
    assert(!is_ws(c[c.len() - 1]));
    assert(ws_run_back(c, c.len() as int) == 0);
    assert(trim_end(c) =~= c);
    assert(hidden_content(line) == c);
    if line.len() == 3 {
        assert(c =~= seq!['}']);
    } else if line[3] == ';' {
        assert(c =~= seq!['}', ';']);
    } else {
        assert(c =~= seq!['}', ',']);
    }
}

/// A hidden `# }`, `# };` or `# },` line inside a code block lowers the
/// de-dent level by four spaces, not below zero, and writes nothing.
pub proof fn hidden_closer_lowers_dedent(st: HiddenScan, line: Seq<char>)
    requires
        st.within,
        line == seq!['#', ' ', '}'] || line == seq!['#', ' ', '}', ';'] || line == seq![
            '#',
            ' ',
            '}',
            ',',
        ],
    ensures
        step(st, line) == (HiddenScan {
            dedent: if st.dedent >= 4 {
                (st.dedent - 4) as nat
            } else {
                0nat
            },
            ..st
        }),
{
    lemma_closer_line(line);
}

/// A hidden scope opener directly followed by its hidden closer changes
/// nothing: inside a code block, the lines after the pair `# ...{` and
/// `# }` (or `# };`, `# },`) are scanned exactly as if both hidden lines
/// were absent.
pub proof fn hidden_scope_pair_is_neutral(
    x: Seq<char>,
    close: Seq<char>,
    rest: Seq<char>,
    st: HiddenScan,
)
    requires
        st.within,
        !x.contains('\n'),
        close == seq!['#', ' ', '}'] || close == seq!['#', ' ', '}', ';'] || close == seq![
            '#',
            ' ',
            '}',
            ',',
        ],
    ensures
        run(seq!['#', ' '] + x + seq!['{', '\n'] + close + seq!['\n'] + rest, 0, st) == run(
            rest,
            0,
            st,
        ),
{
    let open = seq!['#', ' '] + x + seq!['{'];
    let pre1 = open.push('\n');
    let pre2 = close.push('\n');
    let mid = pre2 + rest;
    let s = seq!['#', ' '] + x + seq!['{', '\n'] + close + seq!['\n'] + rest;
    assert(s =~= pre1 + mid);
    let n = open.len() as int;
    // The opening line.
    assert forall|k: int| 0 <= k < n implies s[k] != '\n' by {
        if 2 <= k < n - 1 {
            assert(s[k] == x[k - 2]);
            if x[k - 2] == '\n' {
                assert(x.contains('\n'));
            }
        }
    }
    lemma_line_end_at(s, 0, n);
    assert(s.subrange(0, n) =~= open);
    assert(line_at(s, 0) == open);
    assert(open.subrange(0, 2) =~= seq!['#', ' ']);
    assert(!starts_with(open, fence())) by {
        assert(open.subrange(0, 3)[0] == '#');
    }
    assert(is_hidden_line(open));
    assert(open.skip(2) =~= x + seq!['{']);
    assert(open != seq!['#']);
    lemma_trim_keeps_last(x + seq!['{']);
    assert(opens_scope(open));
    let st1 = HiddenScan { dedent: st.dedent + 4, ..st };
    assert(step(st, open) == st1);
    assert(run(s, 0, st) == run(s, n + 1, st1));
    lemma_run_shift(pre1, mid, 0, st1);
    assert(run(s, n + 1, st1) == run(mid, 0, st1));
    // The closing line.
    let m = close.len() as int;
    lemma_line_end_at(mid, 0, m);
    assert(mid.subrange(0, m) =~= close);
    assert(line_at(mid, 0) == close);
    lemma_closer_line(close);
    assert(step(st1, close) == st);
    assert(run(mid, 0, st1) == run(mid, m + 1, st));
    lemma_run_shift(pre2, rest, 0, st);
}

proof fn lemma_run_concat(a: Seq<char>, b: Seq<char>, i: int, st: HiddenScan)
    requires
        0 <= i <= a.len(),
        a.len() == 0 || a.last() == '\n',
    ensures
        run(a + b, i, st) == run(b, 0, run(a, i, st)),
    decreases a.len() - i,
{
    if i == a.len() {
        lemma_run_shift(a, b, 0, st);
    } else {
        lemma_line_end_prefix(a, b, i);
        lemma_line_end(a, i);
        let e = line_end(a, i);
        assert((a + b).subrange(i, e) =~= a.subrange(i, e));
        assert(line_at(a + b, i) == line_at(a, i));
        let st2 = step(st, line_at(a, i));
        lemma_run_concat(a, b, e + 1, st2);
    }
}

/// The scan goes through every line: over a text whose last line is ended
/// by `'\n'` followed by more text, it is the scan of the first part, then
/// the scan of the rest from the state that the first part left.
pub proof fn scan_composes_over_lines(a: Seq<char>, b: Seq<char>, st: HiddenScan)
    requires
        a.len() == 0 || a.last() == '\n',
    ensures
        run(a + b, 0, st) == run(b, 0, run(a, 0, st)),
{
    lemma_run_concat(a, b, 0, st);
}

} // verus!
