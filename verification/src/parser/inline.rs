//! Inline-level parsing: emphasis, code spans, links, images, inline HTML,
//! hard and soft breaks, and (with GFM) strikethrough and autolinks.
//!
//! An inline text is scanned from left to right.  At each character the
//! parser first tries the inline constructs that may start there
//! ([`spec_node_at`]); where none matches, the character is literal text
//! (with backslash escapes and line breaks handled in [`inline_scan`]).

use vstd::prelude::*;
use crate::ast::Inline;
use crate::ast::nodes::{EmphasisLevel, SpecInline, view_inline, view_inlines, view_opt_str};
use crate::ast::span::{Position, Span, inline_pos, inline_span, inline_span_exec, inline_pos_exec};
use crate::parser::gfm::{spec_match_autolink, spec_strikethrough, match_autolink_chars, match_strikethrough};
use crate::text::{spec_is_ws, is_ws, run_end, lemma_run_end, skip_ws, lemma_skip_ws, skip_ws_exec,
    not_char, slice_vec, str_chars, string_from_chars, push_all};

verus! {

/// Context of an inline parse.
pub struct InlineCtx {
    /// Whether GFM strikethrough and autolinks are recognised.
    pub gfm: bool,
}

impl InlineCtx {
    /// The position of character `idx` of a text of `len` characters.
    pub fn position(&self, idx: usize, len: usize) -> (p: Position)
        ensures
            p == inline_pos(if idx <= len { idx as int } else { len as int }),
    {
        inline_pos_exec(if idx <= len { idx } else { len })
    }
}

pub open spec fn spec_is_ascii_punct(c: char) -> bool {
    ('!' <= c && c <= '/') || (':' <= c && c <= '@') || ('[' <= c && c <= '`') || ('{' <= c
        && c <= '~')
}

fn is_ascii_punct(c: char) -> (b: bool)
    ensures
        b == spec_is_ascii_punct(c),
{
    ('!' <= c && c <= '/') || (':' <= c && c <= '@') || ('[' <= c && c <= '`') || ('{' <= c
        && c <= '~')
}

pub open spec fn is_char(q: char) -> spec_fn(char) -> bool {
    |c: char| c == q
}

pub open spec fn url_char() -> spec_fn(char) -> bool {
    |c: char| !spec_is_ws(c) && c != ')'
}

// ---------------------------------------------------------------------------
// Code spans
// ---------------------------------------------------------------------------

/// Whether `s` holds `n` backticks at `j`.
pub open spec fn ticks_at(s: Seq<char>, j: int, n: int) -> bool {
    0 <= j && j + n <= s.len() && forall|k: int| j <= k < j + n ==> s[k] == '`'
}

/// The first index at or after `j` where `n` backticks stand.
pub open spec fn find_ticks(s: Seq<char>, j: int, n: int) -> Option<int>
    decreases s.len() - j,
{
    if j < 0 || n < 1 || j + n > s.len() {
        None
    } else if ticks_at(s, j, n) {
        Some(j)
    } else {
        find_ticks(s, j + 1, n)
    }
}

proof fn lemma_find_ticks(s: Seq<char>, j: int, n: int)
    requires
        0 <= j,
    ensures
        find_ticks(s, j, n) matches Some(k) ==> j <= k && k + n <= s.len() && n >= 1,
    decreases s.len() - j,
{
    if !(j < 0 || n < 1 || j + n > s.len()) && !ticks_at(s, j, n) {
        lemma_find_ticks(s, j + 1, n);
    }
}

/// A code span opened by the run of backticks at `i`: it closes at the next
/// run of as many backticks, and holds the characters in between.
pub open spec fn spec_code(s: Seq<char>, i: int) -> Option<(SpecInline, int)> {
    let n = run_end(s, i, is_char('`')) - i;
    match find_ticks(s, i + n, n) {
        Some(j) => Some(
            (SpecInline::Code { code: s.subrange(i + n, j), position: inline_span(i, j + n) }, j + n),
        ),
        None => None,
    }
}

fn tick_run_end(s: &Vec<char>, i: usize) -> (r: usize)
    requires
        i <= s@.len(),
    ensures
        r == run_end(s@, i as int, is_char('`')),
        i <= r <= s@.len(),
{
    let mut j = i;
    while j < s.len() && s[j] == '`'
        invariant
            i <= j <= s@.len(),
            run_end(s@, j as int, is_char('`')) == run_end(s@, i as int, is_char('`')),
        decreases s@.len() - j,
    {
        j = j + 1;
    }
    j
}

fn find_ticks_exec(s: &Vec<char>, j0: usize, n: usize) -> (r: Option<usize>)
    requires
        j0 <= s@.len(),
    ensures
        match r {
            Some(k) => find_ticks(s@, j0 as int, n as int) == Some(k as int),
            None => find_ticks(s@, j0 as int, n as int) is None,
        },
{
    if n < 1 {
        return None;
    }
    let mut j = j0;
    while j <= s.len() && n <= s.len() - j
        invariant
            j0 <= j,
            n >= 1,
            find_ticks(s@, j as int, n as int) == find_ticks(s@, j0 as int, n as int),
        decreases s@.len() + 1 - j,
    {
        let mut k: usize = 0;
        let mut all = true;
        while k < n
            invariant
                k <= n,
                j + n <= s.len(),
                s@.len() == s.len(),
                all <==> forall|m: int| j <= m < j + k ==> s@[m] == '`',
            decreases n - k,
        {
            if s[j + k] != '`' {
                all = false;
            }
            k = k + 1;
        }
        if all {
            return Some(j);
        }
        j = j + 1;
    }
    None
}

fn code_at(s: &Vec<char>, i: usize) -> (r: Option<(Inline, usize)>)
    requires
        i < s@.len(),
    ensures
        opt_node_matches(r, spec_code(s@, i as int)),
{
    let slen = s.len();
    let n_end = tick_run_end(s, i);
    let n = n_end - i;
    match find_ticks_exec(s, n_end, n) {
        Some(j) => {
            proof {
                lemma_find_ticks(s@, n_end as int, n as int);
            }
            let code = string_from_chars(&slice_vec(s, n_end, j));
            Some((Inline::Code { code, position: inline_span_exec(i, j + n) }, j + n))
        },
        None => None,
    }
}

// ---------------------------------------------------------------------------
// Emphasis
// ---------------------------------------------------------------------------

/// The first index at or after `j` where two `c` stand.
pub open spec fn find_pair(s: Seq<char>, j: int, c: char) -> Option<int>
    decreases s.len() - j,
{
    if j < 0 || j + 1 >= s.len() {
        None
    } else if s[j] == c && s[j + 1] == c {
        Some(j)
    } else {
        find_pair(s, j + 1, c)
    }
}

pub proof fn lemma_find_pair(s: Seq<char>, j: int, c: char)
    requires
        0 <= j,
    ensures
        find_pair(s, j, c) matches Some(k) ==> j <= k && k + 1 < s.len() && s[k] == c && s[k
            + 1] == c,
    decreases s.len() - j,
{
    if !(j < 0 || j + 1 >= s.len()) && !(s[j] == c && s[j + 1] == c) {
        lemma_find_pair(s, j + 1, c);
    }
}

pub fn find_pair_exec(s: &Vec<char>, j0: usize, c: char) -> (r: Option<usize>)
    requires
        j0 <= s@.len(),
    ensures
        match r {
            Some(k) => find_pair(s@, j0 as int, c) == Some(k as int),
            None => find_pair(s@, j0 as int, c) is None,
        },
{
    let mut j = j0;
    while j < s.len() && j + 1 < s.len()
        invariant
            j0 <= j <= s@.len(),
            find_pair(s@, j as int, c) == find_pair(s@, j0 as int, c),
        decreases s@.len() - j,
    {
        if s[j] == c && s[j + 1] == c {
            return Some(j);
        }
        j = j + 1;
    }
    None
}

/// Emphasis opened by the `*` or `_` at `i`: `cc…cc` (bold) closes at the
/// next pair of the same character, `c…c` (italic) at the next single one;
/// the content must not be empty nor start with white space.  The result is
/// the level, the bounds of the content and the index after the closer.
pub open spec fn spec_emph_range(s: Seq<char>, i: int) -> Option<(EmphasisLevel, int, int, int)> {
    let c = s[i];
    let dbl = if i + 1 < s.len() && s[i + 1] == c {
        match find_pair(s, i + 2, c) {
            Some(j) => if j > i + 2 && !spec_is_ws(s[i + 2]) {
                Some((EmphasisLevel::Bold, i + 2, j, j + 2))
            } else {
                None
            },
            None => None,
        }
    } else {
        None
    };
    if dbl is Some {
        dbl
    } else {
        let j = run_end(s, i + 1, not_char(c));
        if j < s.len() && j > i + 1 && !spec_is_ws(s[i + 1]) {
            Some((EmphasisLevel::Italic, i + 1, j, j + 1))
        } else {
            None
        }
    }
}

fn emph_range(s: &Vec<char>, i: usize) -> (r: Option<(EmphasisLevel, usize, usize, usize)>)
    requires
        i < s@.len(),
    ensures
        match r {
            Some((lv, a, b, n)) => spec_emph_range(s@, i as int) == Some(
                (lv, a as int, b as int, n as int),
            ) && i < a <= b < n <= s@.len(),
            None => spec_emph_range(s@, i as int) is None,
        },
{
    let slen = s.len();
    let c = s[i];
    if i + 1 < s.len() && s[i + 1] == c {
        match find_pair_exec(s, i + 2, c) {
            Some(j) => {
                proof {
                    lemma_find_pair(s@, (i + 2) as int, c);
                }
                if j > i + 2 && !is_ws(s[i + 2]) {
                    return Some((EmphasisLevel::Bold, i + 2, j, j + 2));
                }
            },
            None => {},
        }
    }
    let j = crate::text::find_char(s, i + 1, c);
    proof {
        lemma_run_end(s@, (i + 1) as int, not_char(c));
    }
    if j < s.len() && j > i + 1 && !is_ws(s[i + 1]) {
        Some((EmphasisLevel::Italic, i + 1, j, j + 1))
    } else {
        None
    }
}

// ---------------------------------------------------------------------------
// Links and images
// ---------------------------------------------------------------------------

/// `[label](url "title")` with the `[` at `i`: the index of the `]`, the
/// URL, the optional title (in `"` or `'`), and the index after the `)`.
/// The label ends at the first `]`; white space may stand around the URL
/// and the title.
pub open spec fn spec_link_parts(s: Seq<char>, i: int) -> Option<(int, Seq<char>, Option<Seq<char>>, int)> {
    let k = run_end(s, i + 1, not_char(']'));
    if k + 1 < s.len() && s[k + 1] == '(' {
        let p = skip_ws(s, k + 2);
        let u = run_end(s, p, url_char());
        let q = skip_ws(s, u);
        let (title, r) = if q < s.len() && (s[q] == '"' || s[q] == '\'') {
            let t = run_end(s, q + 1, not_char(s[q]));
            if t < s.len() {
                (Some(s.subrange(q + 1, t)), skip_ws(s, t + 1))
            } else {
                (None, s.len() as int)
            }
        } else {
            (None, q)
        };
        if r < s.len() && s[r] == ')' {
            Some((k, s.subrange(p, u), title, r + 1))
        } else {
            None
        }
    } else {
        None
    }
}

fn link_parts(s: &Vec<char>, i: usize) -> (r: Option<(usize, Vec<char>, Option<Vec<char>>, usize)>)
    requires
        i < s@.len(),
    ensures
        match r {
            Some((k, url, title, next)) => spec_link_parts(s@, i as int) == Some(
                (
                    k as int,
                    url@,
                    match title {
                        Some(t) => Some(t@),
                        None => None,
                    },
                    next as int,
                ),
            ) && i < k < next <= s@.len(),
            None => spec_link_parts(s@, i as int) is None,
        },
{
    let slen = s.len();
    let k = crate::text::find_char(s, i + 1, ']');
    proof {
        lemma_run_end(s@, (i + 1) as int, not_char(']'));
    }
    if k < s.len() && k + 1 < s.len() && s[k + 1] == '(' {
        let p = skip_ws_exec(s, k + 2);
        let mut u = p;
        while u < s.len() && !is_ws(s[u]) && s[u] != ')'
            invariant
                p <= u <= s@.len(),
                run_end(s@, u as int, url_char()) == run_end(s@, p as int, url_char()),
            decreases s@.len() - u,
        {
            u = u + 1;
        }
        let q = skip_ws_exec(s, u);
        let mut title: Option<Vec<char>> = None;
        let mut r = q;
        if q < s.len() && (s[q] == '"' || s[q] == '\'') {
            let t = crate::text::find_char(s, q + 1, s[q]);
            if t < s.len() {
                title = Some(slice_vec(s, q + 1, t));
                r = skip_ws_exec(s, t + 1);
            } else {
                r = s.len();
            }
        }
        if r < s.len() && s[r] == ')' {
            return Some((k, slice_vec(s, p, u), title, r + 1));
        }
    }
    None
}

// ---------------------------------------------------------------------------
// Angle brackets: autolinks and inline HTML
// ---------------------------------------------------------------------------

pub open spec fn http_prefix() -> Seq<char> {
    seq!['h', 't', 't', 'p', ':', '/', '/']
}

pub open spec fn https_prefix() -> Seq<char> {
    seq!['h', 't', 't', 'p', 's', ':', '/', '/']
}

/// `<…>` at `i`, where the character after `<` is an ASCII letter, `/` or
/// `!`: an autolink when the content starts with `http://` or `https://` and
/// holds no white space, inline HTML (the whole `<…>`) otherwise.
pub open spec fn spec_angle(s: Seq<char>, i: int) -> Option<(SpecInline, int)> {
    if i + 1 < s.len() && (crate::text::spec_is_ascii_alpha(s[i + 1]) || s[i + 1] == '/' || s[i
        + 1] == '!') {
        let j = run_end(s, i + 1, not_char('>'));
        if j < s.len() {
            let content = s.subrange(i + 1, j);
            if (crate::text::has_at(content, 0, http_prefix()) || crate::text::has_at(
                content,
                0,
                https_prefix(),
            )) && run_end(content, 0, crate::text::non_ws()) == content.len() {
                Some(
                    (
                        SpecInline::Link {
                            text: seq![
                                SpecInline::Text {
                                    value: content,
                                    position: inline_span(i + 1, j),
                                },
                            ],
                            url: content,
                            title: None,
                            autolink: true,
                            position: inline_span(i, j + 1),
                        },
                        j + 1,
                    ),
                )
            } else {
                Some(
                    (
                        SpecInline::HtmlInline {
                            html: s.subrange(i, j + 1),
                            position: inline_span(i, j + 1),
                        },
                        j + 1,
                    ),
                )
            }
        } else {
            None
        }
    } else {
        None
    }
}

fn http_vec() -> (v: Vec<char>)
    ensures
        v@ == http_prefix(),
{
    let v = vec!['h', 't', 't', 'p', ':', '/', '/'];
    assert(v@ =~= http_prefix());
    v
}

fn https_vec() -> (v: Vec<char>)
    ensures
        v@ == https_prefix(),
{
    let v = vec!['h', 't', 't', 'p', 's', ':', '/', '/'];
    assert(v@ =~= https_prefix());
    v
}

fn angle_at(s: &Vec<char>, i: usize) -> (r: Option<(Inline, usize)>)
    requires
        i < s@.len(),
    ensures
        opt_node_matches(r, spec_angle(s@, i as int)),
{
    let slen = s.len();
    if i + 1 < s.len() && (crate::text::is_ascii_alpha(s[i + 1]) || s[i + 1] == '/' || s[i + 1]
        == '!') {
        let j = crate::text::find_char(s, i + 1, '>');
        proof {
            lemma_run_end(s@, (i + 1) as int, not_char('>'));
        }
        if j < s.len() {
            let content = slice_vec(s, i + 1, j);
            let is_url = (crate::text::has_at_exec(&content, 0, &http_vec())
                || crate::text::has_at_exec(&content, 0, &https_vec()))
                && crate::text::non_ws_end(&content, 0) == content.len();
            if is_url {
                let mut text: Vec<Inline> = Vec::new();
                let t = Inline::Text { value: string_from_chars(&content), position: inline_span_exec(i + 1, j) };
                text.push(t);
                proof {
                    lemma_view_inlines(text);
                    assert(view_inlines_seq(text@) =~= seq![view_inline(t)]);
                }
                let node = Inline::Link {
                    text,
                    url: string_from_chars(&content),
                    title: None,
                    autolink: true,
                    position: inline_span_exec(i, j + 1),
                };
                return Some((node, j + 1));
            } else {
                let html = string_from_chars(&slice_vec(s, i, j + 1));
                return Some((Inline::HtmlInline { html, position: inline_span_exec(i, j + 1) }, j + 1));
            }
        }
    }
    None
}

// ---------------------------------------------------------------------------
// The scan
// ---------------------------------------------------------------------------

/// Emphasis at `i` (see [`spec_emph_range`]); its children are the inline
/// parse of its content.
pub open spec fn spec_emph_node(s: Seq<char>, i: int, gfm: bool) -> Option<(SpecInline, int)>
    decreases s.len(), 0int,
{
    if 0 <= i < s.len() {
        match spec_emph_range(s, i) {
            Some((lv, a, b, n)) => if i < a <= b < n <= s.len() {
                Some(
                    (
                        SpecInline::Emphasis {
                            level: lv,
                            children: spec_parse_inline(s.subrange(a, b), gfm),
                            position: inline_span(i, n),
                        },
                        n,
                    ),
                )
            } else {
                None
            },
            None => None,
        }
    } else {
        None
    }
}

/// `![alt](url "title")` with the `!` at `i`; the alt text is the label as
/// written.
pub open spec fn spec_image(s: Seq<char>, i: int) -> Option<(SpecInline, int)> {
    match spec_link_parts(s, i + 1) {
        Some((k, url, title, n)) => if i + 1 < k < n <= s.len() {
            Some(
                (
                    SpecInline::Image { alt: s.subrange(i + 2, k), url, title, position: inline_span(i, n) },
                    n,
                ),
            )
        } else {
            None
        },
        None => None,
    }
}

/// `[text](url "title")` with the `[` at `i`; the link text is the inline
/// parse of the label.
pub open spec fn spec_link(s: Seq<char>, i: int, gfm: bool) -> Option<(SpecInline, int)>
    decreases s.len(), 0int,
{
    if 0 <= i < s.len() {
        match spec_link_parts(s, i) {
            Some((k, url, title, n)) => if i < k < n <= s.len() {
                Some(
                    (
                        SpecInline::Link {
                            text: spec_parse_inline(s.subrange(i + 1, k), gfm),
                            url,
                            title,
                            autolink: false,
                            position: inline_span(i, n),
                        },
                        n,
                    ),
                )
            } else {
                None
            },
            None => None,
        }
    } else {
        None
    }
}

/// A bare URL at `i` (see [`spec_match_autolink`]) as a link whose text is
/// the URL as written.
pub open spec fn spec_autolink_node(s: Seq<char>, i: int) -> Option<(SpecInline, int)> {
    match spec_match_autolink(s, i) {
        Some((url, e)) => Some(
            (
                SpecInline::Link {
                    text: seq![SpecInline::Text { value: s.subrange(i, e), position: inline_span(i, e) }],
                    url,
                    title: None,
                    autolink: true,
                    position: inline_span(i, e),
                },
                e,
            ),
        ),
        None => None,
    }
}

/// The inline construct that starts at `i`, if any, with the index after it:
/// a code span at a backtick, emphasis at `*` or `_`, (with GFM)
/// strikethrough at `~~`, an image at `![`, a link at `[`, an autolink or
/// inline HTML at `<`, and (with GFM) a bare URL at the start of a word.
pub open spec fn spec_node_at(s: Seq<char>, i: int, gfm: bool) -> Option<(SpecInline, int)>
    decreases s.len(), 1int,
{
    if i < 0 || i >= s.len() {
        None
    } else {
        let c = s[i];
        if c == '`' {
            spec_code(s, i)
        } else if c == '*' || c == '_' {
            spec_emph_node(s, i, gfm)
        } else if c == '~' && gfm {
            spec_strikethrough(s, i)
        } else if c == '!' && i + 1 < s.len() && s[i + 1] == '[' {
            spec_image(s, i)
        } else if c == '[' {
            spec_link(s, i, gfm)
        } else if c == '<' {
            spec_angle(s, i)
        } else if gfm && (c == 'h' || c == 'w') && (i == 0 || spec_is_ws(s[i - 1])) {
            spec_autolink_node(s, i)
        } else {
            None
        }
    }
}

/// `acc` followed by a text node holding `text`, spanning `a..b`, unless
/// `text` is empty.
pub open spec fn flush(acc: Seq<SpecInline>, text: Seq<char>, a: int, b: int) -> Seq<SpecInline> {
    if text.len() > 0 {
        acc.push(SpecInline::Text { value: text, position: inline_span(a, b) })
    } else {
        acc
    }
}

pub open spec fn is_space() -> spec_fn(char) -> bool {
    |c: char| c == ' '
}

/// Index just past the last character of `t` that is not a space.
pub open spec fn spaces_back(t: Seq<char>, j: int) -> int
    decreases j,
{
    if 0 < j <= t.len() && t[j - 1] == ' ' {
        spaces_back(t, j - 1)
    } else {
        j
    }
}

/// The nodes of `s` from index `i` on, given the nodes `acc` found so far
/// and the literal `text` pending since index `tstart`.
///
/// Where no construct starts ([`spec_node_at`]): a backslash before a line
/// break is a hard break; a backslash before ASCII punctuation makes it
/// literal; a line break is a hard break when two or more spaces precede
/// it, a soft break otherwise (the spaces before it and the spaces after it
/// are dropped); a run of backticks that opens no code span is literal;
/// any other character is literal.
pub open spec fn inline_scan(
    s: Seq<char>,
    gfm: bool,
    i: int,
    tstart: int,
    text: Seq<char>,
    acc: Seq<SpecInline>,
) -> Seq<SpecInline>
    decreases s.len(), s.len() - i + 2,
{
    if i < 0 || i >= s.len() {
        flush(acc, text, tstart, s.len() as int)
    } else {
        let c = s[i];
        let ts = if text.len() == 0 { i } else { tstart };
        match spec_node_at(s, i, gfm) {
            Some((node, n)) => if i < n <= s.len() {
                inline_scan(s, gfm, n, n, Seq::empty(), flush(acc, text, tstart, i).push(node))
            } else {
                acc
            },
            None => if c == '\\' && i + 1 < s.len() && s[i + 1] == '\n' {
                let n = run_end(s, i + 2, is_space());
                if i < n <= s.len() {
                    inline_scan(
                        s,
                        gfm,
                        n,
                        n,
                        Seq::empty(),
                        flush(acc, text, tstart, i).push(
                            SpecInline::HardBreak { position: inline_span(i, i + 2) },
                        ),
                    )
                } else {
                    acc
                }
            } else if c == '\\' && i + 1 < s.len() && spec_is_ascii_punct(s[i + 1]) {
                inline_scan(s, gfm, i + 2, ts, text.push(s[i + 1]), acc)
            } else if c == '\n' {
                let tb = spaces_back(text, text.len() as int);
                let brk = if text.len() - tb >= 2 {
                    SpecInline::HardBreak { position: inline_span(i, i + 1) }
                } else {
                    SpecInline::SoftBreak { position: inline_span(i, i + 1) }
                };
                let n = run_end(s, i + 1, is_space());
                if i < n <= s.len() {
                    inline_scan(
                        s,
                        gfm,
                        n,
                        n,
                        Seq::empty(),
                        flush(acc, text.subrange(0, tb), tstart, i).push(brk),
                    )
                } else {
                    acc
                }
            } else if c == '`' {
                let n = run_end(s, i, is_char('`'));
                if i < n <= s.len() {
                    inline_scan(s, gfm, n, ts, text + s.subrange(i, n), acc)
                } else {
                    acc
                }
            } else {
                inline_scan(s, gfm, i + 1, ts, text.push(c), acc)
            }
        }
    }
}

/// The inline nodes of `s`.
pub open spec fn spec_parse_inline(s: Seq<char>, gfm: bool) -> Seq<SpecInline>
    decreases s.len(), s.len() + 3,
{
    inline_scan(s, gfm, 0, 0, Seq::empty(), Seq::empty())
}

/// The spans of an autolink written in angle brackets at `a..b + 1`: that
/// of the link (brackets included) and that of its text (`a + 1..b`).
pub open spec fn bracket_spans(a: int, b: int) -> (Span, Span) {
    (inline_span(a, b + 1), inline_span(a + 1, b))
}

/// A link whose text is one text node, spanning the link's span less the
/// angle brackets around it.
pub open spec fn in_brackets(text: Seq<SpecInline>, position: Span) -> bool {
    &&& text.len() == 1
    &&& text[0] is Text
    &&& exists|a: int, b: int| #[trigger] bracket_spans(a, b) == (position, text[0]->Text_position)
}

/// An inline node that uses no GFM extension, at any depth: no
/// strikethrough, and no autolink but one in angle brackets (no bare URL).
pub open spec fn no_gfm_inline(i: SpecInline) -> bool
    decreases i,
{
    match i {
        SpecInline::Strikethrough { .. } => false,
        SpecInline::Emphasis { children, .. } => no_gfm_inlines(children),
        SpecInline::Link { text, autolink, position, .. } => no_gfm_inlines(text) && (autolink ==> in_brackets(text, position)),
        _ => true,
    }
}

/// Inline nodes that use no GFM extension, at any depth.
pub open spec fn no_gfm_inlines(s: Seq<SpecInline>) -> bool
    decreases s,
{
    if s.len() == 0 {
        true
    } else {
        no_gfm_inlines(s.drop_last()) && no_gfm_inline(s.last())
    }
}

proof fn lemma_no_gfm_push(s: Seq<SpecInline>, x: SpecInline)
    ensures
        no_gfm_inlines(s.push(x)) == (no_gfm_inlines(s) && no_gfm_inline(x)),
{
    assert(s.push(x).drop_last() =~= s);
}

proof fn lemma_flush_no_gfm(acc: Seq<SpecInline>, text: Seq<char>, a: int, b: int)
    requires
        no_gfm_inlines(acc),
    ensures
        no_gfm_inlines(flush(acc, text, a, b)),
{
    if text.len() > 0 {
        lemma_no_gfm_push(acc, SpecInline::Text { value: text, position: inline_span(a, b) });
    }
}

/// Without GFM the inline parse of a text holds no strikethrough and no
/// bare-URL autolink, at any depth.
pub proof fn lemma_parse_inline_no_gfm(s: Seq<char>)
    ensures
        no_gfm_inlines(spec_parse_inline(s, false)),
    decreases s.len(), s.len() + 3,
{
    lemma_inline_scan_no_gfm(s, 0, 0, Seq::empty(), Seq::empty());
}

proof fn lemma_node_at_no_gfm(s: Seq<char>, i: int)
    ensures
        spec_node_at(s, i, false) matches Some((node, _)) ==> no_gfm_inline(node),
    decreases s.len(), 1int,
{
    if 0 <= i < s.len() {
        let c = s[i];
        if c == '`' {
            assert(spec_node_at(s, i, false) == spec_code(s, i));
            match spec_code(s, i) {
                Some((node, _)) => assert(node is Code),
                None => {},
            }
        } else if c == '*' || c == '_' {
            assert(spec_node_at(s, i, false) == spec_emph_node(s, i, false));
            match spec_emph_range(s, i) {
                Some((lv, a, b, n)) => if i < a <= b < n <= s.len() {
                    lemma_parse_inline_no_gfm(s.subrange(a, b));
                },
                None => {},
            }
        } else if c == '!' && i + 1 < s.len() && s[i + 1] == '[' {
            assert(spec_node_at(s, i, false) == spec_image(s, i));
        } else if c == '[' {
            assert(spec_node_at(s, i, false) == spec_link(s, i, false));
            match spec_link_parts(s, i) {
                Some((k, url, title, n)) => if i < k < n <= s.len() {
                    lemma_parse_inline_no_gfm(s.subrange(i + 1, k));
                },
                None => {},
            }
        } else if c == '<' {
            assert(spec_node_at(s, i, false) == spec_angle(s, i));
            match spec_angle(s, i) {
                Some((node, _)) => {
                    if node is Link {
                        let j = run_end(s, i + 1, not_char('>'));
                        assert(bracket_spans(i, j) == (node->Link_position, node->text[0]->Text_position));
                        let t = node->text;
                        assert(t.len() == 1);
                        assert(t.drop_last() =~= Seq::<SpecInline>::empty());
                        assert(no_gfm_inlines(t.drop_last()));
                        assert(t.last() is Text);
                        assert(no_gfm_inline(t.last()));
                        assert(no_gfm_inlines(t));
                    }
                },
                None => {},
            }
        } else {
            assert(spec_node_at(s, i, false) is None);
        }
    }
}

proof fn lemma_inline_scan_no_gfm(s: Seq<char>, i: int, tstart: int, text: Seq<char>, acc: Seq<SpecInline>)
    requires
        no_gfm_inlines(acc),
    ensures
        no_gfm_inlines(inline_scan(s, false, i, tstart, text, acc)),
    decreases s.len(), s.len() - i + 2,
{
    if i < 0 || i >= s.len() {
        lemma_flush_no_gfm(acc, text, tstart, s.len() as int);
    } else {
        let c = s[i];
        let ts = if text.len() == 0 { i } else { tstart };
        match spec_node_at(s, i, false) {
            Some((node, n)) => if i < n <= s.len() {
                lemma_node_at_no_gfm(s, i);
                lemma_flush_no_gfm(acc, text, tstart, i);
                lemma_no_gfm_push(flush(acc, text, tstart, i), node);
                lemma_inline_scan_no_gfm(s, n, n, Seq::empty(), flush(acc, text, tstart, i).push(node));
            },
            None => if c == '\\' && i + 1 < s.len() && s[i + 1] == '\n' {
                let n = run_end(s, i + 2, is_space());
                if i < n <= s.len() {
                    let hb = SpecInline::HardBreak { position: inline_span(i, i + 2) };
                    lemma_flush_no_gfm(acc, text, tstart, i);
                    lemma_no_gfm_push(flush(acc, text, tstart, i), hb);
                    lemma_inline_scan_no_gfm(s, n, n, Seq::empty(), flush(acc, text, tstart, i).push(hb));
                }
            } else if c == '\\' && i + 1 < s.len() && spec_is_ascii_punct(s[i + 1]) {
                lemma_inline_scan_no_gfm(s, i + 2, ts, text.push(s[i + 1]), acc);
            } else if c == '\n' {
                let tb = spaces_back(text, text.len() as int);
                let brk = if text.len() - tb >= 2 {
                    SpecInline::HardBreak { position: inline_span(i, i + 1) }
                } else {
                    SpecInline::SoftBreak { position: inline_span(i, i + 1) }
                };
                let n = run_end(s, i + 1, is_space());
                if i < n <= s.len() {
                    lemma_flush_no_gfm(acc, text.subrange(0, tb), tstart, i);
                    lemma_no_gfm_push(flush(acc, text.subrange(0, tb), tstart, i), brk);
                    lemma_inline_scan_no_gfm(s, n, n, Seq::empty(), flush(acc, text.subrange(0, tb), tstart, i).push(brk));
                }
            } else if c == '`' {
                let n = run_end(s, i, is_char('`'));
                if i < n <= s.len() {
                    lemma_inline_scan_no_gfm(s, n, ts, text + s.subrange(i, n), acc);
                }
            } else {
                lemma_inline_scan_no_gfm(s, i + 1, ts, text.push(c), acc);
            }
        }
    }
}

pub open spec fn opt_node_matches(r: Option<(Inline, usize)>, sr: Option<(SpecInline, int)>) -> bool {
    match (r, sr) {
        (Some((node, n)), Some((snode, sn))) => view_inline(node) == snode && n == sn,
        (None, None) => true,
        _ => false,
    }
}

/// [`view_inlines`] of the vector whose contents are `v`.
pub open spec fn view_inlines_seq(v: Seq<Inline>) -> Seq<SpecInline> {
    Seq::new(v.len(), |k: int| view_inline(v[k]))
}

pub proof fn lemma_view_inlines(v: Vec<Inline>)
    ensures
        view_inlines(v) == view_inlines_seq(v@),
{
    assert(view_inlines(v) =~= view_inlines_seq(v@));
}

fn emph_node(s: &Vec<char>, i: usize, gfm: bool) -> (r: Option<(Inline, usize)>)
    requires
        i < s@.len(),
    ensures
        opt_node_matches(r, spec_emph_node(s@, i as int, gfm)),
        r matches Some((_, n)) ==> i < n <= s@.len(),
    decreases s@.len(), 0int,
{
    match emph_range(s, i) {
        Some((lv, a, b, n)) => {
            let inner = slice_vec(s, a, b);
            let children = parse_inline_chars(&inner, gfm);
            Some((Inline::Emphasis { level: lv, children, position: inline_span_exec(i, n) }, n))
        },
        None => None,
    }
}

fn opt_string(t: Option<Vec<char>>) -> (r: Option<String>)
    ensures
        view_opt_str(r) == match t {
            Some(v) => Some(v@),
            None => None::<Seq<char>>,
        },
{
    match t {
        Some(v) => Some(string_from_chars(&v)),
        None => None,
    }
}

fn image_at(s: &Vec<char>, i: usize) -> (r: Option<(Inline, usize)>)
    requires
        i + 1 < s@.len(),
    ensures
        opt_node_matches(r, spec_image(s@, i as int)),
        r matches Some((_, n)) ==> i < n <= s@.len(),
{
    let slen = s.len();
    match link_parts(s, i + 1) {
        Some((k, url, title, n)) => {
            let alt = string_from_chars(&slice_vec(s, i + 2, k));
            let title = opt_string(title);
            Some((Inline::Image { alt, url: string_from_chars(&url), title, position: inline_span_exec(i, n) }, n))
        },
        None => None,
    }
}

fn link_at(s: &Vec<char>, i: usize, gfm: bool) -> (r: Option<(Inline, usize)>)
    requires
        i < s@.len(),
    ensures
        opt_node_matches(r, spec_link(s@, i as int, gfm)),
        r matches Some((_, n)) ==> i < n <= s@.len(),
    decreases s@.len(), 0int,
{
    match link_parts(s, i) {
        Some((k, url, title, n)) => {
            let inner = slice_vec(s, i + 1, k);
            let text = parse_inline_chars(&inner, gfm);
            let title = opt_string(title);
            Some((Inline::Link { text, url: string_from_chars(&url), title, autolink: false, position: inline_span_exec(i, n) }, n))
        },
        None => None,
    }
}

fn autolink_at(s: &Vec<char>, i: usize) -> (r: Option<(Inline, usize)>)
    requires
        i < s@.len(),
    ensures
        opt_node_matches(r, spec_autolink_node(s@, i as int)),
        r matches Some((_, n)) ==> i < n <= s@.len(),
{
    match match_autolink_chars(s, i) {
        Some((url, e)) => {
            let mut text: Vec<Inline> = Vec::new();
            let t = Inline::Text { value: string_from_chars(&slice_vec(s, i, e)), position: inline_span_exec(i, e) };
            text.push(t);
            proof {
                lemma_view_inlines(text);
                assert(view_inlines_seq(text@) =~= seq![view_inline(t)]);
            }
            Some((Inline::Link { text, url, title: None, autolink: true, position: inline_span_exec(i, e) }, e))
        },
        None => None,
    }
}

fn node_at(s: &Vec<char>, i: usize, gfm: bool) -> (r: Option<(Inline, usize)>)
    requires
        i < s@.len(),
    ensures
        opt_node_matches(r, spec_node_at(s@, i as int, gfm)),
        r matches Some((_, n)) ==> i < n <= s@.len(),
    decreases s@.len(), 1int,
{
    let slen = s.len();
    let c = s[i];
    if c == '`' {
        let r = code_at(s, i);
        proof {
            let n = run_end(s@, i as int, is_char('`')) - i;
            lemma_run_end(s@, i as int, is_char('`'));
            lemma_find_ticks(s@, i + n, n);
        }
        r
    } else if c == '*' || c == '_' {
        emph_node(s, i, gfm)
    } else if c == '~' && gfm {
        let ctx = InlineCtx { gfm: true };
        match_strikethrough(s, i, &ctx)
    } else if c == '!' && i + 1 < s.len() && s[i + 1] == '[' {
        image_at(s, i)
    } else if c == '[' {
        link_at(s, i, gfm)
    } else if c == '<' {
        let r = angle_at(s, i);
        proof {
            lemma_run_end(s@, (i + 1) as int, not_char('>'));
        }
        r
    } else if gfm && (c == 'h' || c == 'w') && (i == 0 || is_ws(s[i - 1])) {
        autolink_at(s, i)
    } else {
        None
    }
}

/// Push the pending text (if any) as a text node.
fn flush_exec(acc: &mut Vec<Inline>, text: &Vec<char>, a: usize, b: usize)
    ensures
        view_inlines_seq(final(acc)@) == flush(view_inlines_seq(old(acc)@), text@, a as int, b as int),
{
    if text.len() > 0 {
        let t = Inline::Text { value: string_from_chars(text), position: inline_span_exec(a, b) };
        let ghost v = acc@;
        acc.push(t);
        assert(view_inlines_seq(acc@) =~= view_inlines_seq(v).push(view_inline(t)));
    }
}

fn space_run_end(s: &Vec<char>, i: usize) -> (r: usize)
    requires
        i <= s@.len(),
    ensures
        r == run_end(s@, i as int, is_space()),
        i <= r <= s@.len(),
{
    let mut j = i;
    while j < s.len() && s[j] == ' '
        invariant
            i <= j <= s@.len(),
            run_end(s@, j as int, is_space()) == run_end(s@, i as int, is_space()),
        decreases s@.len() - j,
    {
        j = j + 1;
    }
    j
}

/// Parse an inline text given as characters.
pub fn parse_inline_chars(s: &Vec<char>, gfm: bool) -> (r: Vec<Inline>)
    ensures
        view_inlines(r) == spec_parse_inline(s@, gfm),
    decreases s@.len(), 2int,
{
    let mut acc: Vec<Inline> = Vec::new();
    let mut text: Vec<char> = Vec::new();
    let mut tstart: usize = 0;
    let mut i: usize = 0;
    assert(view_inlines_seq(acc@) =~= Seq::empty());
    while i < s.len()
        invariant
            i <= s@.len(),
            inline_scan(s@, gfm, i as int, tstart as int, text@, view_inlines_seq(acc@))
                == spec_parse_inline(s@, gfm),
        decreases s@.len() - i,
    {
        let c = s[i];
        let ts = if text.len() == 0 { i } else { tstart };
        match node_at(s, i, gfm) {
            Some((node, n)) => {
                flush_exec(&mut acc, &text, tstart, i);
                let ghost v = acc@;
                acc.push(node);
                assert(view_inlines_seq(acc@) =~= view_inlines_seq(v).push(view_inline(node)));
                text = Vec::new();
                tstart = n;
                i = n;
            },
            None => {
                if c == '\\' && i + 1 < s.len() && s[i + 1] == '\n' {
                    let n = space_run_end(s, i + 2);
                    flush_exec(&mut acc, &text, tstart, i);
                    let brk = Inline::HardBreak { position: inline_span_exec(i, i + 2) };
                    let ghost v = acc@;
                    acc.push(brk);
                    assert(view_inlines_seq(acc@) =~= view_inlines_seq(v).push(view_inline(brk)));
                    text = Vec::new();
                    tstart = n;
                    i = n;
                } else if c == '\\' && i + 1 < s.len() && is_ascii_punct(s[i + 1]) {
                    text.push(s[i + 1]);
                    tstart = ts;
                    i = i + 2;
                } else if c == '\n' {
                    let mut tb = text.len();
                    while 0 < tb && text[tb - 1] == ' '
                        invariant
                            tb <= text@.len(),
                            spaces_back(text@, tb as int) == spaces_back(text@, text@.len() as int),
                        decreases tb,
                    {
                        tb = tb - 1;
                    }
                    let hard = text.len() - tb >= 2;
                    let brk = if hard {
                        Inline::HardBreak { position: inline_span_exec(i, i + 1) }
                    } else {
                        Inline::SoftBreak { position: inline_span_exec(i, i + 1) }
                    };
                    let n = space_run_end(s, i + 1);
                    let kept = slice_vec(&text, 0, tb);
                    flush_exec(&mut acc, &kept, tstart, i);
                    let ghost v = acc@;
                    acc.push(brk);
                    assert(view_inlines_seq(acc@) =~= view_inlines_seq(v).push(view_inline(brk)));
                    text = Vec::new();
                    tstart = n;
                    i = n;
                } else if c == '`' {
                    let n = tick_run_end(s, i);
                    proof { lemma_run_end(s@, i as int, is_char('`')); }
                    let run = slice_vec(s, i, n);
                    push_all(&mut text, &run);
                    tstart = ts;
                    i = n;
                } else {
                    text.push(c);
                    tstart = ts;
                    i = i + 1;
                }
            },
        }
    }
    flush_exec(&mut acc, &text, tstart, s.len());
    proof {
        lemma_view_inlines(acc);
    }
    acc
}

/// Parse an inline text with GFM extensions enabled.
pub fn parse_inline(text: &str) -> (r: Vec<Inline>)
    ensures
        view_inlines(r) == spec_parse_inline(text@, true),
{
    let s = str_chars(text);
    parse_inline_chars(&s, true)
}

} // verus!
