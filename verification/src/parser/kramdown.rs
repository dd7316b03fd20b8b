//! Kramdown-style block attribute parser.
//!
//! Syntax: `{: #id .class1 .class2 key="value" key2='value2' }`
//!
//! The attribute block appears on its own line immediately after the block
//! it applies to (or at the end of a heading line).  The parser returns
//! [`KramdownAttributes`] which the HTML renderer applies to the opening tag
//! of the corresponding block element.

use vstd::prelude::*;
use crate::ast::KramdownAttributes;
use crate::ast::nodes::{SpecAttrs, view_strs, view_pairs, view_opt_str, view_attrs};
use crate::text::{spec_is_ws, spec_is_ascii_alpha, spec_is_ascii_digit, is_ascii_alpha, is_ascii_digit, run_end, lemma_run_end, skip_ws, lemma_skip_ws, skip_ws_exec, trim_start, not_char, non_ws, non_ws_end, find_char, slice_vec, str_chars, string_from_chars};

verus! {

pub open spec fn spec_is_ident_start(c: char) -> bool {
    spec_is_ascii_alpha(c) || c == '_' || c == '-'
}

pub open spec fn spec_is_ident_char(c: char) -> bool {
    spec_is_ascii_alpha(c) || spec_is_ascii_digit(c) || c == '_' || c == '-'
}

pub open spec fn ident_char() -> spec_fn(char) -> bool {
    |c: char| spec_is_ident_char(c)
}

fn is_ident_start(c: char) -> (b: bool)
    ensures
        b == spec_is_ident_start(c),
{
    is_ascii_alpha(c) || c == '_' || c == '-'
}

fn is_ident_char(c: char) -> (b: bool)
    ensures
        b == spec_is_ident_char(c),
{
    is_ascii_alpha(c) || is_ascii_digit(c) || c == '_' || c == '-'
}

fn ident_end(s: &Vec<char>, i: usize) -> (r: usize)
    requires
        i <= s@.len(),
    ensures
        r == run_end(s@, i as int, ident_char()),
        i <= r <= s@.len(),
{
    let mut j = i;
    while j < s.len() && is_ident_char(s[j])
        invariant
            i <= j <= s@.len(),
            run_end(s@, j as int, ident_char()) == run_end(s@, i as int, ident_char()),
        decreases s@.len() - j,
    {
        j = j + 1;
    }
    j
}

/// `a` with the attribute `key="val"` appended.
pub open spec fn push_attr(a: SpecAttrs, key: Seq<char>, val: Seq<char>) -> SpecAttrs {
    SpecAttrs { attributes: a.attributes.push((key, val)), ..a }
}

/// One token of an attribute list, starting at `i` (a character that is not
/// white space): the index after the token and the attributes with the token
/// applied.
pub open spec fn attr_step(s: Seq<char>, i: int, a: SpecAttrs) -> (int, SpecAttrs) {
    let c = s[i];
    if c == '#' {
        let j = run_end(s, i + 1, ident_char());
        (j, if j > i + 1 { SpecAttrs { id: Some(s.subrange(i + 1, j)), ..a } } else { a })
    } else if c == '.' {
        let j = run_end(s, i + 1, ident_char());
        (j, if j > i + 1 { SpecAttrs { classes: a.classes.push(s.subrange(i + 1, j)), ..a } } else { a })
    } else if spec_is_ident_start(c) {
        let k = run_end(s, i, ident_char());
        let key = s.subrange(i, k);
        let m = skip_ws(s, k);
        if m < s.len() && s[m] == '=' {
            let n = skip_ws(s, m + 1);
            if n < s.len() && (s[n] == '"' || s[n] == '\'') {
                let e = run_end(s, n + 1, not_char(s[n]));
                (if e < s.len() { e + 1 } else { e }, push_attr(a, key, s.subrange(n + 1, e)))
            } else {
                let e = run_end(s, n, non_ws());
                (e, if e > n { push_attr(a, key, s.subrange(n, e)) } else { a })
            }
        } else {
            (m, push_attr(a, key, Seq::empty()))
        }
    } else {
        (i + 1, a)
    }
}

/// The attributes that the tokens of `s` from index `i` on add to `a`:
/// `#id` sets the id, `.name` adds a class, `key="value"`, `key='value'`
/// and `key=value` add an attribute, a bare `key` adds an attribute with an
/// empty value, and any other character is skipped.
pub open spec fn attr_scan(s: Seq<char>, i: int, a: SpecAttrs) -> SpecAttrs
    decreases s.len() - i,
{
    let j = skip_ws(s, i);
    if i < 0 || i >= s.len() || j >= s.len() {
        a
    } else {
        let (k, b) = attr_step(s, j, a);
        if i < k <= s.len() {
            attr_scan(s, k, b)
        } else {
            a
        }
    }
}

/// The attributes of the inside of an attribute block.
pub open spec fn spec_attr_tokens(s: Seq<char>) -> SpecAttrs {
    attr_scan(s, 0, SpecAttrs::empty())
}

/// Index just past the `}` that closes the `{` that precedes index `i`,
/// where `depth` blocks are open and `q` is the quote character of an open
/// string (inside which braces do not count).
pub open spec fn close_brace(t: Seq<char>, i: int, depth: int, q: Option<char>) -> Option<int>
    decreases t.len() - i,
{
    if i < 0 || i >= t.len() {
        None
    } else {
        let c = t[i];
        match q {
            Some(qc) => close_brace(t, i + 1, depth, if c == qc { None } else { q }),
            None => if c == '"' || c == '\'' {
                close_brace(t, i + 1, depth, Some(c))
            } else if c == '{' {
                close_brace(t, i + 1, depth + 1, None)
            } else if c == '}' {
                if depth - 1 == 0 {
                    Some(i + 1)
                } else {
                    close_brace(t, i + 1, depth - 1, None)
                }
            } else {
                close_brace(t, i + 1, depth, None)
            },
        }
    }
}

proof fn lemma_close_brace(t: Seq<char>, i: int, depth: int, q: Option<char>)
    requires
        0 <= i,
    ensures
        close_brace(t, i, depth, q) matches Some(e) ==> i < e <= t.len() && t[e - 1] == '}',
    decreases t.len() - i,
{
    if i < t.len() {
        let c = t[i];
        match q {
            Some(qc) => lemma_close_brace(t, i + 1, depth, if c == qc { None } else { q }),
            None => {
                if c == '"' || c == '\'' {
                    lemma_close_brace(t, i + 1, depth, Some(c));
                } else if c == '{' {
                    lemma_close_brace(t, i + 1, depth + 1, None);
                } else if c == '}' {
                    if depth - 1 != 0 {
                        lemma_close_brace(t, i + 1, depth - 1, None);
                    }
                } else {
                    lemma_close_brace(t, i + 1, depth, None);
                }
            },
        }
    }
}

proof fn lemma_run_end_shift(c: char, y: Seq<char>, i: int, p: spec_fn(char) -> bool)
    requires
        0 <= i,
    ensures
        run_end(seq![c] + y, i + 1, p) == run_end(y, i, p) + 1,
    decreases y.len() - i,
{
    let s = seq![c] + y;
    if i < y.len() {
        assert(s[i + 1] == y[i]);
        if p(y[i]) {
            lemma_run_end_shift(c, y, i + 1, p);
        }
    }
}

proof fn lemma_skip_ws_shift(c: char, y: Seq<char>, i: int)
    requires
        0 <= i,
    ensures
        skip_ws(seq![c] + y, i + 1) == skip_ws(y, i) + 1,
    decreases y.len() - i,
{
    let s = seq![c] + y;
    if i < y.len() {
        assert(s[i + 1] == y[i]);
        if spec_is_ws(y[i]) {
            lemma_skip_ws_shift(c, y, i + 1);
        }
    }
}

proof fn lemma_close_brace_shift(c: char, y: Seq<char>, i: int, depth: int, q: Option<char>)
    requires
        0 <= i,
    ensures
        close_brace(seq![c] + y, i + 1, depth, q) == match close_brace(y, i, depth, q) {
            Some(e) => Some(e + 1),
            None => None,
        },
    decreases y.len() - i,
{
    let s = seq![c] + y;
    if i < y.len() {
        let d = y[i];
        assert(s[i + 1] == d);
        match q {
            Some(qc) => lemma_close_brace_shift(c, y, i + 1, depth, if d == qc { None } else { q }),
            None => {
                if d == '"' || d == '\'' {
                    lemma_close_brace_shift(c, y, i + 1, depth, Some(d));
                } else if d == '{' {
                    lemma_close_brace_shift(c, y, i + 1, depth + 1, None);
                } else if d == '}' {
                    if depth - 1 != 0 {
                        lemma_close_brace_shift(c, y, i + 1, depth - 1, None);
                    }
                } else {
                    lemma_close_brace_shift(c, y, i + 1, depth, None);
                }
            },
        }
    }
}

proof fn lemma_attr_step_shift(c: char, y: Seq<char>, j: int, a: SpecAttrs)
    requires
        0 <= j < y.len(),
    ensures
        attr_step(seq![c] + y, j + 1, a) == (attr_step(y, j, a).0 + 1, attr_step(y, j, a).1),
{
    let s = seq![c] + y;
    assert(s[j + 1] == y[j]);
    let d = y[j];
    if d == '#' || d == '.' {
        lemma_run_end_shift(c, y, j + 1, ident_char());
        let e = run_end(y, j + 1, ident_char());
        lemma_run_end(y, j + 1, ident_char());
        assert(s.subrange(j + 2, e + 1) =~= y.subrange(j + 1, e));
    } else if spec_is_ident_start(d) {
        lemma_run_end_shift(c, y, j, ident_char());
        let k = run_end(y, j, ident_char());
        lemma_run_end(y, j, ident_char());
        assert(s.subrange(j + 1, k + 1) =~= y.subrange(j, k));
        lemma_skip_ws_shift(c, y, k);
        let m = skip_ws(y, k);
        lemma_skip_ws(y, k);
        if m < y.len() {
            assert(s[m + 1] == y[m]);
            if y[m] == '=' {
                lemma_skip_ws_shift(c, y, m + 1);
                let n = skip_ws(y, m + 1);
                lemma_skip_ws(y, m + 1);
                if n < y.len() {
                    assert(s[n + 1] == y[n]);
                    if y[n] == '"' || y[n] == '\'' {
                        lemma_run_end_shift(c, y, n + 1, not_char(y[n]));
                        let e = run_end(y, n + 1, not_char(y[n]));
                        lemma_run_end(y, n + 1, not_char(y[n]));
                        assert(s.subrange(n + 2, e + 1) =~= y.subrange(n + 1, e));
                    } else {
                        lemma_run_end_shift(c, y, n, non_ws());
                        let e = run_end(y, n, non_ws());
                        lemma_run_end(y, n, non_ws());
                        assert(s.subrange(n + 1, e + 1) =~= y.subrange(n, e));
                    }
                } else {
                    lemma_run_end_shift(c, y, n, non_ws());
                    let e = run_end(y, n, non_ws());
                    lemma_run_end(y, n, non_ws());
                    assert(s.subrange(n + 1, e + 1) =~= y.subrange(n, e));
                }
            }
        }
    }
}

proof fn lemma_attr_scan_shift(c: char, y: Seq<char>, i: int, a: SpecAttrs)
    requires
        0 <= i,
    ensures
        attr_scan(seq![c] + y, i + 1, a) == attr_scan(y, i, a),
    decreases y.len() - i,
{
    let s = seq![c] + y;
    lemma_skip_ws_shift(c, y, i);
    if i < y.len() {
        let j = skip_ws(y, i);
        lemma_skip_ws(y, i);
        if j < y.len() {
            lemma_attr_step_shift(c, y, j, a);
            let (k, b) = attr_step(y, j, a);
            if i < k <= y.len() {
                lemma_attr_scan_shift(c, y, k, b);
            }
        }
    }
}

/// A `:` in front of the tokens of an attribute list changes nothing.
proof fn lemma_tokens_colon(y: Seq<char>)
    ensures
        spec_attr_tokens(seq![':'] + y) == spec_attr_tokens(y),
{
    let s = seq![':'] + y;
    assert(s[0] == ':');
    assert(skip_ws(s, 0) == 0);
    assert(attr_step(s, 0, SpecAttrs::empty()) == (1int, SpecAttrs::empty()));
    assert(attr_scan(s, 0, SpecAttrs::empty()) == attr_scan(s, 1, SpecAttrs::empty()));
    lemma_attr_scan_shift(':', y, 0, SpecAttrs::empty());
}

/// What [`parse_kramdown_attrs`] returns on `s`: the leading white space is
/// dropped; the rest must start with `{` and hold the matching `}` (braces
/// inside quotes do not count); the attributes are the tokens between them
/// (after an optional `:` right after the `{`), and the count is the number
/// of characters up to and including the `}`, counted from the `{`.
pub open spec fn spec_kramdown_attrs(s: Seq<char>) -> Option<(SpecAttrs, int)> {
    let t = trim_start(s);
    if t.len() == 0 || t[0] != '{' {
        None
    } else {
        match close_brace(t, 0, 0, None) {
            None => None,
            Some(end) => {
                let inner_start = if t.len() > 1 && t[1] == ':' { 2int } else { 1int };
                Some((spec_attr_tokens(t.subrange(inner_start, end - 1)), end))
            },
        }
    }
}

/// The `:` right after the `{` of an attribute block is optional: with or
/// without it the block gives the same attributes, and the count differs
/// by that one character.
pub proof fn lemma_colon_optional(x: Seq<char>)
    ensures
        match (spec_kramdown_attrs(seq!['{', ':'] + x), spec_kramdown_attrs(seq!['{'] + x)) {
            (Some((a, n)), Some((b, m))) => a == b && n == m + 1,
            (None, None) => true,
            _ => false,
        },
{
    let cx = seq![':'] + x;
    let sa = seq!['{'] + cx;
    let sb = seq!['{'] + x;
    assert(seq!['{', ':'] + x =~= sa);
    assert(sa[0] == '{' && sb[0] == '{');
    assert(skip_ws(sa, 0) == 0);
    assert(skip_ws(sb, 0) == 0);
    assert(trim_start(sa) =~= sa);
    assert(trim_start(sb) =~= sb);
    assert(close_brace(sa, 0, 0, None) == close_brace(sa, 1, 1, None));
    assert(close_brace(sb, 0, 0, None) == close_brace(sb, 1, 1, None));
    lemma_close_brace_shift('{', cx, 0, 1, None);
    lemma_close_brace_shift('{', x, 0, 1, None);
    assert(cx[0] == ':');
    assert(close_brace(cx, 0, 1, None) == close_brace(cx, 1, 1, None));
    lemma_close_brace_shift(':', x, 0, 1, None);
    match close_brace(x, 0, 1, None) {
        None => {},
        Some(ex) => {
            lemma_close_brace(x, 0, 1, None);
            assert(sa[1] == ':');
            let inner_a = sa.subrange(2, ex + 1);
            assert(inner_a =~= x.subrange(0, ex - 1));
            if x.len() > 0 && x[0] == ':' {
                assert(sb[1] == ':');
                let inner_b = sb.subrange(2, ex);
                assert(inner_b =~= x.subrange(1, ex - 1));
                assert(x.subrange(0, ex - 1) =~= seq![':'] + x.subrange(1, ex - 1));
                lemma_tokens_colon(x.subrange(1, ex - 1));
            } else {
                let inner_b = sb.subrange(1, ex);
                assert(inner_b =~= x.subrange(0, ex - 1));
            }
        },
    }
}

proof fn lemma_close_brace_plain(t: Seq<char>, i: int, j: int, depth: int)
    requires
        0 <= i <= j <= t.len(),
        forall|k: int| i <= k < j ==> {
            let c = #[trigger] t[k];
            c != '"' && c != '\'' && c != '{' && c != '}'
        },
    ensures
        close_brace(t, i, depth, None) == close_brace(t, j, depth, None),
    decreases j - i,
{
    if i < j {
        lemma_close_brace_plain(t, i + 1, j, depth);
    }
}

proof fn lemma_close_brace_quoted(t: Seq<char>, i: int, j: int, depth: int, q: char)
    requires
        0 <= i <= j <= t.len(),
        forall|k: int| i <= k < j ==> #[trigger] t[k] != q,
    ensures
        close_brace(t, i, depth, Some(q)) == close_brace(t, j, depth, Some(q)),
    decreases j - i,
{
    if i < j {
        lemma_close_brace_quoted(t, i + 1, j, depth, q);
    }
}

/// The attribute block `{k=qvq}`: key `k`, value `v` between quotes `q`.
pub open spec fn quoted_attr_block(k: Seq<char>, v: Seq<char>, q: char) -> Seq<char> {
    seq!['{'] + k + seq!['=', q] + v + seq![q, '}']
}

proof fn lemma_quoted_value(k: Seq<char>, v: Seq<char>, q: char)
    requires
        k.len() > 0,
        spec_is_ident_start(k[0]),
        forall|m: int| 0 <= m < k.len() ==> spec_is_ident_char(#[trigger] k[m]),
        forall|m: int| 0 <= m < v.len() ==> #[trigger] v[m] != '\'' && v[m] != '"',
        q == '\'' || q == '"',
    ensures
        spec_kramdown_attrs(quoted_attr_block(k, v, q)) == Some((
            SpecAttrs { id: None, classes: Seq::empty(), attributes: seq![(k, v)] },
            quoted_attr_block(k, v, q).len() as int,
        )),
{
    let t = quoted_attr_block(k, v, q);
    let kl = k.len() as int;
    let vl = v.len() as int;
    assert(t.len() == kl + vl + 5);
    assert(t[0] == '{');
    assert(t[1] == k[0]);
    assert(!spec_is_ws(t[0]));
    assert(skip_ws(t, 0) == 0);
    assert(trim_start(t) =~= t);
    // The closing brace is the last character.
    assert(close_brace(t, 0, 0, None) == close_brace(t, 1, 1, None));
    assert forall|m: int| 1 <= m < kl + 2 implies {
        let c = #[trigger] t[m];
        c != '"' && c != '\'' && c != '{' && c != '}'
    } by {
        if m < kl + 1 {
            assert(t[m] == k[m - 1]);
            assert(spec_is_ident_char(k[m - 1]));
        } else {
            assert(t[m] == '=');
        }
    }
    lemma_close_brace_plain(t, 1, kl + 2, 1);
    assert(t[kl + 2] == q);
    assert(close_brace(t, kl + 2, 1, None) == close_brace(t, kl + 3, 1, Some(q)));
    assert forall|m: int| kl + 3 <= m < kl + 3 + vl implies #[trigger] t[m] != q by {
        assert(t[m] == v[m - kl - 3]);
    }
    lemma_close_brace_quoted(t, kl + 3, kl + 3 + vl, 1, q);
    assert(t[kl + 3 + vl] == q);
    assert(t[kl + 4 + vl] == '}');
    assert(close_brace(t, kl + 3 + vl, 1, Some(q)) == close_brace(t, kl + 4 + vl, 1, None));
    assert(close_brace(t, 0, 0, None) == Some(kl + vl + 5));
    // The tokens between the braces.
    assert(t[1] != ':') by {
        assert(spec_is_ident_start(k[0]));
    }
    let inner = t.subrange(1, kl + vl + 4);
    assert(inner =~= k + seq!['=', q] + v + seq![q]);
    assert(inner[0] == k[0]);
    assert(!spec_is_ws(inner[0]));
    assert(skip_ws(inner, 0) == 0);
    assert forall|m: int| 0 <= m < kl implies #[trigger] (ident_char())(inner[m]) by {
        assert(inner[m] == k[m]);
    }
    assert(inner[kl] == '=');
    crate::text::lemma_run_end_to(inner, 0, kl, ident_char());
    assert(inner.subrange(0, kl) =~= k);
    assert(skip_ws(inner, kl) == kl);
    assert(inner[kl + 1] == q);
    assert(skip_ws(inner, kl + 1) == kl + 1);
    assert forall|m: int| kl + 2 <= m < kl + 2 + vl implies #[trigger] (not_char(q))(inner[m]) by {
        assert(inner[m] == v[m - kl - 2]);
    }
    assert(inner[kl + 2 + vl] == q);
    crate::text::lemma_run_end_to(inner, kl + 2, kl + 2 + vl, not_char(q));
    assert(inner.subrange(kl + 2, kl + 2 + vl) =~= v);
    let b = push_attr(SpecAttrs::empty(), k, v);
    assert(attr_step(inner, 0, SpecAttrs::empty()) == (kl + vl + 3, b));
    assert(attr_scan(inner, 0, SpecAttrs::empty()) == attr_scan(inner, kl + vl + 3, b));
    assert(b.attributes =~= seq![(k, v)]);
}

/// Single and double quotes are interchangeable around an attribute value:
/// for a key `k` and a value `v` that holds no quote, `{k='v'}` and
/// `{k="v"}` both give exactly the attribute `k` with the value `v` (no
/// quote kept), no id and no class, and both are read up to and including
/// their closing `}`.
pub proof fn lemma_quotes_interchangeable(k: Seq<char>, v: Seq<char>)
    requires
        k.len() > 0,
        spec_is_ident_start(k[0]),
        forall|m: int| 0 <= m < k.len() ==> spec_is_ident_char(#[trigger] k[m]),
        forall|m: int| 0 <= m < v.len() ==> #[trigger] v[m] != '\'' && v[m] != '"',
    ensures
        spec_kramdown_attrs(quoted_attr_block(k, v, '\'')) == Some((
            SpecAttrs { id: None, classes: Seq::empty(), attributes: seq![(k, v)] },
            k.len() + v.len() + 5int,
        )),
        spec_kramdown_attrs(quoted_attr_block(k, v, '"')) == spec_kramdown_attrs(quoted_attr_block(k, v, '\'')),
{
    lemma_quoted_value(k, v, '\'');
    lemma_quoted_value(k, v, '"');
}

/// Parse a Kramdown attribute block starting at the opening `{`.
/// Returns `(attrs, chars_consumed)` or `None` if not a valid block.
pub fn parse_kramdown_attrs(s: &str) -> (r: Option<(KramdownAttributes, usize)>)
    ensures
        match (r, spec_kramdown_attrs(s@)) {
            (Some((a, n)), Some((sa, sn))) => a@ == sa && n == sn,
            (None, None) => true,
            _ => false,
        },
{
    let all = str_chars(s);
    parse_kramdown_chars(&all)
}

/// [`parse_kramdown_attrs`] on a sequence of characters.
pub fn parse_kramdown_chars(all: &Vec<char>) -> (r: Option<(KramdownAttributes, usize)>)
    ensures
        match (r, spec_kramdown_attrs(all@)) {
            (Some((a, n)), Some((sa, sn))) => a@ == sa && n == sn,
            (None, None) => true,
            _ => false,
        },
        r matches Some((_, n)) ==> n <= trim_start(all@).len(),
{
    let st = skip_ws_exec(all, 0);
    let chars = slice_vec(all, st, all.len());
    let ghost t = chars@;
    assert(t == trim_start(all@));
    if chars.len() == 0 || chars[0] != '{' {
        return None;
    }
    // Find the matching closing `}`.
    let mut depth: usize = 1;
    let mut end: usize = 0;
    let mut in_string: Option<char> = None;
    let mut i: usize = 1;
    assert(close_brace(t, 0, 0, None) == close_brace(t, 1, 1, None));
    while i < chars.len() && end == 0
        invariant
            t == chars@,
            1 <= i <= chars@.len(),
            end <= i,
            end == 0 ==> 1 <= depth <= i && close_brace(t, i as int, depth as int, in_string)
                == close_brace(t, 0, 0, None),
            end != 0 ==> close_brace(t, 0, 0, None) == Some(end as int),
        decreases chars@.len() - i,
    {
        let c = chars[i];
        match in_string {
            Some(q) => {
                if c == q {
                    in_string = None;
                }
            },
            None => {
                if c == '"' || c == '\'' {
                    in_string = Some(c);
                } else if c == '{' {
                    depth = depth + 1;
                } else if c == '}' {
                    if depth == 1 {
                        end = i + 1;
                    } else {
                        depth = depth - 1;
                    }
                }
            },
        }
        i = i + 1;
    }
    if end == 0 {
        return None;
    }
    proof {
        lemma_close_brace(t, 0, 0, None);
    }
    let inner_start: usize = if chars.len() > 1 && chars[1] == ':' { 2 } else { 1 };
    let inner = slice_vec(&chars, inner_start, end - 1);
    let attrs = parse_attr_tokens(&inner);
    Some((attrs, end))
}

/// Parse the tokens inside `{...}`.
fn parse_attr_tokens(chars: &Vec<char>) -> (attrs: KramdownAttributes)
    ensures
        attrs@ == spec_attr_tokens(chars@),
{
    let mut attrs = KramdownAttributes::default();
    let ghost s = chars@;
    let mut i: usize = 0;
    while i < chars.len()
        invariant
            s == chars@,
            i <= s.len(),
            attr_scan(s, i as int, attrs@) == spec_attr_tokens(s),
        decreases s.len() - i,
    {
        let ghost i0 = i as int;
        let ghost a0 = attrs@;
        // skip whitespace
        i = skip_ws_exec(chars, i);
        if i >= chars.len() {
        } else if chars[i] == '#' {
            i = i + 1;
            let start = i;
            i = ident_end(chars, i);
            if i > start {
                let id = string_from_chars(&slice_vec(chars, start, i));
                attrs.id = Some(id);
            }
        } else if chars[i] == '.' {
            i = i + 1;
            let start = i;
            i = ident_end(chars, i);
            if i > start {
                let cls = string_from_chars(&slice_vec(chars, start, i));
                let ghost old_classes = attrs.classes@;
                attrs.classes.push(cls);
                assert(view_strs(attrs.classes@) =~= view_strs(old_classes).push(
                    s.subrange(start as int, i as int),
                ));
            }
        } else if is_ident_start(chars[i]) {
            let key_start = i;
            i = ident_end(chars, i);
            proof {
                lemma_run_end(s, key_start as int, ident_char());
            }
            let key = string_from_chars(&slice_vec(chars, key_start, i));
            i = skip_ws_exec(chars, i);
            let ghost old_attrs = attrs.attributes@;
            if i < chars.len() && chars[i] == '=' {
                i = skip_ws_exec(chars, i + 1);
                if i < chars.len() && (chars[i] == '"' || chars[i] == '\'') {
                    let q = chars[i];
                    let val_start = i + 1;
                    i = find_char(chars, val_start, q);
                    let val = string_from_chars(&slice_vec(chars, val_start, i));
                    if i < chars.len() {
                        i = i + 1;  // skip closing quote
                    }
                    attrs.attributes.push((key, val));
                    assert(view_pairs(attrs.attributes@) =~= view_pairs(old_attrs).push(
                        (key@, val@),
                    ));
                } else {
                    let val_start = i;
                    i = non_ws_end(chars, i);
                    if i > val_start {
                        let val = string_from_chars(&slice_vec(chars, val_start, i));
                        attrs.attributes.push((key, val));
                        assert(view_pairs(attrs.attributes@) =~= view_pairs(old_attrs).push(
                            (key@, val@),
                        ));
                    }
                }
            } else {
                let val = string_from_chars(&Vec::new());
                attrs.attributes.push((key, val));
                assert(view_pairs(attrs.attributes@) =~= view_pairs(old_attrs).push(
                    (key@, Seq::empty()),
                ));
            }
        } else {
            i = i + 1;  // skip unknown char
        }
        proof {
            lemma_skip_ws(s, i0);
        }
        assert(attr_scan(s, i0, a0) == attr_scan(s, i as int, attrs@));
    }
    attrs
}

} // verus!
