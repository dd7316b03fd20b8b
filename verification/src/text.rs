//! Character classes and small operations on character sequences that the
//! parser and the renderer share.

use vstd::prelude::*;

verus! {

/// Unicode `White_Space` characters, the set that `char::is_whitespace`
/// and `str::trim` use.
pub open spec fn spec_is_ws(c: char) -> bool {
    ||| ('\u{9}' <= c && c <= '\u{d}')
    ||| c == ' '
    ||| c == '\u{85}'
    ||| c == '\u{a0}'
    ||| c == '\u{1680}'
    ||| ('\u{2000}' <= c && c <= '\u{200a}')
    ||| c == '\u{2028}'
    ||| c == '\u{2029}'
    ||| c == '\u{202f}'
    ||| c == '\u{205f}'
    ||| c == '\u{3000}'
}

pub fn is_ws(c: char) -> (b: bool)
    ensures
        b == spec_is_ws(c),
{
    ('\u{9}' <= c && c <= '\u{d}') || c == ' ' || c == '\u{85}' || c == '\u{a0}' || c
        == '\u{1680}' || ('\u{2000}' <= c && c <= '\u{200a}') || c == '\u{2028}' || c
        == '\u{2029}' || c == '\u{202f}' || c == '\u{205f}' || c == '\u{3000}'
}

pub open spec fn spec_is_ascii_digit(c: char) -> bool {
    '0' <= c && c <= '9'
}

pub fn is_ascii_digit(c: char) -> (b: bool)
    ensures
        b == spec_is_ascii_digit(c),
{
    '0' <= c && c <= '9'
}

pub open spec fn spec_is_ascii_alpha(c: char) -> bool {
    ('a' <= c && c <= 'z') || ('A' <= c && c <= 'Z')
}

pub fn is_ascii_alpha(c: char) -> (b: bool)
    ensures
        b == spec_is_ascii_alpha(c),
{
    ('a' <= c && c <= 'z') || ('A' <= c && c <= 'Z')
}

/// Index of the first character at or after `i` that is not white space.
pub open spec fn skip_ws(s: Seq<char>, i: int) -> int
    decreases s.len() - i,
{
    if 0 <= i < s.len() && spec_is_ws(s[i]) {
        skip_ws(s, i + 1)
    } else {
        i
    }
}

pub proof fn lemma_skip_ws(s: Seq<char>, i: int)
    requires
        0 <= i <= s.len(),
    ensures
        i <= skip_ws(s, i) <= s.len(),
        forall|k: int| i <= k < skip_ws(s, i) ==> spec_is_ws(#[trigger] s[k]),
        skip_ws(s, i) < s.len() ==> !spec_is_ws(s[skip_ws(s, i)]),
    decreases s.len() - i,
{
    if i < s.len() && spec_is_ws(s[i]) {
        lemma_skip_ws(s, i + 1);
    }
}

pub fn skip_ws_exec(s: &Vec<char>, i: usize) -> (r: usize)
    requires
        i <= s@.len(),
    ensures
        r == skip_ws(s@, i as int),
        i <= r <= s@.len(),
{
    let mut j = i;
    while j < s.len() && is_ws(s[j])
        invariant
            i <= j <= s@.len(),
            skip_ws(s@, j as int) == skip_ws(s@, i as int),
        decreases s@.len() - j,
    {
        j = j + 1;
    }
    j
}

/// Index just past the last character before `j` that is not white space
/// (scanning back no further than `lo`).
pub open spec fn trim_back(s: Seq<char>, lo: int, j: int) -> int
    decreases j - lo,
{
    if lo < j && j <= s.len() && spec_is_ws(s[j - 1]) {
        trim_back(s, lo, j - 1)
    } else {
        j
    }
}

pub proof fn lemma_trim_back(s: Seq<char>, lo: int, j: int)
    requires
        0 <= lo <= j <= s.len(),
    ensures
        lo <= trim_back(s, lo, j) <= j,
        forall|k: int| trim_back(s, lo, j) <= k < j ==> spec_is_ws(#[trigger] s[k]),
        lo < trim_back(s, lo, j) ==> !spec_is_ws(s[trim_back(s, lo, j) - 1]),
    decreases j - lo,
{
    if lo < j && spec_is_ws(s[j - 1]) {
        lemma_trim_back(s, lo, j - 1);
    }
}

pub fn trim_back_exec(s: &Vec<char>, lo: usize, j: usize) -> (r: usize)
    requires
        lo <= j <= s@.len(),
    ensures
        r == trim_back(s@, lo as int, j as int),
        lo <= r <= j,
{
    let mut k = j;
    while lo < k && is_ws(s[k - 1])
        invariant
            lo <= k <= j <= s@.len(),
            trim_back(s@, lo as int, k as int) == trim_back(s@, lo as int, j as int),
        decreases k - lo,
    {
        k = k - 1;
    }
    k
}

/// `str::trim_start`: drop leading white space.
pub open spec fn trim_start(s: Seq<char>) -> Seq<char> {
    s.subrange(skip_ws(s, 0), s.len() as int)
}

/// `str::trim_end`: drop trailing white space.
pub open spec fn trim_end(s: Seq<char>) -> Seq<char> {
    s.subrange(0, trim_back(s, 0, s.len() as int))
}

/// `str::trim`: drop leading and trailing white space.
pub open spec fn trim(s: Seq<char>) -> Seq<char> {
    trim_end(trim_start(s))
}

/// A copy of `s[lo..hi]`.
pub fn slice_vec(s: &Vec<char>, lo: usize, hi: usize) -> (r: Vec<char>)
    requires
        lo <= hi <= s@.len(),
    ensures
        r@ == s@.subrange(lo as int, hi as int),
{
    let mut r: Vec<char> = Vec::new();
    let mut k = lo;
    while k < hi
        invariant
            lo <= k <= hi <= s@.len(),
            r@ == s@.subrange(lo as int, k as int),
        decreases hi - k,
    {
        r.push(s[k]);
        k = k + 1;
    }
    r
}

pub fn trim_vec(s: &Vec<char>) -> (r: Vec<char>)
    ensures
        r@ == trim(s@),
{
    let a = skip_ws_exec(s, 0);
    let t = slice_vec(s, a, s.len());
    let b = trim_back_exec(&t, 0, t.len());
    slice_vec(&t, 0, b)
}

/// Append the characters of `t` to `out`.
pub fn push_all(out: &mut Vec<char>, t: &Vec<char>)
    ensures
        final(out)@ == old(out)@ + t@,
{
    let ghost o = out@;
    let mut k: usize = 0;
    while k < t.len()
        invariant
            k <= t@.len(),
            out@ == o + t@.subrange(0, k as int),
        decreases t@.len() - k,
    {
        out.push(t[k]);
        k = k + 1;
        assert(t@.subrange(0, k as int) == t@.subrange(0, k - 1 as int).push(t@[k - 1]));
    }
    assert(t@.subrange(0, t@.len() as int) == t@);
}

/// Whether `s` holds `pat` at index `i`.
pub open spec fn has_at(s: Seq<char>, i: int, pat: Seq<char>) -> bool {
    0 <= i && i + pat.len() <= s.len() && s.subrange(i, i + pat.len()) == pat
}

pub fn has_at_exec(s: &Vec<char>, i: usize, pat: &Vec<char>) -> (b: bool)
    ensures
        b == has_at(s@, i as int, pat@),
{
    if i > s.len() || pat.len() > s.len() - i {
        return false;
    }
    let mut k: usize = 0;
    while k < pat.len()
        invariant
            k <= pat@.len(),
            i + pat.len() <= s.len(),
            forall|m: int| 0 <= m < k ==> s@[i + m] == pat@[m],
        decreases pat@.len() - k,
    {
        if s[i + k] != pat[k] {
            assert(s@.subrange(i as int, i + pat@.len())[k as int] != pat@[k as int]);
            return false;
        }
        k = k + 1;
    }
    assert(s@.subrange(i as int, i + pat@.len()) =~= pat@);
    true
}

/// The characters of a string, in order.
pub fn str_chars(s: &str) -> (v: Vec<char>)
    ensures
        v@ == s@,
{
    let mut v: Vec<char> = Vec::new();
    for c in it: s.chars()
        invariant
            v@ == it.seq().subrange(0, it.index() as int),
    {
        v.push(c);
    }
    v
}

} // verus!

verus! {

/// Index of the first character at or after `i` for which `p` fails.
pub open spec fn run_end(s: Seq<char>, i: int, p: spec_fn(char) -> bool) -> int
    decreases s.len() - i,
{
    if 0 <= i < s.len() && p(s[i]) {
        run_end(s, i + 1, p)
    } else {
        i
    }
}

pub proof fn lemma_run_end(s: Seq<char>, i: int, p: spec_fn(char) -> bool)
    requires
        0 <= i <= s.len(),
    ensures
        i <= run_end(s, i, p) <= s.len(),
        forall|k: int| i <= k < run_end(s, i, p) ==> p(#[trigger] s[k]),
        run_end(s, i, p) < s.len() ==> !p(s[run_end(s, i, p)]),
    decreases s.len() - i,
{
    if i < s.len() && p(s[i]) {
        lemma_run_end(s, i + 1, p);
    }
}

/// A run of `p` from `i` ends at `j` when `s[i..j]` holds `p` and `s[j]`
/// (if any) does not.
pub proof fn lemma_run_end_to(s: Seq<char>, i: int, j: int, p: spec_fn(char) -> bool)
    requires
        0 <= i <= j <= s.len(),
        forall|k: int| i <= k < j ==> p(#[trigger] s[k]),
        j < s.len() ==> !p(s[j]),
    ensures
        run_end(s, i, p) == j,
    decreases j - i,
{
    if i < j {
        lemma_run_end_to(s, i + 1, j, p);
    }
}

/// White space from `i` ends at `j` when `s[i..j]` is white space and
/// `s[j]` (if any) is not.
pub proof fn lemma_skip_ws_to(s: Seq<char>, i: int, j: int)
    requires
        0 <= i <= j <= s.len(),
        forall|k: int| i <= k < j ==> spec_is_ws(#[trigger] s[k]),
        j < s.len() ==> !spec_is_ws(s[j]),
    ensures
        skip_ws(s, i) == j,
    decreases j - i,
{
    if i < j {
        lemma_skip_ws_to(s, i + 1, j);
    }
}

/// Characters that are not white space.
pub open spec fn non_ws() -> spec_fn(char) -> bool {
    |c: char| !spec_is_ws(c)
}

/// Characters other than `q`.
pub open spec fn not_char(q: char) -> spec_fn(char) -> bool {
    |c: char| c != q
}

pub fn non_ws_end(s: &Vec<char>, i: usize) -> (r: usize)
    requires
        i <= s@.len(),
    ensures
        r == run_end(s@, i as int, non_ws()),
        i <= r <= s@.len(),
{
    let mut j = i;
    while j < s.len() && !is_ws(s[j])
        invariant
            i <= j <= s@.len(),
            run_end(s@, j as int, non_ws()) == run_end(s@, i as int, non_ws()),
        decreases s@.len() - j,
    {
        j = j + 1;
    }
    j
}

/// First index at or after `i` that holds `q`, or the length of `s`.
pub fn find_char(s: &Vec<char>, i: usize, q: char) -> (r: usize)
    requires
        i <= s@.len(),
    ensures
        r == run_end(s@, i as int, not_char(q)),
        i <= r <= s@.len(),
{
    let mut j = i;
    while j < s.len() && s[j] != q
        invariant
            i <= j <= s@.len(),
            run_end(s@, j as int, not_char(q)) == run_end(s@, i as int, not_char(q)),
        decreases s@.len() - j,
    {
        j = j + 1;
    }
    j
}

/// The string whose characters are `v`.
///
/// Calls `FromIterator<char> for String` (through `Iterator::collect`) on
/// the characters of `v`; the contract claims that the string holds exactly
/// those characters, in order, as the standard library documents.
#[verifier::external_body]
pub(crate) fn string_from_chars(v: &Vec<char>) -> (s: String)
    ensures
        s@ == v@,
{
    v.iter().collect()
}

} // verus!

verus! {

/// A vector holding the characters of the slice `s`.
pub fn vec_of_slice(s: &[char]) -> (v: Vec<char>)
    ensures
        v@ == s@,
{
    let mut v: Vec<char> = Vec::new();
    let mut k: usize = 0;
    while k < s.len()
        invariant
            k <= s@.len(),
            v@ == s@.subrange(0, k as int),
        decreases s@.len() - k,
    {
        v.push(s[k]);
        k = k + 1;
    }
    v
}

} // verus!

verus! {

/// The HTML escape of one character.
pub open spec fn esc_char(c: char) -> Seq<char> {
    if c == '&' {
        seq!['&', 'a', 'm', 'p', ';']
    } else if c == '<' {
        seq!['&', 'l', 't', ';']
    } else if c == '>' {
        seq!['&', 'g', 't', ';']
    } else if c == '"' {
        seq!['&', 'q', 'u', 'o', 't', ';']
    } else if c == '\'' {
        seq!['&', '#', '3', '9', ';']
    } else {
        seq![c]
    }
}

/// HTML escape: `&`, `<`, `>`, `"` and `'` become character references.
pub open spec fn escape(t: Seq<char>) -> Seq<char>
    decreases t.len(),
{
    if t.len() == 0 {
        Seq::empty()
    } else {
        escape(t.drop_last()) + esc_char(t.last())
    }
}

/// The characters that HTML escaping replaces.
pub open spec fn is_html_special(c: char) -> bool {
    c == '&' || c == '<' || c == '>' || c == '"' || c == '\''
}

/// Escaped text holds no `<`, `>`, `"` or `'`, and every `&` in it opens
/// a character reference; text without any of `&<>"'` is its own escape.
pub proof fn lemma_escape_safe(t: Seq<char>)
    ensures
        forall|i: int|
            0 <= i < escape(t).len() ==> {
                let c = #[trigger] escape(t)[i];
                c != '<' && c != '>' && c != '"' && c != '\''
            },
        forall|i: int|
            0 <= i < escape(t).len() && #[trigger] escape(t)[i] == '&' ==> i + 1 < escape(t).len()
                && (escape(t)[i + 1] == 'a' || escape(t)[i + 1] == 'l' || escape(t)[i + 1] == 'g'
                || escape(t)[i + 1] == 'q' || escape(t)[i + 1] == '#'),
        (forall|i: int| 0 <= i < t.len() ==> !is_html_special(#[trigger] t[i])) ==> escape(t) == t,
    decreases t.len(),
{
    if t.len() > 0 {
        let p = t.drop_last();
        lemma_escape_safe(p);
        let e = esc_char(t.last());
        let ep = escape(p);
        assert(escape(t) == ep + e);
        assert forall|i: int| 0 <= i < escape(t).len() implies {
            let c = #[trigger] escape(t)[i];
            c != '<' && c != '>' && c != '"' && c != '\''
        } by {
            if i < ep.len() {
                assert(escape(t)[i] == ep[i]);
            } else {
                assert(escape(t)[i] == e[i - ep.len()]);
            }
        }
        assert forall|i: int|
            0 <= i < escape(t).len() && #[trigger] escape(t)[i] == '&' implies i + 1 < escape(t).len()
                && (escape(t)[i + 1] == 'a' || escape(t)[i + 1] == 'l' || escape(t)[i + 1] == 'g'
                || escape(t)[i + 1] == 'q' || escape(t)[i + 1] == '#') by {
            if i < ep.len() {
                assert(escape(t)[i] == ep[i]);
                assert(escape(t)[i + 1] == ep[i + 1]);
            } else {
                assert(escape(t)[i] == e[i - ep.len()]);
                assert(escape(t)[i + 1] == e[i + 1 - ep.len()]);
            }
        }
        if forall|i: int| 0 <= i < t.len() ==> !is_html_special(#[trigger] t[i]) {
            assert forall|i: int| 0 <= i < p.len() implies !is_html_special(#[trigger] p[i]) by {
                assert(p[i] == t[i]);
            }
            assert(!is_html_special(t[t.len() - 1]));
            assert(escape(t) =~= t);
        }
    }
}

/// Trimming twice trims no more than trimming once.
pub proof fn lemma_trim_idempotent(s: Seq<char>)
    ensures
        trim(trim(s)) == trim(s),
        trim(s).len() > 0 ==> !spec_is_ws(trim(s)[0]) && !spec_is_ws(trim(s).last()),
{
    let a = skip_ws(s, 0);
    lemma_skip_ws(s, 0);
    let u = s.subrange(a, s.len() as int);
    let b = trim_back(u, 0, u.len() as int);
    lemma_trim_back(u, 0, u.len() as int);
    let t = u.subrange(0, b);
    assert(trim(s) == t);
    if t.len() > 0 {
        assert(t[0] == s[a]);
        assert(t.last() == u[b - 1]);
        assert(skip_ws(t, 0) == 0);
        assert(trim_start(t) =~= t);
        assert(trim_back(t, 0, t.len() as int) == t.len());
        assert(trim_end(t) =~= t);
    } else {
        assert(trim_start(t) =~= t);
        assert(trim_end(t) =~= t);
    }
}

/// Where two texts of one length agree on which characters are white
/// space, white space ends at the same index in both.
pub proof fn lemma_skip_ws_same_class(s: Seq<char>, t: Seq<char>, i: int)
    requires
        s.len() == t.len(),
        forall|k: int| 0 <= k < s.len() ==> spec_is_ws(#[trigger] s[k]) == spec_is_ws(t[k]),
    ensures
        skip_ws(s, i) == skip_ws(t, i),
    decreases s.len() - i,
{
    if 0 <= i < s.len() && spec_is_ws(s[i]) {
        lemma_skip_ws_same_class(s, t, i + 1);
    }
}

/// Where two texts of one length agree on which characters are white
/// space, trailing white space starts at the same index in both.
pub proof fn lemma_trim_back_same_class(s: Seq<char>, t: Seq<char>, lo: int, j: int)
    requires
        0 <= lo,
        s.len() == t.len(),
        forall|k: int| 0 <= k < s.len() ==> spec_is_ws(#[trigger] s[k]) == spec_is_ws(t[k]),
    ensures
        trim_back(s, lo, j) == trim_back(t, lo, j),
    decreases j - lo,
{
    if lo < j && j <= s.len() && spec_is_ws(s[j - 1]) {
        lemma_trim_back_same_class(s, t, lo, j - 1);
    }
}

/// Append the HTML escape of `t` to `out`.
pub fn push_escaped(out: &mut Vec<char>, t: &Vec<char>)
    ensures
        final(out)@ == old(out)@ + escape(t@),
{
    let ghost o = out@;
    let mut k: usize = 0;
    assert(t@.subrange(0, 0) =~= Seq::<char>::empty());
    while k < t.len()
        invariant
            k <= t@.len(),
            out@ == o + escape(t@.subrange(0, k as int)),
        decreases t@.len() - k,
    {
        let c = t[k];
        let ghost before = out@;
        if c == '&' {
            out.push('&'); out.push('a'); out.push('m'); out.push('p'); out.push(';');
        } else if c == '<' {
            out.push('&'); out.push('l'); out.push('t'); out.push(';');
        } else if c == '>' {
            out.push('&'); out.push('g'); out.push('t'); out.push(';');
        } else if c == '"' {
            out.push('&'); out.push('q'); out.push('u'); out.push('o'); out.push('t'); out.push(';');
        } else if c == '\'' {
            out.push('&'); out.push('#'); out.push('3'); out.push('9'); out.push(';');
        } else {
            out.push(c);
        }
        assert(out@ =~= before + esc_char(c));
        assert(t@.subrange(0, k + 1).drop_last() =~= t@.subrange(0, k as int));
        k = k + 1;
        assert(o + escape(t@.subrange(0, k as int)) =~= before + esc_char(c));
    }
    assert(t@.subrange(0, t@.len() as int) =~= t@);
}

/// Texts joined by `sep`.
pub open spec fn join_sep(v: Seq<Seq<char>>, sep: char) -> Seq<char>
    decreases v.len(),
{
    if v.len() == 0 {
        Seq::empty()
    } else if v.len() == 1 {
        v[0]
    } else {
        join_sep(v.drop_last(), sep).push(sep) + v.last()
    }
}

/// Append the characters of `s` to `out`.
pub fn push_str(out: &mut Vec<char>, s: &str)
    ensures
        final(out)@ == old(out)@ + s@,
{
    let t = str_chars(s);
    push_all(out, &t);
}

} // verus!

verus! {

pub open spec fn view_char_vecs(v: Seq<Vec<char>>) -> Seq<Seq<char>> {
    Seq::new(v.len(), |k: int| v[k]@)
}

/// The texts `v` joined by `sep`.
pub fn join_sep_exec(v: &Vec<Vec<char>>, sep: char) -> (r: Vec<char>)
    ensures
        r@ == join_sep(view_char_vecs(v@), sep),
{
    let ghost w = view_char_vecs(v@);
    let mut out: Vec<char> = Vec::new();
    let mut k: usize = 0;
    assert(w.subrange(0, 0) =~= Seq::<Seq<char>>::empty());
    while k < v.len()
        invariant
            w == view_char_vecs(v@),
            k <= v@.len(),
            out@ == join_sep(w.subrange(0, k as int), sep),
        decreases v@.len() - k,
    {
        assert(w.subrange(0, k + 1).drop_last() =~= w.subrange(0, k as int));
        if k > 0 {
            out.push(sep);
        } else {
            assert(w.subrange(0, 1) =~= seq![w[0]]);
        }
        push_all(&mut out, &v[k]);
        k = k + 1;
    }
    assert(w.subrange(0, v@.len() as int) =~= w);
    out
}

/// The characters of each string of `v`.
pub fn strings_chars(v: &Vec<String>) -> (r: Vec<Vec<char>>)
    ensures
        view_char_vecs(r@) == Seq::new(v@.len(), |k: int| v@[k]@),
{
    let mut r: Vec<Vec<char>> = Vec::new();
    let mut k: usize = 0;
    while k < v.len()
        invariant
            k <= v@.len(),
            view_char_vecs(r@) == Seq::new(k as nat, |m: int| v@[m]@),
        decreases v@.len() - k,
    {
        let c = str_chars(v[k].as_str());
        let ghost r0 = r@;
        r.push(c);
        assert(view_char_vecs(r@) =~= view_char_vecs(r0).push(c@));
        k = k + 1;
        assert(view_char_vecs(r@) =~= Seq::new(k as nat, |m: int| v@[m]@));
    }
    r
}

} // verus!
