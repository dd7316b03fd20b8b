//! Block-level parsing: the input is cut into lines, and the lines into
//! blocks (headings, fenced code, thematic breaks, block quotes, lists,
//! HTML blocks, GFM tables, paragraphs), with Kramdown attribute lines
//! attached to the block before them.

use vstd::prelude::*;
use crate::ast::{Block, Inline, KramdownAttributes, ListItem, TaskState};
use crate::ast::nodes::{SpecAttrs, SpecBlock, SpecListItem, SpecInline, view_block, view_blocks, view_item, view_items, view_inlines, view_opt_attrs, view_opt_str, view_attrs, view_table, block_attrs};
use crate::ast::span::{Position, Span};
use crate::config::ParseOptions;
use crate::parser::inline::{spec_parse_inline, parse_inline_chars, is_char, no_gfm_inlines, lemma_parse_inline_no_gfm};
use crate::parser::kramdown::{spec_kramdown_attrs, parse_kramdown_chars};
use crate::parser::gfm::{spec_is_table_delimiter, is_table_delimiter_chars, spec_alignments, parse_delimiter_alignments_chars, spec_table, table_of, view_vecs, contains_char, spec_task_marker, parse_task_marker_chars, ascii_digit, marker_end};
use crate::text::{spec_is_ws, is_ws, spec_is_ascii_digit, is_ascii_digit, spec_is_ascii_alpha, is_ascii_alpha, skip_ws, lemma_skip_ws, skip_ws_exec, trim, trim_start, trim_end, trim_vec, trim_back, trim_back_exec, lemma_trim_back, run_end, lemma_run_end, non_ws, non_ws_end, slice_vec, push_all, string_from_chars};

verus! {

// ---------------------------------------------------------------------------
// Lines
// ---------------------------------------------------------------------------

/// A line of the input (without its line break) and where it starts.
pub struct Line {
    pub text: Vec<char>,
    pub pos: Position,
}

pub struct SpecLine {
    pub text: Seq<char>,
    pub pos: Position,
}

pub open spec fn view_line(l: Line) -> SpecLine {
    SpecLine { text: l.text@, pos: l.pos }
}

pub open spec fn view_lines(v: Seq<Line>) -> Seq<SpecLine> {
    Seq::new(v.len(), |k: int| view_line(v[k]))
}

/// `k + 1`, saturating.
pub open spec fn sat_inc(k: int) -> usize {
    if k < usize::MAX { (k + 1) as usize } else { k as usize }
}

fn sat_inc_exec(k: usize) -> (r: usize)
    ensures
        r == sat_inc(k as int),
{
    if k < usize::MAX { k + 1 } else { k }
}

/// Line number `k` (0-based) of `s`, made of the characters `a..b`, without
/// a trailing carriage return.
pub open spec fn line_at(s: Seq<char>, a: int, b: int, k: int) -> SpecLine {
    let t = s.subrange(a, b);
    SpecLine {
        text: if t.len() > 0 && t[t.len() - 1] == '\r' { t.subrange(0, t.len() - 1) } else { t },
        pos: Position { line: sat_inc(k), column: 1, offset: a as usize },
    }
}

/// `str::lines` from index `i` on, the current line starting at `start`.
pub open spec fn lines_acc(s: Seq<char>, i: int, start: int, acc: Seq<SpecLine>) -> Seq<SpecLine>
    decreases s.len() - i,
{
    if i < 0 || i >= s.len() {
        if start < s.len() {
            acc.push(line_at(s, start, s.len() as int, acc.len() as int))
        } else {
            acc
        }
    } else if s[i] == '\n' {
        lines_acc(s, i + 1, i + 1, acc.push(line_at(s, start, i, acc.len() as int)))
    } else {
        lines_acc(s, i + 1, start, acc)
    }
}

/// The lines of `s`, as `str::lines` cuts them: at each `\n`, with no line
/// after a final `\n`, and without a trailing `\r`.
pub open spec fn spec_lines(s: Seq<char>) -> Seq<SpecLine> {
    lines_acc(s, 0, 0, Seq::empty())
}

/// The position after the last line of `s`.
pub open spec fn doc_end(s: Seq<char>) -> Position {
    Position { line: sat_inc(spec_lines(s).len() as int), column: 1, offset: s.len() as usize }
}

pub fn split_lines(s: &Vec<char>) -> (r: Vec<Line>)
    ensures
        view_lines(r@) == spec_lines(s@),
{
    let mut acc: Vec<Line> = Vec::new();
    let mut start: usize = 0;
    let mut i: usize = 0;
    assert(view_lines(acc@) =~= Seq::<SpecLine>::empty());
    while i < s.len()
        invariant
            start <= i <= s@.len(),
            lines_acc(s@, i as int, start as int, view_lines(acc@)) == spec_lines(s@),
        decreases s@.len() - i,
    {
        if s[i] == '\n' {
            let l = make_line(s, start, i, acc.len());
            let ghost a0 = acc@;
            acc.push(l);
            assert(view_lines(acc@) =~= view_lines(a0).push(view_line(l)));
            start = i + 1;
        }
        i = i + 1;
    }
    if start < s.len() {
        let l = make_line(s, start, s.len(), acc.len());
        let ghost a0 = acc@;
        acc.push(l);
        assert(view_lines(acc@) =~= view_lines(a0).push(view_line(l)));
    }
    acc
}

fn make_line(s: &Vec<char>, a: usize, b: usize, k: usize) -> (l: Line)
    requires
        a <= b <= s@.len(),
    ensures
        view_line(l) == line_at(s@, a as int, b as int, k as int),
{
    let t = slice_vec(s, a, b);
    let text = if t.len() > 0 && t[t.len() - 1] == '\r' { slice_vec(&t, 0, t.len() - 1) } else { t };
    Line { text, pos: Position { line: sat_inc_exec(k), column: 1, offset: a } }
}

/// The size of a list of lines: its characters plus one per line.
pub open spec fn lines_size(l: Seq<SpecLine>) -> nat
    decreases l.len(),
{
    if l.len() == 0 {
        0
    } else {
        lines_size(l.drop_last()) + l.last().text.len() + 1
    }
}

proof fn lemma_size_prefix(l: Seq<SpecLine>, i: int, j: int)
    requires
        0 <= i <= j <= l.len(),
    ensures
        lines_size(l.subrange(i, j)) <= lines_size(l.subrange(0, j)),
    decreases j - i,
{
    if i < j {
        lemma_size_prefix(l, i, j - 1);
        assert(l.subrange(i, j).drop_last() =~= l.subrange(i, j - 1));
        assert(l.subrange(0, j).drop_last() =~= l.subrange(0, j - 1));
    }
}

proof fn lemma_size_whole(l: Seq<SpecLine>, j: int)
    requires
        0 <= j <= l.len(),
    ensures
        lines_size(l.subrange(0, j)) <= lines_size(l),
    decreases l.len() - j,
{
    if j < l.len() {
        lemma_size_whole(l, j + 1);
        assert(l.subrange(0, j + 1).drop_last() =~= l.subrange(0, j));
    } else {
        assert(l.subrange(0, j) =~= l);
    }
}

proof fn lemma_size_pointwise(a: Seq<SpecLine>, b: Seq<SpecLine>)
    requires
        a.len() == b.len(),
        forall|m: int| 0 <= m < a.len() ==> (#[trigger] a[m]).text.len() <= b[m].text.len(),
    ensures
        lines_size(a) <= lines_size(b),
        a.len() > 0 && a[0].text.len() < b[0].text.len() ==> lines_size(a) < lines_size(b),
    decreases a.len(),
{
    if a.len() > 0 {
        lemma_size_pointwise(a.drop_last(), b.drop_last());
        if a.len() == 1 {
            assert(a.drop_last().len() == 0);
        } else {
            assert(a.drop_last()[0] == a[0]);
            assert(b.drop_last()[0] == b[0]);
        }
    }
}

/// Lines `i..j` of `l`, each made shorter (the first strictly), have a
/// smaller size than `l`.
proof fn lemma_size_sub(l: Seq<SpecLine>, i: int, j: int, sub: Seq<SpecLine>)
    requires
        0 <= i < j <= l.len(),
        sub.len() == j - i,
        forall|m: int| 0 <= m < sub.len() ==> (#[trigger] sub[m]).text.len() <= l[i + m].text.len(),
        sub[0].text.len() < l[i].text.len(),
    ensures
        lines_size(sub) < lines_size(l),
{
    let mid = l.subrange(i, j);
    assert forall|m: int| 0 <= m < sub.len() implies (#[trigger] sub[m]).text.len() <= mid[m].text.len() by {}
    lemma_size_pointwise(sub, mid);
    lemma_size_prefix(l, i, j);
    lemma_size_whole(l, j);
}


// ---------------------------------------------------------------------------
// Line classes
// ---------------------------------------------------------------------------

/// A line of white space only.
pub open spec fn is_blank(t: Seq<char>) -> bool {
    skip_ws(t, 0) >= t.len()
}

/// An ATX heading line: `#`…`######` followed by white space or the end of
/// the line; the level and the trimmed content.
pub open spec fn spec_atx(t: Seq<char>) -> Option<(int, Seq<char>)> {
    let u = trim_start(t);
    let h = run_end(u, 0, is_char('#'));
    if 1 <= h <= 6 && (h == u.len() || spec_is_ws(u[h])) {
        Some((h, trim(u.subrange(h, u.len() as int))))
    } else {
        None
    }
}

/// The first index at or after `p` where an attribute block that reaches
/// the end of `c` starts, with its attributes.
pub open spec fn find_attr_suffix(c: Seq<char>, p: int) -> Option<(int, SpecAttrs)>
    decreases c.len() - p,
{
    if p < 0 || p >= c.len() {
        None
    } else {
        match spec_kramdown_attrs(c.subrange(p, c.len() as int)) {
            Some((a, n)) => if c[p] == '{' && p + n == c.len() {
                Some((p, a))
            } else {
                find_attr_suffix(c, p + 1)
            },
            None => find_attr_suffix(c, p + 1),
        }
    }
}

/// The text and attributes of a heading whose content is `c`: with
/// Kramdown, an attribute block at the end of the content applies to the
/// heading.
pub open spec fn heading_parts(c: Seq<char>, kramdown: bool) -> (Seq<char>, Option<SpecAttrs>) {
    if kramdown {
        match find_attr_suffix(c, 0) {
            Some((p, a)) => (trim_end(c.subrange(0, p)), Some(a)),
            None => (c, None),
        }
    } else {
        (c, None)
    }
}

/// An opening code fence: three or more backticks or tildes; the fence
/// character, its count, and the trimmed info string.
pub open spec fn spec_fence_open(t: Seq<char>) -> Option<(char, int, Seq<char>)> {
    let u = trim_start(t);
    if u.len() >= 3 && (u[0] == '`' || u[0] == '~') {
        let n = run_end(u, 0, is_char(u[0]));
        if n >= 3 {
            Some((u[0], n, trim(u.subrange(n, u.len() as int))))
        } else {
            None
        }
    } else {
        None
    }
}

/// A closing code fence: at least `n` fence characters `fc` and nothing
/// but white space after them.
pub open spec fn spec_fence_close(t: Seq<char>, fc: char, n: int) -> bool {
    let u = trim_start(t);
    let m = run_end(u, 0, is_char(fc));
    m >= n && is_blank(u.subrange(m, u.len() as int))
}

/// The number of occurrences of `c` in `s`.
pub open spec fn count_char(s: Seq<char>, c: char) -> nat
    decreases s.len(),
{
    if s.len() == 0 {
        0
    } else {
        count_char(s.drop_last(), c) + if s.last() == c { 1nat } else { 0nat }
    }
}

/// A thematic break: three or more of the same `-`, `*` or `_`, with only
/// spaces and tabs besides.
pub open spec fn spec_thematic(t: Seq<char>) -> bool {
    let u = trim(t);
    &&& u.len() > 0
    &&& (u[0] == '-' || u[0] == '*' || u[0] == '_')
    &&& forall|k: int| 0 <= k < u.len() ==> (#[trigger] u[k] == u[0] || u[k] == ' ' || u[k] == '\t')
    &&& count_char(u, u[0]) >= 3
}

/// A block quote line: `>` after the leading white space.
pub open spec fn is_quote_line(t: Seq<char>) -> bool {
    let u = trim_start(t);
    u.len() > 0 && u[0] == '>'
}

/// A block quote line without its `>` and one space after it.
pub open spec fn quote_strip(t: Seq<char>) -> Seq<char> {
    let u = trim_start(t);
    let q = u.subrange(1, u.len() as int);
    if q.len() > 0 && q[0] == ' ' { q.subrange(1, q.len() as int) } else { q }
}

/// A list item line: `-`, `*` or `+`, or one to nine digits and `.` or `)`,
/// followed by white space or the end of the line.  Whether the list is
/// ordered, and the index in `t` just after the marker.
pub open spec fn spec_list_marker(t: Seq<char>) -> Option<(bool, int)> {
    let l = skip_ws(t, 0);
    let u = t.subrange(l, t.len() as int);
    if u.len() > 0 && (u[0] == '-' || u[0] == '*' || u[0] == '+') && (u.len() == 1 || spec_is_ws(u[1])) {
        Some((false, l + 1))
    } else {
        let d = run_end(u, 0, ascii_digit());
        if 1 <= d <= 9 && d < u.len() && (u[d] == '.' || u[d] == ')') && (d + 1 == u.len() || spec_is_ws(u[d + 1])) {
            Some((true, l + d + 1))
        } else {
            None
        }
    }
}

/// The start of an HTML block: `<` followed by an ASCII letter, `/` or `!`.
pub open spec fn is_html_start(t: Seq<char>) -> bool {
    let u = trim_start(t);
    u.len() >= 2 && u[0] == '<' && (spec_is_ascii_alpha(u[1]) || u[1] == '/' || u[1] == '!')
}

/// A Kramdown attribute line: an attribute block and nothing after it but
/// white space.
pub open spec fn spec_attr_line(t: Seq<char>) -> Option<SpecAttrs> {
    match spec_kramdown_attrs(t) {
        Some((a, n)) => if 0 <= n <= trim_start(t).len() && is_blank(trim_start(t).subrange(n, trim_start(t).len() as int)) {
            Some(a)
        } else {
            None
        },
        None => None,
    }
}

/// A line that ends a paragraph because another block starts on it.
pub open spec fn interrupts(t: Seq<char>, o: ParseOptions) -> bool {
    ||| spec_fence_open(t) is Some
    ||| spec_atx(t) is Some
    ||| spec_thematic(t)
    ||| is_quote_line(t)
    ||| spec_list_marker(t) is Some
    ||| is_html_start(t)
    ||| (o.kramdown && spec_attr_line(t) is Some)
}

// ---------------------------------------------------------------------------
// Ranges of lines
// ---------------------------------------------------------------------------

/// The position of line `j`, or `end` after the last line.
pub open spec fn pos_after(l: Seq<SpecLine>, j: int, end: Position) -> Position {
    if 0 <= j < l.len() { l[j].pos } else { end }
}

/// The span of lines `i..j`.
pub open spec fn block_span(l: Seq<SpecLine>, i: int, j: int, end: Position) -> Span {
    Span { start: l[i].pos, end: pos_after(l, j, end) }
}

/// The texts of lines `i..j`.
pub open spec fn texts(l: Seq<SpecLine>, i: int, j: int) -> Seq<Seq<char>> {
    Seq::new((j - i) as nat, |m: int| l[i + m].text)
}

/// Texts joined by line breaks.
pub open spec fn join_lines(v: Seq<Seq<char>>) -> Seq<char>
    decreases v.len(),
{
    if v.len() == 0 {
        Seq::empty()
    } else if v.len() == 1 {
        v[0]
    } else {
        join_lines(v.drop_last()).push('\n') + v.last()
    }
}

/// The first line at or after `k` that closes a fence of `n` characters `fc`.
pub open spec fn fence_end(l: Seq<SpecLine>, k: int, fc: char, n: int) -> int
    decreases l.len() - k,
{
    if k < 0 || k >= l.len() || spec_fence_close(l[k].text, fc, n) {
        k
    } else {
        fence_end(l, k + 1, fc, n)
    }
}

/// The first line at or after `k` that is not a block quote line.
pub open spec fn quote_end(l: Seq<SpecLine>, k: int) -> int
    decreases l.len() - k,
{
    if k < 0 || k >= l.len() || !is_quote_line(l[k].text) {
        k
    } else {
        quote_end(l, k + 1)
    }
}

/// The first line at or after `k` that is blank.
pub open spec fn blank_end(l: Seq<SpecLine>, k: int) -> int
    decreases l.len() - k,
{
    if k < 0 || k >= l.len() || is_blank(l[k].text) {
        k
    } else {
        blank_end(l, k + 1)
    }
}

/// The first line at or after `k` that is not blank.
pub open spec fn skip_blank(l: Seq<SpecLine>, k: int) -> int
    decreases l.len() - k,
{
    if k < 0 || k >= l.len() || !is_blank(l[k].text) {
        k
    } else {
        skip_blank(l, k + 1)
    }
}

/// The first line at or after `k` that ends a table body: blank or without
/// a `|`.
pub open spec fn table_end(l: Seq<SpecLine>, k: int) -> int
    decreases l.len() - k,
{
    if k < 0 || k >= l.len() || is_blank(l[k].text) || !l[k].text.contains('|') {
        k
    } else {
        table_end(l, k + 1)
    }
}

/// A line that continues a list item: not blank and indented.
pub open spec fn is_continuation(t: Seq<char>) -> bool {
    !is_blank(t) && spec_is_ws(t[0])
}

/// The first line at or after `k` that does not continue a list item.
pub open spec fn item_end(l: Seq<SpecLine>, k: int) -> int
    decreases l.len() - k,
{
    if k < 0 || k >= l.len() || !is_continuation(l[k].text) {
        k
    } else {
        item_end(l, k + 1)
    }
}

/// The first line at or after `k` that ends a paragraph: blank, or the
/// start of another block.
pub open spec fn para_end(l: Seq<SpecLine>, k: int, o: ParseOptions) -> int
    decreases l.len() - k,
{
    if k < 0 || k >= l.len() || is_blank(l[k].text) || interrupts(l[k].text, o) {
        k
    } else {
        para_end(l, k + 1, o)
    }
}

// ---------------------------------------------------------------------------
// Blocks
// ---------------------------------------------------------------------------

/// The lines of a block quote, without their markers.
pub open spec fn quote_lines(l: Seq<SpecLine>, i: int, j: int) -> Seq<SpecLine> {
    Seq::new((j - i) as nat, |m: int| SpecLine { text: quote_strip(l[i + m].text), pos: l[i + m].pos })
}

/// A continuation line of a list item without up to `indent` characters
/// of leading white space.
pub open spec fn cont_strip(t: Seq<char>, indent: int) -> Seq<char> {
    let w = skip_ws(t, 0);
    t.subrange(if w < indent { w } else { indent }, t.len() as int)
}

/// The task state and first content line of a list item line whose marker
/// ends at `m`.
pub open spec fn item_first(t: Seq<char>, m: int, gfm: bool) -> (Option<TaskState>, Seq<char>) {
    let plain = (None, trim_start(t.subrange(m, t.len() as int)));
    if gfm {
        match spec_task_marker(t) {
            Some((st, off)) => if off <= trim_start(t).len() {
                (Some(st), trim_start(trim_start(t).subrange(off, trim_start(t).len() as int)))
            } else {
                plain
            },
            None => plain,
        }
    } else {
        plain
    }
}

/// The content of a task item starts after its box, whatever the box's
/// state: on the line `marker ws box content` (the marker `-`, `*` or `+`,
/// or digits and `.` or `)`; `ws` white space; the box `[ ]`, `[x]` or
/// `[X]`), the item is a task, unchecked for `[ ]` and checked otherwise,
/// and its first line is the content without its leading white space.
/// So `- [ ] c` and `- [x] c` have the same text, and the box is never part
/// of it.
pub proof fn lemma_task_content_after_box(mk: Seq<char>, w: Seq<char>, bx: Seq<char>, c: Seq<char>)
    requires
        (mk.len() == 1 && (mk[0] == '-' || mk[0] == '*' || mk[0] == '+')) || (mk.len() >= 2
            && (mk[mk.len() - 1] == '.' || mk[mk.len() - 1] == ')') && forall|k: int|
            0 <= k < mk.len() - 1 ==> spec_is_ascii_digit(#[trigger] mk[k])),
        forall|k: int| 0 <= k < w.len() ==> spec_is_ws(#[trigger] w[k]),
        bx == seq!['[', ' ', ']'] || bx == seq!['[', 'x', ']'] || bx == seq!['[', 'X', ']'],
    ensures
        item_first(mk + w + bx + c, mk.len() as int, true) == (
            Some(if bx[1] == ' ' { TaskState::Unchecked } else { TaskState::Checked }),
            trim_start(c),
        ),
{
    let t = mk + w + bx + c;
    let m = mk.len() as int;
    assert(t[0] == mk[0]);
    assert(!spec_is_ws(t[0]));
    assert(skip_ws(t, 0) == 0);
    assert(trim_start(t) =~= t);
    if mk.len() >= 2 {
        assert(!(t[0] == '-' || t[0] == '*' || t[0] == '+')) by {
            assert(spec_is_ascii_digit(mk[0]));
        }
        assert forall|k: int| 0 <= k < m - 1 implies #[trigger] (ascii_digit())(t[k]) by {
            assert(t[k] == mk[k]);
            assert(spec_is_ascii_digit(mk[k]));
        }
        assert(t[m - 1] == mk[m - 1]);
        crate::text::lemma_run_end_to(t, 0, m - 1, ascii_digit());
    }
    assert(marker_end(t) == Some(m));
    let after = t.subrange(m, t.len() as int);
    assert(after =~= w + bx + c);
    assert forall|k: int| 0 <= k < w.len() implies spec_is_ws(#[trigger] after[k]) by {
        assert(after[k] == w[k]);
    }
    assert(after[w.len() as int] == '[');
    crate::text::lemma_skip_ws_to(after, 0, w.len() as int);
    assert(after.subrange(w.len() as int, w.len() + 3int) =~= bx);
    let off = m + w.len() + 3;
    assert(trim_start(t).subrange(off, trim_start(t).len() as int) =~= c);
}

/// The lines of a list item on lines `i..j`: the first line's content and
/// the continuation lines with their indentation removed.
pub open spec fn item_lines(l: Seq<SpecLine>, i: int, j: int, first: Seq<char>, indent: int) -> Seq<SpecLine> {
    Seq::new(
        (j - i) as nat,
        |m: int|
            if m == 0 {
                SpecLine { text: first, pos: l[i].pos }
            } else {
                SpecLine { text: cont_strip(l[i + m].text, indent), pos: l[i + m].pos }
            },
    )
}

/// The blocks of the lines `l` (the position after the last one is `end`).
pub open spec fn spec_parse_blocks(l: Seq<SpecLine>, end: Position, o: ParseOptions) -> Seq<SpecBlock>
    decreases lines_size(l), l.len() + 3, 0int,
{
    block_scan(l, end, o, 0, false, Seq::empty())
}

/// Whether Kramdown attributes can be attached to the block.
pub open spec fn can_attach(b: SpecBlock) -> bool {
    !(b is HtmlBlock)
}

/// The block with its attributes replaced by `a`.
pub open spec fn with_attrs(b: SpecBlock, a: SpecAttrs) -> SpecBlock {
    match b {
        SpecBlock::Heading { level, children, attrs, position } => SpecBlock::Heading { level, children, attrs: Some(a), position },
        SpecBlock::Paragraph { children, attrs, position } => SpecBlock::Paragraph { children, attrs: Some(a), position },
        SpecBlock::CodeBlock { lang, code, attrs, position } => SpecBlock::CodeBlock { lang, code, attrs: Some(a), position },
        SpecBlock::BlockQuote { children, attrs, position } => SpecBlock::BlockQuote { children, attrs: Some(a), position },
        SpecBlock::List { ordered, items, attrs, position } => SpecBlock::List { ordered, items, attrs: Some(a), position },
        SpecBlock::ThematicBreak { attrs, position } => SpecBlock::ThematicBreak { attrs: Some(a), position },
        SpecBlock::HtmlBlock { html, position } => SpecBlock::HtmlBlock { html, position },
        SpecBlock::Table { table, attrs, position } => SpecBlock::Table { table, attrs: Some(a), position },
    }
}

/// The blocks of lines `i..` of `l`, after the blocks `acc`; `attach` says
/// whether the previous line ended a block (so that an attribute line
/// applies to it).  Blank lines separate blocks; with Kramdown, an
/// attribute line right after a block (other than an HTML block) sets that
/// block's attributes.
pub open spec fn block_scan(l: Seq<SpecLine>, end: Position, o: ParseOptions, i: int, attach: bool, acc: Seq<SpecBlock>) -> Seq<SpecBlock>
    decreases lines_size(l), l.len() - i + 2, 0int,
{
    if i < 0 || i >= l.len() {
        acc
    } else if is_blank(l[i].text) {
        block_scan(l, end, o, i + 1, false, acc)
    } else if o.kramdown && attach && acc.len() > 0 && can_attach(acc.last()) && spec_attr_line(l[i].text) is Some {
        block_scan(l, end, o, i + 1, false, acc.drop_last().push(with_attrs(acc.last(), spec_attr_line(l[i].text).unwrap())))
    } else {
        let (b, j) = spec_block_at(l, end, o, i);
        if i < j <= l.len() {
            block_scan(l, end, o, j, true, acc.push(b))
        } else {
            acc
        }
    }
}

/// Fenced code from line `i`: the lines up to the closing fence (or the
/// end); the language is the first word of the info string.
pub open spec fn spec_code_block(l: Seq<SpecLine>, end: Position, i: int) -> (SpecBlock, int) {
    let (fc, n, info) = spec_fence_open(l[i].text).unwrap();
    let j = fence_end(l, i + 1, fc, n);
    let next = if j < l.len() { j + 1 } else { j };
    (
        SpecBlock::CodeBlock {
            lang: if info.len() > 0 { Some(info.subrange(0, run_end(info, 0, non_ws()))) } else { None },
            code: join_lines(texts(l, i + 1, j)),
            attrs: None,
            position: block_span(l, i, next, end),
        },
        next,
    )
}

/// An ATX heading on line `i`.
pub open spec fn spec_heading_block(l: Seq<SpecLine>, end: Position, o: ParseOptions, i: int) -> (SpecBlock, int) {
    let (h, c) = spec_atx(l[i].text).unwrap();
    let (text, attrs) = heading_parts(c, o.kramdown);
    (
        SpecBlock::Heading {
            level: h as u8,
            children: spec_parse_inline(text, o.gfm),
            attrs,
            position: block_span(l, i, i + 1, end),
        },
        i + 1,
    )
}

/// A block quote from line `i`: the block quote lines, without their
/// markers, parsed as blocks.
pub open spec fn spec_quote_block(l: Seq<SpecLine>, end: Position, o: ParseOptions, i: int) -> (SpecBlock, int)
    decreases lines_size(l), 0int, 0int,
{
    let j = quote_end(l, i);
    let sub = quote_lines(l, i, j);
    if lines_size(sub) < lines_size(l) {
        (
            SpecBlock::BlockQuote {
                children: spec_parse_blocks(sub, pos_after(l, j, end), o),
                attrs: None,
                position: block_span(l, i, j, end),
            },
            j,
        )
    } else {
        (SpecBlock::ThematicBreak { attrs: None, position: Span::empty() }, i)
    }
}

/// A GFM table from line `i`: header, delimiter row, and the body lines
/// up to a blank line or a line without `|`.
pub open spec fn spec_table_block(l: Seq<SpecLine>, end: Position, i: int) -> (SpecBlock, int) {
    let j = table_end(l, i + 2);
    (
        SpecBlock::Table {
            table: spec_table(l[i].text, spec_alignments(l[i + 1].text), texts(l, i + 2, j)),
            attrs: None,
            position: block_span(l, i, j, end),
        },
        j,
    )
}

proof fn lemma_table_end(l: Seq<SpecLine>, k: int)
    requires
        0 <= k <= l.len(),
    ensures
        k <= table_end(l, k) <= l.len(),
        forall|m: int| k <= m < table_end(l, k) ==> !is_blank(#[trigger] l[m].text) && l[m].text.contains('|'),
        table_end(l, k) < l.len() ==> is_blank(l[table_end(l, k)].text) || !l[table_end(l, k)].text.contains('|'),
    decreases l.len() - k,
{
    if k < l.len() && !is_blank(l[k].text) && l[k].text.contains('|') {
        lemma_table_end(l, k + 1);
    }
}

/// A GFM table's body holds every line after the delimiter row up to the
/// first blank line, the first line without `|`, or the end of the input:
/// the table that starts on line `i` ends at a line `j` such that each of
/// the lines `i + 2..j` is non-blank and holds a `|`, and line `j` (if
/// there is one) is blank or holds none; the table's header is the row of
/// line `i`, its column alignments are those of the delimiter row on line
/// `i + 1`, and its body rows are the rows of the lines `i + 2..j`, one per
/// line, in order.
pub proof fn lemma_table_takes_every_body_line(l: Seq<SpecLine>, end: Position, i: int)
    requires
        0 <= i,
        i + 2 <= l.len(),
    ensures
        ({
            let (b, j) = spec_table_block(l, end, i);
            &&& i + 2 <= j <= l.len()
            &&& forall|k: int| i + 2 <= k < j ==> !is_blank(#[trigger] l[k].text) && l[k].text.contains('|')
            &&& j < l.len() ==> is_blank(l[j].text) || !l[j].text.contains('|')
            &&& b is Table
            &&& b->table.header == crate::parser::gfm::spec_row(l[i].text)
            &&& b->table.alignments == spec_alignments(l[i + 1].text)
            &&& b->table.rows.len() == j - (i + 2)
            &&& forall|m: int| 0 <= m < j - (i + 2) ==> #[trigger] b->table.rows[m] == crate::parser::gfm::spec_row(l[i + 2 + m].text)
        }),
{
    lemma_table_end(l, i + 2);
}

/// A list from line `i`.
pub open spec fn spec_list_block(l: Seq<SpecLine>, end: Position, o: ParseOptions, i: int) -> (SpecBlock, int)
    decreases lines_size(l), 0int, l.len() + 1,
{
    if 0 <= i < l.len() {
        let ordered = spec_list_marker(l[i].text).unwrap().0;
        let (items, j) = list_scan(l, end, o, ordered, i, Seq::empty());
        (SpecBlock::List { ordered, items, attrs: None, position: block_span(l, i, j, end) }, j)
    } else {
        (SpecBlock::ThematicBreak { attrs: None, position: Span::empty() }, i)
    }
}

/// An HTML block from line `i` up to a blank line, kept as written.
pub open spec fn spec_html_block(l: Seq<SpecLine>, end: Position, i: int) -> (SpecBlock, int) {
    let j = blank_end(l, i + 1);
    (SpecBlock::HtmlBlock { html: join_lines(texts(l, i, j)), position: block_span(l, i, j, end) }, j)
}

/// The text of the paragraph on lines `i..j`: the lines without leading
/// white space, joined, without trailing white space.
pub open spec fn para_text(l: Seq<SpecLine>, i: int, j: int) -> Seq<char> {
    trim_end(join_lines(Seq::new((j - i) as nat, |m: int| trim_start(l[i + m].text))))
}

/// A paragraph from line `i` up to a blank line or another block.
pub open spec fn spec_para_block(l: Seq<SpecLine>, end: Position, o: ParseOptions, i: int) -> (SpecBlock, int) {
    let j = para_end(l, i + 1, o);
    (
        SpecBlock::Paragraph {
            children: spec_parse_inline(para_text(l, i, j), o.gfm),
            attrs: None,
            position: block_span(l, i, j, end),
        },
        j,
    )
}

/// The block that starts on line `i` (not blank) and the line after it.
/// In this order: fenced code, ATX heading, thematic break, block quote,
/// (GFM) table, list, HTML block, paragraph.
pub open spec fn spec_block_at(l: Seq<SpecLine>, end: Position, o: ParseOptions, i: int) -> (SpecBlock, int)
    decreases lines_size(l), 1int, 0int,
{
    if i < 0 || i >= l.len() {
        (SpecBlock::ThematicBreak { attrs: None, position: Span::empty() }, i)
    } else {
        let t = l[i].text;
        if spec_fence_open(t) is Some {
            spec_code_block(l, end, i)
        } else if spec_atx(t) is Some {
            spec_heading_block(l, end, o, i)
        } else if spec_thematic(t) {
            (SpecBlock::ThematicBreak { attrs: None, position: block_span(l, i, i + 1, end) }, i + 1)
        } else if is_quote_line(t) {
            spec_quote_block(l, end, o, i)
        } else if o.gfm && i + 1 < l.len() && t.contains('|') && spec_is_table_delimiter(l[i + 1].text) {
            spec_table_block(l, end, i)
        } else if spec_list_marker(t) is Some {
            spec_list_block(l, end, o, i)
        } else if is_html_start(t) {
            spec_html_block(l, end, i)
        } else {
            spec_para_block(l, end, o, i)
        }
    }
}

/// The inline content of a heading or paragraph uses no GFM extension (see
/// [`crate::parser::inline::no_gfm_inline`]).
pub open spec fn text_no_gfm(b: SpecBlock) -> bool {
    match b {
        SpecBlock::Heading { children, .. } => no_gfm_inlines(children),
        SpecBlock::Paragraph { children, .. } => no_gfm_inlines(children),
        _ => true,
    }
}

/// What a block looks like when an extension is off: with Kramdown off it
/// carries no attributes, and with GFM off it is not a table and its text
/// holds no strikethrough and no bare-URL autolink.
pub open spec fn plain_block(b: SpecBlock, o: ParseOptions) -> bool {
    &&& !o.kramdown ==> block_attrs(b) is None
    &&& !o.gfm ==> !(b is Table) && text_no_gfm(b)
}

/// The block and every block nested in it (in block quotes and list
/// items) are plain.
pub open spec fn plain_tree(b: SpecBlock, o: ParseOptions) -> bool
    decreases b,
{
    &&& plain_block(b, o)
    &&& match b {
        SpecBlock::BlockQuote { children, .. } => plain_trees(children, o),
        SpecBlock::List { items, .. } => plain_items(items, o),
        _ => true,
    }
}

/// Every block of `s`, and every block nested in one, is plain.
pub open spec fn plain_trees(s: Seq<SpecBlock>, o: ParseOptions) -> bool
    decreases s,
{
    if s.len() == 0 {
        true
    } else {
        plain_trees(s.drop_last(), o) && plain_tree(s.last(), o)
    }
}

/// Every block of every item of `s`, and every block nested in one, is
/// plain; with GFM off no item is a task.
pub open spec fn plain_items(s: Seq<SpecListItem>, o: ParseOptions) -> bool
    decreases s,
{
    if s.len() == 0 {
        true
    } else {
        &&& plain_items(s.drop_last(), o)
        &&& plain_trees(s.last().children, o)
        &&& !o.gfm ==> s.last().task is None
    }
}

proof fn lemma_plain_trees_push(s: Seq<SpecBlock>, b: SpecBlock, o: ParseOptions)
    ensures
        plain_trees(s.push(b), o) == (plain_trees(s, o) && plain_tree(b, o)),
{
    assert(s.push(b).drop_last() =~= s);
}

proof fn lemma_plain_items_push(s: Seq<SpecListItem>, it: SpecListItem, o: ParseOptions)
    ensures
        plain_items(s.push(it), o) == (plain_items(s, o) && plain_trees(it.children, o) && (!o.gfm ==> it.task is None)),
{
    assert(s.push(it).drop_last() =~= s);
}

/// Every block, nested or not, that the lines parse to is plain.
pub proof fn lemma_parse_blocks_plain(l: Seq<SpecLine>, end: Position, o: ParseOptions)
    ensures
        plain_trees(spec_parse_blocks(l, end, o), o),
    decreases lines_size(l), l.len() + 3, 0int,
{
    assert(spec_parse_blocks(l, end, o) == block_scan(l, end, o, 0, false, Seq::empty()));
    lemma_block_scan_plain(l, end, o, 0, false, Seq::empty());
}

proof fn lemma_block_scan_plain(l: Seq<SpecLine>, end: Position, o: ParseOptions, i: int, attach: bool, acc: Seq<SpecBlock>)
    requires
        plain_trees(acc, o),
    ensures
        plain_trees(block_scan(l, end, o, i, attach, acc), o),
    decreases lines_size(l), l.len() - i + 2, 0int,
{
    if i < 0 || i >= l.len() {
    } else if is_blank(l[i].text) {
        assert(block_scan(l, end, o, i, attach, acc) == block_scan(l, end, o, i + 1, false, acc));
        lemma_block_scan_plain(l, end, o, i + 1, false, acc);
    } else if o.kramdown && attach && acc.len() > 0 && can_attach(acc.last()) && spec_attr_line(l[i].text) is Some {
        let b = with_attrs(acc.last(), spec_attr_line(l[i].text).unwrap());
        let acc2 = acc.drop_last().push(b);
        assert(plain_tree(b, o) == plain_tree(acc.last(), o));
        lemma_plain_trees_push(acc.drop_last(), b, o);
        assert(block_scan(l, end, o, i, attach, acc) == block_scan(l, end, o, i + 1, false, acc2));
        lemma_block_scan_plain(l, end, o, i + 1, false, acc2);
    } else {
        let (b, j) = spec_block_at(l, end, o, i);
        lemma_block_at_plain(l, end, o, i);
        if i < j <= l.len() {
            let acc2 = acc.push(b);
            lemma_plain_trees_push(acc, b, o);
            assert(block_scan(l, end, o, i, attach, acc) == block_scan(l, end, o, j, true, acc2));
            lemma_block_scan_plain(l, end, o, j, true, acc2);
        } else {
            assert(block_scan(l, end, o, i, attach, acc) == acc);
        }
    }
}

proof fn lemma_block_at_plain(l: Seq<SpecLine>, end: Position, o: ParseOptions, i: int)
    ensures
        plain_tree(spec_block_at(l, end, o, i).0, o),
    decreases lines_size(l), 1int, 0int,
{
    if 0 <= i < l.len() {
        let t = l[i].text;
        if spec_fence_open(t) is Some {
        } else if spec_atx(t) is Some {
            let (h, c) = spec_atx(t).unwrap();
            assert(!o.kramdown ==> heading_parts(c, o.kramdown).1 is None);
            if !o.gfm {
                lemma_parse_inline_no_gfm(heading_parts(c, o.kramdown).0);
            }
        } else if spec_thematic(t) {
        } else if is_quote_line(t) {
            let j = quote_end(l, i);
            let sub = quote_lines(l, i, j);
            if lines_size(sub) < lines_size(l) {
                lemma_parse_blocks_plain(sub, pos_after(l, j, end), o);
            }
        } else if o.gfm && i + 1 < l.len() && t.contains('|') && spec_is_table_delimiter(l[i + 1].text) {
        } else if spec_list_marker(t) is Some {
            let ordered = spec_list_marker(t).unwrap().0;
            lemma_list_scan_plain(l, end, o, ordered, i, Seq::empty());
        } else if is_html_start(t) {
        } else {
            let j = para_end(l, i + 1, o);
            if !o.gfm {
                lemma_parse_inline_no_gfm(para_text(l, i, j));
            }
        }
    }
}

proof fn lemma_list_scan_plain(l: Seq<SpecLine>, end: Position, o: ParseOptions, ordered: bool, i: int, items: Seq<SpecListItem>)
    requires
        plain_items(items, o),
    ensures
        plain_items(list_scan(l, end, o, ordered, i, items).0, o),
    decreases lines_size(l), 0int, l.len() - i,
{
    if 0 <= i < l.len() {
        match spec_list_marker(l[i].text) {
            None => {},
            Some((ord, m)) => if ord == ordered {
                let (task, first) = item_first(l[i].text, m, o.gfm);
                let e = item_end(l, i + 1);
                let sub = item_lines(l, i, e, first, m + 1);
                if lines_size(sub) < lines_size(l) {
                    let item = SpecListItem {
                        task,
                        children: spec_parse_blocks(sub, pos_after(l, e, end), o),
                        position: block_span(l, i, e, end),
                    };
                    lemma_parse_blocks_plain(sub, pos_after(l, e, end), o);
                    lemma_plain_items_push(items, item, o);
                    let n = skip_blank(l, e);
                    if i < n < l.len() && continues_list(l[n].text, ordered) {
                        lemma_list_scan_plain(l, end, o, ordered, n, items.push(item));
                    }
                }
            },
        }
    }
}

/// A line that continues a list of kind `ordered` after an item.
pub open spec fn continues_list(t: Seq<char>, ordered: bool) -> bool {
    match spec_list_marker(t) {
        Some((o2, _)) => o2 == ordered && !spec_thematic(t),
        None => false,
    }
}

/// The items of a list of kind `ordered` from line `i` on, after `items`;
/// and the line after the list.  An item holds its first line and the
/// continuation lines after it; blank lines may separate items.
pub open spec fn list_scan(l: Seq<SpecLine>, end: Position, o: ParseOptions, ordered: bool, i: int, items: Seq<SpecListItem>) -> (Seq<SpecListItem>, int)
    decreases lines_size(l), 0int, l.len() - i,
{
    if i < 0 || i >= l.len() {
        (items, i)
    } else {
        match spec_list_marker(l[i].text) {
            None => (items, i),
            Some((ord, m)) => if ord != ordered {
                (items, i)
            } else {
                let (task, first) = item_first(l[i].text, m, o.gfm);
                let e = item_end(l, i + 1);
                let sub = item_lines(l, i, e, first, m + 1);
                if lines_size(sub) < lines_size(l) {
                    let item = SpecListItem {
                        task,
                        children: spec_parse_blocks(sub, pos_after(l, e, end), o),
                        position: block_span(l, i, e, end),
                    };
                    let n = skip_blank(l, e);
                    if i < n < l.len() && continues_list(l[n].text, ordered) {
                        list_scan(l, end, o, ordered, n, items.push(item))
                    } else {
                        (items.push(item), e)
                    }
                } else {
                    (items, i)
                }
            },
        }
    }
}


// ---------------------------------------------------------------------------
// Line classes, executable
// ---------------------------------------------------------------------------

fn is_blank_exec(t: &Vec<char>) -> (b: bool)
    ensures
        b == is_blank(t@),
{
    skip_ws_exec(t, 0) >= t.len()
}

fn trim_start_vec(t: &Vec<char>) -> (r: Vec<char>)
    ensures
        r@ == trim_start(t@),
        r@.len() <= t@.len(),
{
    let a = skip_ws_exec(t, 0);
    slice_vec(t, a, t.len())
}

fn char_run_end(s: &Vec<char>, i: usize, c: char) -> (r: usize)
    requires
        i <= s@.len(),
    ensures
        r == run_end(s@, i as int, is_char(c)),
        i <= r <= s@.len(),
{
    let mut j = i;
    while j < s.len() && s[j] == c
        invariant
            i <= j <= s@.len(),
            run_end(s@, j as int, is_char(c)) == run_end(s@, i as int, is_char(c)),
        decreases s@.len() - j,
    {
        j = j + 1;
    }
    j
}

fn atx_exec(t: &Vec<char>) -> (r: Option<(usize, Vec<char>)>)
    ensures
        match (r, spec_atx(t@)) {
            (Some((h, c)), Some((sh, sc))) => h == sh && c@ == sc && 1 <= h <= 6,
            (None, None) => true,
            _ => false,
        },
{
    let u = trim_start_vec(t);
    let h = char_run_end(&u, 0, '#');
    if 1 <= h && h <= 6 && (h == u.len() || is_ws(u[h])) {
        Some((h, trim_vec(&slice_vec(&u, h, u.len()))))
    } else {
        None
    }
}

fn find_attr_suffix_exec(c: &Vec<char>) -> (r: Option<(usize, KramdownAttributes)>)
    ensures
        match (r, find_attr_suffix(c@, 0)) {
            (Some((p, a)), Some((sp, sa))) => p == sp && a@ == sa && p <= c@.len(),
            (None, None) => true,
            _ => false,
        },
{
    let mut p: usize = 0;
    while p < c.len()
        invariant
            p <= c@.len(),
            find_attr_suffix(c@, p as int) == find_attr_suffix(c@, 0),
        decreases c@.len() - p,
    {
        let sub = slice_vec(c, p, c.len());
        if c[p] == '{' {
            match parse_kramdown_chars(&sub) {
                Some((a, n)) => {
                    if n == c.len() - p {
                        return Some((p, a));
                    }
                },
                None => {},
            }
        }
        p = p + 1;
    }
    None
}

fn heading_parts_exec(c: Vec<char>, kramdown: bool) -> (r: (Vec<char>, Option<KramdownAttributes>))
    ensures
        (r.0@, view_opt_attrs(r.1)) == heading_parts(c@, kramdown),
{
    if kramdown {
        match find_attr_suffix_exec(&c) {
            Some((p, a)) => {
                let head = slice_vec(&c, 0, p);
                let b = trim_back_exec(&head, 0, head.len());
                (slice_vec(&head, 0, b), Some(a))
            },
            None => (c, None),
        }
    } else {
        (c, None)
    }
}

fn fence_open_exec(t: &Vec<char>) -> (r: Option<(char, usize, Vec<char>)>)
    ensures
        match (r, spec_fence_open(t@)) {
            (Some((fc, n, info)), Some((sfc, sn, sinfo))) => fc == sfc && n == sn && info@ == sinfo,
            (None, None) => true,
            _ => false,
        },
{
    let u = trim_start_vec(t);
    if u.len() >= 3 && (u[0] == '`' || u[0] == '~') {
        let n = char_run_end(&u, 0, u[0]);
        if n >= 3 {
            return Some((u[0], n, trim_vec(&slice_vec(&u, n, u.len()))));
        }
    }
    None
}

fn fence_close_exec(t: &Vec<char>, fc: char, n: usize) -> (b: bool)
    ensures
        b == spec_fence_close(t@, fc, n as int),
{
    let u = trim_start_vec(t);
    let m = char_run_end(&u, 0, fc);
    m >= n && is_blank_exec(&slice_vec(&u, m, u.len()))
}

fn thematic_exec(t: &Vec<char>) -> (b: bool)
    ensures
        b == spec_thematic(t@),
{
    let u = trim_vec(t);
    if u.len() == 0 {
        return false;
    }
    let c = u[0];
    if !(c == '-' || c == '*' || c == '_') {
        return false;
    }
    let mut k: usize = 0;
    let mut count: usize = 0;
    while k < u.len()
        invariant
            k <= u@.len(),
            u@ == trim(t@),
            u@.len() > 0 && c == u@[0],
            count == count_char(u@.subrange(0, k as int), c),
            count <= k,
            forall|m: int| 0 <= m < k ==> (#[trigger] u@[m] == c || u@[m] == ' ' || u@[m] == '\t'),
        decreases u@.len() - k,
    {
        if !(u[k] == c || u[k] == ' ' || u[k] == '\t') {
            assert(!(u@[k as int] == u@[0] || u@[k as int] == ' ' || u@[k as int] == '\t'));
            return false;
        }
        assert(u@.subrange(0, k + 1).drop_last() =~= u@.subrange(0, k as int));
        if u[k] == c {
            count = count + 1;
        }
        k = k + 1;
    }
    assert(u@.subrange(0, u@.len() as int) =~= u@);
    count >= 3
}

fn is_quote_line_exec(t: &Vec<char>) -> (b: bool)
    ensures
        b == is_quote_line(t@),
{
    let u = trim_start_vec(t);
    u.len() > 0 && u[0] == '>'
}

fn quote_strip_exec(t: &Vec<char>) -> (r: Vec<char>)
    requires
        is_quote_line(t@),
    ensures
        r@ == quote_strip(t@),
        r@.len() < t@.len(),
{
    let u = trim_start_vec(t);
    let q = slice_vec(&u, 1, u.len());
    if q.len() > 0 && q[0] == ' ' {
        slice_vec(&q, 1, q.len())
    } else {
        q
    }
}

fn list_marker_exec(t: &Vec<char>) -> (r: Option<(bool, usize)>)
    ensures
        match (r, spec_list_marker(t@)) {
            (Some((o, m)), Some((so, sm))) => o == so && m == sm && 1 <= m <= t@.len(),
            (None, None) => true,
            _ => false,
        },
{
    let l = skip_ws_exec(t, 0);
    let u = slice_vec(t, l, t.len());
    if u.len() > 0 && (u[0] == '-' || u[0] == '*' || u[0] == '+') && (u.len() == 1 || is_ws(u[1])) {
        return Some((false, l + 1));
    }
    let mut d: usize = 0;
    while d < u.len() && is_ascii_digit(u[d])
        invariant
            d <= u@.len(),
            run_end(u@, d as int, ascii_digit()) == run_end(u@, 0, ascii_digit()),
        decreases u@.len() - d,
    {
        d = d + 1;
    }
    if 1 <= d && d <= 9 && d < u.len() && (u[d] == '.' || u[d] == ')') && (d + 1 == u.len() || is_ws(u[d + 1])) {
        Some((true, l + d + 1))
    } else {
        None
    }
}

fn is_html_start_exec(t: &Vec<char>) -> (b: bool)
    ensures
        b == is_html_start(t@),
{
    let u = trim_start_vec(t);
    u.len() >= 2 && u[0] == '<' && (is_ascii_alpha(u[1]) || u[1] == '/' || u[1] == '!')
}

fn attr_line_exec(t: &Vec<char>) -> (r: Option<KramdownAttributes>)
    ensures
        match (r, spec_attr_line(t@)) {
            (Some(a), Some(sa)) => a@ == sa,
            (None, None) => true,
            _ => false,
        },
{
    match parse_kramdown_chars(t) {
        Some((a, n)) => {
            let u = trim_start_vec(t);
            if n <= u.len() && is_blank_exec(&slice_vec(&u, n, u.len())) {
                Some(a)
            } else {
                None
            }
        },
        None => None,
    }
}

fn interrupts_exec(t: &Vec<char>, o: ParseOptions) -> (b: bool)
    ensures
        b == interrupts(t@, o),
{
    fence_open_exec(t).is_some() || atx_exec(t).is_some() || thematic_exec(t) || is_quote_line_exec(t)
        || list_marker_exec(t).is_some() || is_html_start_exec(t) || (o.kramdown && attr_line_exec(t).is_some())
}


// ---------------------------------------------------------------------------
// Ranges of lines, executable
// ---------------------------------------------------------------------------

fn fence_end_exec(l: &Vec<Line>, k: usize, fc: char, n: usize) -> (r: usize)
    requires
        k <= l@.len(),
    ensures
        r == fence_end(view_lines(l@), k as int, fc, n as int),
        k <= r <= l@.len(),
{
    let ghost v = view_lines(l@);
    let mut j = k;
    while j < l.len() && !fence_close_exec(&l[j].text, fc, n)
        invariant
            v == view_lines(l@),
            k <= j <= l@.len(),
            fence_end(v, j as int, fc, n as int) == fence_end(v, k as int, fc, n as int),
        decreases l@.len() - j,
    {
        j = j + 1;
    }
    j
}

fn quote_end_exec(l: &Vec<Line>, k: usize) -> (r: usize)
    requires
        k <= l@.len(),
    ensures
        r == quote_end(view_lines(l@), k as int),
        k <= r <= l@.len(),
{
    let ghost v = view_lines(l@);
    let mut j = k;
    while j < l.len() && is_quote_line_exec(&l[j].text)
        invariant
            v == view_lines(l@),
            k <= j <= l@.len(),
            quote_end(v, j as int) == quote_end(v, k as int),
        decreases l@.len() - j,
    {
        j = j + 1;
    }
    j
}

fn blank_end_exec(l: &Vec<Line>, k: usize) -> (r: usize)
    requires
        k <= l@.len(),
    ensures
        r == blank_end(view_lines(l@), k as int),
        k <= r <= l@.len(),
{
    let ghost v = view_lines(l@);
    let mut j = k;
    while j < l.len() && !is_blank_exec(&l[j].text)
        invariant
            v == view_lines(l@),
            k <= j <= l@.len(),
            blank_end(v, j as int) == blank_end(v, k as int),
        decreases l@.len() - j,
    {
        j = j + 1;
    }
    j
}

fn skip_blank_exec(l: &Vec<Line>, k: usize) -> (r: usize)
    requires
        k <= l@.len(),
    ensures
        r == skip_blank(view_lines(l@), k as int),
        k <= r <= l@.len(),
{
    let ghost v = view_lines(l@);
    let mut j = k;
    while j < l.len() && is_blank_exec(&l[j].text)
        invariant
            v == view_lines(l@),
            k <= j <= l@.len(),
            skip_blank(v, j as int) == skip_blank(v, k as int),
        decreases l@.len() - j,
    {
        j = j + 1;
    }
    j
}

fn table_end_exec(l: &Vec<Line>, k: usize) -> (r: usize)
    requires
        k <= l@.len(),
    ensures
        r == table_end(view_lines(l@), k as int),
        k <= r <= l@.len(),
{
    let ghost v = view_lines(l@);
    let mut j = k;
    while j < l.len() && !is_blank_exec(&l[j].text) && contains_char(&l[j].text, '|')
        invariant
            v == view_lines(l@),
            k <= j <= l@.len(),
            table_end(v, j as int) == table_end(v, k as int),
        decreases l@.len() - j,
    {
        j = j + 1;
    }
    j
}

fn is_continuation_exec(t: &Vec<char>) -> (b: bool)
    ensures
        b == is_continuation(t@),
{
    !is_blank_exec(t) && is_ws(t[0])
}

fn item_end_exec(l: &Vec<Line>, k: usize) -> (r: usize)
    requires
        k <= l@.len(),
    ensures
        r == item_end(view_lines(l@), k as int),
        k <= r <= l@.len(),
{
    let ghost v = view_lines(l@);
    let mut j = k;
    while j < l.len() && is_continuation_exec(&l[j].text)
        invariant
            v == view_lines(l@),
            k <= j <= l@.len(),
            item_end(v, j as int) == item_end(v, k as int),
        decreases l@.len() - j,
    {
        j = j + 1;
    }
    j
}

fn para_end_exec(l: &Vec<Line>, k: usize, o: ParseOptions) -> (r: usize)
    requires
        k <= l@.len(),
    ensures
        r == para_end(view_lines(l@), k as int, o),
        k <= r <= l@.len(),
{
    let ghost v = view_lines(l@);
    let mut j = k;
    while j < l.len() && !is_blank_exec(&l[j].text) && !interrupts_exec(&l[j].text, o)
        invariant
            v == view_lines(l@),
            k <= j <= l@.len(),
            para_end(v, j as int, o) == para_end(v, k as int, o),
        decreases l@.len() - j,
    {
        j = j + 1;
    }
    j
}

/// Copies of the texts of lines `i..j`.
fn texts_exec(l: &Vec<Line>, i: usize, j: usize) -> (r: Vec<Vec<char>>)
    requires
        i <= j <= l@.len(),
    ensures
        view_vecs(r@) == texts(view_lines(l@), i as int, j as int),
{
    let mut r: Vec<Vec<char>> = Vec::new();
    let mut k = i;
    while k < j
        invariant
            i <= k <= j <= l@.len(),
            view_vecs(r@) == texts(view_lines(l@), i as int, k as int),
        decreases j - k,
    {
        let t = slice_vec(&l[k].text, 0, l[k].text.len());
        assert(l[k as int].text@.subrange(0, l[k as int].text@.len() as int) =~= l[k as int].text@);
        assert(view_lines(l@)[k as int].text == t@);
        let ghost r0 = r@;
        r.push(t);
        assert(view_vecs(r@) =~= view_vecs(r0).push(t@));
        k = k + 1;
        assert(view_vecs(r@) =~= texts(view_lines(l@), i as int, k as int));
    }
    r
}

fn join_exec(v: &Vec<Vec<char>>) -> (r: Vec<char>)
    ensures
        r@ == join_lines(view_vecs(v@)),
{
    let ghost w = view_vecs(v@);
    let mut out: Vec<char> = Vec::new();
    let mut k: usize = 0;
    assert(w.subrange(0, 0) =~= Seq::<Seq<char>>::empty());
    while k < v.len()
        invariant
            w == view_vecs(v@),
            k <= v@.len(),
            out@ == join_lines(w.subrange(0, k as int)),
        decreases v@.len() - k,
    {
        assert(w.subrange(0, k + 1).drop_last() =~= w.subrange(0, k as int));
        if k > 0 {
            out.push('\n');
        } else {
            assert(w.subrange(0, 1) =~= seq![w[0]]);
        }
        push_all(&mut out, &v[k]);
        k = k + 1;
    }
    assert(w.subrange(0, v@.len() as int) =~= w);
    out
}


// ---------------------------------------------------------------------------
// Blocks, executable
// ---------------------------------------------------------------------------

pub open spec fn view_blocks_seq(v: Seq<Block>) -> Seq<SpecBlock> {
    Seq::new(v.len(), |k: int| view_block(v[k]))
}

pub proof fn lemma_view_blocks(v: Vec<Block>)
    ensures
        view_blocks(v) == view_blocks_seq(v@),
{
    assert(view_blocks(v) =~= view_blocks_seq(v@));
}

pub open spec fn view_items_seq(v: Seq<ListItem>) -> Seq<SpecListItem> {
    Seq::new(v.len(), |k: int| view_item(v[k]))
}

pub proof fn lemma_view_items(v: Vec<ListItem>)
    ensures
        view_items(v) == view_items_seq(v@),
{
    assert(view_items(v) =~= view_items_seq(v@));
}

fn span_exec(l: &Vec<Line>, i: usize, j: usize, end: Position) -> (s: Span)
    requires
        i < l@.len(),
    ensures
        s == block_span(view_lines(l@), i as int, j as int, end),
{
    Span { start: l[i].pos, end: if j < l.len() { l[j].pos } else { end } }
}

fn code_block_exec(l: &Vec<Line>, end: Position, i: usize) -> (r: (Block, usize))
    requires
        i < l@.len(),
        spec_fence_open(l@[i as int].text@) is Some,
    ensures
        (view_block(r.0), r.1 as int) == spec_code_block(view_lines(l@), end, i as int),
        i < r.1 <= l@.len(),
{
    let llen = l.len();
    let (fc, n, info) = fence_open_exec(&l[i].text).unwrap();
    let j = fence_end_exec(l, i + 1, fc, n);
    let next = if j < l.len() { j + 1 } else { j };
    let lang = if info.len() > 0 {
        let w = non_ws_end(&info, 0);
        Some(string_from_chars(&slice_vec(&info, 0, w)))
    } else {
        None
    };
    let code = string_from_chars(&join_exec(&texts_exec(l, i + 1, j)));
    (Block::CodeBlock { lang, code, attrs: None, position: span_exec(l, i, next, end) }, next)
}

fn heading_exec(l: &Vec<Line>, end: Position, o: ParseOptions, i: usize) -> (r: (Block, usize))
    requires
        i < l@.len(),
        spec_atx(l@[i as int].text@) is Some,
    ensures
        (view_block(r.0), r.1 as int) == spec_heading_block(view_lines(l@), end, o, i as int),
        i < r.1 <= l@.len(),
{
    let llen = l.len();
    let (h, c) = atx_exec(&l[i].text).unwrap();
    let (text, attrs) = heading_parts_exec(c, o.kramdown);
    let children = parse_inline_chars(&text, o.gfm);
    (Block::Heading { level: h as u8, children, attrs, position: span_exec(l, i, i + 1, end) }, i + 1)
}

proof fn lemma_quote_end(l: Seq<SpecLine>, k: int)
    requires
        0 <= k <= l.len(),
    ensures
        k <= quote_end(l, k) <= l.len(),
        forall|m: int| k <= m < quote_end(l, k) ==> is_quote_line(#[trigger] l[m].text),
    decreases l.len() - k,
{
    if k < l.len() && is_quote_line(l[k].text) {
        lemma_quote_end(l, k + 1);
    }
}

fn quote_exec(l: &Vec<Line>, end: Position, o: ParseOptions, i: usize) -> (r: (Block, usize))
    requires
        i < l@.len(),
        is_quote_line(l@[i as int].text@),
    ensures
        (view_block(r.0), r.1 as int) == spec_quote_block(view_lines(l@), end, o, i as int),
        i < r.1 <= l@.len(),
    decreases lines_size(view_lines(l@)), 0int, 0int,
{
    let llen = l.len();
    let ghost v = view_lines(l@);
    let j = quote_end_exec(l, i + 1);
    assert(quote_end(v, i as int) == quote_end(v, i + 1));
    proof {
        lemma_quote_end(v, i as int);
    }
    let mut sub: Vec<Line> = Vec::new();
    let mut k = i;
    while k < j
        invariant
            v == view_lines(l@),
            i <= k <= j <= l@.len(),
            j == quote_end(v, i as int),
            forall|m: int| i <= m < quote_end(v, i as int) ==> is_quote_line(#[trigger] v[m].text),
            view_lines(sub@) == quote_lines(v, i as int, k as int),
            forall|m: int| 0 <= m < sub@.len() ==> (#[trigger] sub@[m]).text@.len() < v[i + m].text.len(),
        decreases j - k,
    {
        assert(v[k as int] == view_line(l@[k as int]));
        assert(is_quote_line(v[k as int].text));
        let text = quote_strip_exec(&l[k].text);
        let line = Line { text, pos: l[k].pos };
        let ghost s0 = sub@;
        sub.push(line);
        assert(view_lines(sub@) =~= view_lines(s0).push(view_line(line)));
        k = k + 1;
        assert(view_lines(sub@) =~= quote_lines(v, i as int, k as int));
    }
    proof {
        let q = quote_lines(v, i as int, j as int);
        assert forall|m: int| 0 <= m < q.len() implies (#[trigger] q[m]).text.len() <= v[i + m].text.len() by {
            assert(q[m].text == sub@[m].text@);
        }
        assert(q[0].text == sub@[0].text@);
        lemma_size_sub(v, i as int, j as int, q);
    }
    let children = parse_blocks(&sub, if j < l.len() { l[j].pos } else { end }, o);
    (Block::BlockQuote { children, attrs: None, position: span_exec(l, i, j, end) }, j)
}

fn table_exec(l: &Vec<Line>, end: Position, i: usize) -> (r: (Block, usize))
    requires
        i + 1 < l@.len(),
    ensures
        (view_block(r.0), r.1 as int) == spec_table_block(view_lines(l@), end, i as int),
        i < r.1 <= l@.len(),
{
    let llen = l.len();
    let j = table_end_exec(l, i + 2);
    let aligns = parse_delimiter_alignments_chars(&l[i + 1].text);
    let body = texts_exec(l, i + 2, j);
    let table = table_of(&l[i].text, aligns, &body);
    (Block::Table { table, attrs: None, position: span_exec(l, i, j, end) }, j)
}

fn item_first_exec(t: &Vec<char>, m: usize, gfm: bool) -> (r: (Option<TaskState>, Vec<char>))
    requires
        spec_list_marker(t@) matches Some((_, mm)) && mm == m,
        1 <= m <= t@.len(),
    ensures
        (r.0, r.1@) == item_first(t@, m as int, gfm),
        r.1@.len() < t@.len(),
{
    let rest = slice_vec(t, m, t.len());
    let plain = trim_start_vec(&rest);
    if gfm {
        match parse_task_marker_chars(t) {
            Some((st, off)) => {
                let u = trim_start_vec(t);
                if off <= u.len() {
                    let after = slice_vec(&u, off, u.len());
                    return (Some(st), trim_start_vec(&after));
                }
            },
            None => {},
        }
    }
    (None, plain)
}

fn cont_strip_exec(t: &Vec<char>, indent: usize) -> (r: Vec<char>)
    ensures
        r@ == cont_strip(t@, indent as int),
        r@.len() <= t@.len(),
{
    let w = skip_ws_exec(t, 0);
    slice_vec(t, if w < indent { w } else { indent }, t.len())
}

fn list_exec(l: &Vec<Line>, end: Position, o: ParseOptions, i: usize) -> (r: (Block, usize))
    requires
        i < l@.len(),
        spec_list_marker(l@[i as int].text@) is Some,
    ensures
        (view_block(r.0), r.1 as int) == spec_list_block(view_lines(l@), end, o, i as int),
        i < r.1 <= l@.len(),
    decreases lines_size(view_lines(l@)), 0int, l@.len() + 1,
{
    let llen = l.len();
    let ghost v = view_lines(l@);
    let ordered = list_marker_exec(&l[i].text).unwrap().0;
    let mut items: Vec<ListItem> = Vec::new();
    let mut k = i;
    let mut done = false;
    let mut list_end = i;
    assert(view_items_seq(items@) =~= Seq::<SpecListItem>::empty());
    while !done
        invariant
            v == view_lines(l@),
            i <= k < l@.len(),
            spec_list_marker(v[k as int].text) matches Some((ord, _)) && ord == ordered,
            !done ==> list_scan(v, end, o, ordered, k as int, view_items_seq(items@)) == list_scan(v, end, o, ordered, i as int, Seq::empty()),
            done ==> list_scan(v, end, o, ordered, i as int, Seq::empty()) == (view_items_seq(items@), list_end as int) && i < list_end <= l@.len(),
        decreases l@.len() - k, if done { 0int } else { 1int },
    {
        let (_, m) = list_marker_exec(&l[k].text).unwrap();
        let (task, first) = item_first_exec(&l[k].text, m, o.gfm);
        let llen2 = l.len();
        let e = item_end_exec(l, k + 1);
        let indent: usize = if m < usize::MAX { m + 1 } else { m };
        let mut sub: Vec<Line> = Vec::new();
        sub.push(Line { text: first, pos: l[k].pos });
        let mut q = k + 1;
        while q < e
            invariant
                v == view_lines(l@),
                k < q <= e <= l@.len(),
                m + 1 == indent || (m == indent && m == usize::MAX),
                view_lines(sub@) == item_lines(v, k as int, q as int, first@, m + 1),
                forall|n: int| 0 <= n < sub@.len() ==> (#[trigger] sub@[n]).text@.len() <= v[k + n].text.len(),
                sub@[0].text@.len() < v[k as int].text.len(),
            decreases e - q,
        {
            assert(v[q as int] == view_line(l@[q as int]));
            let tlen = l[q].text.len();
            let text = cont_strip_exec(&l[q].text, indent);
            proof {
                lemma_skip_ws(l@[q as int].text@, 0);
                assert(cont_strip(l@[q as int].text@, indent as int) == cont_strip(l@[q as int].text@, m + 1));
            }
            let line = Line { text, pos: l[q].pos };
            let ghost s0 = sub@;
            sub.push(line);
            assert(view_lines(sub@) =~= view_lines(s0).push(view_line(line)));
            q = q + 1;
            assert(view_lines(sub@) =~= item_lines(v, k as int, q as int, first@, m + 1));
        }
        proof {
            let s2 = item_lines(v, k as int, e as int, first@, m + 1);
            assert forall|n: int| 0 <= n < s2.len() implies (#[trigger] s2[n]).text.len() <= v[k + n].text.len() by {
                assert(s2[n].text == sub@[n].text@);
            }
            assert(s2[0].text == sub@[0].text@);
            lemma_size_sub(v, k as int, e as int, s2);
        }
        let children = parse_blocks(&sub, if e < l.len() { l[e].pos } else { end }, o);
        let item = ListItem { task, children, position: span_exec(l, k, e, end) };
        let ghost it0 = items@;
        items.push(item);
        assert(view_items_seq(items@) =~= view_items_seq(it0).push(view_item(item)));
        let n = skip_blank_exec(l, e);
        let cont = if k < n && n < l.len() {
            match list_marker_exec(&l[n].text) {
                Some((o2, _)) => o2 == ordered && !thematic_exec(&l[n].text),
                None => false,
            }
        } else {
            false
        };
        if cont {
            k = n;
        } else {
            done = true;
            list_end = e;
        }
    }
    proof {
        lemma_view_items(items);
    }
    (Block::List { ordered, items, attrs: None, position: span_exec(l, i, list_end, end) }, list_end)
}

fn html_exec(l: &Vec<Line>, end: Position, i: usize) -> (r: (Block, usize))
    requires
        i < l@.len(),
    ensures
        (view_block(r.0), r.1 as int) == spec_html_block(view_lines(l@), end, i as int),
        i < r.1 <= l@.len(),
{
    let llen = l.len();
    let j = blank_end_exec(l, i + 1);
    let html = string_from_chars(&join_exec(&texts_exec(l, i, j)));
    (Block::HtmlBlock { html, position: span_exec(l, i, j, end) }, j)
}

fn para_exec(l: &Vec<Line>, end: Position, o: ParseOptions, i: usize) -> (r: (Block, usize))
    requires
        i < l@.len(),
    ensures
        (view_block(r.0), r.1 as int) == spec_para_block(view_lines(l@), end, o, i as int),
        i < r.1 <= l@.len(),
{
    let llen = l.len();
    let ghost v = view_lines(l@);
    let j = para_end_exec(l, i + 1, o);
    let mut parts: Vec<Vec<char>> = Vec::new();
    let mut k = i;
    while k < j
        invariant
            v == view_lines(l@),
            i <= k <= j <= l@.len(),
            view_vecs(parts@) == Seq::new((k - i) as nat, |m: int| trim_start(v[i + m].text)),
        decreases j - k,
    {
        assert(v[k as int] == view_line(l@[k as int]));
        let t = trim_start_vec(&l[k].text);
        let ghost p0 = parts@;
        parts.push(t);
        assert(view_vecs(parts@) =~= view_vecs(p0).push(t@));
        k = k + 1;
        assert(view_vecs(parts@) =~= Seq::new((k - i) as nat, |m: int| trim_start(v[i + m].text)));
    }
    let joined = join_exec(&parts);
    let b = trim_back_exec(&joined, 0, joined.len());
    let text = slice_vec(&joined, 0, b);
    let children = parse_inline_chars(&text, o.gfm);
    (Block::Paragraph { children, attrs: None, position: span_exec(l, i, j, end) }, j)
}

fn block_at_exec(l: &Vec<Line>, end: Position, o: ParseOptions, i: usize) -> (r: (Block, usize))
    requires
        i < l@.len(),
    ensures
        (view_block(r.0), r.1 as int) == spec_block_at(view_lines(l@), end, o, i as int),
        i < r.1 <= l@.len(),
    decreases lines_size(view_lines(l@)), 1int, 0int,
{
    let llen = l.len();
    let t = &l[i].text;
    if fence_open_exec(t).is_some() {
        code_block_exec(l, end, i)
    } else if atx_exec(t).is_some() {
        heading_exec(l, end, o, i)
    } else if thematic_exec(t) {
        (Block::ThematicBreak { attrs: None, position: span_exec(l, i, i + 1, end) }, i + 1)
    } else if is_quote_line_exec(t) {
        quote_exec(l, end, o, i)
    } else if o.gfm && i + 1 < l.len() && contains_char(t, '|') && is_table_delimiter_chars(&l[i + 1].text) {
        table_exec(l, end, i)
    } else if list_marker_exec(t).is_some() {
        list_exec(l, end, o, i)
    } else if is_html_start_exec(t) {
        html_exec(l, end, i)
    } else {
        para_exec(l, end, o, i)
    }
}

fn can_attach_exec(b: &Block) -> (r: bool)
    ensures
        r == can_attach(view_block(*b)),
{
    match b {
        Block::HtmlBlock { .. } => false,
        _ => true,
    }
}

fn with_attrs_exec(b: Block, a: KramdownAttributes) -> (r: Block)
    ensures
        view_block(r) == with_attrs(view_block(b), view_attrs(a)),
{
    match b {
        Block::Heading { level, children, attrs, position } => Block::Heading { level, children, attrs: Some(a), position },
        Block::Paragraph { children, attrs, position } => Block::Paragraph { children, attrs: Some(a), position },
        Block::CodeBlock { lang, code, attrs, position } => Block::CodeBlock { lang, code, attrs: Some(a), position },
        Block::BlockQuote { children, attrs, position } => Block::BlockQuote { children, attrs: Some(a), position },
        Block::List { ordered, items, attrs, position } => Block::List { ordered, items, attrs: Some(a), position },
        Block::ThematicBreak { attrs, position } => Block::ThematicBreak { attrs: Some(a), position },
        Block::HtmlBlock { html, position } => Block::HtmlBlock { html, position },
        Block::Table { table, attrs, position } => Block::Table { table, attrs: Some(a), position },
    }
}

/// Parse lines into blocks; `end` is the position after the last line.
pub fn parse_blocks(l: &Vec<Line>, end: Position, o: ParseOptions) -> (r: Vec<Block>)
    ensures
        view_blocks(r) == spec_parse_blocks(view_lines(l@), end, o),
    decreases lines_size(view_lines(l@)), l@.len() + 3, 0int,
{
    let ghost v = view_lines(l@);
    let mut acc: Vec<Block> = Vec::new();
    let mut i: usize = 0;
    let mut attach = false;
    assert(view_blocks_seq(acc@) =~= Seq::<SpecBlock>::empty());
    while i < l.len()
        invariant
            v == view_lines(l@),
            i <= l@.len(),
            block_scan(v, end, o, i as int, attach, view_blocks_seq(acc@)) == spec_parse_blocks(v, end, o),
        decreases l@.len() - i,
    {
        if is_blank_exec(&l[i].text) {
            attach = false;
            i = i + 1;
        } else {
            let attr = if o.kramdown && attach && acc.len() > 0 && can_attach_exec(&acc[acc.len() - 1]) {
                attr_line_exec(&l[i].text)
            } else {
                None
            };
            match attr {
                Some(a) => {
                    let ghost a0 = acc@;
                    let last = acc.pop().unwrap();
                    let nb = with_attrs_exec(last, a);
                    acc.push(nb);
                    assert(view_blocks_seq(acc@) =~= view_blocks_seq(a0).drop_last().push(
                        with_attrs(view_blocks_seq(a0).last(), view_attrs(a)),
                    ));
                    attach = false;
                    i = i + 1;
                },
                None => {
                    let (b, j) = block_at_exec(l, end, o, i);
                    let ghost a0 = acc@;
                    acc.push(b);
                    assert(view_blocks_seq(acc@) =~= view_blocks_seq(a0).push(view_block(b)));
                    attach = true;
                    i = j;
                },
            }
        }
    }
    proof {
        lemma_view_blocks(acc);
    }
    acc
}

} // verus!
