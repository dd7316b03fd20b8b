//! GFM-specific parsing helpers.
//!
//! Handles:
//! - **Tables** — pipe-delimited tables with an alignment row.
//! - **Task lists** — `- [x] item` / `- [ ] item` checkboxes.
//! - **Autolinks** — bare URL detection.
//! - **Strikethrough** — `~~text~~`.

use vstd::prelude::*;
use crate::ast::{Block, Inline, Table, TableCell, TableCellAlignment, TableRow, TaskState};
use crate::ast::nodes::{SpecInline, SpecBlock, SpecTable, view_inlines, view_row, view_rows, view_block, view_table};
use crate::parser::inline::{lemma_view_inlines, view_inlines_seq};
use crate::text::{lemma_trim_idempotent, trim, trim_start, trim_vec, skip_ws, skip_ws_exec, lemma_skip_ws, spec_is_ascii_digit, is_ascii_digit, run_end, lemma_run_end, str_chars};
use crate::ast::span::inline_span;
use crate::parser::inline::{InlineCtx, spec_parse_inline, parse_inline_chars, find_pair, find_pair_exec, lemma_find_pair, opt_node_matches};
use crate::text::{spec_is_ws, is_ws, has_at, has_at_exec, slice_vec, vec_of_slice, string_from_chars};

verus! {

pub open spec fn https_chars() -> Seq<char> {
    seq!['h', 't', 't', 'p', 's', ':', '/', '/']
}

pub open spec fn http_chars() -> Seq<char> {
    seq!['h', 't', 't', 'p', ':', '/', '/']
}

pub open spec fn www_chars() -> Seq<char> {
    seq!['w', 'w', 'w', '.']
}

pub open spec fn is_trailing_punct(c: char) -> bool {
    c == '.' || c == ',' || c == ';' || c == ':' || c == '!' || c == '?' || c == ')'
}

/// Where a bare URL that continues at `i` ends: before white space, `<`,
/// `>`, or a punctuation mark (`. , ; : ! ? )`) that is last or followed by
/// white space.
pub open spec fn url_end(s: Seq<char>, i: int) -> int
    decreases s.len() - i,
{
    if i < 0 || i >= s.len() {
        i
    } else {
        let c = s[i];
        if spec_is_ws(c) || c == '<' || c == '>' {
            i
        } else if is_trailing_punct(c) && (i + 1 >= s.len() || spec_is_ws(s[i + 1])) {
            i
        } else {
            url_end(s, i + 1)
        }
    }
}

proof fn lemma_url_end(s: Seq<char>, i: int)
    requires
        0 <= i,
    ensures
        i <= url_end(s, i),
        i <= s.len() ==> url_end(s, i) <= s.len(),
    decreases s.len() - i,
{
    if i < s.len() {
        let c = s[i];
        if !(spec_is_ws(c) || c == '<' || c == '>') && !(is_trailing_punct(c) && (i + 1 >= s.len()
            || spec_is_ws(s[i + 1]))) {
            lemma_url_end(s, i + 1);
        }
    }
}

fn find_url_end(chars: &Vec<char>, from: usize) -> (r: usize)
    ensures
        r == url_end(chars@, from as int),
{
    let mut i = from;
    let mut stop = false;
    while i < chars.len() && !stop
        invariant
            from <= i,
            stop ==> i < chars@.len() && url_end(chars@, i as int) == i,
            url_end(chars@, i as int) == url_end(chars@, from as int),
        decreases chars@.len() - i, if stop { 0int } else { 1int },
    {
        let c = chars[i];
        if is_ws(c) || c == '<' || c == '>' {
            stop = true;
        } else if (c == '.' || c == ',' || c == ';' || c == ':' || c == '!' || c == '?' || c == ')')
            && (i + 1 >= chars.len() || is_ws(chars[i + 1])) {
            // Trailing punctuation: . , ; : ! ? ) — but not if part of URL path
            stop = true;
        } else {
            i = i + 1;
        }
    }
    i
}

/// What [`match_autolink`] returns: at `start`, `https://` or `http://`
/// followed by the rest of the URL gives that URL; `www.` followed by the
/// rest gives it with `https://` in front; the index is where the URL ends.
pub open spec fn spec_match_autolink(s: Seq<char>, start: int) -> Option<(Seq<char>, int)> {
    if has_at(s, start, https_chars()) {
        let e = url_end(s, start + 8);
        Some((s.subrange(start, e), e))
    } else if has_at(s, start, http_chars()) {
        let e = url_end(s, start + 7);
        Some((s.subrange(start, e), e))
    } else if has_at(s, start, www_chars()) {
        let e = url_end(s, start + 4);
        Some((https_chars() + s.subrange(start, e), e))
    } else {
        None
    }
}

pub fn match_autolink_chars(chars: &Vec<char>, start: usize) -> (r: Option<(String, usize)>)
    ensures
        match (r, spec_match_autolink(chars@, start as int)) {
            (Some((u, e)), Some((su, se))) => u@ == su && e == se && start < e <= chars@.len(),
            (None, None) => true,
            _ => false,
        },
{
    let slen = chars.len();
    let https = vec!['h', 't', 't', 'p', 's', ':', '/', '/'];
    let http = vec!['h', 't', 't', 'p', ':', '/', '/'];
    let www = vec!['w', 'w', 'w', '.'];
    assert(https@ =~= https_chars());
    assert(http@ =~= http_chars());
    assert(www@ =~= www_chars());
    if has_at_exec(chars, start, &https) {
        let end = find_url_end(chars, start + 8);
        proof { lemma_url_end(chars@, start + 8); }
        let url = string_from_chars(&slice_vec(chars, start, end));
        return Some((url, end));
    }
    if has_at_exec(chars, start, &http) {
        let end = find_url_end(chars, start + 7);
        proof { lemma_url_end(chars@, start + 7); }
        let url = string_from_chars(&slice_vec(chars, start, end));
        return Some((url, end));
    }
    // Check for www.
    if has_at_exec(chars, start, &www) {
        let end = find_url_end(chars, start + 4);
        proof { lemma_url_end(chars@, start + 4); }
        let mut url = https;
        crate::text::push_all(&mut url, &slice_vec(chars, start, end));
        // Prepend https:// for www.
        return Some((string_from_chars(&url), end));
    }
    None
}

/// Detect a bare URL for GFM autolink (www.example.com or https://example.com).
/// Returns `(url, end_index)` relative to `chars`.
pub fn match_autolink(chars: &[char], start: usize) -> (r: Option<(String, usize)>)
    ensures
        match (r, spec_match_autolink(chars@, start as int)) {
            (Some((u, e)), Some((su, se))) => u@ == su && e == se,
            (None, None) => true,
            _ => false,
        },
{
    match_autolink_chars(&vec_of_slice(chars), start)
}

/// What [`match_strikethrough`] returns: `~~` at `start`, closed by the next
/// `~~`, gives a strikethrough node whose children are the inline parse of
/// the text in between; the index is the one after the closing `~~`.
pub open spec fn spec_strikethrough(s: Seq<char>, start: int) -> Option<(SpecInline, int)>
    decreases s.len(), 0int,
{
    if start < 0 || start + 1 >= s.len() || s[start] != '~' || s[start + 1] != '~' {
        None
    } else {
        match find_pair(s, start + 2, '~') {
            Some(p) => if start + 2 <= p && p + 2 <= s.len() {
                Some(
                    (
                        SpecInline::Strikethrough {
                            children: spec_parse_inline(s.subrange(start + 2, p), true),
                            position: inline_span(start, p + 2),
                        },
                        p + 2,
                    ),
                )
            } else {
                None
            },
            None => None,
        }
    }
}

/// Match GFM strikethrough `~~text~~`. Returns `(node, end_index)`.
pub fn match_strikethrough(chars: &Vec<char>, start: usize, ctx: &InlineCtx) -> (r: Option<(Inline, usize)>)
    requires
        start < chars@.len(),
    ensures
        opt_node_matches(r, spec_strikethrough(chars@, start as int)),
        r matches Some((_, n)) ==> start < n <= chars@.len(),
    decreases chars@.len(), 0int,
{
    let slen = chars.len();
    if chars[start] != '~' || start + 1 >= chars.len() || chars[start + 1] != '~' {
        return None;
    }
    let close = match find_pair_exec(chars, start + 2, '~') {
        Some(p) => p,
        None => return None,
    };
    proof { lemma_find_pair(chars@, start + 2, '~'); }
    let inner = slice_vec(chars, start + 2, close);
    let children = parse_inline_chars(&inner, true);
    let end = close + 2;
    Some(
        (
            Inline::Strikethrough {
                children,
                position: crate::ast::span::Span::new(
                    ctx.position(start, chars.len()),
                    ctx.position(end, chars.len()),
                ),
            },
            end,
        ),
    )
}


// ---------------------------------------------------------------------------
// Tables
// ---------------------------------------------------------------------------

/// `str::split`: the pieces of `s` between the occurrences of `c`, scanned
/// from `i`, the current piece starting at `start`.
pub open spec fn split_acc(s: Seq<char>, c: char, i: int, start: int, acc: Seq<Seq<char>>) -> Seq<Seq<char>>
    decreases s.len() - i,
{
    if i < 0 || i >= s.len() {
        acc.push(s.subrange(start, s.len() as int))
    } else if s[i] == c {
        split_acc(s, c, i + 1, i + 1, acc.push(s.subrange(start, i)))
    } else {
        split_acc(s, c, i + 1, start, acc)
    }
}

/// `str::split`: the pieces of `s` between the occurrences of `c` (one more
/// than there are occurrences).
pub open spec fn split_on(s: Seq<char>, c: char) -> Seq<Seq<char>> {
    split_acc(s, c, 0, 0, Seq::empty())
}

pub open spec fn view_vecs(v: Seq<Vec<char>>) -> Seq<Seq<char>> {
    Seq::new(v.len(), |k: int| v[k]@)
}

pub fn split_exec(s: &Vec<char>, c: char) -> (r: Vec<Vec<char>>)
    ensures
        view_vecs(r@) == split_on(s@, c),
        r@.len() >= 1,
{
    let mut acc: Vec<Vec<char>> = Vec::new();
    let mut start: usize = 0;
    let mut i: usize = 0;
    assert(view_vecs(acc@) =~= Seq::<Seq<char>>::empty());
    while i < s.len()
        invariant
            start <= i <= s@.len(),
            split_acc(s@, c, i as int, start as int, view_vecs(acc@)) == split_on(s@, c),
        decreases s@.len() - i,
    {
        if s[i] == c {
            let piece = slice_vec(s, start, i);
            let ghost a0 = acc@;
            acc.push(piece);
            assert(view_vecs(acc@) =~= view_vecs(a0).push(piece@));
            start = i + 1;
        }
        i = i + 1;
    }
    let piece = slice_vec(s, start, s.len());
    let ghost a0 = acc@;
    acc.push(piece);
    assert(view_vecs(acc@) =~= view_vecs(a0).push(piece@));
    acc
}

/// A table line with its outer white space and one leading and one trailing
/// pipe removed.
pub open spec fn pipe_inner(line: Seq<char>) -> Seq<char> {
    let t = trim(line);
    let a = if t.len() > 0 && t[0] == '|' { t.subrange(1, t.len() as int) } else { t };
    if a.len() > 0 && a[a.len() - 1] == '|' { a.subrange(0, a.len() - 1) } else { a }
}

/// The raw cells of a table line.
pub open spec fn table_cells(line: Seq<char>) -> Seq<Seq<char>> {
    split_on(pipe_inner(line), '|')
}

fn pipe_inner_exec(line: &Vec<char>) -> (r: Vec<char>)
    ensures
        r@ == pipe_inner(line@),
{
    let t = trim_vec(line);
    let a = if t.len() > 0 && t[0] == '|' { slice_vec(&t, 1, t.len()) } else { t };
    if a.len() > 0 && a[a.len() - 1] == '|' {
        slice_vec(&a, 0, a.len() - 1)
    } else {
        a
    }
}

fn table_cells_exec(line: &Vec<char>) -> (r: Vec<Vec<char>>)
    ensures
        view_vecs(r@) == table_cells(line@),
        r@.len() >= 1,
{
    split_exec(&pipe_inner_exec(line), '|')
}

/// A cell of a delimiter row: after trimming, only `-` and `:`, at least
/// one `-`.
pub open spec fn delimiter_cell_ok(c: Seq<char>) -> bool {
    let t = trim(c);
    &&& t.len() > 0
    &&& forall|k: int| 0 <= k < t.len() ==> t[k] == '-' || t[k] == ':'
    &&& exists|k: int| 0 <= k < t.len() && t[k] == '-'
}

/// What [`is_table_delimiter`] returns: the line is not blank and every
/// cell is a delimiter cell.
pub open spec fn spec_is_table_delimiter(line: Seq<char>) -> bool {
    &&& trim(line).len() > 0
    &&& forall|k: int| 0 <= k < table_cells(line).len() ==> delimiter_cell_ok(#[trigger] table_cells(line)[k])
}

fn delimiter_cell_ok_exec(c: &Vec<char>) -> (b: bool)
    ensures
        b == delimiter_cell_ok(c@),
{
    let t = trim_vec(c);
    if t.len() == 0 {
        return false;
    }
    let mut k: usize = 0;
    let mut dash = false;
    while k < t.len()
        invariant
            k <= t@.len(),
            t@ == trim(c@),
            forall|m: int| 0 <= m < k ==> t@[m] == '-' || t@[m] == ':',
            dash <==> exists|m: int| 0 <= m < k && t@[m] == '-',
        decreases t@.len() - k,
    {
        if t[k] != '-' && t[k] != ':' {
            assert(!(t@[k as int] == '-' || t@[k as int] == ':'));
            assert(!delimiter_cell_ok(c@)) by {
                let tt = trim(c@);
                assert(tt == t@);
                assert(!(tt[k as int] == '-' || tt[k as int] == ':'));
            }
            return false;
        }
        if t[k] == '-' {
            dash = true;
        }
        k = k + 1;
    }
    dash
}

pub fn is_table_delimiter_chars(line: &Vec<char>) -> (b: bool)
    ensures
        b == spec_is_table_delimiter(line@),
{
    let stripped = trim_vec(line);
    if stripped.len() == 0 {
        return false;
    }
    let cells = table_cells_exec(line);
    let mut k: usize = 0;
    while k < cells.len()
        invariant
            k <= cells@.len(),
            view_vecs(cells@) == table_cells(line@),
            forall|m: int| 0 <= m < k ==> delimiter_cell_ok(#[trigger] table_cells(line@)[m]),
        decreases cells@.len() - k,
    {
        if !delimiter_cell_ok_exec(&cells[k]) {
            assert(table_cells(line@)[k as int] == cells@[k as int]@);
            return false;
        }
        assert(table_cells(line@)[k as int] == cells@[k as int]@);
        k = k + 1;
    }
    true
}

/// A table delimiter row looks like `| :--- | :--: | ---: |` —
/// cells containing only `-`, `:`, and whitespace, with at least one `-`.
pub fn is_table_delimiter(line: &str) -> (b: bool)
    ensures
        b == spec_is_table_delimiter(line@),
{
    is_table_delimiter_chars(&str_chars(line))
}

/// What [`is_table_start`] returns: there is a line after `pos`, line
/// `pos` holds a `|`, and the next line is a delimiter row.
pub open spec fn spec_is_table_start(lines: Seq<Seq<char>>, pos: int) -> bool {
    &&& pos + 1 < lines.len()
    &&& lines[pos].contains('|')
    &&& spec_is_table_delimiter(lines[pos + 1])
}

pub fn contains_char(s: &Vec<char>, c: char) -> (b: bool)
    ensures
        b == s@.contains(c),
{
    let mut k: usize = 0;
    while k < s.len()
        invariant
            k <= s@.len(),
            forall|m: int| 0 <= m < k ==> s@[m] != c,
        decreases s@.len() - k,
    {
        if s[k] == c {
            return true;
        }
        k = k + 1;
    }
    false
}

pub open spec fn view_strs_of(lines: Seq<&str>) -> Seq<Seq<char>> {
    Seq::new(lines.len(), |k: int| lines[k]@)
}

/// Check whether a line could be the start of a GFM table.
/// A table requires at least one pipe `|` on the current line and a
/// delimiter row (consisting of `-`, `:`, `|`, and whitespace) on the
/// next line.
pub fn is_table_start(lines: &[&str], pos: usize) -> (b: bool)
    ensures
        b == spec_is_table_start(view_strs_of(lines@), pos as int),
{
    if pos >= lines.len() || pos >= lines.len() - 1 {
        return false;
    }
    let header = str_chars(lines[pos]);
    let delimiter = str_chars(lines[pos + 1]);
    contains_char(&header, '|') && is_table_delimiter_chars(&delimiter)
}

/// The alignment that a delimiter cell gives: `:-` left, `-:` right, `:-:`
/// center, `-` default.
pub open spec fn cell_alignment(c: Seq<char>) -> TableCellAlignment {
    let t = trim(c);
    let left = t.len() > 0 && t[0] == ':';
    let right = t.len() > 0 && t[t.len() - 1] == ':';
    if left && right {
        TableCellAlignment::Center
    } else if left {
        TableCellAlignment::Left
    } else if right {
        TableCellAlignment::Right
    } else {
        TableCellAlignment::Default
    }
}

/// What [`parse_delimiter_alignments`] returns: one alignment per cell.
pub open spec fn spec_alignments(line: Seq<char>) -> Seq<TableCellAlignment> {
    Seq::new(table_cells(line).len(), |k: int| cell_alignment(table_cells(line)[k]))
}

pub fn parse_delimiter_alignments_chars(line: &Vec<char>) -> (r: Vec<TableCellAlignment>)
    ensures
        r@ == spec_alignments(line@),
{
    let cells = table_cells_exec(line);
    let mut r: Vec<TableCellAlignment> = Vec::new();
    let mut k: usize = 0;
    while k < cells.len()
        invariant
            k <= cells@.len(),
            view_vecs(cells@) == table_cells(line@),
            r@ == spec_alignments(line@).subrange(0, k as int),
        decreases cells@.len() - k,
    {
        let t = trim_vec(&cells[k]);
        let left = t.len() > 0 && t[0] == ':';
        let right = t.len() > 0 && t[t.len() - 1] == ':';
        let a = if left && right {
            TableCellAlignment::Center
        } else if left {
            TableCellAlignment::Left
        } else if right {
            TableCellAlignment::Right
        } else {
            TableCellAlignment::Default
        };
        assert(table_cells(line@)[k as int] == cells@[k as int]@);
        r.push(a);
        k = k + 1;
        assert(r@ =~= spec_alignments(line@).subrange(0, k as int));
    }
    assert(r@ =~= spec_alignments(line@));
    r
}

/// Parse a delimiter row into column alignments.
pub fn parse_delimiter_alignments(line: &str) -> (r: Vec<TableCellAlignment>)
    ensures
        r@ == spec_alignments(line@),
{
    parse_delimiter_alignments_chars(&str_chars(line))
}

/// What [`split_table_row`] returns: the trimmed cells.
pub open spec fn spec_split_row(line: Seq<char>) -> Seq<Seq<char>> {
    Seq::new(table_cells(line).len(), |k: int| trim(table_cells(line)[k]))
}

/// [`parse_delimiter_alignments`] gives one alignment for each cell that
/// [`split_table_row`] finds in the same line.
pub proof fn lemma_alignment_per_cell(line: Seq<char>)
    ensures
        spec_alignments(line).len() == spec_split_row(line).len(),
{
}

/// The cells that [`split_table_row`] gives are trimmed: trimming one again
/// changes nothing, and a non-empty cell starts and ends with a character
/// that is not white space.
pub proof fn lemma_split_row_trimmed(line: Seq<char>)
    ensures
        forall|k: int|
            0 <= k < spec_split_row(line).len() ==> trim(#[trigger] spec_split_row(line)[k])
                == spec_split_row(line)[k],
        forall|k: int|
            0 <= k < spec_split_row(line).len() && #[trigger] spec_split_row(line)[k].len() > 0
                ==> !spec_is_ws(spec_split_row(line)[k][0]) && !spec_is_ws(
                spec_split_row(line)[k].last(),
            ),
{
    assert forall|k: int| 0 <= k < spec_split_row(line).len() implies trim(
        #[trigger] spec_split_row(line)[k],
    ) == spec_split_row(line)[k] && (spec_split_row(line)[k].len() > 0 ==> !spec_is_ws(
        spec_split_row(line)[k][0],
    ) && !spec_is_ws(spec_split_row(line)[k].last())) by {
        lemma_trim_idempotent(table_cells(line)[k]);
    }
}

/// Split a table row into raw cell strings (pipes removed, leading/trailing
/// whitespace trimmed).
pub fn split_table_row(line: &str) -> (r: Vec<String>)
    ensures
        crate::ast::nodes::view_strs(r@) == spec_split_row(line@),
{
    let chars = str_chars(line);
    let cells = table_cells_exec(&chars);
    let mut r: Vec<String> = Vec::new();
    let mut k: usize = 0;
    while k < cells.len()
        invariant
            k <= cells@.len(),
            view_vecs(cells@) == table_cells(chars@),
            crate::ast::nodes::view_strs(r@) == spec_split_row(chars@).subrange(0, k as int),
        decreases cells@.len() - k,
    {
        assert(table_cells(chars@)[k as int] == cells@[k as int]@);
        let ghost r0 = r@;
        let cell = string_from_chars(&trim_vec(&cells[k]));
        r.push(cell);
        assert(crate::ast::nodes::view_strs(r@) =~= crate::ast::nodes::view_strs(r0).push(cell@));
        k = k + 1;
        assert(crate::ast::nodes::view_strs(r@) =~= spec_split_row(chars@).subrange(0, k as int));
    }
    assert(crate::ast::nodes::view_strs(r@) =~= spec_split_row(chars@));
    r
}

/// The row of a table line: the inline parse (with GFM) of each trimmed
/// cell.
pub open spec fn spec_row(line: Seq<char>) -> Seq<Seq<SpecInline>> {
    Seq::new(table_cells(line).len(), |k: int| spec_parse_inline(trim(table_cells(line)[k]), true))
}

pub fn row_of(line: &Vec<char>) -> (r: TableRow)
    ensures
        view_row(r) == spec_row(line@),
{
    let cells = table_cells_exec(line);
    let mut out: Vec<TableCell> = Vec::new();
    let mut k: usize = 0;
    while k < cells.len()
        invariant
            k <= cells@.len(),
            view_vecs(cells@) == table_cells(line@),
            out@.len() == k,
            forall|m: int| 0 <= m < k ==> view_inlines(#[trigger] out@[m].children) == spec_parse_inline(trim(table_cells(line@)[m]), true),
        decreases cells@.len() - k,
    {
        assert(table_cells(line@)[k as int] == cells@[k as int]@);
        let children = parse_inline_chars(&trim_vec(&cells[k]), true);
        out.push(TableCell { children });
        k = k + 1;
    }
    let r = TableRow { cells: out };
    assert(view_row(r) =~= spec_row(line@));
    r
}

/// The table whose header line, alignments and body lines are given.
pub open spec fn spec_table(header: Seq<char>, alignments: Seq<TableCellAlignment>, body: Seq<Seq<char>>) -> SpecTable {
    SpecTable {
        header: spec_row(header),
        rows: Seq::new(body.len(), |k: int| spec_row(body[k])),
        alignments,
    }
}

pub fn table_of(header: &Vec<char>, alignments: Vec<TableCellAlignment>, body: &Vec<Vec<char>>) -> (t: Table)
    ensures
        view_table(t) == spec_table(header@, alignments@, view_vecs(body@)),
{
    let header_row = row_of(header);
    let mut rows: Vec<TableRow> = Vec::new();
    let mut k: usize = 0;
    while k < body.len()
        invariant
            k <= body@.len(),
            rows@.len() == k,
            forall|m: int| 0 <= m < k ==> view_row(#[trigger] rows@[m]) == spec_row(body@[m]@),
        decreases body@.len() - k,
    {
        rows.push(row_of(&body[k]));
        k = k + 1;
    }
    let t = Table { header: header_row, rows, alignments };
    assert(view_rows(t.rows@) =~= Seq::new(body@.len(), |k: int| spec_row(view_vecs(body@)[k])));
    t
}

/// Build a [`Block::Table`] from lines `[header_line, delimiter_line, ...body_lines]`.
pub fn build_table(
    header_line: &str,
    _delimiter_line: &str,
    alignments: Vec<TableCellAlignment>,
    body_lines: &[&str],
) -> (b: Block)
    ensures
        view_block(b) == (SpecBlock::Table {
            table: spec_table(header_line@, alignments@, view_strs_of(body_lines@)),
            attrs: None,
            position: crate::ast::span::Span::empty(),
        }),
{
    let header = str_chars(header_line);
    let mut body: Vec<Vec<char>> = Vec::new();
    let mut k: usize = 0;
    while k < body_lines.len()
        invariant
            k <= body_lines@.len(),
            view_vecs(body@) == view_strs_of(body_lines@).subrange(0, k as int),
        decreases body_lines@.len() - k,
    {
        let ghost b0 = body@;
        let line = str_chars(body_lines[k]);
        body.push(line);
        assert(view_vecs(body@) =~= view_vecs(b0).push(line@));
        k = k + 1;
        assert(view_vecs(body@) =~= view_strs_of(body_lines@).subrange(0, k as int));
    }
    assert(view_vecs(body@) =~= view_strs_of(body_lines@));
    let table = table_of(&header, alignments, &body);
    Block::Table { table, attrs: None, position: crate::ast::span::Span::default() }
}

// ---------------------------------------------------------------------------
// Task lists
// ---------------------------------------------------------------------------

pub open spec fn ascii_digit() -> spec_fn(char) -> bool {
    |c: char| spec_is_ascii_digit(c)
}

/// Where the list marker at the start of `t` ends: after `-`, `*` or `+`,
/// or after a run of digits followed by `.` or `)`.
pub open spec fn marker_end(t: Seq<char>) -> Option<int> {
    if t.len() > 0 && (t[0] == '-' || t[0] == '*' || t[0] == '+') {
        Some(1)
    } else {
        let d = run_end(t, 0, ascii_digit());
        if d > 0 && d < t.len() && (t[d] == '.' || t[d] == ')') {
            Some(d + 1)
        } else {
            None
        }
    }
}

pub open spec fn unchecked_box() -> Seq<char> {
    seq!['[', ' ', ']']
}

pub open spec fn checked_box() -> Seq<char> {
    seq!['[', 'x', ']']
}

pub open spec fn checked_box_upper() -> Seq<char> {
    seq!['[', 'X', ']']
}

/// What [`parse_task_marker`] returns: after the list marker and white
/// space, `[ ]` is an unchecked and `[x]` or `[X]` a checked task; the
/// offset (counted in characters from the first character that is not white
/// space) is the one after the `]`.
pub open spec fn spec_task_marker(line: Seq<char>) -> Option<(TaskState, int)> {
    let t = trim_start(line);
    match marker_end(t) {
        None => None,
        Some(m) => {
            let after = t.subrange(m, t.len() as int);
            let w = skip_ws(after, 0);
            if has_at(after, w, unchecked_box()) {
                Some((TaskState::Unchecked, m + w + 3))
            } else if has_at(after, w, checked_box()) || has_at(after, w, checked_box_upper()) {
                Some((TaskState::Checked, m + w + 3))
            } else {
                None
            }
        },
    }
}

/// The number of bytes of `c` in UTF-8.
pub open spec fn utf8_len(c: char) -> nat {
    if (c as u32) < 0x80 {
        1
    } else if (c as u32) < 0x800 {
        2
    } else if (c as u32) < 0x10000 {
        3
    } else {
        4
    }
}

/// The number of bytes of `s` in UTF-8.
pub open spec fn utf8_bytes(s: Seq<char>) -> nat
    decreases s.len(),
{
    if s.len() == 0 {
        0
    } else {
        utf8_bytes(s.drop_last()) + utf8_len(s.last())
    }
}

/// What [`parse_task_marker`] returns: the task state of
/// [`spec_task_marker`], with the offset after the `]` counted in bytes of
/// the line from its first character that is not white space (the marker
/// and the box are ASCII; the white space between them may not be).
pub open spec fn spec_task_marker_bytes(line: Seq<char>) -> Option<(TaskState, int)> {
    let t = trim_start(line);
    match (marker_end(t), spec_task_marker(line)) {
        (Some(m), Some((st, _))) => {
            let after = t.subrange(m, t.len() as int);
            let w = skip_ws(after, 0);
            Some((st, m + utf8_bytes(after.subrange(0, w)) + 3))
        },
        _ => None,
    }
}

fn utf8_len_exec(c: char) -> (n: usize)
    ensures
        n == utf8_len(c),
{
    let u = c as u32;
    if u < 0x80 {
        1
    } else if u < 0x800 {
        2
    } else if u < 0x10000 {
        3
    } else {
        4
    }
}

pub fn parse_task_marker_chars(line: &Vec<char>) -> (r: Option<(TaskState, usize)>)
    ensures
        match (r, spec_task_marker(line@)) {
            (Some((st, n)), Some((sst, sn))) => st == sst && n == sn,
            (None, None) => true,
            _ => false,
        },
        r matches Some((_, n)) ==> n >= 3,
{
    let st = skip_ws_exec(line, 0);
    let t = slice_vec(line, st, line.len());
    assert(t@ == trim_start(line@));
    // Must be after a list marker like `- `, `* `, `+ `, `1. `
    let marker_end: usize = if t.len() > 0 && (t[0] == '-' || t[0] == '*' || t[0] == '+') {
        1
    } else {
        let mut d: usize = 0;
        while d < t.len() && is_ascii_digit(t[d])
            invariant
                d <= t@.len(),
                run_end(t@, d as int, ascii_digit()) == run_end(t@, 0, ascii_digit()),
            decreases t@.len() - d,
        {
            d = d + 1;
        }
        proof {
            lemma_run_end(t@, 0, ascii_digit());
        }
        if d == 0 || d >= t.len() || !(t[d] == '.' || t[d] == ')') {
            return None;
        }
        d + 1  // digits + '.' or ')'
    };
    let after = slice_vec(&t, marker_end, t.len());
    let w = skip_ws_exec(&after, 0);
    let unchecked = vec!['[', ' ', ']'];
    let checked = vec!['[', 'x', ']'];
    let checked_upper = vec!['[', 'X', ']'];
    assert(unchecked@ =~= unchecked_box());
    assert(checked@ =~= checked_box());
    assert(checked_upper@ =~= checked_box_upper());
    if has_at_exec(&after, w, &unchecked) {
        Some((TaskState::Unchecked, marker_end + w + 3))
    } else if has_at_exec(&after, w, &checked) || has_at_exec(&after, w, &checked_upper) {
        Some((TaskState::Checked, marker_end + w + 3))
    } else {
        None
    }
}

fn marker_end_exec(t: &Vec<char>) -> (r: Option<usize>)
    ensures
        match (r, marker_end(t@)) {
            (Some(m), Some(sm)) => m == sm && m <= t@.len(),
            (None, None) => true,
            _ => false,
        },
{
    if t.len() > 0 && (t[0] == '-' || t[0] == '*' || t[0] == '+') {
        Some(1)
    } else {
        let mut d: usize = 0;
        while d < t.len() && is_ascii_digit(t[d])
            invariant
                d <= t@.len(),
                run_end(t@, d as int, ascii_digit()) == run_end(t@, 0, ascii_digit()),
            decreases t@.len() - d,
        {
            d = d + 1;
        }
        if d > 0 && d < t.len() && (t[d] == '.' || t[d] == ')') {
            Some(d + 1)
        } else {
            None
        }
    }
}

/// `a + b`, or `usize::MAX` where that would not fit.
fn sat_add(a: usize, b: usize) -> (r: usize)
    ensures
        r == if a + b <= usize::MAX { (a + b) as usize } else { usize::MAX },
{
    if a <= usize::MAX - b {
        a + b
    } else {
        usize::MAX
    }
}

/// Parse a GFM task list marker: `[ ]`, `[x]`, `[X]`.
/// Returns `(TaskState, content_start_offset)`, the offset counted in
/// bytes from the first character of the line that is not white space.
pub fn parse_task_marker(line: &str) -> (r: Option<(TaskState, usize)>)
    ensures
        match (r, spec_task_marker_bytes(line@)) {
            (Some((st, n)), Some((sst, sn))) => st == sst && n == if sn <= usize::MAX { sn } else { usize::MAX as int },
            (None, None) => true,
            _ => false,
        },
{
    let chars = str_chars(line);
    match parse_task_marker_chars(&chars) {
        None => None,
        Some((st, _)) => {
            let lead = skip_ws_exec(&chars, 0);
            let t = slice_vec(&chars, lead, chars.len());
            assert(t@ == trim_start(line@));
            match marker_end_exec(&t) {
                None => None,
                Some(m) => {
                    let ghost after = t@.subrange(m as int, t@.len() as int);
                    let after_v = slice_vec(&t, m, t.len());
                    let w = skip_ws_exec(&after_v, 0);
                    let mut bytes: usize = 0;
                    let mut k: usize = 0;
                    assert(after.subrange(0, 0) =~= Seq::<char>::empty());
                    while k < w
                        invariant
                            w <= after_v@.len(),
                            k <= w,
                            after_v@ == after,
                            bytes == if utf8_bytes(after.subrange(0, k as int)) <= usize::MAX {
                                utf8_bytes(after.subrange(0, k as int)) as int
                            } else {
                                usize::MAX as int
                            },
                        decreases w - k,
                    {
                        let c = after_v[k];
                        assert(after.subrange(0, k + 1).drop_last() =~= after.subrange(0, k as int));
                        assert(after.subrange(0, k + 1).last() == c);
                        bytes = sat_add(bytes, utf8_len_exec(c));
                        k = k + 1;
                    }
                    Some((st, sat_add(sat_add(m, bytes), 3)))
                },
            }
        },
    }
}

/// Check if a line starts with a task list marker.
pub fn has_task_marker(line: &str) -> (b: bool)
    ensures
        b == spec_task_marker(line@) is Some,
{
    parse_task_marker(line).is_some()
}

} // verus!
