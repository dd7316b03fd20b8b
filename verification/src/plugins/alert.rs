use vstd::prelude::*;
use crate::ast::{Block, Document, Inline};
use crate::ast::nodes::{SpecBlock, SpecDocument, SpecInline, view_block, view_blocks, view_document, view_inline, view_inlines};
use crate::ast::span::Span;
use crate::plugin_factory::{Plugin, PluginContext};
use crate::parser::inline::lemma_view_inlines;
use crate::text::{spec_is_ws, lemma_skip_ws, lemma_trim_back, lemma_skip_ws_same_class, lemma_trim_back_same_class, lemma_trim_idempotent, skip_ws, trim_back, trim, trim_vec, push_str, str_chars, string_from_chars};

verus! {

/// GitHub-flavored alert types.
///
/// See <https://docs.github.com/en/get-started/writing-on-github/get-started/writing-on-github#alerts>
#[derive(Debug, Clone, Copy, PartialEq, Eq, Structural)]
pub enum AlertKind {
    Note,
    Tip,
    Important,
    Warning,
    Caution,
}

/// ASCII upper case of a character.
pub open spec fn ascii_upper(c: char) -> char {
    if 'a' <= c && c <= 'z' {
        (((c as u32) - 32) as u8) as char
    } else {
        c
    }
}

fn ascii_upper_exec(c: char) -> (r: char)
    ensures
        r == ascii_upper(c),
{
    if 'a' <= c && c <= 'z' {
        (((c as u32) - 32) as u8) as char
    } else {
        c
    }
}

} // verus!

verus! {

/// ASCII upper case of a text.
pub open spec fn upper(s: Seq<char>) -> Seq<char> {
    Seq::new(s.len(), |k: int| ascii_upper(s[k]))
}

/// The kind of alert that a `[!XXX]` marker names: the marker is trimmed
/// and compared without regard to ASCII case.
pub open spec fn spec_from_marker(m: Seq<char>) -> Option<AlertKind> {
    let u = upper(trim(m));
    if u == "[!NOTE]"@ {
        Some(AlertKind::Note)
    } else if u == "[!TIP]"@ {
        Some(AlertKind::Tip)
    } else if u == "[!IMPORTANT]"@ {
        Some(AlertKind::Important)
    } else if u == "[!WARNING]"@ {
        Some(AlertKind::Warning)
    } else if u == "[!CAUTION]"@ {
        Some(AlertKind::Caution)
    } else {
        None
    }
}

pub open spec fn spec_label(k: AlertKind) -> Seq<char> {
    match k {
        AlertKind::Note => "NOTE"@,
        AlertKind::Tip => "TIP"@,
        AlertKind::Important => "IMPORTANT"@,
        AlertKind::Warning => "WARNING"@,
        AlertKind::Caution => "CAUTION"@,
    }
}

pub open spec fn spec_color(k: AlertKind) -> Seq<char> {
    match k {
        AlertKind::Note => "#0969da"@,
        AlertKind::Tip => "#1a7f37"@,
        AlertKind::Important => "#8250df"@,
        AlertKind::Warning => "#9a6700"@,
        AlertKind::Caution => "#cf222e"@,
    }
}

pub open spec fn badge_prefix() -> Seq<char> {
    "<p style=\"font-family: Arial, Helvetica, sans-serif;background-color: "@
}

pub open spec fn badge_middle() -> Seq<char> {
    ";color: white;padding: 4px;text-align: center;border-radius: 5px;font-size: 12px;font-weight: 600;max-width: 100px;\">"@
}

/// The inline HTML badge of an alert kind: a styled `<p>` in the kind's
/// color holding its label.
pub open spec fn spec_badge(k: AlertKind) -> Seq<char> {
    badge_prefix() + spec_color(k) + badge_middle() + spec_label(k) + "</p>"@
}

proof fn lemma_upper_char(c: char)
    ensures
        spec_is_ws(ascii_upper(c)) == spec_is_ws(c),
        ascii_upper(ascii_upper(c)) == ascii_upper(c),
{
}

proof fn lemma_trim_upper(m: Seq<char>)
    ensures
        trim(upper(m)) == upper(trim(m)),
{
    let um = upper(m);
    assert forall|k: int| 0 <= k < m.len() implies spec_is_ws(#[trigger] m[k]) == spec_is_ws(um[k]) by {
        lemma_upper_char(m[k]);
    }
    lemma_skip_ws_same_class(m, um, 0);
    let a = skip_ws(m, 0);
    lemma_skip_ws(m, 0);
    let u = m.subrange(a, m.len() as int);
    let uu = um.subrange(a, m.len() as int);
    assert(uu =~= upper(u));
    assert forall|k: int| 0 <= k < u.len() implies spec_is_ws(#[trigger] u[k]) == spec_is_ws(uu[k]) by {
        lemma_upper_char(u[k]);
    }
    lemma_trim_back_same_class(u, uu, 0, u.len() as int);
    let b = trim_back(u, 0, u.len() as int);
    lemma_trim_back(u, 0, u.len() as int);
    assert(uu.subrange(0, b) =~= upper(u.subrange(0, b)));
}

/// A marker names an alert kind without regard to the white space around
/// it or to ASCII case.
pub proof fn lemma_marker_space_and_case(m: Seq<char>)
    ensures
        spec_from_marker(trim(m)) == spec_from_marker(m),
        spec_from_marker(upper(m)) == spec_from_marker(m),
{
    lemma_trim_idempotent(m);
    lemma_trim_upper(m);
    let t = trim(m);
    assert forall|k: int| 0 <= k < t.len() implies #[trigger] ascii_upper(ascii_upper(t[k])) == ascii_upper(t[k]) by {
        lemma_upper_char(t[k]);
    }
    assert(upper(upper(t)) =~= upper(t));
}

/// The marker made of a kind's label, `[!LABEL]`, names that kind.
pub proof fn lemma_label_marker(k: AlertKind)
    ensures
        spec_from_marker("[!"@ + spec_label(k) + "]"@) == Some(k),
{
    reveal_strlit("[!");
    reveal_strlit("]");
    reveal_strlit("NOTE");
    reveal_strlit("TIP");
    reveal_strlit("IMPORTANT");
    reveal_strlit("WARNING");
    reveal_strlit("CAUTION");
    reveal_strlit("[!NOTE]");
    reveal_strlit("[!TIP]");
    reveal_strlit("[!IMPORTANT]");
    reveal_strlit("[!WARNING]");
    reveal_strlit("[!CAUTION]");
    let m = "[!"@ + spec_label(k) + "]"@;
    assert(m[0] == '[');
    assert(m.last() == ']');
    assert(skip_ws(m, 0) == 0);
    assert(m.subrange(0, m.len() as int) =~= m);
    assert(trim_back(m, 0, m.len() as int) == m.len());
    assert(trim(m) =~= m);
    assert forall|i: int| 0 <= i < m.len() implies !('a' <= #[trigger] m[i] && m[i] <= 'z') by {
        if i < 2 {
        } else if i < 2 + spec_label(k).len() {
            assert(m[i] == spec_label(k)[i - 2]);
        } else {
        }
    }
    assert(upper(m) =~= m);
    match k {
        AlertKind::Note => {
            assert(m =~= "[!NOTE]"@);
        },
        AlertKind::Tip => {
            assert(m =~= "[!TIP]"@);
        },
        AlertKind::Important => {
            assert(m =~= "[!IMPORTANT]"@);
        },
        AlertKind::Warning => {
            assert(m =~= "[!WARNING]"@);
            assert(m[2] != "[!CAUTION]"@[2]);
        },
        AlertKind::Caution => {
            assert(m =~= "[!CAUTION]"@);
            assert(m[2] != "[!WARNING]"@[2]);
        },
    }
}

/// The marker `[!LABEL]` of each kind.
pub open spec fn marker_of(k: AlertKind) -> Seq<char> {
    "[!"@ + spec_label(k) + "]"@
}

proof fn lemma_markers(k: AlertKind)
    ensures
        k == AlertKind::Note ==> marker_of(k) == "[!NOTE]"@,
        k == AlertKind::Tip ==> marker_of(k) == "[!TIP]"@,
        k == AlertKind::Important ==> marker_of(k) == "[!IMPORTANT]"@,
        k == AlertKind::Warning ==> marker_of(k) == "[!WARNING]"@,
        k == AlertKind::Caution ==> marker_of(k) == "[!CAUTION]"@,
{
    reveal_strlit("[!");
    reveal_strlit("]");
    reveal_strlit("NOTE");
    reveal_strlit("TIP");
    reveal_strlit("IMPORTANT");
    reveal_strlit("WARNING");
    reveal_strlit("CAUTION");
    reveal_strlit("[!NOTE]");
    reveal_strlit("[!TIP]");
    reveal_strlit("[!IMPORTANT]");
    reveal_strlit("[!WARNING]");
    reveal_strlit("[!CAUTION]");
    match k {
        AlertKind::Note => assert(marker_of(k) =~= "[!NOTE]"@),
        AlertKind::Tip => assert(marker_of(k) =~= "[!TIP]"@),
        AlertKind::Important => assert(marker_of(k) =~= "[!IMPORTANT]"@),
        AlertKind::Warning => assert(marker_of(k) =~= "[!WARNING]"@),
        AlertKind::Caution => assert(marker_of(k) =~= "[!CAUTION]"@),
    }
}

proof fn lemma_markers_distinct()
    ensures
        "[!NOTE]"@ != "[!TIP]"@,
        "[!NOTE]"@ != "[!IMPORTANT]"@,
        "[!NOTE]"@ != "[!WARNING]"@,
        "[!NOTE]"@ != "[!CAUTION]"@,
        "[!TIP]"@ != "[!IMPORTANT]"@,
        "[!TIP]"@ != "[!WARNING]"@,
        "[!TIP]"@ != "[!CAUTION]"@,
        "[!IMPORTANT]"@ != "[!WARNING]"@,
        "[!IMPORTANT]"@ != "[!CAUTION]"@,
        "[!WARNING]"@ != "[!CAUTION]"@,
{
    reveal_strlit("[!NOTE]");
    reveal_strlit("[!TIP]");
    reveal_strlit("[!IMPORTANT]");
    reveal_strlit("[!WARNING]");
    reveal_strlit("[!CAUTION]");
    assert("[!NOTE]"@.len() == 7);
    assert("[!TIP]"@.len() == 6);
    assert("[!IMPORTANT]"@.len() == 12);
    assert("[!WARNING]"@.len() == 10);
    assert("[!CAUTION]"@.len() == 10);
    assert("[!WARNING]"@[2] != "[!CAUTION]"@[2]);
}

/// [`AlertKind::from_marker`] inverts the labels: a marker names kind `k`
/// exactly when, trimmed and in ASCII upper case, it is `[!LABEL]` of `k`'s
/// label, and it names no kind when it is none of these.
pub proof fn lemma_from_marker_exact(m: Seq<char>, k: AlertKind)
    ensures
        spec_from_marker(m) == Some(k) <==> upper(trim(m)) == marker_of(k),
        spec_from_marker(m) is None <==> (forall|j: AlertKind| upper(trim(m)) != #[trigger] marker_of(j)),
{
    lemma_markers_distinct();
    lemma_markers(k);
    lemma_markers(AlertKind::Note);
    lemma_markers(AlertKind::Tip);
    lemma_markers(AlertKind::Important);
    lemma_markers(AlertKind::Warning);
    lemma_markers(AlertKind::Caution);
    if spec_from_marker(m) is None {
        assert forall|j: AlertKind| upper(trim(m)) != #[trigger] marker_of(j) by {
            lemma_markers(j);
        }
    }
}

/// The badge opens with `<p style="`, holds the kind's colour right after
/// the style's opening words, and ends with the kind's label and `</p>`.
pub proof fn lemma_badge_shape(k: AlertKind)
    ensures
        "<p style=\""@.is_prefix_of(spec_badge(k)),
        spec_badge(k).subrange(badge_prefix().len() as int, (badge_prefix().len() + spec_color(k).len()) as int) == spec_color(k),
        (spec_label(k) + "</p>"@).is_suffix_of(spec_badge(k)),
{
    reveal_strlit("<p style=\"");
    reveal_strlit("<p style=\"font-family: Arial, Helvetica, sans-serif;background-color: ");
    let b = spec_badge(k);
    let p = badge_prefix();
    assert(p.subrange(0, 10) =~= "<p style=\""@);
    assert(b.subrange(0, 10) =~= p.subrange(0, 10));
    assert(b.subrange(p.len() as int, (p.len() + spec_color(k).len()) as int) =~= spec_color(k));
    let tail = spec_label(k) + "</p>"@;
    assert(b.subrange(b.len() - tail.len(), b.len() as int) =~= tail);
}

fn chars_eq(a: &Vec<char>, b: &Vec<char>) -> (r: bool)
    ensures
        r == (a@ == b@),
{
    if a.len() != b.len() {
        return false;
    }
    let mut k: usize = 0;
    while k < a.len()
        invariant
            k <= a@.len(),
            a@.len() == b@.len(),
            forall|m: int| 0 <= m < k ==> a@[m] == b@[m],
        decreases a@.len() - k,
    {
        if a[k] != b[k] {
            return false;
        }
        k = k + 1;
    }
    assert(a@ =~= b@);
    true
}

fn upper_exec(s: &Vec<char>) -> (r: Vec<char>)
    ensures
        r@ == upper(s@),
{
    let mut r: Vec<char> = Vec::new();
    let mut k: usize = 0;
    while k < s.len()
        invariant
            k <= s@.len(),
            r@ == upper(s@).subrange(0, k as int),
        decreases s@.len() - k,
    {
        r.push(ascii_upper_exec(s[k]));
        k = k + 1;
        assert(r@ =~= upper(s@).subrange(0, k as int));
    }
    assert(r@ =~= upper(s@));
    r
}

impl AlertKind {
    /// Parse a `[!XXX]` marker into an [`AlertKind`].
    pub fn from_marker(marker: &str) -> (r: Option<Self>)
        ensures
            r == spec_from_marker(marker@),
    {
        let u = upper_exec(&trim_vec(&str_chars(marker)));
        if chars_eq(&u, &str_chars("[!NOTE]")) {
            Some(AlertKind::Note)
        } else if chars_eq(&u, &str_chars("[!TIP]")) {
            Some(AlertKind::Tip)
        } else if chars_eq(&u, &str_chars("[!IMPORTANT]")) {
            Some(AlertKind::Important)
        } else if chars_eq(&u, &str_chars("[!WARNING]")) {
            Some(AlertKind::Warning)
        } else if chars_eq(&u, &str_chars("[!CAUTION]")) {
            Some(AlertKind::Caution)
        } else {
            None
        }
    }

    /// Human-readable label (uppercase).
    pub fn label(&self) -> (r: &'static str)
        ensures
            r@ == spec_label(*self),
    {
        match self {
            AlertKind::Note => "NOTE",
            AlertKind::Tip => "TIP",
            AlertKind::Important => "IMPORTANT",
            AlertKind::Warning => "WARNING",
            AlertKind::Caution => "CAUTION",
        }
    }

    /// Badge background color for the inline label span.
    pub fn color(&self) -> (r: &'static str)
        ensures
            r@ == spec_color(*self),
    {
        match self {
            AlertKind::Note => "#0969da",
            AlertKind::Tip => "#1a7f37",
            AlertKind::Important => "#8250df",
            AlertKind::Warning => "#9a6700",
            AlertKind::Caution => "#cf222e",
        }
    }

    /// Build the inline HTML badge for this alert kind.
    pub fn badge_html(&self) -> (r: String)
        ensures
            r@ == spec_badge(*self),
    {
        let mut out: Vec<char> = Vec::new();
        push_str(&mut out, "<p style=\"font-family: Arial, Helvetica, sans-serif;background-color: ");
        push_str(&mut out, self.color());
        push_str(&mut out, ";color: white;padding: 4px;text-align: center;border-radius: 5px;font-size: 12px;font-weight: 600;max-width: 100px;\">");
        push_str(&mut out, self.label());
        push_str(&mut out, "</p>");
        assert(out@ =~= spec_badge(*self));
        string_from_chars(&out)
    }
}

/// The alert kind of a paragraph's inline nodes: that of the marker in the
/// first node, if it is text.
pub open spec fn first_marker(inl: Seq<SpecInline>) -> Option<AlertKind> {
    if inl.len() > 0 {
        match inl[0] {
            SpecInline::Text { value, .. } => spec_from_marker(value),
            _ => None,
        }
    } else {
        None
    }
}

/// A block after [`BlockquoteAlert`]: in a block quote whose first block is
/// a paragraph that starts with an alert marker, the marker becomes the
/// badge of that kind; the rest of the paragraph and of the quote stays.
pub open spec fn alert_block(b: SpecBlock) -> SpecBlock {
    match b {
        SpecBlock::BlockQuote { children, attrs, position } => if children.len() > 0 {
            match children[0] {
                SpecBlock::Paragraph { children: inl, attrs: pa, position: pp } => match first_marker(inl) {
                    Some(k) => SpecBlock::BlockQuote {
                        children: children.update(
                            0,
                            SpecBlock::Paragraph {
                                children: inl.update(0, SpecInline::HtmlInline { html: spec_badge(k), position: Span::empty() }),
                                attrs: pa,
                                position: pp,
                            },
                        ),
                        attrs,
                        position,
                    },
                    None => b,
                },
                _ => b,
            }
        } else {
            b
        },
        _ => b,
    }
}

/// The document after [`BlockquoteAlert`].
pub open spec fn spec_alerts(d: SpecDocument) -> SpecDocument {
    SpecDocument { children: Seq::new(d.children.len(), |k: int| alert_block(d.children[k])), position: d.position }
}

/// Running the alert plugin a second time changes nothing: a badge is not
/// a marker.
pub proof fn lemma_alerts_idempotent(d: SpecDocument)
    ensures
        spec_alerts(spec_alerts(d)) == spec_alerts(d),
{
    let once = spec_alerts(d);
    assert forall|k: int| 0 <= k < once.children.len() implies #[trigger] alert_block(once.children[k])
        == once.children[k] by {
        let b = d.children[k];
        match b {
            SpecBlock::BlockQuote { children, attrs, position } => if children.len() > 0 {
                match children[0] {
                    SpecBlock::Paragraph { children: inl, attrs: pa, position: pp } => match first_marker(inl) {
                        Some(kind) => {
                            let p2 = SpecBlock::Paragraph {
                                children: inl.update(0, SpecInline::HtmlInline { html: spec_badge(kind), position: Span::empty() }),
                                attrs: pa,
                                position: pp,
                            };
                            assert(children.update(0, p2)[0] == p2);
                        },
                        None => {},
                    },
                    _ => {},
                }
            },
            _ => {},
        }
    }
    assert(spec_alerts(once).children =~= once.children);
}

/// A plugin that renders GitHub-flavored alert markers inside blockquote
/// (`[!NOTE]`, `[!TIP]`, `[!IMPORTANT]`, `[!WARNING]`, `[!CAUTION]`) as
/// styled inline badges.
pub struct BlockquoteAlert;

impl Default for BlockquoteAlert {
    fn default() -> (r: Self) {
        BlockquoteAlert
    }
}

fn alert_paragraph(p: Block) -> (r: Block)
    requires
        p is Paragraph,
    ensures
        match view_block(p) {
            SpecBlock::Paragraph { children: inl, attrs: pa, position: pp } => view_block(r) == match first_marker(inl) {
                Some(k) => SpecBlock::Paragraph {
                    children: inl.update(0, SpecInline::HtmlInline { html: spec_badge(k), position: Span::empty() }),
                    attrs: pa,
                    position: pp,
                },
                None => view_block(p),
            },
            _ => false,
        },
{
    match p {
        Block::Paragraph { children: inl, attrs: pa, position: pp } => {
            let kind = if inl.len() > 0 {
                match &inl[0] {
                    Inline::Text { value, .. } => AlertKind::from_marker(value.as_str()),
                    _ => None,
                }
            } else {
                None
            };
            assert(inl@.len() > 0 ==> view_inlines(inl)[0] == view_inline(inl@[0]));
            match kind {
                Some(k) => {
                    let ghost i0 = inl;
                    let mut v = inl;
                    let h = Inline::HtmlInline { html: k.badge_html(), position: Span::default() };
                    v.set(0, h);
                    proof {
                        lemma_view_inlines(i0);
                        lemma_view_inlines(v);
                    }
                    assert(view_inlines(v) =~= view_inlines(i0).update(0, view_inline(h)));
                    Block::Paragraph { children: v, attrs: pa, position: pp }
                },
                None => Block::Paragraph { children: inl, attrs: pa, position: pp },
            }
        },
        other => other,
    }
}

fn alert_exec(b: Block) -> (r: Block)
    ensures
        view_block(r) == alert_block(view_block(b)),
{
    let ghost vb = view_block(b);
    match b {
        Block::BlockQuote { children, attrs, position } => {
            let ghost c0 = children;
            let mut children = children;
            if children.len() > 0 {
                proof {
                    crate::parser::block::lemma_view_blocks(c0);
                }
                let first = children.remove(0);
                assert(first == c0@[0]);
                if let Block::Paragraph { .. } = first {
                    let np = alert_paragraph(first);
                    children.insert(0, np);
                    assert(children@ =~= c0@.update(0, np));
                    proof {
                        crate::parser::block::lemma_view_blocks(children);
                    }
                    assert(view_blocks(children) =~= view_blocks(c0).update(0, view_block(np)));
                    proof {
                        assert(view_blocks(c0)[0] == view_block(c0@[0]));
                        if view_block(np) == view_blocks(c0)[0] {
                            assert(view_blocks(c0).update(0, view_block(np)) =~= view_blocks(c0));
                        }
                    }
                } else {
                    children.insert(0, first);
                    assert(children@ =~= c0@);
                }
            }
            Block::BlockQuote { children, attrs, position }
        },
        other => other,
    }
}

impl Plugin for BlockquoteAlert {
    open spec fn obeys_plugin_spec(&self) -> bool {
        true
    }

    open spec fn spec_name(&self) -> Seq<char> {
        "blockquote_alert"@
    }

    open spec fn spec_transform(&self, d: SpecDocument, ctx: PluginContext) -> SpecDocument {
        spec_alerts(d)
    }

    fn pre_render(&self, renderer: &mut crate::html::AstToHtml, doc: &Document, ctx: &PluginContext) {
    }

    fn post_render(&self, html: &mut String, doc: &Document, ctx: &PluginContext) {
    }

    fn name(&self) -> (r: &str)
        ensures
            r@ == "blockquote_alert"@,
    {
        "blockquote_alert"
    }

    fn transform_ast(&self, doc: &mut Document, ctx: &PluginContext)
        ensures
            view_document(*final(doc)) == spec_alerts(view_document(*old(doc))),
            final(doc).node_type == old(doc).node_type,
    {
        let ghost d0 = view_document(*doc);
        let mut old_blocks = crate::plugin_factory::take_children(doc);
        let ghost orig = old_blocks@;
        let mut blocks: Vec<Block> = Vec::new();
        let n = old_blocks.len();
        while old_blocks.len() > 0
            invariant
                orig.len() == n,
                old_blocks@ == orig.subrange((n - old_blocks@.len()) as int, n as int),
                blocks@.len() == n - old_blocks@.len(),
                forall|m: int| 0 <= m < blocks@.len() ==> view_block(#[trigger] blocks@[m]) == alert_block(view_block(orig[m])),
            decreases old_blocks@.len(),
        {
            let ghost k = n - old_blocks@.len();
            let b = old_blocks.remove(0);
            assert(b == orig[k as int]);
            blocks.push(alert_exec(b));
            assert(old_blocks@ =~= orig.subrange((n - old_blocks@.len()) as int, n as int));
        }
        doc.children = blocks;
        assert(view_blocks(doc.children) =~= spec_alerts(d0).children);
    }
}

} // verus!
