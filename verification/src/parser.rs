//! The block parser: a single forward pass over the lines of a document,
//! classifying each line by its prefix and aggregating multi-line blocks
//! (code fences, lists), plus the character-level span scanner used for
//! paragraph text.

use vstd::prelude::*;

use crate::text::append_chars;
use crate::text::chars_to_string;
use crate::text::find_char;
use crate::text::find_from;
use crate::text::is_digit;
use crate::text::is_digit_char;
use crate::text::lemma_find_from_props;
use crate::text::lines_of;
use crate::text::split_lines;
use crate::text::starts1;
use crate::text::starts2;
use crate::text::starts3;
use crate::text::starts_with_s;
use crate::text::str_to_chars;
use crate::text::sub_chars;
use crate::text::trim_chars;
use crate::text::trim_s;
use crate::text::trim_start_chars;
use crate::text::trim_start_s;

verus! {

/// A fenced code region: the text after the opening fence is the language,
/// the raw lines up to the closing fence are the content.
#[derive(Debug)]
pub struct MarkdownCodeBlock {
    pub language: String,
    pub content: String,
}

/// A heading of level 1 to 3 with its trimmed text.
#[derive(Debug)]
pub struct MarkdownHeading {
    pub level: u8,
    pub content: String,
}

/// The formatting variant of one inline span.
#[derive(Debug, Clone, Copy, PartialEq, Eq, Structural)]
pub enum MarkdownVariant {
    Bold,
    Italic,
    Normal,
    InlineCode,
}

/// Whether a list was introduced by numbered or bulleted markers.
#[derive(Debug, Clone, Copy, PartialEq, Eq, Structural)]
pub enum MarkdownListType {
    Numbered,
    Bulleted,
}

/// A maximal run of consecutive same-marker list lines.
#[derive(Debug)]
pub struct MarkdownList {
    pub ty: MarkdownListType,
    pub items: Vec<String>,
}

/// One block-level node of a parsed document.
#[derive(Debug)]
pub enum MarkdownNodes {
    Heading(MarkdownHeading),
    Paragraph(MarkdownParagraph),
    List(MarkdownList),
    Link(MarkdownLink),
    CodeBlock(MarkdownCodeBlock),
    HorizontalRule,
}

/// The character shapes that the line grammar distinguishes.
#[derive(Debug, Clone, Copy, PartialEq, Eq, Structural)]
pub enum Token {
    Hash,
    Asterisk,
    Dash,
    Space,
    ExclamationMark,
    Backtick,
    Word,
}

/// A contiguous run of paragraph text carrying one formatting variant.
#[derive(Debug)]
pub struct MarkdownSpan {
    pub content: String,
    pub variant: MarkdownVariant,
}

/// A free-text line, decomposed into formatting spans.
#[derive(Debug)]
pub struct MarkdownParagraph {
    pub spans: Vec<MarkdownSpan>,
}

/// A link or image: alt text, target URL, and whether it renders as `<img>`.
#[derive(Debug)]
pub struct MarkdownLink {
    pub alt: String,
    pub url: String,
    pub is_image: bool,
}

/// The mathematical value of a span: its characters and its variant.
pub struct SpanView {
    pub content: Seq<char>,
    pub variant: MarkdownVariant,
}

/// The mathematical value of a document node.
pub enum NodeView {
    Heading { level: u8, content: Seq<char> },
    Paragraph { spans: Seq<SpanView> },
    List { ty: MarkdownListType, items: Seq<Seq<char>> },
    Link { alt: Seq<char>, url: Seq<char>, is_image: bool },
    CodeBlock { language: Seq<char>, content: Seq<char> },
    HorizontalRule,
}

impl View for MarkdownSpan {
    type V = SpanView;

    open spec fn view(&self) -> SpanView {
        SpanView { content: self.content@, variant: self.variant }
    }
}

impl DeepView for MarkdownSpan {
    type V = SpanView;

    open spec fn deep_view(&self) -> SpanView {
        self@
    }
}

impl View for MarkdownNodes {
    type V = NodeView;

    open spec fn view(&self) -> NodeView {
        match self {
            MarkdownNodes::Heading(h) => NodeView::Heading {
                level: h.level,
                content: h.content@,
            },
            MarkdownNodes::Paragraph(p) => NodeView::Paragraph { spans: p.spans.deep_view() },
            MarkdownNodes::List(l) => NodeView::List { ty: l.ty, items: l.items.deep_view() },
            MarkdownNodes::Link(l) => NodeView::Link {
                alt: l.alt@,
                url: l.url@,
                is_image: l.is_image,
            },
            MarkdownNodes::CodeBlock(c) => NodeView::CodeBlock {
                language: c.language@,
                content: c.content@,
            },
            MarkdownNodes::HorizontalRule => NodeView::HorizontalRule,
        }
    }
}

impl DeepView for MarkdownNodes {
    type V = NodeView;

    open spec fn deep_view(&self) -> NodeView {
        self@
    }
}

/// A double asterisk enters Bold from any other state and leaves it for
/// Normal: toggling never stacks.
pub open spec fn toggle_bold(st: MarkdownVariant) -> MarkdownVariant {
    match st {
        MarkdownVariant::Bold => MarkdownVariant::Normal,
        _ => MarkdownVariant::Bold,
    }
}

/// A single asterisk enters Italic from any other state and leaves it for
/// Normal.
pub open spec fn toggle_italic(st: MarkdownVariant) -> MarkdownVariant {
    match st {
        MarkdownVariant::Italic => MarkdownVariant::Normal,
        _ => MarkdownVariant::Italic,
    }
}

/// A backtick enters InlineCode from any other state and leaves it for
/// Normal.
pub open spec fn toggle_code(st: MarkdownVariant) -> MarkdownVariant {
    match st {
        MarkdownVariant::InlineCode => MarkdownVariant::Normal,
        _ => MarkdownVariant::InlineCode,
    }
}

/// A non-empty buffer flushes as one span tagged with the active state; an
/// empty buffer flushes to nothing.
pub open spec fn flush_s(buf: Seq<char>, st: MarkdownVariant) -> Seq<SpanView> {
    if buf.len() == 0 {
        Seq::empty()
    } else {
        seq![SpanView { content: buf, variant: st }]
    }
}

/// The spans produced by scanning `s` from position `i` with active state
/// `st` and pending buffer `buf`: markers flush the buffer and toggle the
/// state, ordinary characters extend the buffer, and the end of the line
/// flushes whatever remains.
pub open spec fn scan_from(s: Seq<char>, i: int, st: MarkdownVariant, buf: Seq<char>) -> Seq<
    SpanView,
>
    decreases s.len() - i,
{
    if i < 0 || i >= s.len() {
        flush_s(buf, st)
    } else if s[i] == '*' {
        if i + 1 < s.len() && s[i + 1] == '*' {
            flush_s(buf, st) + scan_from(s, i + 2, toggle_bold(st), Seq::empty())
        } else {
            flush_s(buf, st) + scan_from(s, i + 1, toggle_italic(st), Seq::empty())
        }
    } else if s[i] == '`' {
        flush_s(buf, st) + scan_from(s, i + 1, toggle_code(st), Seq::empty())
    } else {
        scan_from(s, i + 1, st, buf.push(s[i]))
    }
}

/// The spans of one line of paragraph text.
pub open spec fn spans_of(s: Seq<char>) -> Seq<SpanView> {
    scan_from(s, 0, MarkdownVariant::Normal, Seq::empty())
}

/// A line whose trimmed start begins with a dash continues a bulleted list.
pub open spec fn is_bullet_line(l: Seq<char>) -> bool {
    starts_with_s(trim_start_s(l), seq!['-'])
}

/// A trimmed line that begins with a digit and contains a dot is a numbered
/// list entry.
pub open spec fn is_numbered_t(t: Seq<char>) -> bool {
    t.len() > 0 && is_digit_char(t[0]) && find_from(t, '.', 0) >= 0
}

/// A line whose trimmed start is a numbered list entry.
pub open spec fn is_numbered_line(l: Seq<char>) -> bool {
    is_numbered_t(trim_start_s(l))
}

/// The text of a bulleted item: everything after the dash, trimmed.
pub open spec fn bullet_item(l: Seq<char>) -> Seq<char> {
    trim_s(trim_start_s(l).drop_first())
}

/// The text of a numbered item: everything after the first dot, trimmed.
pub open spec fn numbered_item(l: Seq<char>) -> Seq<char> {
    let t = trim_start_s(l);
    trim_s(t.skip(find_from(t, '.', 0) + 1))
}

/// A line that, once trimmed, is exactly a triple backtick closes a fence.
pub open spec fn is_fence_close(l: Seq<char>) -> bool {
    trim_s(l) == seq!['`', '`', '`']
}

/// The index of the first fence-closing line at or after `k`, or the number
/// of lines when none closes the fence.
pub open spec fn fence_end(ls: Seq<Seq<char>>, k: int) -> int
    decreases ls.len() - k,
{
    if k < 0 || k >= ls.len() {
        ls.len() as int
    } else if is_fence_close(ls[k]) {
        k
    } else {
        fence_end(ls, k + 1)
    }
}

/// The index of the first line at or after `k` that does not continue a
/// bulleted list.
pub open spec fn bullet_end(ls: Seq<Seq<char>>, k: int) -> int
    decreases ls.len() - k,
{
    if k < 0 || k >= ls.len() {
        ls.len() as int
    } else if !is_bullet_line(ls[k]) {
        k
    } else {
        bullet_end(ls, k + 1)
    }
}

/// The index of the first line at or after `k` that does not continue a
/// numbered list.
pub open spec fn numbered_end(ls: Seq<Seq<char>>, k: int) -> int
    decreases ls.len() - k,
{
    if k < 0 || k >= ls.len() {
        ls.len() as int
    } else if !is_numbered_line(ls[k]) {
        k
    } else {
        numbered_end(ls, k + 1)
    }
}

/// The lines `[a, b)` joined back with a newline after each line.
pub open spec fn cat_lines(ls: Seq<Seq<char>>, a: int, b: int) -> Seq<char>
    decreases b - a,
{
    if a < 0 || a >= b || b > ls.len() {
        Seq::empty()
    } else {
        ls[a] + seq!['\n'] + cat_lines(ls, a + 1, b)
    }
}

/// The node a link or image line yields, or nothing when the bracket or
/// parenthesis syntax is malformed.
pub open spec fn link_nodes(t: Seq<char>) -> Seq<NodeView> {
    let is_image = starts_with_s(t, seq!['!', '[']);
    let start = if is_image { 2int } else { 1int };
    let rest = t.skip(start);
    let e = find_from(rest, ']', 0);
    if e < 0 {
        Seq::empty()
    } else {
        let rem = rest.skip(e + 1);
        if rem.len() > 0 && rem[0] == '(' {
            let u = find_from(rem, ')', 0);
            if u < 0 {
                Seq::empty()
            } else {
                seq![
                    NodeView::Link {
                        alt: rest.take(e),
                        url: rem.subrange(1, u),
                        is_image: is_image,
                    },
                ]
            }
        } else {
            Seq::empty()
        }
    }
}

/// The nodes parsed from the lines `ls` starting at line `i`: prefix
/// dispatch in fixed priority order, with code fences and lists consuming
/// the following lines they aggregate.
pub open spec fn parse_from(ls: Seq<Seq<char>>, i: int) -> Seq<NodeView>
    decreases ls.len() - i,
{
    if i < 0 || i >= ls.len() {
        Seq::empty()
    } else {
        let t = trim_start_s(ls[i]);
        if starts_with_s(t, seq!['-', '-', '-']) {
            seq![NodeView::HorizontalRule] + parse_from(ls, i + 1)
        } else if starts_with_s(t, seq!['#', '#', '#']) {
            seq![NodeView::Heading { level: 3, content: trim_s(t.skip(3)) }] + parse_from(
                ls,
                i + 1,
            )
        } else if starts_with_s(t, seq!['#', '#']) {
            seq![NodeView::Heading { level: 2, content: trim_s(t.skip(2)) }] + parse_from(
                ls,
                i + 1,
            )
        } else if starts_with_s(t, seq!['#']) {
            seq![NodeView::Heading { level: 1, content: trim_s(t.skip(1)) }] + parse_from(
                ls,
                i + 1,
            )
        } else if starts_with_s(t, seq!['`', '`', '`']) {
            let j0 = fence_end(ls, i + 1);
            let j = if i + 1 <= j0 && j0 <= ls.len() { j0 } else { ls.len() as int };
            seq![
                NodeView::CodeBlock { language: trim_s(t.skip(3)), content: cat_lines(ls, i + 1, j) },
            ] + parse_from(ls, if j >= ls.len() { j } else { j + 1 })
        } else if starts_with_s(t, seq!['-']) {
            let j0 = bullet_end(ls, i + 1);
            let j = if i + 1 <= j0 && j0 <= ls.len() { j0 } else { ls.len() as int };
            seq![
                NodeView::List {
                    ty: MarkdownListType::Bulleted,
                    items: Seq::new((j - i) as nat, |k: int| bullet_item(ls[i + k])),
                },
            ] + parse_from(ls, j)
        } else if is_numbered_t(t) {
            let j0 = numbered_end(ls, i + 1);
            let j = if i + 1 <= j0 && j0 <= ls.len() { j0 } else { ls.len() as int };
            seq![
                NodeView::List {
                    ty: MarkdownListType::Numbered,
                    items: Seq::new((j - i) as nat, |k: int| numbered_item(ls[i + k])),
                },
            ] + parse_from(ls, j)
        } else if starts_with_s(t, seq!['!', '[']) || starts_with_s(t, seq!['[']) {
            link_nodes(t) + parse_from(ls, i + 1)
        } else if t.len() > 0 {
            seq![NodeView::Paragraph { spans: spans_of(t) }] + parse_from(ls, i + 1)
        } else {
            parse_from(ls, i + 1)
        }
    }
}

/// The nodes of a whole document.
pub open spec fn parse_doc(s: Seq<char>) -> Seq<NodeView> {
    parse_from(lines_of(s), 0)
}

/// If no line in `[k, j)` closes the fence and line `j` does (or `j` is the
/// end), the fence ends at `j`.
pub proof fn lemma_fence_end_at(ls: Seq<Seq<char>>, k: int, j: int)
    requires
        0 <= k <= j <= ls.len(),
        forall|m: int| k <= m < j ==> !is_fence_close(ls[m]),
        j == ls.len() || is_fence_close(ls[j]),
    ensures
        fence_end(ls, k) == j,
    decreases j - k,
{
    if k < j {
        lemma_fence_end_at(ls, k + 1, j);
    }
}

/// If every line in `[k, j)` continues a bulleted list and line `j` does not
/// (or `j` is the end), the run ends at `j`.
pub proof fn lemma_bullet_end_at(ls: Seq<Seq<char>>, k: int, j: int)
    requires
        0 <= k <= j <= ls.len(),
        forall|m: int| k <= m < j ==> is_bullet_line(ls[m]),
        j == ls.len() || !is_bullet_line(ls[j]),
    ensures
        bullet_end(ls, k) == j,
    decreases j - k,
{
    if k < j {
        lemma_bullet_end_at(ls, k + 1, j);
    }
}

/// If every line in `[k, j)` continues a numbered list and line `j` does not
/// (or `j` is the end), the run ends at `j`.
pub proof fn lemma_numbered_end_at(ls: Seq<Seq<char>>, k: int, j: int)
    requires
        0 <= k <= j <= ls.len(),
        forall|m: int| k <= m < j ==> is_numbered_line(ls[m]),
        j == ls.len() || !is_numbered_line(ls[j]),
    ensures
        numbered_end(ls, k) == j,
    decreases j - k,
{
    if k < j {
        lemma_numbered_end_at(ls, k + 1, j);
    }
}

/// Joining one more line appends that line and a newline at the end.
pub proof fn lemma_cat_lines_snoc(ls: Seq<Seq<char>>, a: int, b: int)
    requires
        0 <= a <= b < ls.len(),
    ensures
        cat_lines(ls, a, b + 1) == cat_lines(ls, a, b) + ls[b] + seq!['\n'],
    decreases b - a,
{
    if a == b {
        assert(cat_lines(ls, a + 1, b + 1) =~= Seq::empty());
        assert(cat_lines(ls, a, b + 1) =~= cat_lines(ls, a, b) + ls[b] + seq!['\n']);
    } else {
        lemma_cat_lines_snoc(ls, a + 1, b);
        assert(cat_lines(ls, a, b + 1) =~= cat_lines(ls, a, b) + ls[b] + seq!['\n']);
    }
}

/// The block parser for one document; it is constructed per input text and
/// consumed by `parse`.
pub struct MarkdownParser {
    input: String,
}

impl View for MarkdownParser {
    type V = Seq<char>;

    closed spec fn view(&self) -> Seq<char> {
        self.input@
    }
}

impl MarkdownParser {
    /// A parser over the given document text.
    pub fn new(input: String) -> (p: Self)
        ensures
            p@ == input@,
    {
        MarkdownParser { input }
    }

    /// The spans of one line of paragraph text, scanned left to right with
    /// one character of lookahead.
    pub fn parse_inline_formatting(&self, text: &str) -> (spans: Vec<MarkdownSpan>)
        ensures
            spans.deep_view() == spans_of(text@),
    {
        let cs = str_to_chars(text);
        scan_chars(&cs)
    }

    /// Every block node of the document, in source order.
    pub fn parse(&self) -> (nodes: Vec<MarkdownNodes>)
        ensures
            nodes.deep_view() == parse_doc(self@),
    {
        let cs = str_to_chars(self.input.as_str());
        let lines = split_lines(&cs);
        let ghost gl = lines.deep_view();
        let mut nodes: Vec<MarkdownNodes> = Vec::new();
        let mut i: usize = 0;
        proof {
            assert(gl == lines_of(self@));
            assert(nodes.deep_view() + parse_from(gl, 0) =~~= parse_from(gl, 0));
        }
        while i < lines.len()
            invariant
                i <= lines.len(),
                gl == lines.deep_view(),
                gl == lines_of(self@),
                nodes.deep_view() + parse_from(gl, i as int) == parse_doc(self@),
            decreases lines.len() - i,
        {
            let ghost prev = nodes.deep_view();
            proof {
                assert(gl[i as int] =~= lines[i as int]@);
            }
            let t = trim_start_chars(&lines[i]);
            if starts3(&t, '-', '-', '-') {
                nodes.push(MarkdownNodes::HorizontalRule);
                proof {
                    assert(nodes.deep_view() =~~= prev.push(NodeView::HorizontalRule));
                    step_one(prev, NodeView::HorizontalRule, gl, i as int);
                }
                i = i + 1;
            } else if starts3(&t, '#', '#', '#') {
                let content = chars_to_string(&trim_chars(&sub_chars(&t, 3, t.len())));
                nodes.push(MarkdownNodes::Heading(MarkdownHeading { level: 3, content }));
                proof {
                    let nv = NodeView::Heading {
                        level: 3,
                        content: trim_s(trim_start_s(gl[i as int]).skip(3)),
                    };
                    assert(nodes.deep_view() =~~= prev.push(nv));
                    step_one(prev, nv, gl, i as int);
                }
                i = i + 1;
            } else if starts2(&t, '#', '#') {
                let content = chars_to_string(&trim_chars(&sub_chars(&t, 2, t.len())));
                nodes.push(MarkdownNodes::Heading(MarkdownHeading { level: 2, content }));
                proof {
                    let nv = NodeView::Heading {
                        level: 2,
                        content: trim_s(trim_start_s(gl[i as int]).skip(2)),
                    };
                    assert(nodes.deep_view() =~~= prev.push(nv));
                    step_one(prev, nv, gl, i as int);
                }
                i = i + 1;
            } else if starts1(&t, '#') {
                let content = chars_to_string(&trim_chars(&sub_chars(&t, 1, t.len())));
                nodes.push(MarkdownNodes::Heading(MarkdownHeading { level: 1, content }));
                proof {
                    let nv = NodeView::Heading {
                        level: 1,
                        content: trim_s(trim_start_s(gl[i as int]).skip(1)),
                    };
                    assert(nodes.deep_view() =~~= prev.push(nv));
                    step_one(prev, nv, gl, i as int);
                }
                i = i + 1;
            } else if starts3(&t, '`', '`', '`') {
                let language = chars_to_string(&trim_chars(&sub_chars(&t, 3, t.len())));
                let mut content: Vec<char> = Vec::new();
                let mut j = i + 1;
                let mut closed = false;
                while !closed && j < lines.len()
                    invariant
                        i + 1 <= j <= lines.len(),
                        gl == lines.deep_view(),
                        forall|m: int| i + 1 <= m < j ==> !is_fence_close(gl[m]),
                        content@ == cat_lines(gl, i as int + 1, j as int),
                        closed ==> j < lines.len() && is_fence_close(gl[j as int]),
                    decreases lines.len() - j + (if closed {
                        0int
                    } else {
                        1int
                    }),
                {
                    proof {
                        assert(gl[j as int] =~= lines[j as int]@);
                    }
                    let lt = trim_chars(&lines[j]);
                    if lt.len() == 3 && lt[0] == '`' && lt[1] == '`' && lt[2] == '`' {
                        proof {
                            assert(lt@ =~= seq!['`', '`', '`']);
                        }
                        closed = true;
                    } else {
                        proof {
                            if lt@.len() == 3 {
                                assert(lt@ != seq!['`', '`', '`']) by {
                                    if lt@ == seq!['`', '`', '`'] {
                                        assert(lt@[0] == '`' && lt@[1] == '`' && lt@[2] == '`');
                                    }
                                }
                            }
                            lemma_cat_lines_snoc(gl, i as int + 1, j as int);
                        }
                        append_chars(&mut content, &lines[j]);
                        content.push('\n');
                        proof {
                            assert(content@ =~= cat_lines(gl, i as int + 1, j as int + 1));
                        }
                        j = j + 1;
                    }
                }
                proof {
                    lemma_fence_end_at(gl, i as int + 1, j as int);
                }
                nodes.push(
                    MarkdownNodes::CodeBlock(
                        MarkdownCodeBlock { language, content: chars_to_string(&content) },
                    ),
                );
                proof {
                    let nv = NodeView::CodeBlock {
                        language: trim_s(trim_start_s(gl[i as int]).skip(3)),
                        content: cat_lines(gl, i as int + 1, j as int),
                    };
                    assert(nodes.deep_view() =~~= prev.push(nv));
                    assert(prev.push(nv) + parse_from(gl, if j as int >= gl.len() {
                        j as int
                    } else {
                        j as int + 1
                    }) =~~= prev + (seq![nv] + parse_from(gl, if j as int >= gl.len() {
                        j as int
                    } else {
                        j as int + 1
                    })));
                }
                i = if j < lines.len() {
                    j + 1
                } else {
                    j
                };
            } else if starts1(&t, '-') {
                let mut items: Vec<String> = Vec::new();
                items.push(chars_to_string(&trim_chars(&sub_chars(&t, 1, t.len()))));
                proof {
                    assert(items.deep_view() =~~= Seq::new(1nat, |k: int| bullet_item(gl[i + k])));
                }
                let mut j = i + 1;
                let mut more = true;
                while more && j < lines.len()
                    invariant
                        i + 1 <= j <= lines.len(),
                        gl == lines.deep_view(),
                        forall|m: int| i + 1 <= m < j ==> is_bullet_line(gl[m]),
                        items.deep_view() == Seq::new(
                            (j - i) as nat,
                            |k: int| bullet_item(gl[i + k]),
                        ),
                        !more ==> j < lines.len() && !is_bullet_line(gl[j as int]),
                    decreases lines.len() - j + (if more {
                        1int
                    } else {
                        0int
                    }),
                {
                    proof {
                        assert(gl[j as int] =~= lines[j as int]@);
                    }
                    let tl = trim_start_chars(&lines[j]);
                    if starts1(&tl, '-') {
                        let ghost pitems = items.deep_view();
                        let item = chars_to_string(&trim_chars(&sub_chars(&tl, 1, tl.len())));
                        let ghost gitem = item@;
                        items.push(item);
                        proof {
                            assert(items.deep_view() =~~= pitems.push(gitem));
                            assert(gitem == bullet_item(gl[j as int]));
                            assert(pitems.push(gitem) =~~= Seq::new(
                                (j + 1 - i) as nat,
                                |k: int| bullet_item(gl[i + k]),
                            ));
                        }
                        j = j + 1;
                    } else {
                        more = false;
                    }
                }
                proof {
                    lemma_bullet_end_at(gl, i as int + 1, j as int);
                }
                nodes.push(
                    MarkdownNodes::List(MarkdownList { ty: MarkdownListType::Bulleted, items }),
                );
                proof {
                    let nv = NodeView::List {
                        ty: MarkdownListType::Bulleted,
                        items: Seq::new((j - i) as nat, |k: int| bullet_item(gl[i + k])),
                    };
                    assert(nodes.deep_view() =~~= prev.push(nv));
                    assert(prev.push(nv) + parse_from(gl, j as int) =~~= prev + (seq![nv]
                        + parse_from(gl, j as int)));
                }
                i = j;
            } else if numbered_dot(&t).is_some() {
                {
                    let d = numbered_dot(&t).unwrap();
                    let mut items: Vec<String> = Vec::new();
                    items.push(chars_to_string(&trim_chars(&sub_chars(&t, d + 1, t.len()))));
                    proof {
                        assert(items.deep_view() =~~= Seq::new(
                            1nat,
                            |k: int| numbered_item(gl[i + k]),
                        ));
                    }
                    let mut j = i + 1;
                    let mut more = true;
                    while more && j < lines.len()
                        invariant
                            i + 1 <= j <= lines.len(),
                            gl == lines.deep_view(),
                            forall|m: int| i + 1 <= m < j ==> is_numbered_line(gl[m]),
                            items.deep_view() == Seq::new(
                                (j - i) as nat,
                                |k: int| numbered_item(gl[i + k]),
                            ),
                            !more ==> j < lines.len() && !is_numbered_line(gl[j as int]),
                        decreases lines.len() - j + (if more {
                            1int
                        } else {
                            0int
                        }),
                    {
                        proof {
                            assert(gl[j as int] =~= lines[j as int]@);
                        }
                        let tl = trim_start_chars(&lines[j]);
                        let dl = numbered_dot(&tl);
                        if dl.is_some() {
                            let dd = dl.unwrap();
                            let ghost pitems = items.deep_view();
                            let item = chars_to_string(&trim_chars(&sub_chars(&tl, dd + 1, tl.len())));
                            let ghost gitem = item@;
                            items.push(item);
                            proof {
                                assert(items.deep_view() =~~= pitems.push(gitem));
                                assert(gitem == numbered_item(gl[j as int]));
                                assert(pitems.push(gitem) =~~= Seq::new(
                                    (j + 1 - i) as nat,
                                    |k: int| numbered_item(gl[i + k]),
                                ));
                            }
                            j = j + 1;
                        } else {
                            more = false;
                        }
                    }
                    proof {
                        lemma_numbered_end_at(gl, i as int + 1, j as int);
                    }
                    nodes.push(
                        MarkdownNodes::List(MarkdownList { ty: MarkdownListType::Numbered, items }),
                    );
                    proof {
                        let nv = NodeView::List {
                            ty: MarkdownListType::Numbered,
                            items: Seq::new((j - i) as nat, |k: int| numbered_item(gl[i + k])),
                        };
                        assert(nodes.deep_view() =~~= prev.push(nv));
                        assert(prev.push(nv) + parse_from(gl, j as int) =~~= prev + (seq![nv]
                            + parse_from(gl, j as int)));
                    }
                    i = j;
                }
            } else {
                let is_image = starts2(&t, '!', '[');
                let is_link_start = is_image || starts1(&t, '[');
                if is_link_start {
                    let start: usize = if is_image {
                        2
                    } else {
                        1
                    };
                    let rest = sub_chars(&t, start, t.len());
                    let ghost tv = trim_start_s(gl[i as int]);
                    proof {
                        assert(rest@ == tv.skip(start as int));
                    }
                    match find_char(&rest, ']', 0) {
                        Some(e) => {
                            let alt = sub_chars(&rest, 0, e);
                            let rem = sub_chars(&rest, e + 1, rest.len());
                            if rem.len() > 0 && rem[0] == '(' {
                                match find_char(&rem, ')', 0) {
                                    Some(u) => {
                                        proof {
                                            lemma_find_from_props(rem@, ')', 0);
                                        }
                                        let url = sub_chars(&rem, 1, u);
                                        nodes.push(
                                            MarkdownNodes::Link(
                                                MarkdownLink {
                                                    alt: chars_to_string(&alt),
                                                    url: chars_to_string(&url),
                                                    is_image,
                                                },
                                            ),
                                        );
                                        proof {
                                            let nv = NodeView::Link {
                                                alt: tv.skip(start as int).take(e as int),
                                                url: tv.skip(start as int).skip(
                                                    e as int + 1,
                                                ).subrange(1, u as int),
                                                is_image: is_image,
                                            };
                                            assert(link_nodes(tv) =~~= seq![nv]);
                                            assert(nodes.deep_view() =~~= prev.push(nv));
                                            step_one(prev, nv, gl, i as int);
                                        }
                                    },
                                    None => {
                                        proof {
                                            assert(link_nodes(tv) =~~= Seq::<NodeView>::empty());
                                            assert(Seq::<NodeView>::empty() + parse_from(
                                                gl,
                                                i as int + 1,
                                            ) =~~= parse_from(gl, i as int + 1));
                                        }
                                    },
                                }
                            } else {
                                proof {
                                    assert(link_nodes(tv) =~~= Seq::<NodeView>::empty());
                                    assert(Seq::<NodeView>::empty() + parse_from(gl, i as int + 1)
                                        =~~= parse_from(gl, i as int + 1));
                                }
                            }
                        },
                        None => {
                            proof {
                                assert(link_nodes(tv) =~~= Seq::<NodeView>::empty());
                                assert(Seq::<NodeView>::empty() + parse_from(gl, i as int + 1)
                                    =~~= parse_from(gl, i as int + 1));
                            }
                        },
                    }
                    i = i + 1;
                } else if t.len() > 0 {
                    let spans = scan_chars(&t);
                    nodes.push(MarkdownNodes::Paragraph(MarkdownParagraph { spans }));
                    proof {
                        let nv = NodeView::Paragraph {
                            spans: spans_of(trim_start_s(gl[i as int])),
                        };
                        assert(nodes.deep_view() =~~= prev.push(nv));
                        step_one(prev, nv, gl, i as int);
                    }
                    i = i + 1;
                } else {
                    i = i + 1;
                }
            }
        }
        proof {
            assert(nodes.deep_view() + parse_from(gl, i as int) =~~= nodes.deep_view());
        }
        nodes
    }
}

/// The position of the dot when the trimmed line opens a numbered item.
fn numbered_dot(t: &Vec<char>) -> (r: Option<usize>)
    ensures
        match r {
            Some(d) => is_numbered_t(t@) && d == find_from(t@, '.', 0) && d < t@.len(),
            None => !is_numbered_t(t@),
        },
{
    if t.len() >= 1 && is_digit(t[0]) {
        find_char(t, '.', 0)
    } else {
        None
    }
}

/// Flushes a non-empty buffer as one span with the given variant and leaves
/// the buffer empty.
fn flush_buffer(spans: &mut Vec<MarkdownSpan>, buf: &mut Vec<char>, st: MarkdownVariant)
    ensures
        final(spans).deep_view() == old(spans).deep_view() + flush_s(old(buf)@, st),
        final(buf)@ == Seq::<char>::empty(),
{
    let ghost prev = spans.deep_view();
    if buf.len() > 0 {
        let content = chars_to_string(buf);
        spans.push(MarkdownSpan { content, variant: st });
        proof {
            assert(spans.deep_view() =~~= prev + flush_s(old(buf)@, st));
        }
        buf.clear();
    } else {
        proof {
            assert(spans.deep_view() =~~= prev + flush_s(old(buf)@, st));
        }
    }
}

/// The span scanner over a vector of characters.
fn scan_chars(t: &Vec<char>) -> (spans: Vec<MarkdownSpan>)
    ensures
        spans.deep_view() == spans_of(t@),
{
    let mut spans: Vec<MarkdownSpan> = Vec::new();
    let mut buf: Vec<char> = Vec::new();
    let mut state = MarkdownVariant::Normal;
    let mut i: usize = 0;
    proof {
        assert(spans.deep_view() + spans_of(t@) =~~= spans_of(t@));
    }
    while i < t.len()
        invariant
            i <= t.len(),
            spans.deep_view() + scan_from(t@, i as int, state, buf@) == spans_of(t@),
        decreases t.len() - i,
    {
        let ghost pspans = spans.deep_view();
        let ghost pbuf = buf@;
        let ghost st0 = state;
        let c = t[i];
        if c == '*' {
            let is_double = i + 1 < t.len() && t[i + 1] == '*';
            flush_buffer(&mut spans, &mut buf, state);
            if is_double {
                state = match state {
                    MarkdownVariant::Bold => MarkdownVariant::Normal,
                    _ => MarkdownVariant::Bold,
                };
                proof {
                    assert(state == toggle_bold(st0));
                    assert((pspans + flush_s(pbuf, st0)) + scan_from(t@, i + 2, state, Seq::empty())
                        =~~= pspans + (flush_s(pbuf, st0) + scan_from(
                        t@,
                        i + 2,
                        state,
                        Seq::empty(),
                    )));
                }
                i = i + 2;
            } else {
                state = match state {
                    MarkdownVariant::Italic => MarkdownVariant::Normal,
                    _ => MarkdownVariant::Italic,
                };
                proof {
                    assert(state == toggle_italic(st0));
                    assert((pspans + flush_s(pbuf, st0)) + scan_from(t@, i + 1, state, Seq::empty())
                        =~~= pspans + (flush_s(pbuf, st0) + scan_from(
                        t@,
                        i + 1,
                        state,
                        Seq::empty(),
                    )));
                }
                i = i + 1;
            }
        } else if c == '`' {
            flush_buffer(&mut spans, &mut buf, state);
            state = match state {
                MarkdownVariant::InlineCode => MarkdownVariant::Normal,
                _ => MarkdownVariant::InlineCode,
            };
            proof {
                assert(state == toggle_code(st0));
                assert((pspans + flush_s(pbuf, st0)) + scan_from(t@, i + 1, state, Seq::empty())
                    =~~= pspans + (flush_s(pbuf, st0) + scan_from(t@, i + 1, state, Seq::empty())));
            }
            i = i + 1;
        } else {
            buf.push(c);
            i = i + 1;
        }
    }
    flush_buffer(&mut spans, &mut buf, state);
    spans
}

/// One parsed node advances the spec by one line: pushing it onto what was
/// parsed so far keeps the whole equal to the remaining spec.
proof fn step_one(prev: Seq<NodeView>, nv: NodeView, ls: Seq<Seq<char>>, i: int)
    requires
        parse_from(ls, i) == seq![nv] + parse_from(ls, i + 1),
    ensures
        prev.push(nv) + parse_from(ls, i + 1) == prev + parse_from(ls, i),
{
    assert(prev.push(nv) + parse_from(ls, i + 1) =~~= prev + (seq![nv] + parse_from(ls, i + 1)));
}

} // verus!
