//! The translator: renders a sequence of document nodes as HTML markup,
//! applying a caller-supplied CSS class to every emitted tag and emitting
//! node content verbatim.

use vstd::prelude::*;
use vstd::string::StringExecFns;

use crate::parser::MarkdownListType;
use crate::parser::MarkdownNodes;
use crate::parser::MarkdownParagraph;
use crate::parser::MarkdownSpan;
use crate::parser::MarkdownVariant;
use crate::parser::NodeView;
use crate::parser::SpanView;
use crate::text::push_char;

verus! {

/// The character for one decimal digit value.
pub open spec fn dec_digit(d: nat) -> char {
    if d == 0 {
        '0'
    } else if d == 1 {
        '1'
    } else if d == 2 {
        '2'
    } else if d == 3 {
        '3'
    } else if d == 4 {
        '4'
    } else if d == 5 {
        '5'
    } else if d == 6 {
        '6'
    } else if d == 7 {
        '7'
    } else if d == 8 {
        '8'
    } else {
        '9'
    }
}

/// The decimal digits of a byte-sized number, most significant first.
pub open spec fn dec_of_u8(n: u8) -> Seq<char> {
    if n < 10 {
        seq![dec_digit(n as nat)]
    } else if n < 100 {
        seq![dec_digit(n as nat / 10), dec_digit(n as nat % 10)]
    } else {
        seq![dec_digit(n as nat / 100), dec_digit((n as nat / 10) % 10), dec_digit(n as nat % 10)]
    }
}

/// The markup of one span: its content wrapped in the tag of its variant,
/// or emitted bare when the variant is Normal.
pub open spec fn render_span(sp: SpanView) -> Seq<char> {
    match sp.variant {
        MarkdownVariant::Bold => "<strong>"@ + sp.content + "</strong>"@,
        MarkdownVariant::Italic => "<em>"@ + sp.content + "</em>"@,
        MarkdownVariant::InlineCode => "<code>"@ + sp.content + "</code>"@,
        MarkdownVariant::Normal => sp.content,
    }
}

/// The markup of the spans from position `k` on, concatenated with no
/// separator.
pub open spec fn render_spans_from(spans: Seq<SpanView>, k: int) -> Seq<char>
    decreases spans.len() - k,
{
    if k < 0 || k >= spans.len() {
        Seq::empty()
    } else {
        render_span(spans[k]) + render_spans_from(spans, k + 1)
    }
}

/// The markup of a whole paragraph body.
pub open spec fn render_paragraph(spans: Seq<SpanView>) -> Seq<char> {
    render_spans_from(spans, 0)
}

/// The markup of the list items from position `k` on, each wrapped in a
/// classed `<li>` tag.
pub open spec fn render_items_from(items: Seq<Seq<char>>, k: int, class: Seq<char>) -> Seq<char>
    decreases items.len() - k,
{
    if k < 0 || k >= items.len() {
        Seq::empty()
    } else {
        "<li class=\""@ + class + "\">"@ + items[k] + "</li>"@ + render_items_from(
            items,
            k + 1,
            class,
        )
    }
}

/// The markup of one node, with `class` interpolated into every tag.
pub open spec fn render_node(n: NodeView, class: Seq<char>) -> Seq<char> {
    match n {
        NodeView::Heading { level, content } => "<h"@ + dec_of_u8(level) + " class=\""@ + class
            + "\">"@ + content + "</h"@ + dec_of_u8(level) + ">"@,
        NodeView::Paragraph { spans } => "<p class=\""@ + class + "\">"@ + render_paragraph(spans)
            + "</p>"@,
        NodeView::List { ty, items } => match ty {
            MarkdownListType::Numbered => "<ol class=\""@ + class + "\">"@ + render_items_from(
                items,
                0,
                class,
            ) + "</ol>"@,
            MarkdownListType::Bulleted => "<ul class=\""@ + class + "\">"@ + render_items_from(
                items,
                0,
                class,
            ) + "</ul>"@,
        },
        NodeView::Link { alt, url, is_image } => if is_image {
            "<img src=\""@ + url + "\" alt=\""@ + alt + "\" class=\""@ + class + "\" />"@
        } else {
            "<a href=\""@ + url + "\" class=\""@ + class + "\">"@ + alt + "</a>"@
        },
        NodeView::CodeBlock { language, content } => "<pre><code class=\"language-"@ + language
            + " "@ + class + "\">"@ + content + "</code></pre>"@,
        NodeView::HorizontalRule => "<hr class=\""@ + class + "\" />"@,
    }
}

/// The markup of the nodes from position `k` on, concatenated in order.
pub open spec fn render_nodes_from(ns: Seq<NodeView>, k: int, class: Seq<char>) -> Seq<char>
    decreases ns.len() - k,
{
    if k < 0 || k >= ns.len() {
        Seq::empty()
    } else {
        render_node(ns[k], class) + render_nodes_from(ns, k + 1, class)
    }
}

/// The markup of a whole node sequence.
pub open spec fn render_nodes(ns: Seq<NodeView>, class: Seq<char>) -> Seq<char> {
    render_nodes_from(ns, 0, class)
}

/// The decimal digit character of a digit value below ten.
fn dec_digit_x(d: u8) -> (c: char)
    requires
        d < 10,
    ensures
        c == dec_digit(d as nat),
{
    if d == 0 {
        '0'
    } else if d == 1 {
        '1'
    } else if d == 2 {
        '2'
    } else if d == 3 {
        '3'
    } else if d == 4 {
        '4'
    } else if d == 5 {
        '5'
    } else if d == 6 {
        '6'
    } else if d == 7 {
        '7'
    } else if d == 8 {
        '8'
    } else {
        '9'
    }
}

/// The decimal rendering of a byte-sized number.
fn u8_dec_string(n: u8) -> (r: String)
    ensures
        r@ == dec_of_u8(n),
{
    let mut r = String::new();
    if n < 10 {
        push_char(&mut r, dec_digit_x(n));
    } else if n < 100 {
        push_char(&mut r, dec_digit_x(n / 10));
        push_char(&mut r, dec_digit_x(n % 10));
    } else {
        push_char(&mut r, dec_digit_x(n / 100));
        push_char(&mut r, dec_digit_x((n / 10) % 10));
        push_char(&mut r, dec_digit_x(n % 10));
    }
    proof {
        assert(r@ =~= dec_of_u8(n));
    }
    r
}

/// Concatenating one more node's markup keeps the running output equal to
/// the markup of everything seen so far.
proof fn render_step(out0: Seq<char>, ns: Seq<NodeView>, k: int, class: Seq<char>)
    requires
        0 <= k < ns.len(),
    ensures
        (out0 + render_node(ns[k], class)) + render_nodes_from(ns, k + 1, class) == out0
            + render_nodes_from(ns, k, class),
{
    assert((out0 + render_node(ns[k], class)) + render_nodes_from(ns, k + 1, class) =~= out0 + (
    render_node(ns[k], class) + render_nodes_from(ns, k + 1, class)));
}

/// Appends the classed `<li>` markup of every item to `out`.
fn append_items(out: &mut String, items: &Vec<String>, class: &str)
    ensures
        final(out)@ == old(out)@ + render_items_from(items.deep_view(), 0, class@),
{
    let ghost dv = items.deep_view();
    let mut k: usize = 0;
    proof {
        assert(out@ + render_items_from(dv, 0, class@) =~= old(out)@ + render_items_from(dv, 0, class@));
    }
    while k < items.len()
        invariant
            k <= items.len(),
            dv == items.deep_view(),
            out@ + render_items_from(dv, k as int, class@) == old(out)@ + render_items_from(dv, 0, class@),
        decreases items.len() - k,
    {
        let ghost mid = out@;
        out.append("<li class=\"");
        out.append(class);
        out.append("\">");
        let it = &items[k];
        out.append(it.as_str());
        out.append("</li>");
        proof {
            assert(out@ =~= mid + ("<li class=\""@ + class@ + "\">"@ + dv[k as int] + "</li>"@));
            assert((mid + ("<li class=\""@ + class@ + "\">"@ + dv[k as int] + "</li>"@))
                + render_items_from(dv, k as int + 1, class@) =~= mid + ("<li class=\""@ + class@ + "\">"@
                + dv[k as int] + "</li>"@ + render_items_from(dv, k as int + 1, class@)));
        }
        k = k + 1;
    }
    proof {
        assert(out@ + render_items_from(dv, items@.len() as int, class@) =~= out@);
    }
}

/// The translator for one parsed document; it borrows the nodes and only
/// reads them.
pub struct Translator<'a> {
    nodes: &'a Vec<MarkdownNodes>,
}

impl<'a> View for Translator<'a> {
    type V = Seq<NodeView>;

    closed spec fn view(&self) -> Seq<NodeView> {
        self.nodes.deep_view()
    }
}

impl<'a> Translator<'a> {
    /// A translator over the given node sequence.
    pub fn new(nodes: &'a Vec<MarkdownNodes>) -> (t: Self)
        ensures
            t@ == nodes.deep_view(),
    {
        Translator { nodes }
    }

    /// The markup of one span.
    pub fn format_span(span: &MarkdownSpan) -> (r: String)
        ensures
            r@ == render_span(span@),
    {
        let mut r = String::new();
        match span.variant {
            MarkdownVariant::Bold => {
                r.append("<strong>");
                r.append(span.content.as_str());
                r.append("</strong>");
            },
            MarkdownVariant::Italic => {
                r.append("<em>");
                r.append(span.content.as_str());
                r.append("</em>");
            },
            MarkdownVariant::InlineCode => {
                r.append("<code>");
                r.append(span.content.as_str());
                r.append("</code>");
            },
            MarkdownVariant::Normal => {
                r.append(span.content.as_str());
            },
        }
        proof {
            assert(r@ =~= render_span(span@));
        }
        r
    }

    /// The markup of a paragraph body: its spans rendered and concatenated
    /// with no separator.
    pub fn format_paragraph(paragraph: &MarkdownParagraph) -> (r: String)
        ensures
            r@ == render_paragraph(paragraph.spans.deep_view()),
    {
        let ghost sv = paragraph.spans.deep_view();
        let mut r = String::new();
        let mut k: usize = 0;
        proof {
            assert(r@ + render_spans_from(sv, 0) =~= render_spans_from(sv, 0));
        }
        while k < paragraph.spans.len()
            invariant
                k <= paragraph.spans.len(),
                sv == paragraph.spans.deep_view(),
                r@ + render_spans_from(sv, k as int) == render_paragraph(sv),
            decreases paragraph.spans.len() - k,
        {
            let ghost mid = r@;
            let piece = Self::format_span(&paragraph.spans[k]);
            r.append(piece.as_str());
            proof {
                assert((mid + render_span(sv[k as int])) + render_spans_from(sv, k as int + 1)
                    =~= mid + (render_span(sv[k as int]) + render_spans_from(sv, k as int + 1)));
            }
            k = k + 1;
        }
        proof {
            assert(r@ + render_spans_from(sv, paragraph.spans@.len() as int) =~= r@);
        }
        r
    }

    /// The markup of every node, in order, with `class` applied to each
    /// emitted tag.
    pub fn translate(&self, class: &str) -> (r: String)
        ensures
            r@ == render_nodes(self@, class@),
    {
        let mut out = String::new();
        let mut k: usize = 0;
        proof {
            assert(out@ + render_nodes_from(self@, 0, class@) =~= render_nodes_from(
                self@,
                0,
                class@,
            ));
        }
        while k < self.nodes.len()
            invariant
                k <= self.nodes.len(),
                self@ == self.nodes.deep_view(),
                out@ + render_nodes_from(self@, k as int, class@) == render_nodes(self@, class@),
            decreases self.nodes.len() - k,
        {
            let ghost out0 = out@;
            let node = &self.nodes[k];
            proof {
                assert(node@ == self@[k as int]);
            }
            match node {
                MarkdownNodes::Paragraph(p) => {
                    out.append("<p class=\"");
                    out.append(class);
                    out.append("\">");
                    let body = Self::format_paragraph(p);
                    out.append(body.as_str());
                    out.append("</p>");
                    proof {
                        assert(out@ =~= out0 + render_node(self@[k as int], class@));
                        render_step(out0, self@, k as int, class@);
                    }
                },
                MarkdownNodes::Heading(h) => {
                    let lvl = u8_dec_string(h.level);
                    out.append("<h");
                    out.append(lvl.as_str());
                    out.append(" class=\"");
                    out.append(class);
                    out.append("\">");
                    out.append(h.content.as_str());
                    out.append("</h");
                    out.append(lvl.as_str());
                    out.append(">");
                    proof {
                        assert(out@ =~= out0 + render_node(self@[k as int], class@));
                        render_step(out0, self@, k as int, class@);
                    }
                },
                MarkdownNodes::Link(l) => {
                    if l.is_image {
                        out.append("<img src=\"");
                        out.append(l.url.as_str());
                        out.append("\" alt=\"");
                        out.append(l.alt.as_str());
                        out.append("\" class=\"");
                        out.append(class);
                        out.append("\" />");
                    } else {
                        out.append("<a href=\"");
                        out.append(l.url.as_str());
                        out.append("\" class=\"");
                        out.append(class);
                        out.append("\">");
                        out.append(l.alt.as_str());
                        out.append("</a>");
                    }
                    proof {
                        assert(out@ =~= out0 + render_node(self@[k as int], class@));
                        render_step(out0, self@, k as int, class@);
                    }
                },
                MarkdownNodes::List(l) => {
                    match l.ty {
                        MarkdownListType::Numbered => {
                            out.append("<ol class=\"");
                            out.append(class);
                            out.append("\">");
                            append_items(&mut out, &l.items, class);
                            out.append("</ol>");
                        },
                        MarkdownListType::Bulleted => {
                            out.append("<ul class=\"");
                            out.append(class);
                            out.append("\">");
                            append_items(&mut out, &l.items, class);
                            out.append("</ul>");
                        },
                    }
                    proof {
                        assert(out@ =~= out0 + render_node(self@[k as int], class@));
                        render_step(out0, self@, k as int, class@);
                    }
                },
                MarkdownNodes::CodeBlock(c) => {
                    out.append("<pre><code class=\"language-");
                    out.append(c.language.as_str());
                    out.append(" ");
                    out.append(class);
                    out.append("\">");
                    out.append(c.content.as_str());
                    out.append("</code></pre>");
                    proof {
                        assert(out@ =~= out0 + render_node(self@[k as int], class@));
                        render_step(out0, self@, k as int, class@);
                    }
                },
                MarkdownNodes::HorizontalRule => {
                    out.append("<hr class=\"");
                    out.append(class);
                    out.append("\" />");
                    proof {
                        assert(out@ =~= out0 + render_node(self@[k as int], class@));
                        render_step(out0, self@, k as int, class@);
                    }
                },
            }
            k = k + 1;
        }
        proof {
            assert(out@ + render_nodes_from(self@, self.nodes@.len() as int, class@) =~= out@);
        }
        out
    }
}

} // verus!
