//! General laws of the parser and the translator, stated over the
//! mathematical models and proved once for all inputs.

use vstd::prelude::*;

use crate::parser::is_bullet_line;
use crate::parser::is_numbered_t;
use crate::parser::parse_doc;
use crate::parser::parse_from;
use crate::parser::scan_from;
use crate::parser::spans_of;
use crate::parser::toggle_bold;
use crate::parser::toggle_code;
use crate::parser::toggle_italic;
use crate::parser::MarkdownVariant;
use crate::parser::NodeView;
use crate::parser::SpanView;
use crate::text::find_from;
use crate::text::is_digit_char;
use crate::text::lines_of;
use crate::text::starts_with_s;
use crate::text::trim_start_s;
use crate::translate::render_nodes;
use crate::translate::render_paragraph;

verus! {

/// Scanning a stretch of text that holds no formatting marker only moves
/// its characters into the pending buffer.
pub proof fn lemma_scan_plain_segment(
    s: Seq<char>,
    i: int,
    j: int,
    st: MarkdownVariant,
    buf: Seq<char>,
)
    requires
        0 <= i <= j <= s.len(),
        forall|k: int| i <= k < j ==> s[k] != '*' && s[k] != '`',
    ensures
        scan_from(s, i, st, buf) == scan_from(s, j, st, buf + s.subrange(i, j)),
    decreases j - i,
{
    if i == j {
        assert(buf + s.subrange(i, i) =~= buf);
    } else {
        lemma_scan_plain_segment(s, i + 1, j, st, buf.push(s[i]));
        assert(buf.push(s[i]) + s.subrange(i + 1, j) =~= buf + s.subrange(i, j));
    }
}

/// A line with no asterisk and no backtick scans to exactly one Normal
/// span holding the whole line, and that paragraph renders back to the
/// line itself.
pub proof fn lemma_marker_free_spans(t: Seq<char>)
    requires
        t.len() > 0,
        forall|k: int| 0 <= k < t.len() ==> t[k] != '*' && t[k] != '`',
    ensures
        spans_of(t) == seq![SpanView { content: t, variant: MarkdownVariant::Normal }],
        render_paragraph(spans_of(t)) == t,
{
    lemma_scan_plain_segment(t, 0, t.len() as int, MarkdownVariant::Normal, Seq::empty());
    assert(Seq::empty() + t.subrange(0, t.len() as int) =~= t);
    assert(spans_of(t) =~~= seq![SpanView { content: t, variant: MarkdownVariant::Normal }]);
    let sv = seq![SpanView { content: t, variant: MarkdownVariant::Normal }];
    assert(sv[0] == SpanView { content: t, variant: MarkdownVariant::Normal });
    assert(crate::translate::render_spans_from(sv, 1) =~= Seq::<char>::empty());
    assert(render_paragraph(sv) =~= t);
}

/// A single line bearing none of the recognized block prefixes parses to
/// exactly one paragraph over its trimmed text.
pub proof fn lemma_plain_line_paragraph(s: Seq<char>)
    requires
        forall|k: int| 0 <= k < s.len() ==> s[k] != '\n',
        trim_start_s(s).len() > 0,
        trim_start_s(s)[0] != '#',
        trim_start_s(s)[0] != '-',
        trim_start_s(s)[0] != '[',
        !starts_with_s(trim_start_s(s), seq!['`', '`', '`']),
        !starts_with_s(trim_start_s(s), seq!['!', '[']),
        !is_numbered_t(trim_start_s(s)),
    ensures
        parse_doc(s) == seq![NodeView::Paragraph { spans: spans_of(trim_start_s(s)) }],
{
    let t = trim_start_s(s);
    assert(s.len() > 0);
    crate::text::lemma_find_from_props(s, '\n', 0);
    assert(find_from(s, '\n', 0) == -1);
    assert(s.subrange(0, s.len() as int) =~= s);
    assert(lines_of(s) =~~= seq![s]);
    let ls = seq![s];
    assert(ls[0] == s);
    assert(!starts_with_s(t, seq!['-', '-', '-'])) by {
        if starts_with_s(t, seq!['-', '-', '-']) {
            assert(t.take(3)[0] == t[0]);
        }
    }
    assert(!starts_with_s(t, seq!['#', '#', '#'])) by {
        if starts_with_s(t, seq!['#', '#', '#']) {
            assert(t.take(3)[0] == t[0]);
        }
    }
    assert(!starts_with_s(t, seq!['#', '#'])) by {
        if starts_with_s(t, seq!['#', '#']) {
            assert(t.take(2)[0] == t[0]);
        }
    }
    assert(!starts_with_s(t, seq!['#'])) by {
        if starts_with_s(t, seq!['#']) {
            assert(t.take(1)[0] == t[0]);
        }
    }
    assert(!starts_with_s(t, seq!['-'])) by {
        if starts_with_s(t, seq!['-']) {
            assert(t.take(1)[0] == t[0]);
        }
    }
    assert(!starts_with_s(t, seq!['['])) by {
        if starts_with_s(t, seq!['[']) {
            assert(t.take(1)[0] == t[0]);
        }
    }
    assert(parse_from(ls, 1) =~~= Seq::<NodeView>::empty());
    assert(seq![NodeView::Paragraph { spans: spans_of(t) }] + parse_from(ls, 1) =~~= seq![
        NodeView::Paragraph { spans: spans_of(t) },
    ]);
}

/// A line that starts with a digit but contains no dot is never taken for
/// a numbered list: it parses to a paragraph.
pub proof fn lemma_digits_without_dot_is_paragraph(s: Seq<char>)
    requires
        forall|k: int| 0 <= k < s.len() ==> s[k] != '\n',
        trim_start_s(s).len() > 0,
        is_digit_char(trim_start_s(s)[0]),
        find_from(trim_start_s(s), '.', 0) == -1,
    ensures
        parse_doc(s) == seq![NodeView::Paragraph { spans: spans_of(trim_start_s(s)) }],
{
    let t = trim_start_s(s);
    assert(t[0] != '#' && t[0] != '-' && t[0] != '[' && t[0] != '`' && t[0] != '!');
    assert(!starts_with_s(t, seq!['`', '`', '`'])) by {
        if starts_with_s(t, seq!['`', '`', '`']) {
            assert(t.take(3)[0] == t[0]);
        }
    }
    assert(!starts_with_s(t, seq!['!', '['])) by {
        if starts_with_s(t, seq!['!', '[']) {
            assert(t.take(2)[0] == t[0]);
        }
    }
    lemma_plain_line_paragraph(s);
}

/// A double-asterisk pair around marker-free text yields exactly one Bold
/// span: the opening marker enters Bold and the closing one leaves it.
pub proof fn lemma_bold_wrap(w: Seq<char>)
    requires
        w.len() > 0,
        forall|k: int| 0 <= k < w.len() ==> w[k] != '*' && w[k] != '`',
    ensures
        spans_of(seq!['*', '*'] + w + seq!['*', '*']) == seq![
            SpanView { content: w, variant: MarkdownVariant::Bold },
        ],
{
    let s = seq!['*', '*'] + w + seq!['*', '*'];
    let n = w.len() as int;
    assert(s.len() == n + 4);
    assert(s[0] == '*' && s[1] == '*');
    assert(forall|k: int| 2 <= k < n + 2 ==> s[k] == w[k - 2]);
    assert(s[n + 2] == '*' && s[n + 3] == '*');
    lemma_scan_plain_segment(s, 2, n + 2, MarkdownVariant::Bold, Seq::empty());
    assert(Seq::empty() + s.subrange(2, n + 2) =~= w);
    assert(scan_from(s, n + 4, MarkdownVariant::Normal, Seq::empty()) =~~= Seq::<
        SpanView,
    >::empty());
    assert(spans_of(s) =~~= seq![SpanView { content: w, variant: MarkdownVariant::Bold }]);
}

/// A document whose lines all carry the bullet marker parses to exactly
/// one bulleted list holding every item, never to one node per line.
pub proof fn lemma_bullet_run_single_list(ls: Seq<Seq<char>>)
    requires
        ls.len() > 0,
        forall|m: int| 0 <= m < ls.len() ==> is_bullet_line(ls[m]),
        !starts_with_s(trim_start_s(ls[0]), seq!['-', '-', '-']),
    ensures
        parse_from(ls, 0) == seq![
            NodeView::List {
                ty: crate::parser::MarkdownListType::Bulleted,
                items: Seq::new(ls.len(), |k: int| crate::parser::bullet_item(ls[k])),
            },
        ],
{
    let t = trim_start_s(ls[0]);
    assert(is_bullet_line(ls[0]));
    assert(t.take(1)[0] == t[0]);
    assert(t[0] == '-');
    assert(!starts_with_s(t, seq!['#', '#', '#'])) by {
        if starts_with_s(t, seq!['#', '#', '#']) {
            assert(t.take(3)[0] == t[0]);
        }
    }
    assert(!starts_with_s(t, seq!['#', '#'])) by {
        if starts_with_s(t, seq!['#', '#']) {
            assert(t.take(2)[0] == t[0]);
        }
    }
    assert(!starts_with_s(t, seq!['#'])) by {
        if starts_with_s(t, seq!['#']) {
            assert(t.take(1)[0] == t[0]);
        }
    }
    assert(!starts_with_s(t, seq!['`', '`', '`'])) by {
        if starts_with_s(t, seq!['`', '`', '`']) {
            assert(t.take(3)[0] == t[0]);
        }
    }
    crate::parser::lemma_bullet_end_at(ls, 1, ls.len() as int);
    assert(parse_from(ls, ls.len() as int) =~~= Seq::<NodeView>::empty());
    assert(Seq::new((ls.len() - 0) as nat, |k: int| crate::parser::bullet_item(ls[0 + k])) =~~=
        Seq::new(ls.len(), |k: int| crate::parser::bullet_item(ls[k])));
    assert(seq![
        NodeView::List {
            ty: crate::parser::MarkdownListType::Bulleted,
            items: Seq::new((ls.len() - 0) as nat, |k: int| crate::parser::bullet_item(ls[0 + k])),
        },
    ] + parse_from(ls, ls.len() as int) =~~= seq![
        NodeView::List {
            ty: crate::parser::MarkdownListType::Bulleted,
            items: Seq::new(ls.len(), |k: int| crate::parser::bullet_item(ls[k])),
        },
    ]);
}

/// Every formatting marker toggles: from its own state it returns to
/// Normal, from any other state it enters its own state, and it never
/// stacks a third state.
pub proof fn lemma_markers_toggle_never_stack()
    ensures
        forall|st: MarkdownVariant| #[trigger] toggle_bold(st) == if st == MarkdownVariant::Bold {
            MarkdownVariant::Normal
        } else {
            MarkdownVariant::Bold
        },
        forall|st: MarkdownVariant| #[trigger] toggle_italic(st) == if st
            == MarkdownVariant::Italic {
            MarkdownVariant::Normal
        } else {
            MarkdownVariant::Italic
        },
        forall|st: MarkdownVariant| #[trigger] toggle_code(st) == if st
            == MarkdownVariant::InlineCode {
            MarkdownVariant::Normal
        } else {
            MarkdownVariant::InlineCode
        },
{
}

/// Empty input yields no nodes, and no nodes render to the empty string,
/// whatever the styling class.
pub proof fn lemma_empty_doc()
    ensures
        parse_doc(Seq::<char>::empty()) == Seq::<NodeView>::empty(),
        forall|class: Seq<char>| #[trigger] render_nodes(Seq::<NodeView>::empty(), class)
            == Seq::<char>::empty(),
{
    assert(lines_of(Seq::<char>::empty()) =~~= Seq::<Seq<char>>::empty());
    assert(parse_doc(Seq::<char>::empty()) =~~= Seq::<NodeView>::empty());
    assert(forall|class: Seq<char>| #[trigger] render_nodes(Seq::<NodeView>::empty(), class)
        =~= Seq::<char>::empty());
}

} // verus!
