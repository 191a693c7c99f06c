use mdsite::parser::MarkdownListType;
use mdsite::parser::MarkdownNodes;
use mdsite::parser::MarkdownParser;
use mdsite::parser::MarkdownVariant;

fn parse(s: &str) -> Vec<MarkdownNodes> {
    MarkdownParser::new(String::from(s)).parse()
}

#[test]
fn plain_text_is_one_paragraph() {
    let nodes = parse("  hello world");
    assert_eq!(nodes.len(), 1);
    match &nodes[0] {
        MarkdownNodes::Paragraph(p) => {
            assert_eq!(p.spans.len(), 1);
            assert_eq!(p.spans[0].content, "hello world");
            assert_eq!(p.spans[0].variant, MarkdownVariant::Normal);
        }
        other => panic!("expected a paragraph, got {:?}", other),
    }
}

#[test]
fn double_asterisk_yields_single_bold_span() {
    let parser = MarkdownParser::new(String::new());
    let spans = parser.parse_inline_formatting("**bold**");
    assert_eq!(spans.len(), 1);
    assert_eq!(spans[0].content, "bold");
    assert_eq!(spans[0].variant, MarkdownVariant::Bold);
}

#[test]
fn single_asterisks_alternate_italic_and_normal() {
    let parser = MarkdownParser::new(String::new());
    let spans = parser.parse_inline_formatting("*a*b*c*");
    assert_eq!(spans.len(), 3);
    assert_eq!(spans[0].content, "a");
    assert_eq!(spans[0].variant, MarkdownVariant::Italic);
    assert_eq!(spans[1].content, "b");
    assert_eq!(spans[1].variant, MarkdownVariant::Normal);
    assert_eq!(spans[2].content, "c");
    assert_eq!(spans[2].variant, MarkdownVariant::Italic);
}

#[test]
fn backticks_toggle_inline_code() {
    let parser = MarkdownParser::new(String::new());
    let spans = parser.parse_inline_formatting("a `b` c");
    assert_eq!(spans.len(), 3);
    assert_eq!(spans[0].content, "a ");
    assert_eq!(spans[0].variant, MarkdownVariant::Normal);
    assert_eq!(spans[1].content, "b");
    assert_eq!(spans[1].variant, MarkdownVariant::InlineCode);
    assert_eq!(spans[2].content, " c");
    assert_eq!(spans[2].variant, MarkdownVariant::Normal);
}

#[test]
fn unterminated_marker_keeps_open_state() {
    let parser = MarkdownParser::new(String::new());
    let spans = parser.parse_inline_formatting("*abc");
    assert_eq!(spans.len(), 1);
    assert_eq!(spans[0].content, "abc");
    assert_eq!(spans[0].variant, MarkdownVariant::Italic);
}

#[test]
fn heading_levels_by_prefix() {
    let nodes = parse("# One\n## Two\n### Three");
    assert_eq!(nodes.len(), 3);
    match &nodes[0] {
        MarkdownNodes::Heading(h) => {
            assert_eq!(h.level, 1);
            assert_eq!(h.content, "One");
        }
        other => panic!("expected a heading, got {:?}", other),
    }
    match &nodes[1] {
        MarkdownNodes::Heading(h) => {
            assert_eq!(h.level, 2);
            assert_eq!(h.content, "Two");
        }
        other => panic!("expected a heading, got {:?}", other),
    }
    match &nodes[2] {
        MarkdownNodes::Heading(h) => {
            assert_eq!(h.level, 3);
            assert_eq!(h.content, "Three");
        }
        other => panic!("expected a heading, got {:?}", other),
    }
}

#[test]
fn heading_content_is_trimmed() {
    let nodes = parse("###   Title  ");
    assert_eq!(nodes.len(), 1);
    match &nodes[0] {
        MarkdownNodes::Heading(h) => {
            assert_eq!(h.level, 3);
            assert_eq!(h.content, "Title");
        }
        other => panic!("expected a heading, got {:?}", other),
    }
}

#[test]
fn horizontal_rule_before_bullet_dispatch() {
    let nodes = parse("---");
    assert_eq!(nodes.len(), 1);
    assert!(matches!(nodes[0], MarkdownNodes::HorizontalRule));
}

#[test]
fn consecutive_bullets_make_one_list() {
    let nodes = parse("- a\n- b\n- c");
    assert_eq!(nodes.len(), 1);
    match &nodes[0] {
        MarkdownNodes::List(l) => {
            assert_eq!(l.ty, MarkdownListType::Bulleted);
            assert_eq!(l.items, vec!["a", "b", "c"]);
        }
        other => panic!("expected a list, got {:?}", other),
    }
}

#[test]
fn blank_line_splits_lists() {
    let nodes = parse("- a\n\n- b");
    assert_eq!(nodes.len(), 2);
    match (&nodes[0], &nodes[1]) {
        (MarkdownNodes::List(a), MarkdownNodes::List(b)) => {
            assert_eq!(a.items, vec!["a"]);
            assert_eq!(b.items, vec!["b"]);
        }
        other => panic!("expected two lists, got {:?}", other),
    }
}

#[test]
fn numbered_lines_make_numbered_list() {
    let nodes = parse("1. one\n2. two");
    assert_eq!(nodes.len(), 1);
    match &nodes[0] {
        MarkdownNodes::List(l) => {
            assert_eq!(l.ty, MarkdownListType::Numbered);
            assert_eq!(l.items, vec!["one", "two"]);
        }
        other => panic!("expected a list, got {:?}", other),
    }
}

#[test]
fn digits_without_dot_fall_through_to_paragraph() {
    let nodes = parse("42 apples");
    assert_eq!(nodes.len(), 1);
    match &nodes[0] {
        MarkdownNodes::Paragraph(p) => {
            assert_eq!(p.spans.len(), 1);
            assert_eq!(p.spans[0].content, "42 apples");
            assert_eq!(p.spans[0].variant, MarkdownVariant::Normal);
        }
        other => panic!("expected a paragraph, got {:?}", other),
    }
}

#[test]
fn fenced_block_captures_language_and_content() {
    let nodes = parse("```rust\nfn x() {}\n```");
    assert_eq!(nodes.len(), 1);
    match &nodes[0] {
        MarkdownNodes::CodeBlock(c) => {
            assert_eq!(c.language, "rust");
            assert_eq!(c.content, "fn x() {}\n");
        }
        other => panic!("expected a code block, got {:?}", other),
    }
}

#[test]
fn unterminated_fence_captures_rest_of_input() {
    let nodes = parse("```\nabc\ndef");
    assert_eq!(nodes.len(), 1);
    match &nodes[0] {
        MarkdownNodes::CodeBlock(c) => {
            assert_eq!(c.language, "");
            assert_eq!(c.content, "abc\ndef\n");
        }
        other => panic!("expected a code block, got {:?}", other),
    }
}

#[test]
fn image_line_parses_to_image_link() {
    let nodes = parse("![alt](http://x/y.png)");
    assert_eq!(nodes.len(), 1);
    match &nodes[0] {
        MarkdownNodes::Link(l) => {
            assert_eq!(l.alt, "alt");
            assert_eq!(l.url, "http://x/y.png");
            assert!(l.is_image);
        }
        other => panic!("expected a link, got {:?}", other),
    }
}

#[test]
fn plain_link_is_not_an_image() {
    let nodes = parse("[text](https://example.net)");
    assert_eq!(nodes.len(), 1);
    match &nodes[0] {
        MarkdownNodes::Link(l) => {
            assert_eq!(l.alt, "text");
            assert_eq!(l.url, "https://example.net");
            assert!(!l.is_image);
        }
        other => panic!("expected a link, got {:?}", other),
    }
}

#[test]
fn malformed_links_are_dropped() {
    assert_eq!(parse("[alt(url)").len(), 0);
    assert_eq!(parse("[alt]").len(), 0);
    assert_eq!(parse("[alt] (url)").len(), 0);
    assert_eq!(parse("[alt](url").len(), 0);
}

#[test]
fn empty_input_yields_no_nodes() {
    assert_eq!(parse("").len(), 0);
}

#[test]
fn crlf_lines_are_split_like_plain_newlines() {
    let nodes = parse("# A\r\n# B");
    assert_eq!(nodes.len(), 2);
    match (&nodes[0], &nodes[1]) {
        (MarkdownNodes::Heading(a), MarkdownNodes::Heading(b)) => {
            assert_eq!(a.content, "A");
            assert_eq!(b.content, "B");
        }
        other => panic!("expected two headings, got {:?}", other),
    }
}

#[test]
fn list_stops_at_non_matching_line() {
    let nodes = parse("- a\n- b\nplain");
    assert_eq!(nodes.len(), 2);
    match &nodes[0] {
        MarkdownNodes::List(l) => assert_eq!(l.items, vec!["a", "b"]),
        other => panic!("expected a list, got {:?}", other),
    }
    assert!(matches!(nodes[1], MarkdownNodes::Paragraph(_)));
}

#[test]
fn four_hashes_parse_as_level_three_with_hash_content() {
    let nodes = parse("#### Deep");
    assert_eq!(nodes.len(), 1);
    match &nodes[0] {
        MarkdownNodes::Heading(h) => {
            assert_eq!(h.level, 3);
            assert_eq!(h.content, "# Deep");
        }
        other => panic!("expected a heading, got {:?}", other),
    }
}

#[test]
fn empty_bold_markers_yield_no_spans() {
    let parser = MarkdownParser::new(String::new());
    let spans = parser.parse_inline_formatting("****");
    assert_eq!(spans.len(), 0);
}

#[test]
fn bullet_without_space_still_makes_an_item() {
    let nodes = parse("-item");
    match &nodes[0] {
        MarkdownNodes::List(l) => assert_eq!(l.items, vec!["item"]),
        other => panic!("expected a list, got {:?}", other),
    }
}

#[test]
fn numbered_item_text_follows_first_dot() {
    let nodes = parse("1x. after");
    assert_eq!(nodes.len(), 1);
    match &nodes[0] {
        MarkdownNodes::List(l) => {
            assert_eq!(l.ty, MarkdownListType::Numbered);
            assert_eq!(l.items, vec!["after"]);
        }
        other => panic!("expected a list, got {:?}", other),
    }
}
