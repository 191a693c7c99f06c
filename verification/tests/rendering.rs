use mdsite::parser::MarkdownCodeBlock;
use mdsite::parser::MarkdownHeading;
use mdsite::parser::MarkdownLink;
use mdsite::parser::MarkdownList;
use mdsite::parser::MarkdownListType;
use mdsite::parser::MarkdownNodes;
use mdsite::parser::MarkdownParagraph;
use mdsite::parser::MarkdownParser;
use mdsite::parser::MarkdownSpan;
use mdsite::parser::MarkdownVariant;
use mdsite::translate::Translator;

fn render(s: &str, class: &str) -> String {
    let nodes = MarkdownParser::new(String::from(s)).parse();
    Translator::new(&nodes).translate(class)
}

#[test]
fn heading_renders_with_level_and_class() {
    assert_eq!(render("### Title", "x"), "<h3 class=\"x\">Title</h3>");
}

#[test]
fn paragraph_renders_spans_in_order() {
    assert_eq!(
        render("a **b** `c`", "p"),
        "<p class=\"p\">a <strong>b</strong> <code>c</code></p>"
    );
}

#[test]
fn image_renders_as_img_tag() {
    assert_eq!(
        render("![alt](http://x/y.png)", "c"),
        "<img src=\"http://x/y.png\" alt=\"alt\" class=\"c\" />"
    );
}

#[test]
fn link_renders_as_anchor() {
    assert_eq!(
        render("[t](u)", "c"),
        "<a href=\"u\" class=\"c\">t</a>"
    );
}

#[test]
fn bulleted_list_renders_as_ul() {
    assert_eq!(
        render("- a\n- b", "k"),
        "<ul class=\"k\"><li class=\"k\">a</li><li class=\"k\">b</li></ul>"
    );
}

#[test]
fn numbered_list_renders_as_ol() {
    assert_eq!(
        render("1. a\n2. b", "k"),
        "<ol class=\"k\"><li class=\"k\">a</li><li class=\"k\">b</li></ol>"
    );
}

#[test]
fn code_block_renders_with_language_class() {
    assert_eq!(
        render("```rust\nfn x() {}\n```", "x"),
        "<pre><code class=\"language-rust x\">fn x() {}\n</code></pre>"
    );
}

#[test]
fn horizontal_rule_renders_with_empty_class() {
    assert_eq!(render("---", ""), "<hr class=\"\" />");
}

#[test]
fn empty_input_renders_to_empty_string() {
    assert_eq!(render("", "any"), "");
}

#[test]
fn nodes_render_in_source_order() {
    assert_eq!(
        render("# T\nbody\n---", "s"),
        "<h1 class=\"s\">T</h1><p class=\"s\">body</p><hr class=\"s\" />"
    );
}

#[test]
fn plain_paragraph_round_trips_trimmed_text() {
    assert_eq!(render("   some plain words ", ""), "<p class=\"\">some plain words </p>");
}

#[test]
fn heading_level_outside_parser_range_still_renders_decimal() {
    let nodes = vec![MarkdownNodes::Heading(MarkdownHeading {
        level: 42,
        content: String::from("T"),
    })];
    let out = Translator::new(&nodes).translate("");
    assert_eq!(out, "<h42 class=\"\">T</h42>");
}

#[test]
fn format_span_wraps_each_variant() {
    let bold = MarkdownSpan { content: String::from("a"), variant: MarkdownVariant::Bold };
    let italic = MarkdownSpan { content: String::from("b"), variant: MarkdownVariant::Italic };
    let code = MarkdownSpan { content: String::from("c"), variant: MarkdownVariant::InlineCode };
    let normal = MarkdownSpan { content: String::from("d"), variant: MarkdownVariant::Normal };
    assert_eq!(Translator::format_span(&bold), "<strong>a</strong>");
    assert_eq!(Translator::format_span(&italic), "<em>b</em>");
    assert_eq!(Translator::format_span(&code), "<code>c</code>");
    assert_eq!(Translator::format_span(&normal), "d");
}

#[test]
fn format_paragraph_concatenates_spans() {
    let p = MarkdownParagraph {
        spans: vec![
            MarkdownSpan { content: String::from("a"), variant: MarkdownVariant::Normal },
            MarkdownSpan { content: String::from("b"), variant: MarkdownVariant::Bold },
        ],
    };
    assert_eq!(Translator::format_paragraph(&p), "a<strong>b</strong>");
}

#[test]
fn hand_built_nodes_render_like_parsed_ones() {
    let nodes = vec![
        MarkdownNodes::List(MarkdownList {
            ty: MarkdownListType::Bulleted,
            items: vec![String::from("x")],
        }),
        MarkdownNodes::Link(MarkdownLink {
            alt: String::from("a"),
            url: String::from("u"),
            is_image: false,
        }),
        MarkdownNodes::CodeBlock(MarkdownCodeBlock {
            language: String::from("c"),
            content: String::from("y\n"),
        }),
    ];
    let out = Translator::new(&nodes).translate("z");
    assert_eq!(
        out,
        "<ul class=\"z\"><li class=\"z\">x</li></ul><a href=\"u\" class=\"z\">a</a><pre><code class=\"language-c z\">y\n</code></pre>"
    );
}

#[test]
fn paragraph_of_only_markers_renders_empty_body() {
    assert_eq!(render("****", "c"), "<p class=\"c\"></p>");
}
