use scp_reader::blockquote::{format_blockquote, render_box};
use scp_reader::extract::{extract, ExclusionRules, Extractor};
use scp_reader::markup::{build_forest, MarkupEvent};
use scp_reader::node::{Element, Node};

fn text(s: &str) -> Node {
    Node::Text(s.to_string())
}

fn element_with(tag: &str, attrs: &[(&str, &str)], children: Vec<Node>) -> Element {
    Element {
        tag: tag.to_string(),
        attrs: attrs.iter().map(|(k, v)| (k.to_string(), v.to_string())).collect(),
        children,
    }
}

fn el(tag: &str, children: Vec<Node>) -> Node {
    Node::Element(element_with(tag, &[], children))
}

fn el_class(tag: &str, class: &str, children: Vec<Node>) -> Node {
    Node::Element(element_with(tag, &[("class", class)], children))
}

fn container(children: Vec<Node>) -> Element {
    element_with("div", &[("id", "page-content")], children)
}

fn blocks_of(children: Vec<Node>) -> Vec<String> {
    Extractor::standard().collect_blocks(&container(children))
}

const BORDER: &str = "+--------------------------------------------------------------+";

#[test]
fn heading_gives_hash_block() {
    assert_eq!(blocks_of(vec![el("h2", vec![text("Overview")])]), vec!["# Overview"]);
}

#[test]
fn all_four_heading_levels_are_headings() {
    let got = blocks_of(vec![
        el("h1", vec![text("A")]),
        el("h2", vec![text("B")]),
        el("h3", vec![text("C")]),
        el("h4", vec![text("D")]),
    ]);
    assert_eq!(got, vec!["# A", "# B", "# C", "# D"]);
}

#[test]
fn h5_is_inline() {
    let got = blocks_of(vec![el("h5", vec![text("small")]), text("tail")]);
    assert_eq!(got, vec!["small tail"]);
}

#[test]
fn rating_paragraph_gives_no_block() {
    assert_eq!(blocks_of(vec![el("p", vec![text("rating: +42")])]), Vec::<String>::new());
}

#[test]
fn rating_prefix_is_matched_without_regard_to_case() {
    assert_eq!(blocks_of(vec![el("p", vec![text("Rating: +42")])]), Vec::<String>::new());
    assert_eq!(blocks_of(vec![el("p", vec![text("RATING:+1")])]), Vec::<String>::new());
    assert_eq!(blocks_of(vec![el("p", vec![text("ratings: many")])]), vec!["ratings: many"]);
}

#[test]
fn empty_paragraph_gives_no_block() {
    assert_eq!(blocks_of(vec![el("p", vec![text("  \n\t ")])]), Vec::<String>::new());
    assert_eq!(blocks_of(vec![el("p", vec![])]), Vec::<String>::new());
}

#[test]
fn paragraph_text_is_normalized() {
    let got = blocks_of(vec![el(
        "p",
        vec![text("  Item\n#:  "), el("b", vec![text("SCP-173")]), text("\t\u{a0}here ")],
    )]);
    assert_eq!(got, vec!["Item #: SCP-173 here"]);
}

#[test]
fn list_gives_one_block_per_item() {
    let list = el("ul", vec![el("li", vec![text("Alpha")]), el("li", vec![text("Beta")])]);
    assert_eq!(blocks_of(vec![list]), vec!["- Alpha", "- Beta"]);
}

#[test]
fn ordered_list_and_nested_items() {
    let inner = el("ul", vec![el("li", vec![text("Two")])]);
    let list = el("ol", vec![el("li", vec![text("One"), inner]), text("stray")]);
    assert_eq!(blocks_of(vec![list]), vec!["- OneTwo", "- Two"]);
}

#[test]
fn standalone_list_item() {
    assert_eq!(blocks_of(vec![el("li", vec![text(" Lone  item ")])]), vec!["- Lone item"]);
}

#[test]
fn blockquote_is_wrapped_and_boxed() {
    let quote = "Lorem ipsum dolor sit amet, consectetur adipiscing elit, sed do eiusmod tempor u";
    assert_eq!(quote.chars().count(), 80);
    let got = blocks_of(vec![el("blockquote", vec![text(quote)])]);
    let expected = format!(
        "{b}\n| Lorem ipsum dolor sit amet, consectetur adipiscing elit, sed |\n| do eiusmod tempor u{pad} |\n{b}",
        b = BORDER,
        pad = " ".repeat(41),
    );
    assert_eq!(got, vec![expected]);
    assert_eq!(BORDER.len(), 64);
    assert_eq!(BORDER.matches('-').count(), 62);
}

#[test]
fn blockquote_keeps_a_long_word_whole() {
    let word = "x".repeat(70);
    let got = format_blockquote(&format!("ab {} cd", word));
    let expected = format!(
        "{b}\n| ab{p1} |\n| {w} |\n| cd{p1} |\n{b}",
        b = BORDER,
        p1 = " ".repeat(58),
        w = word,
    );
    assert_eq!(got, expected);
}

#[test]
fn blockquote_does_not_split_at_hyphens() {
    let text = format!("{} well-known", "a".repeat(54));
    let got = format_blockquote(&text);
    let expected = format!(
        "{b}\n| {a}{p1} |\n| well-known{p2} |\n{b}",
        b = BORDER,
        a = "a".repeat(54),
        p1 = " ".repeat(6),
        p2 = " ".repeat(50),
    );
    assert_eq!(got, expected);
}

#[test]
fn empty_blockquote_is_an_empty_box() {
    assert_eq!(blocks_of(vec![el("blockquote", vec![])]), vec![format!("{b}\n{b}", b = BORDER)]);
}

#[test]
fn render_box_pads_each_line() {
    assert_eq!(render_box("ab\ncde", 4), "+------+\n| ab   |\n| cde  |\n+------+");
    assert_eq!(render_box("", 0), "+--+\n+--+");
    assert_eq!(render_box("toolong\n", 3), "+-----+\n| toolong |\n+-----+");
    assert_eq!(render_box("a\r\n\nb", 1), "+---+\n| a |\n|   |\n| b |\n+---+");
}

#[test]
fn image_block_gives_marker_only() {
    let image = Node::Element(element_with("img", &[("src", "http://example/x.png")], vec![]));
    let block = el_class(
        "div",
        "scp-image-block block-right",
        vec![image, el("p", vec![text("caption text")])],
    );
    assert_eq!(blocks_of(vec![block]), vec!["[IMAGE: http://example/x.png]"]);
}

#[test]
fn image_block_without_src_or_image() {
    let no_src = el_class("div", "scp-image-block", vec![el("span", vec![el("img", vec![])])]);
    assert_eq!(blocks_of(vec![no_src]), vec!["[IMAGE: ]"]);
    let no_image = el_class("div", "scp-image-block", vec![el("p", vec![text("words")])]);
    assert_eq!(blocks_of(vec![no_image]), Vec::<String>::new());
}

#[test]
fn excluded_class_wins_over_image_block() {
    let image = Node::Element(element_with("img", &[("src", "x.png")], vec![]));
    let block = el_class("div", "scp-image-block scp-image-caption", vec![image]);
    assert_eq!(blocks_of(vec![block]), Vec::<String>::new());
}

#[test]
fn generic_div_is_walked_in_place() {
    let inner = el("div", vec![el("p", vec![text("one")]), text("loose"), el("h1", vec![text("two")])]);
    let got = blocks_of(vec![el("p", vec![text("zero")]), inner, el("p", vec![text("three")])]);
    assert_eq!(got, vec!["zero", "one", "loose", "# two", "three"]);
}

#[test]
fn table_pre_and_hr_are_walked() {
    let table = el("table", vec![el("tr", vec![el("td", vec![text("cell")])])]);
    let got = blocks_of(vec![text("before"), table, el("hr", vec![]), el("pre", vec![text("code")])]);
    assert_eq!(got, vec!["before", "cell", "code"]);
}

#[test]
fn inline_content_is_merged_until_a_block() {
    let got = blocks_of(vec![
        text("  Hello "),
        el("b", vec![text("bold\n  world")]),
        text("   "),
        el("a", vec![text("link")]),
        el("p", vec![text("para")]),
        text("after"),
    ]);
    assert_eq!(got, vec!["Hello bold world link", "para", "after"]);
}

#[test]
fn line_break_puts_a_line_feed_in_the_inline_text() {
    let got = blocks_of(vec![text("one"), el("br", vec![]), text("two")]);
    assert_eq!(got, vec!["one \ntwo"]);
}

#[test]
fn blank_inline_text_is_carried_over_a_block() {
    let got = blocks_of(vec![el("br", vec![]), el("p", vec![text("para")]), text("tail")]);
    assert_eq!(got, vec!["para", "tail"]);
    let got = blocks_of(vec![el("br", vec![]), el("br", vec![])]);
    assert_eq!(got, Vec::<String>::new());
}

#[test]
fn excluded_elements_leave_no_trace() {
    let got = blocks_of(vec![
        text("kept"),
        el_class("span", "my-licensebox-x", vec![text("hidden inline")]),
        el_class("div", "page-rate-widget-box", vec![el("p", vec![text("hidden block")])]),
        Node::Element(element_with("div", &[("id", "u-credit-view")], vec![text("hidden id")])),
        text("too"),
    ]);
    assert_eq!(got, vec!["kept too"]);
}

#[test]
fn excluded_id_must_match_exactly() {
    let near = Node::Element(element_with("div", &[("id", "u-credit-view-2")], vec![text("shown")]));
    assert_eq!(blocks_of(vec![near]), vec!["shown"]);
}

#[test]
fn every_standard_class_token_excludes() {
    let rules = ExclusionRules::standard();
    assert_eq!(rules.class_tokens.len(), 15);
    assert_eq!(rules.ids, vec!["u-credit-view", "u-credit-box"]);
    for token in rules.class_tokens.iter() {
        let e = element_with("div", &[("class", &format!("a {} b", token))], vec![text("x")]);
        assert!(rules.excludes(&e));
    }
    assert!(!rules.excludes(&element_with("div", &[("class", "content")], vec![])));
    assert!(!rules.excludes(&element_with("div", &[], vec![])));
}

#[test]
fn other_rules_can_be_put_in() {
    let rules = ExclusionRules { class_tokens: vec!["ad".to_string()], ids: vec![] };
    let engine = Extractor::new(rules);
    let root = container(vec![
        el_class("p", "bad", vec![text("gone")]),
        el_class("p", "licensebox", vec![text("stays")]),
    ]);
    assert_eq!(engine.collect_blocks(&root), vec!["stays"]);
}

#[test]
fn blocks_keep_document_order() {
    let children: Vec<Node> =
        (0..20).map(|i| el("p", vec![text(&format!("paragraph {}", i))])).collect();
    let got = blocks_of(children);
    let expected: Vec<String> = (0..20).map(|i| format!("paragraph {}", i)).collect();
    assert_eq!(got, expected);
}

#[test]
fn no_block_is_blank() {
    let got = blocks_of(vec![
        text(" \n "),
        el("p", vec![text(" ")]),
        el("h1", vec![]),
        el("li", vec![text("\t")]),
        el("span", vec![text("  ")]),
        el("div", vec![text(" "), el("br", vec![])]),
        el("blockquote", vec![text(" ")]),
    ]);
    assert_eq!(got, vec!["# ".to_string(), "- ".to_string(), format!("{b}\n{b}", b = BORDER)]);
    for block in got.iter() {
        assert!(!block.trim().is_empty());
    }
}

#[test]
fn block_tags() {
    for tag in ["p", "div", "blockquote", "ul", "ol", "li", "h1", "h2", "h3", "h4", "table", "pre", "hr"] {
        assert!(Extractor::is_block_element(tag), "{}", tag);
    }
    for tag in ["span", "br", "a", "h5", "P", "", "tr", "img"] {
        assert!(!Extractor::is_block_element(tag), "{}", tag);
    }
}

#[test]
fn normalize_collapses_white_space() {
    assert_eq!(Extractor::normalize("a  b"), "a b");
    assert_eq!(Extractor::normalize(" \t a\r\n\n b\u{3000}\u{2003}c \u{85}"), "a b c");
    assert_eq!(Extractor::normalize(""), "");
    assert_eq!(Extractor::normalize(" \n "), "");
    assert_eq!(Extractor::normalize("a\u{200b}b"), "a\u{200b}b");
}

#[test]
fn clean_text_joins_fragments_without_separator() {
    let e = element_with("p", &[], vec![text("ab"), el("i", vec![text("cd")]), text(" ef")]);
    assert_eq!(Extractor::clean_text(&e), "abcd ef");
}

#[test]
fn title_is_padded_to_three_digits() {
    assert_eq!(Extractor::title_line(7), "SCP-007");
    assert_eq!(Extractor::title_line(42), "SCP-042");
    assert_eq!(Extractor::title_line(173), "SCP-173");
    assert_eq!(Extractor::title_line(9999), "SCP-9999");
    assert_eq!(Extractor::title_line(0), "SCP-000");
    assert_eq!(Extractor::title_line(-5), "SCP--05");
    assert_eq!(Extractor::title_line(-12), "SCP--12");
    assert_eq!(Extractor::title_line(i32::MAX), format!("SCP-{:03}", i32::MAX));
    assert_eq!(Extractor::title_line(i32::MIN), format!("SCP-{:03}", i32::MIN));
}

#[test]
fn document_has_title_separator_and_blocks() {
    let root = container(vec![el("p", vec![text("First.")]), el("p", vec![text("Second.")])]);
    let got = Extractor::standard().render_document(&root, 55);
    let expected = format!("SCP-055\n\n{}\n\n\n\nFirst.\n\nSecond.", "=".repeat(40));
    assert_eq!(got, expected);
}

#[test]
fn document_without_blocks_is_title_and_separator() {
    let got = Extractor::standard().render_document(&container(vec![]), 1);
    assert_eq!(got, format!("SCP-001\n\n{}\n\n", "=".repeat(40)));
}

#[test]
fn page_that_does_not_exist() {
    let root = container(vec![el("p", vec![text("This page doesn't exist yet.")])]);
    assert_eq!(Extractor::standard().render_document(&root, 8), "SCP-008 does not exist.");
    let split = container(vec![el("b", vec![text("This page")]), text("doesn't exist")]);
    assert_eq!(Extractor::standard().render_document(&split, 8), "SCP-008 does not exist.");
}

#[test]
fn missing_content_gives_the_fixed_message() {
    let got = Extractor::standard().parse_html("<html><body><p>nothing here</p></body></html>", 3);
    assert_eq!(got, "Could not find page content. This page might not exist.");
    assert_eq!(
        Extractor::standard().parse_html("", 3),
        "Could not find page content. This page might not exist."
    );
    assert_eq!(
        Extractor::standard().render(None, 3),
        "Could not find page content. This page might not exist."
    );
}

#[test]
fn parse_html_reads_a_page() {
    let page = "<!DOCTYPE html><html><head><title>t</title></head><body>\
        <div id=\"header\"><p>site chrome</p></div>\
        <div id=\"page-content\">\
        <div class=\"page-rate-widget-box\"><span>rating: +99</span></div>\
        <p><strong>Item #:</strong> SCP-042</p>\
        <!-- a comment -->\
        <h2>Description</h2>\
        loose <em>inline</em> text<br>more\
        <ul><li>Alpha</li><li>Beta</li></ul>\
        <div class=\"scp-image-block\"><img src=\"http://example/x.png\"><div class=\"scp-image-caption\"><p>cap</p></div></div>\
        <div class=\"footer-wikiwalk-nav\"><p>next</p></div>\
        </div></body></html>";
    let got = Extractor::standard().parse_html(page, 42);
    let expected = format!(
        "SCP-042\n\n{}\n\n\n\nItem #: SCP-042\n\n# Description\n\nloose inline text \nmore\n\n- Alpha\n\n- Beta\n\n[IMAGE: http://example/x.png]",
        "=".repeat(40)
    );
    assert_eq!(got, expected);
}

#[test]
fn extract_uses_the_standard_rules() {
    let page = "<div id=\"page-content\"><p>Object Class: Euclid</p>\
        <div class=\"licensebox\"><p>licence</p></div><blockquote>A note.</blockquote></div>";
    let expected = format!(
        "SCP-173\n\n{}\n\n\n\nObject Class: Euclid\n\n{b}\n| A note.{pad} |\n{b}",
        "=".repeat(40),
        b = BORDER,
        pad = " ".repeat(53),
    );
    assert_eq!(extract(page, 173), expected);
    assert_eq!(extract(page, 173), Extractor::standard().parse_html(page, 173));
    assert_eq!(extract("<p>x</p>", 1), "Could not find page content. This page might not exist.");
}

#[test]
fn parse_html_is_deterministic() {
    let page = "<div id=page-content><p class=b id=a title=c>x</p><blockquote>q</blockquote></div>";
    let engine = Extractor::standard();
    assert_eq!(engine.parse_html(page, 5), engine.parse_html(page, 5));
}

#[test]
fn parse_html_reports_a_page_that_does_not_exist() {
    let page = "<div id=\"page-content\"><h1>Oops</h1><p>This page doesn't exist.</p></div>";
    assert_eq!(Extractor::standard().parse_html(page, 1234), "SCP-1234 does not exist.");
}

#[test]
fn forest_is_built_from_events() {
    let events = vec![
        MarkupEvent::Open("div".to_string(), vec![("id".to_string(), "x".to_string())]),
        MarkupEvent::Text("a".to_string()),
        MarkupEvent::Close,
        MarkupEvent::Other,
        MarkupEvent::Text("in comment".to_string()),
        MarkupEvent::Close,
        MarkupEvent::Close,
        MarkupEvent::Open("p".to_string(), vec![]),
        MarkupEvent::Close,
        MarkupEvent::Close,
        MarkupEvent::Text("top".to_string()),
        MarkupEvent::Close,
    ];
    let nodes = build_forest(&events);
    assert_eq!(nodes.len(), 2);
    match &nodes[0] {
        Node::Element(e) => {
            assert_eq!(e.tag, "div");
            assert_eq!(e.attr("id"), Some("x"));
            assert_eq!(e.attr("class"), None);
            assert_eq!(e.texts(), vec!["a"]);
            assert_eq!(e.children.len(), 2);
            assert_eq!(e.descendants_named("p").len(), 1);
        }
        Node::Text(_) => panic!("an element was expected"),
    }
    match &nodes[1] {
        Node::Text(t) => assert_eq!(t, "top"),
        Node::Element(_) => panic!("a text node was expected"),
    }
}

#[test]
fn forest_of_unbalanced_events() {
    assert_eq!(build_forest(&vec![]).len(), 0);
    assert_eq!(build_forest(&vec![MarkupEvent::Close, MarkupEvent::Text("x".to_string())]).len(), 0);
    let open_only = vec![MarkupEvent::Open("a".to_string(), vec![]), MarkupEvent::Text("t".to_string())];
    let nodes = build_forest(&open_only);
    assert_eq!(nodes.len(), 1);
    match &nodes[0] {
        Node::Element(e) => assert_eq!(e.texts(), vec!["t"]),
        Node::Text(_) => panic!("an element was expected"),
    }
}

#[test]
fn render_takes_the_first_element_as_content() {
    let events = vec![
        MarkupEvent::Open("div".to_string(), vec![]),
        MarkupEvent::Open("p".to_string(), vec![]),
        MarkupEvent::Text("body".to_string()),
        MarkupEvent::Close,
        MarkupEvent::Close,
        MarkupEvent::Close,
    ];
    let got = Extractor::standard().render(Some(events), 2);
    assert_eq!(got, format!("SCP-002\n\n{}\n\n\n\nbody", "=".repeat(40)));
    let text_first = vec![MarkupEvent::Text("x".to_string()), MarkupEvent::Close];
    assert_eq!(
        Extractor::standard().render(Some(text_first), 2),
        "Could not find page content. This page might not exist."
    );
}

#[test]
fn excluded_elements_inside_a_walked_div_leave_no_trace() {
    let with = vec![
        el("p", vec![text("a")]),
        el(
            "div",
            vec![
                text("b"),
                el_class("span", "licensebox", vec![text("hidden")]),
                el("table", vec![el_class("div", "credit-pane", vec![text("deep")]), text("c")]),
            ],
        ),
    ];
    let without = vec![
        el("p", vec![text("a")]),
        el("div", vec![text("b"), el("table", vec![text("c")])]),
    ];
    assert_eq!(blocks_of(with), blocks_of(without));
    assert_eq!(
        blocks_of(vec![el("div", vec![text("b"), el("table", vec![text("c")])])]),
        vec!["b", "c"]
    );
}

#[test]
fn excluded_elements_inside_a_paragraph_are_read_with_it() {
    let got = blocks_of(vec![el(
        "p",
        vec![text("shown "), el_class("span", "licensebox", vec![text("and this")])],
    )]);
    assert_eq!(got, vec!["shown and this"]);
}

#[test]
fn a_large_page_is_read() {
    let mut page = String::from("<html><body><div id=\"page-content\">");
    for i in 0..1500 {
        page.push_str(&format!("<p class=\"c{}\">Paragraph   number {}</p>\n", i, i));
    }
    for _ in 0..150 {
        page.push_str("<div>");
    }
    page.push_str("<h3>Deep</h3>");
    for _ in 0..150 {
        page.push_str("</div>");
    }
    page.push_str("</div></body></html>");
    let got = extract(&page, 1);
    let parts: Vec<&str> = got.split("\n\n").collect();
    assert_eq!(parts.len(), 3 + 1500 + 1);
    assert_eq!(parts[3], "Paragraph number 0");
    assert_eq!(parts[1502], "Paragraph number 1499");
    assert_eq!(parts[1503], "# Deep");
}

#[test]
fn nodes_of_other_kinds_are_passed_over() {
    let page = "<div id=\"page-content\"><!-- note -->a<!-- note --><p>b<!-- in p -->c</p></div>";
    assert_eq!(extract(page, 10), format!("SCP-010\n\n{}\n\n\n\na\n\nbc", "=".repeat(40)));
}

#[test]
fn the_first_content_element_is_taken() {
    let page = "<div id=\"page-content\"><p>first</p></div><div id=\"page-content\"><p>second</p></div>";
    assert_eq!(extract(page, 10), format!("SCP-010\n\n{}\n\n\n\nfirst", "=".repeat(40)));
}
