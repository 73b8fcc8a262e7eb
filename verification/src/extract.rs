//! The extraction engine: from a parsed article page to its text, block by block.
use vstd::prelude::*;
use crate::backend::{replace_all, runs_replaced, select_first, selected_subtree, whitespace_runs};
use crate::blockquote::{format_blockquote, quote_box, QUOTE_WIDTH};
use crate::markup::{build_forest, events_view, forest, EventView, MarkupEvent};
use crate::node::{elements_view, node_view, nodes_view, Element, ElementView, Markup, Node};
use crate::text::{
    concatenated, contains, contains_text, has_prefix_ignoring_ascii_case, join, joined,
    lemma_views_push, repeat, repeated, same_text, starts_with_ignoring_ascii_case,
    three_digit_text, three_digits, trim, trimmed, views,
};

verus! {

/// The markers of elements that hold no article content.
#[derive(Debug)]
pub struct ExclusionRules {
    /// An element is left out if its `class` attribute contains one of these.
    pub class_tokens: Vec<String>,
    /// An element is left out if its `id` attribute is one of these.
    pub ids: Vec<String>,
}

/// Mathematical model of `ExclusionRules`.
pub struct RulesView {
    pub class_tokens: Seq<Seq<char>>,
    pub ids: Seq<Seq<char>>,
}

impl View for ExclusionRules {
    type V = RulesView;

    open spec fn view(&self) -> RulesView {
        RulesView { class_tokens: views(self.class_tokens@), ids: views(self.ids@) }
    }
}

/// The rules for the pages of the article site.
pub open spec fn standard_rules() -> RulesView {
    RulesView {
        class_tokens: seq![
            "licensebox"@,
            "page-rate-widget-box"@,
            "authorlink-wrapper"@,
            "creditRate"@,
            "heritage-rating-module"@,
            "scp-transcription"@,
            "info-container"@,
            "u-credit-view"@,
            "u-credit-box"@,
            "rate-widget-hl"@,
            "scp-image-caption"@,
            "credit-pane"@,
            "credit-back"@,
            "info-pane-contents"@,
            "footer-wikiwalk-nav"@,
        ],
        ids: seq!["u-credit-view"@, "u-credit-box"@],
    }
}

/// Whether `classes` contains one of `tokens`.
pub open spec fn has_token(classes: Seq<char>, tokens: Seq<Seq<char>>) -> bool {
    exists|i: int| 0 <= i < tokens.len() && contains(classes, #[trigger] tokens[i])
}

/// Whether the rules leave the element out, with all that is below it.
pub open spec fn is_excluded(e: ElementView, rules: RulesView) -> bool {
    ||| e.attr("class"@) matches Some(classes) && has_token(classes, rules.class_tokens)
    ||| e.attr("id"@) matches Some(id) && rules.ids.contains(id)
}

/// Whether an element called `tag` starts a block of its own.
pub open spec fn is_block_tag(tag: Seq<char>) -> bool {
    ||| tag == "p"@
    ||| tag == "div"@
    ||| tag == "blockquote"@
    ||| tag == "ul"@
    ||| tag == "ol"@
    ||| tag == "li"@
    ||| tag == "h1"@
    ||| tag == "h2"@
    ||| tag == "h3"@
    ||| tag == "h4"@
    ||| tag == "table"@
    ||| tag == "pre"@
    ||| tag == "hr"@
}

/// Whether `tag` names a heading.
pub open spec fn is_heading_tag(tag: Seq<char>) -> bool {
    tag == "h1"@ || tag == "h2"@ || tag == "h3"@ || tag == "h4"@
}

/// `raw` with every run of white space collapsed to one space, and none at either end.
pub open spec fn normalized(raw: Seq<char>) -> Seq<char> {
    trimmed(runs_replaced(raw, " "@))
}

/// The normalized text of an element: all text below it, joined without a separator.
pub open spec fn clean(e: ElementView) -> Seq<char> {
    normalized(concatenated(e.texts()))
}

/// Whether the element is a `div` marked as an image block.
pub open spec fn is_image_block(e: ElementView) -> bool {
    e.tag == "div"@ && (e.attr("class"@) matches Some(classes) && contains(
        classes,
        "scp-image-block"@,
    ))
}

/// The marker for an image with the given `src` attribute.
pub open spec fn image_marker(src: Option<Seq<char>>) -> Seq<char> {
    "[IMAGE: "@ + (match src {
        Some(s) => s,
        None => Seq::empty(),
    }) + "]"@
}

/// The block of an image block: the marker of the first image below it, if there is one.
pub open spec fn image_blocks(e: ElementView) -> Seq<Seq<char>> {
    let images = e.descendants_named("img"@);
    if images.len() == 0 {
        Seq::empty()
    } else {
        seq![image_marker(images[0].attr("src"@))]
    }
}

/// The block of a paragraph with normalized text `t`: the text itself, unless it is empty or
/// begins with `rating:` in any mix of upper and lower case.
pub open spec fn paragraph_blocks(t: Seq<char>) -> Seq<Seq<char>> {
    if t.len() == 0 || has_prefix_ignoring_ascii_case(t, "rating:"@) {
        Seq::empty()
    } else {
        seq![t]
    }
}

/// One block for each list item, `"- "` before its normalized text.
pub open spec fn item_blocks(items: Seq<ElementView>) -> Seq<Seq<char>> {
    Seq::new(items.len(), |i: int| "- "@ + clean(items[i]))
}

/// The blocks that a block-level element gives. `nested` is what the walk over its children
/// gives; only a plain `div` and the tags without a rule of their own use it.
pub open spec fn block_output(e: ElementView, nested: Seq<Seq<char>>) -> Seq<Seq<char>> {
    if e.tag == "div"@ {
        if is_image_block(e) {
            image_blocks(e)
        } else {
            nested
        }
    } else if e.tag == "p"@ {
        paragraph_blocks(clean(e))
    } else if e.tag == "blockquote"@ {
        seq![quote_box(clean(e), QUOTE_WIDTH as nat)]
    } else if is_heading_tag(e.tag) {
        seq!["# "@ + clean(e)]
    } else if e.tag == "ul"@ || e.tag == "ol"@ {
        item_blocks(e.descendants_named("li"@))
    } else if e.tag == "li"@ {
        seq!["- "@ + clean(e)]
    } else {
        nested
    }
}

/// The state of a walk over the children of an element: the blocks given so far, and the
/// inline text gathered since the last block.
pub struct Walk {
    pub blocks: Seq<Seq<char>>,
    pub inline: Seq<char>,
}

/// The state after the gathered inline text has been given as a block. Inline text that is
/// blank gives no block and stays.
pub open spec fn flushed(w: Walk) -> Walk {
    if trimmed(w.inline).len() > 0 {
        Walk { blocks: w.blocks.push(trimmed(w.inline)), inline: Seq::empty() }
    } else {
        w
    }
}

/// The state of the walk after the first `n` of `children`.
pub open spec fn walk(children: Seq<Markup>, n: nat, rules: RulesView) -> Walk
    decreases children, n,
{
    if n == 0 || n > children.len() {
        Walk { blocks: Seq::empty(), inline: Seq::empty() }
    } else {
        let w = walk(children, (n - 1) as nat, rules);
        match children[n - 1] {
            Markup::Text(t) => if trimmed(t).len() > 0 {
                Walk { blocks: w.blocks, inline: w.inline + trimmed(t) + " "@ }
            } else {
                w
            },
            Markup::Element(e) => if is_excluded(e, rules) {
                w
            } else if is_block_tag(e.tag) {
                let nested = flushed(walk(e.children, e.children.len(), rules)).blocks;
                Walk {
                    blocks: flushed(w).blocks + block_output(e, nested),
                    inline: flushed(w).inline,
                }
            } else if e.tag == "br"@ {
                Walk { blocks: w.blocks, inline: w.inline + "\n"@ }
            } else {
                Walk { blocks: w.blocks, inline: w.inline + clean(e) + " "@ }
            },
        }
    }
}

/// The blocks of the content below an element with the given children, in document order.
pub open spec fn blocks(children: Seq<Markup>, rules: RulesView) -> Seq<Seq<char>> {
    flushed(walk(children, children.len(), rules)).blocks
}

/// The title line of an article.
pub open spec fn title(number: int) -> Seq<char> {
    "SCP-"@ + three_digits(number)
}

/// The text shown when a page has no main content.
pub open spec fn not_found_text() -> Seq<char> {
    "Could not find page content. This page might not exist."@
}

/// The text of an article whose main content is `root`.
pub open spec fn document(root: ElementView, number: int, rules: RulesView) -> Seq<char> {
    if contains(joined(root.texts(), " "@), "This page doesn't exist"@) {
        title(number) + " does not exist."@
    } else {
        joined(
            seq![title(number), repeated("="@, 40), Seq::empty()] + blocks(root.children, rules),
            "\n\n"@,
        )
    }
}

/// The element that a forest of nodes begins with, if it begins with one.
pub open spec fn first_element(nodes: Seq<Markup>) -> Option<ElementView> {
    if nodes.len() > 0 {
        match nodes[0] {
            Markup::Element(e) => Some(e),
            Markup::Text(_) => None,
        }
    } else {
        None
    }
}

/// The text for what was found as the main content of a page.
pub open spec fn rendered(found: Option<Seq<EventView>>, number: int, rules: RulesView) -> Seq<
    char,
> {
    match found {
        None => not_found_text(),
        Some(events) => match first_element(forest(events)) {
            None => not_found_text(),
            Some(root) => document(root, number, rules),
        },
    }
}

/// The selector of the main content of a page.
pub open spec fn content_selector() -> Seq<char> {
    "#page-content"@
}

/// The text of the article `number` whose page is `markup`.
pub open spec fn extracted(markup: Seq<char>, number: int, rules: RulesView) -> Seq<char> {
    rendered(selected_subtree(markup, content_selector()), number, rules)
}

/// The model of what was found, if anything.
pub open spec fn found_view(found: Option<Vec<MarkupEvent>>) -> Option<Seq<EventView>> {
    match found {
        Some(events) => Some(events_view(events@)),
        None => None,
    }
}

impl ExclusionRules {
    /// The rules for the pages of the article site.
    pub fn standard() -> (rules: ExclusionRules)
        ensures
            rules@ == standard_rules(),
    {
        let mut class_tokens: Vec<String> = Vec::new();
        class_tokens.push("licensebox".to_owned());
        class_tokens.push("page-rate-widget-box".to_owned());
        class_tokens.push("authorlink-wrapper".to_owned());
        class_tokens.push("creditRate".to_owned());
        class_tokens.push("heritage-rating-module".to_owned());
        class_tokens.push("scp-transcription".to_owned());
        class_tokens.push("info-container".to_owned());
        class_tokens.push("u-credit-view".to_owned());
        class_tokens.push("u-credit-box".to_owned());
        class_tokens.push("rate-widget-hl".to_owned());
        class_tokens.push("scp-image-caption".to_owned());
        class_tokens.push("credit-pane".to_owned());
        class_tokens.push("credit-back".to_owned());
        class_tokens.push("info-pane-contents".to_owned());
        class_tokens.push("footer-wikiwalk-nav".to_owned());
        let mut ids: Vec<String> = Vec::new();
        ids.push("u-credit-view".to_owned());
        ids.push("u-credit-box".to_owned());
        let rules = ExclusionRules { class_tokens, ids };
        assert(rules@.class_tokens =~= standard_rules().class_tokens);
        assert(rules@.ids =~= standard_rules().ids);
        rules
    }

    /// Whether `classes` contains one of the class tokens.
    pub fn matches_class(&self, classes: &str) -> (b: bool)
        ensures
            b == has_token(classes@, self@.class_tokens),
    {
        let n: usize = self.class_tokens.len();
        let mut i: usize = 0;
        while i < n
            invariant
                i <= n,
                n == self.class_tokens.len(),
                forall|k: int| 0 <= k < i ==> !contains(classes@, #[trigger] self@.class_tokens[k]),
            decreases n - i,
        {
            if contains_text(classes, self.class_tokens[i].as_str()) {
                assert(contains(classes@, self@.class_tokens[i as int]));
                return true;
            }
            i += 1;
        }
        false
    }

    /// Whether `id` is one of the excluded ids.
    pub fn matches_id(&self, id: &str) -> (b: bool)
        ensures
            b == self@.ids.contains(id@),
    {
        let n: usize = self.ids.len();
        let mut i: usize = 0;
        while i < n
            invariant
                i <= n,
                n == self.ids.len(),
                forall|k: int| 0 <= k < i ==> #[trigger] self@.ids[k] != id@,
            decreases n - i,
        {
            if same_text(self.ids[i].as_str(), id) {
                assert(self@.ids[i as int] == id@);
                return true;
            }
            i += 1;
        }
        false
    }

    /// Whether the rules leave `element` out.
    pub fn excludes(&self, element: &Element) -> (b: bool)
        ensures
            b == is_excluded(element@, self@),
    {
        let by_class = match element.attr("class") {
            Some(classes) => self.matches_class(classes),
            None => false,
        };
        if by_class {
            return true;
        }
        match element.attr("id") {
            Some(id) => self.matches_id(id),
            None => false,
        }
    }
}

/// The extraction engine with its rules.
#[derive(Debug)]
pub struct Extractor {
    pub rules: ExclusionRules,
}

impl Extractor {
    /// An engine with the given rules.
    pub fn new(rules: ExclusionRules) -> (engine: Extractor)
        ensures
            engine.rules == rules,
    {
        Extractor { rules }
    }

    /// An engine with the rules for the pages of the article site.
    pub fn standard() -> (engine: Extractor)
        ensures
            engine.rules@ == standard_rules(),
    {
        Extractor { rules: ExclusionRules::standard() }
    }

    /// Whether an element called `tag` starts a block of its own.
    pub fn is_block_element(tag: &str) -> (b: bool)
        ensures
            b == is_block_tag(tag@),
    {
        same_text(tag, "p") || same_text(tag, "div") || same_text(tag, "blockquote") || same_text(
            tag,
            "ul",
        ) || same_text(tag, "ol") || same_text(tag, "li") || same_text(tag, "h1") || same_text(
            tag,
            "h2",
        ) || same_text(tag, "h3") || same_text(tag, "h4") || same_text(tag, "table") || same_text(
            tag,
            "pre",
        ) || same_text(tag, "hr")
    }

    /// Collapses every run of white space in `raw` to one space and trims the ends.
    pub fn normalize(raw: &str) -> (out: String)
        ensures
            out@ == normalized(raw@),
    {
        proof {
            reveal_strlit("\\s+");
            reveal_strlit(" ");
            assert("\\s+"@ =~= whitespace_runs());
            assert(!" "@.contains('$'));
        }
        match replace_all("\\s+", raw, " ") {
            Some(collapsed) => trim(collapsed.as_str()),
            None => String::new(),
        }
    }

    /// The normalized text of an element.
    pub fn clean_text(element: &Element) -> (out: String)
        ensures
            out@ == clean(element@),
    {
        let parts = element.texts();
        let raw = join(&parts, "");
        proof {
            reveal_strlit("");
            assert(""@ =~= Seq::<char>::empty());
            lemma_joined_empty(views(parts@));
        }
        Self::normalize(raw.as_str())
    }

    /// The blocks of the content below `element`, in document order.
    pub fn collect_blocks(&self, element: &Element) -> (out: Vec<String>)
        ensures
            views(out@) == blocks(element@.children, self.rules@),
        decreases element,
    {
        let mut out: Vec<String> = Vec::new();
        let mut current_inline = String::new();
        let n: usize = element.children.len();
        let mut i: usize = 0;
        let ghost children = element@.children;
        let ghost rules = self.rules@;
        assert(views(out@) =~= Seq::<Seq<char>>::empty());
        while i < n
            invariant
                i <= n,
                n == element.children.len(),
                children == nodes_view(element.children@),
                rules == self.rules@,
                views(out@) == walk(children, i as nat, rules).blocks,
                current_inline@ == walk(children, i as nat, rules).inline,
            decreases n - i,
        {
            let ghost w = walk(children, i as nat, rules);
            assert(children[i as int] == node_view(element.children@[i as int]));
            match &element.children[i] {
                Node::Text(text) => {
                    let s = trim(text.as_str());
                    if !s.as_str().is_empty() {
                        current_inline.append(s.as_str());
                        current_inline.append(" ");
                    }
                },
                Node::Element(e) => {
                    assert(children[i as int] == Markup::Element(e@));
                    if !self.rules.excludes(e) {
                        let tag = e.tag.as_str();
                        if Self::is_block_element(tag) {
                            let pending = trim(current_inline.as_str());
                            if !pending.as_str().is_empty() {
                                proof {
                                    lemma_views_push(out@, pending);
                                }
                                out.push(pending);
                                current_inline = String::new();
                            }
                            let ghost base = views(out@);
                            let mut produced = if same_text(tag, "div") {
                                if Self::is_image_block(e) {
                                    Self::image_block(e)
                                } else {
                                    self.collect_blocks(e)
                                }
                            } else if same_text(tag, "p") {
                                Self::paragraph(e)
                            } else if same_text(tag, "blockquote") {
                                let text = Self::clean_text(e);
                                let mut one: Vec<String> = Vec::new();
                                one.push(format_blockquote(text.as_str()));
                                assert(views(one@) =~= seq![quote_box(clean(e@), QUOTE_WIDTH as nat)]);
                                one
                            } else if same_text(tag, "h1") || same_text(tag, "h2") || same_text(
                                tag,
                                "h3",
                            ) || same_text(tag, "h4") {
                                Self::prefixed("# ", e)
                            } else if same_text(tag, "ul") || same_text(tag, "ol") {
                                Self::list_items(e)
                            } else if same_text(tag, "li") {
                                Self::prefixed("- ", e)
                            } else {
                                self.collect_blocks(e)
                            };
                            let ghost added = views(produced@);
                            assert(added == block_output(e@, blocks(e@.children, rules)));
                            out.append(&mut produced);
                            assert(views(out@) =~= base + added);
                        } else if same_text(tag, "br") {
                            current_inline.append("\n");
                        } else {
                            let text = Self::clean_text(e);
                            current_inline.append(text.as_str());
                            current_inline.append(" ");
                        }
                    }
                },
            }
            i += 1;
        }
        let pending = trim(current_inline.as_str());
        if !pending.as_str().is_empty() {
            proof {
                lemma_views_push(out@, pending);
            }
            out.push(pending);
        }
        out
    }

    /// Whether `element`, a `div`, is marked as an image block.
    fn is_image_block(element: &Element) -> (b: bool)
        requires
            element@.tag == "div"@,
        ensures
            b == is_image_block(element@),
    {
        match element.attr("class") {
            Some(classes) => contains_text(classes, "scp-image-block"),
            None => false,
        }
    }

    /// The marker of the first image below `element`, if there is one.
    fn image_block(element: &Element) -> (out: Vec<String>)
        ensures
            views(out@) == image_blocks(element@),
    {
        let images = element.descendants_named("img");
        let mut out: Vec<String> = Vec::new();
        if images.len() > 0 {
            let image: &Element = images[0];
            assert(elements_view(images@)[0] == image@);
            let mut marker = "[IMAGE: ".to_owned();
            match image.attr("src") {
                Some(src) => {
                    marker.append(src);
                },
                None => {},
            }
            marker.append("]");
            assert(marker@ =~= image_marker(image@.attr("src"@)));
            out.push(marker);
            assert(views(out@) =~= seq![image_marker(image@.attr("src"@))]);
        } else {
            assert(views(out@) =~= Seq::<Seq<char>>::empty());
        }
        out
    }

    /// The block of a paragraph, if it gives one.
    fn paragraph(element: &Element) -> (out: Vec<String>)
        ensures
            views(out@) == paragraph_blocks(clean(element@)),
    {
        let text = Self::clean_text(element);
        let mut out: Vec<String> = Vec::new();
        if !text.as_str().is_empty() && !starts_with_ignoring_ascii_case(text.as_str(), "rating:") {
            out.push(text);
            assert(views(out@) =~= seq![clean(element@)]);
        } else {
            assert(views(out@) =~= Seq::<Seq<char>>::empty());
        }
        out
    }

    /// One block: `prefix` and the normalized text of `element`.
    fn prefixed(prefix: &str, element: &Element) -> (out: Vec<String>)
        ensures
            views(out@) == seq![prefix@ + clean(element@)],
    {
        let text = Self::clean_text(element);
        let mut block = prefix.to_owned();
        block.append(text.as_str());
        let mut out: Vec<String> = Vec::new();
        out.push(block);
        assert(views(out@) =~= seq![prefix@ + clean(element@)]);
        out
    }

    /// One block for each list item below `element`.
    fn list_items(element: &Element) -> (out: Vec<String>)
        ensures
            views(out@) == item_blocks(element@.descendants_named("li"@)),
    {
        let items = element.descendants_named("li");
        let mut out: Vec<String> = Vec::new();
        let n: usize = items.len();
        let mut i: usize = 0;
        while i < n
            invariant
                i <= n,
                n == items.len(),
                elements_view(items@) == element@.descendants_named("li"@),
                views(out@) == item_blocks(elements_view(items@)).take(i as int),
            decreases n - i,
        {
            let item: &Element = items[i];
            let ghost all = item_blocks(elements_view(items@));
            let ghost before = views(out@);
            assert(elements_view(items@)[i as int] == item@);
            let text = Self::clean_text(item);
            let mut block = "- ".to_owned();
            block.append(text.as_str());
            assert(block@ == all[i as int]);
            proof {
                lemma_views_push(out@, block);
            }
            out.push(block);
            assert(before.push(all[i as int]) =~= all.take(i + 1));
            i += 1;
        }
        assert(item_blocks(elements_view(items@)).take(n as int) =~= item_blocks(
            elements_view(items@),
        ));
        out
    }

    /// The text of an article whose main content is `root`.
    pub fn render_document(&self, root: &Element, number: i32) -> (out: String)
        ensures
            out@ == document(root@, number as int, self.rules@),
    {
        let heading = Self::title_line(number);
        let parts = root.texts();
        let raw = join(&parts, " ");
        if contains_text(raw.as_str(), "This page doesn't exist") {
            let mut out = heading;
            out.append(" does not exist.");
            return out;
        }
        let mut output: Vec<String> = Vec::new();
        output.push(heading);
        output.push(repeat("=", 40));
        output.push(String::new());
        let ghost head = views(output@);
        assert(head =~= seq![title(number as int), repeated("="@, 40), Seq::empty()]);
        let mut found = self.collect_blocks(root);
        let ghost body = views(found@);
        output.append(&mut found);
        assert(views(output@) =~= head + body);
        join(&output, "\n\n")
    }

    /// The title line of the article `number`.
    pub fn title_line(number: i32) -> (out: String)
        ensures
            out@ == title(number as int),
    {
        let mut out = "SCP-".to_owned();
        let digits = three_digit_text(number);
        out.append(digits.as_str());
        out
    }

    /// The text for what was found as the main content of a page: `found` holds the events
    /// of the content element, or nothing if the page has none.
    pub fn render(&self, found: Option<Vec<MarkupEvent>>, number: i32) -> (out: String)
        ensures
            out@ == rendered(found_view(found), number as int, self.rules@),
    {
        match found {
            None => "Could not find page content. This page might not exist.".to_owned(),
            Some(events) => {
                let nodes = build_forest(&events);
                if nodes.len() > 0 {
                    assert(nodes_view(nodes@)[0] == node_view(nodes@[0]));
                    match &nodes[0] {
                        Node::Element(root) => self.render_document(root, number),
                        Node::Text(_) => "Could not find page content. This page might not exist.".to_owned(),
                    }
                } else {
                    "Could not find page content. This page might not exist.".to_owned()
                }
            },
        }
    }

    /// The text of the article `number` from the markup of its page.
    pub fn parse_html(&self, html: &str, number: i32) -> (out: String)
        ensures
            out@ == extracted(html@, number as int, self.rules@),
    {
        let found = select_first(html, "#page-content");
        self.render(found, number)
    }
}

/// The text of the article `number` from the markup of its page, under the rules for the
/// pages of the article site.
pub fn extract(markup: &str, number: i32) -> (out: String)
    ensures
        out@ == extracted(markup@, number as int, standard_rules()),
{
    Extractor::standard().parse_html(markup, number)
}

/// Joining with the empty text is concatenation.
pub proof fn lemma_joined_empty(parts: Seq<Seq<char>>)
    ensures
        joined(parts, Seq::empty()) == concatenated(parts),
    decreases parts.len(),
{
    if parts.len() == 0 {
    } else if parts.len() == 1 {
        assert(parts.drop_last() =~= Seq::<Seq<char>>::empty());
        assert(concatenated(parts.drop_last()) + parts.last() =~= parts[0]);
    } else {
        lemma_joined_empty(parts.drop_last());
        assert(joined(parts.drop_last(), Seq::empty()) + Seq::<char>::empty() + parts.last()
            =~= concatenated(parts.drop_last()) + parts.last());
    }
}

} // verus!
