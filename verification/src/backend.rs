//! The calls this library makes into other crates. The contracts in this file are stated,
//! not proved: they say what the called functions are taken to do.
use vstd::prelude::*;
use crate::markup::{events_view, EventView, MarkupEvent};
use crate::text::is_space;

verus! {

/// The subtree of the first element that `scraper` finds for the CSS selector `selector` in
/// the document it parses from `markup`, as a depth-first sequence of events, or `None` if
/// no element is found or `selector` is no selector.
pub uninterp spec fn selected_subtree(markup: Seq<char>, selector: Seq<char>) -> Option<
    Seq<EventView>,
>;

/// The text that `textwrap::fill` makes of `text` for lines of `width` columns, when it
/// fills each line in turn as far as it goes, takes the words to be what stands between
/// spaces, and splits no word.
pub uninterp spec fn wrapped(text: Seq<char>, width: nat) -> Seq<char>;

/// The regular expression for one or more white-space characters.
pub open spec fn whitespace_runs() -> Seq<char> {
    seq!['\\', 's', '+']
}

/// `s` with every maximal run of white-space characters replaced by `replacement`.
pub open spec fn runs_replaced(s: Seq<char>, replacement: Seq<char>) -> Seq<char>
    decreases s.len(),
{
    if s.len() == 0 {
        Seq::empty()
    } else {
        let before = s.drop_last();
        if !is_space(s.last()) {
            runs_replaced(before, replacement).push(s.last())
        } else if before.len() > 0 && is_space(before.last()) {
            runs_replaced(before, replacement)
        } else {
            runs_replaced(before, replacement) + replacement
        }
    }
}

/// Calls `scraper::Html::parse_document` on `markup`, `scraper::Selector::parse` on
/// `selector` and `scraper::Html::select` with the two, and walks the first element found
/// with `ego_tree::NodeRef::traverse`.
///
/// The contract names the result and says nothing else of it: the same markup and selector
/// give the same events.
#[verifier::external_body]
pub(crate) fn select_first(markup: &str, selector: &str) -> (found: Option<Vec<MarkupEvent>>)
    ensures
        match found {
            Some(events) => selected_subtree(markup@, selector@) == Some(events_view(events@)),
            None => selected_subtree(markup@, selector@) is None,
        },
{
    let document = scraper::Html::parse_document(markup);
    let selector = scraper::Selector::parse(selector).ok()?;
    let element = document.select(&selector).next()?;
    Some(element.traverse().map(|edge| match edge {
        ego_tree::iter::Edge::Open(node) => match node.value() {
            scraper::Node::Element(e) => MarkupEvent::Open(
                e.name().to_string(),
                e.attrs().map(|(name, value)| (name.to_string(), value.to_string())).collect(),
            ),
            scraper::Node::Text(t) => MarkupEvent::Text(t.to_string()),
            _ => MarkupEvent::Other,
        },
        ego_tree::iter::Edge::Close(_) => MarkupEvent::Close,
    }).collect())
}

/// Calls `regex::Regex::new` on `pattern` and `regex::Regex::replace_all` on `text` with
/// `replacement`; `None` if the pattern does not compile.
///
/// The contract speaks of one pattern only: `\s+` compiles, it matches the maximal runs of
/// characters with the `White_Space` property, and a replacement without `$` is put in
/// place of each run as it stands.
#[verifier::external_body]
pub(crate) fn replace_all(pattern: &str, text: &str, replacement: &str) -> (out: Option<String>)
    ensures
        pattern@ == whitespace_runs() && !replacement@.contains('$') ==> match out {
            Some(s) => s@ == runs_replaced(text@, replacement@),
            None => false,
        },
{
    match regex::Regex::new(pattern) {
        Ok(re) => Some(re.replace_all(text, replacement).into_owned()),
        Err(_) => None,
    }
}

/// Calls `textwrap::fill` on `text` with lines of `width` columns, the first-fit algorithm,
/// words separated by spaces, no hyphenation and no breaking of long words.
///
/// The contract names the result and says nothing else of it.
#[verifier::external_body]
pub(crate) fn fill(text: &str, width: usize) -> (out: String)
    ensures
        out@ == wrapped(text@, width as nat),
{
    let options = textwrap::Options::new(width)
        .wrap_algorithm(textwrap::WrapAlgorithm::FirstFit)
        .word_separator(textwrap::WordSeparator::AsciiSpace)
        .word_splitter(textwrap::WordSplitter::NoHyphenation)
        .break_words(false);
    textwrap::fill(text, options)
}

/// Calls `rand::Rng::gen_range` on the thread's generator with the range from `low` to
/// `high`, both included.
///
/// The contract says what holds of every outcome: the number lies in the range. An empty
/// range is left out, as the call does not return for it.
#[verifier::external_body]
pub(crate) fn random_between(low: i32, high: i32) -> (n: i32)
    requires
        low <= high,
    ensures
        low <= n <= high,
{
    rand::Rng::gen_range(&mut rand::thread_rng(), low..=high)
}

} // verus!
