//! What holds of every walk over a markup tree.
use vstd::prelude::*;
use crate::blockquote::{quote_box, QUOTE_WIDTH};
use crate::extract::{
    block_output, blocks, clean, flushed, image_blocks, image_marker, is_block_tag, is_excluded,
    is_heading_tag, is_image_block, item_blocks, paragraph_blocks, walk, RulesView, Walk,
};
use crate::node::{ElementView, Markup};
use crate::backend::runs_replaced;
use crate::text::{concatenated, is_blank, is_space, lemma_trimmed_blank, trimmed};

verus! {

/// Whether every one of `blocks` holds a character that is no white space.
pub open spec fn all_filled(blocks: Seq<Seq<char>>) -> bool {
    forall|i: int| 0 <= i < blocks.len() ==> !is_blank(#[trigger] blocks[i])
}

/// The blocks that an element gives under `rules`.
pub open spec fn element_blocks(e: ElementView, rules: RulesView) -> Seq<Seq<char>> {
    block_output(e, blocks(e.children, rules))
}

/// Whether `child` is a block-level element that the rules keep and that gives exactly one
/// block.
pub open spec fn gives_one_block(child: Markup, rules: RulesView) -> bool {
    match child {
        Markup::Element(e) => !is_excluded(e, rules) && is_block_tag(e.tag) && element_blocks(
            e,
            rules,
        ).len() == 1,
        Markup::Text(_) => false,
    }
}

/// The element of an element node.
pub open spec fn element_of(child: Markup) -> ElementView {
    match child {
        Markup::Element(e) => e,
        Markup::Text(_) => ElementView { tag: Seq::empty(), attrs: Seq::empty(), children: Seq::empty() },
    }
}

/// A text that begins with a character that is no white space is not blank.
proof fn lemma_filled_by_first(s: Seq<char>)
    requires
        s.len() > 0,
        !is_space(s[0]),
    ensures
        !is_blank(s),
{
}

/// The blocks of an element are not blank if the blocks of the walk over its children are
/// not.
proof fn lemma_block_output_filled(e: ElementView, nested: Seq<Seq<char>>)
    requires
        all_filled(nested),
    ensures
        all_filled(block_output(e, nested)),
{
    reveal_strlit("[IMAGE: ");
    reveal_strlit("# ");
    reveal_strlit("- ");
    reveal_strlit("+");
    let out = block_output(e, nested);
    assert forall|i: int| 0 <= i < out.len() implies !is_blank(#[trigger] out[i]) by {
        if out == nested {
        } else if out == image_blocks(e) {
            let images = e.descendants_named("img"@);
            let marker = image_marker(images[0].attr("src"@));
            assert(marker[0] == '[');
            lemma_filled_by_first(marker);
        } else if out == paragraph_blocks(clean(e)) {
            lemma_trimmed_blank(runs_replaced(concatenated(e.texts()), " "@));
        } else if out == seq![quote_box(clean(e), QUOTE_WIDTH as nat)] {
            let b = quote_box(clean(e), QUOTE_WIDTH as nat);
            assert(b[0] == '+');
            lemma_filled_by_first(b);
        } else if out == seq!["# "@ + clean(e)] {
            assert(("# "@ + clean(e))[0] == '#');
            lemma_filled_by_first("# "@ + clean(e));
        } else if out == seq!["- "@ + clean(e)] {
            assert(("- "@ + clean(e))[0] == '-');
            lemma_filled_by_first("- "@ + clean(e));
        } else {
            let items = e.descendants_named("li"@);
            assert(out == item_blocks(items));
            assert(out[i] == "- "@ + clean(items[i]));
            assert(out[i][0] == '-');
            lemma_filled_by_first(out[i]);
        }
    }
}

/// Inline text that is given as a block is not blank.
proof fn lemma_flushed_filled(w: Walk)
    requires
        all_filled(w.blocks),
    ensures
        all_filled(flushed(w).blocks),
{
    lemma_trimmed_blank(w.inline);
}

/// No block is blank at any step of a walk.
proof fn lemma_walk_filled(children: Seq<Markup>, n: nat, rules: RulesView)
    ensures
        all_filled(walk(children, n, rules).blocks),
        all_filled(flushed(walk(children, n, rules)).blocks),
    decreases children, n,
{
    if n == 0 || n > children.len() {
    } else {
        let w = walk(children, (n - 1) as nat, rules);
        lemma_walk_filled(children, (n - 1) as nat, rules);
        match children[n - 1] {
            Markup::Text(_) => {},
            Markup::Element(e) => {
                if !is_excluded(e, rules) && is_block_tag(e.tag) {
                    lemma_walk_filled(e.children, e.children.len(), rules);
                    lemma_block_output_filled(e, blocks(e.children, rules));
                }
            },
        }
    }
    lemma_flushed_filled(walk(children, n, rules));
}

/// No block is blank: every block that the walk over `children` gives holds a character
/// that is no white space, and so is not empty when it is trimmed.
pub proof fn law_no_blank_block(children: Seq<Markup>, rules: RulesView)
    ensures
        all_filled(blocks(children, rules)),
        forall|i: int|
            0 <= i < blocks(children, rules).len() ==> trimmed(
                #[trigger] blocks(children, rules)[i],
            ).len() > 0,
{
    lemma_walk_filled(children, children.len(), rules);
    assert forall|i: int| 0 <= i < blocks(children, rules).len() implies trimmed(
        #[trigger] blocks(children, rules)[i],
    ).len() > 0 by {
        lemma_trimmed_blank(blocks(children, rules)[i]);
    }
}

/// After `n` children that give one block each, there are `n` blocks and no inline text.
proof fn lemma_walk_of_single_blocks(children: Seq<Markup>, n: nat, rules: RulesView)
    requires
        n <= children.len(),
        forall|i: int| 0 <= i < children.len() ==> gives_one_block(#[trigger] children[i], rules),
    ensures
        walk(children, n, rules).inline.len() == 0,
        walk(children, n, rules).blocks.len() == n,
        forall|i: int|
            0 <= i < n ==> #[trigger] walk(children, n, rules).blocks[i] == element_blocks(
                element_of(children[i]),
                rules,
            )[0],
    decreases n,
{
    if n > 0 {
        lemma_walk_of_single_blocks(children, (n - 1) as nat, rules);
        assert(gives_one_block(children[n - 1], rules));
        let w = walk(children, (n - 1) as nat, rules);
        assert(trimmed(w.inline) =~= Seq::<char>::empty());
    }
}

/// Order is kept: when every child is a block-level element that the rules keep and that
/// gives exactly one block, there is one block for each child, and the blocks stand in the
/// order of the children.
pub proof fn law_order_kept(children: Seq<Markup>, rules: RulesView)
    requires
        forall|i: int| 0 <= i < children.len() ==> gives_one_block(#[trigger] children[i], rules),
    ensures
        blocks(children, rules).len() == children.len(),
        forall|i: int|
            0 <= i < children.len() ==> #[trigger] blocks(children, rules)[i] == element_blocks(
                element_of(children[i]),
                rules,
            )[0],
{
    lemma_walk_of_single_blocks(children, children.len(), rules);
    let w = walk(children, children.len(), rules);
    assert(trimmed(w.inline) =~= Seq::<char>::empty());
}

/// Up to the place of a child that is taken away, the walk is the same with and without it.
proof fn lemma_walk_before_removed(children: Seq<Markup>, at: int, n: nat, rules: RulesView)
    requires
        0 <= at < children.len(),
        n <= at,
    ensures
        walk(children, n, rules) == walk(children.remove(at), n, rules),
    decreases n,
{
    if n > 0 {
        lemma_walk_before_removed(children, at, (n - 1) as nat, rules);
        assert(children.remove(at)[n - 1] == children[n - 1]);
    }
}

/// Past the place of an excluded child, the walk is the same as the walk without it, one
/// step earlier.
proof fn lemma_walk_after_removed(children: Seq<Markup>, at: int, n: nat, rules: RulesView)
    requires
        0 <= at < n <= children.len(),
        children[at] is Element,
        is_excluded(element_of(children[at]), rules),
    ensures
        walk(children, n, rules) == walk(children.remove(at), (n - 1) as nat, rules),
    decreases n,
{
    if n == at + 1 {
        lemma_walk_before_removed(children, at, (n - 1) as nat, rules);
    } else {
        lemma_walk_after_removed(children, at, (n - 1) as nat, rules);
        assert(children.remove(at)[n - 2] == children[n - 1]);
    }
}

/// An element that the rules leave out leaves no trace: the walk over `children` gives the
/// same blocks as the walk over the children without it. Neither its text nor a space or a
/// break for it comes into a block.
pub proof fn law_excluded_leaves_no_trace(children: Seq<Markup>, at: int, rules: RulesView)
    requires
        0 <= at < children.len(),
        children[at] is Element,
        is_excluded(element_of(children[at]), rules),
    ensures
        blocks(children, rules) == blocks(children.remove(at), rules),
{
    lemma_walk_after_removed(children, at, children.len(), rules);
}

/// Whether the blocks of `e` are those of the walk over its children: `e` is a `div` that is
/// no image block, or a block-level element whose tag has no rule of its own.
pub open spec fn is_walked_through(e: ElementView) -> bool {
    &&& is_block_tag(e.tag)
    &&& !is_image_block(e)
    &&& e.tag != "p"@
    &&& e.tag != "blockquote"@
    &&& !is_heading_tag(e.tag)
    &&& e.tag != "ul"@
    &&& e.tag != "ol"@
    &&& e.tag != "li"@
}

/// The first `n` of `children` without the elements that the rules leave out, at this level
/// and at every level below that the walk goes through.
pub open spec fn pruned(children: Seq<Markup>, n: nat, rules: RulesView) -> Seq<Markup>
    decreases children, n,
{
    if n == 0 || n > children.len() {
        Seq::empty()
    } else {
        let before = pruned(children, (n - 1) as nat, rules);
        match children[n - 1] {
            Markup::Text(_) => before.push(children[n - 1]),
            Markup::Element(e) => if is_excluded(e, rules) {
                before
            } else if is_walked_through(e) {
                before.push(
                    Markup::Element(
                        ElementView {
                            tag: e.tag,
                            attrs: e.attrs,
                            children: pruned(e.children, e.children.len(), rules),
                        },
                    ),
                )
            } else {
                before.push(children[n - 1])
            },
        }
    }
}

/// The walk over the first `n` children does not depend on what follows them.
proof fn lemma_walk_ignores_later(children: Seq<Markup>, last: Markup, n: nat, rules: RulesView)
    requires
        n <= children.len(),
    ensures
        walk(children.push(last), n, rules) == walk(children, n, rules),
    decreases n,
{
    if n > 0 {
        lemma_walk_ignores_later(children, last, (n - 1) as nat, rules);
        assert(children.push(last)[n - 1] == children[n - 1]);
    }
}

/// The walk over the pruned children ends in the state of the walk over the children.
proof fn lemma_walk_of_pruned(children: Seq<Markup>, n: nat, rules: RulesView)
    requires
        n <= children.len(),
    ensures
        walk(pruned(children, n, rules), pruned(children, n, rules).len(), rules) == walk(
            children,
            n,
            rules,
        ),
    decreases children, n,
{
    if n > 0 {
        let before = pruned(children, (n - 1) as nat, rules);
        lemma_walk_of_pruned(children, (n - 1) as nat, rules);
        match children[n - 1] {
            Markup::Text(_) => {
                lemma_walk_ignores_later(before, children[n - 1], before.len(), rules);
            },
            Markup::Element(e) => {
                if is_excluded(e, rules) {
                } else if is_walked_through(e) {
                    let kept = pruned(e.children, e.children.len(), rules);
                    let shorn = ElementView { tag: e.tag, attrs: e.attrs, children: kept };
                    lemma_walk_of_pruned(e.children, e.children.len(), rules);
                    lemma_walk_ignores_later(before, Markup::Element(shorn), before.len(), rules);
                    assert(is_excluded(shorn, rules) == is_excluded(e, rules));
                    assert(is_image_block(shorn) == is_image_block(e));
                    assert(before.push(Markup::Element(shorn))[before.len() as int]
                        == Markup::Element(shorn));
                } else {
                    lemma_walk_ignores_later(before, children[n - 1], before.len(), rules);
                }
            },
        }
    }
}

/// Exclusion at every level of the walk: the blocks of `children` are the blocks of what is
/// left when every element that the rules leave out is taken away, among the children and
/// inside each element that the walk goes through.
pub proof fn law_exclusion_at_every_level(children: Seq<Markup>, rules: RulesView)
    ensures
        blocks(pruned(children, children.len(), rules), rules) == blocks(children, rules),
{
    lemma_walk_of_pruned(children, children.len(), rules);
}

} // verus!
