//! What the outcome of layout depends on: the document and the properties
//! that the cascade gave its nodes, and nothing else.

use crate::block::{children_laid_out, laid_out, placed, with_height};
use crate::css::StyleSheet;
use crate::error::Error;
use crate::layout::{box_of, child_boxes, fresh, BoxTree, BoxType, Dimensions};
use crate::render::{render_of, rendered, Rendered};
use crate::style::{Display, StyleNode};
use vstd::prelude::*;

verus! {

/// Whether two style trees are of the same document and give every node of
/// it the same properties.
pub open spec fn same_styles(one: &StyleNode, other: &StyleNode) -> bool
    decreases one,
{
    &&& one.node == other.node
    &&& one.specified_values@ == other.specified_values@
    &&& one.children@.len() == other.children@.len()
    &&& forall|i: int|
        0 <= i < one.children@.len() ==> same_styles(
            &#[trigger] one.children@[i],
            &other.children@[i],
        )
}

/// Whether two box trees hold boxes of the same kinds with the same
/// properties and the same geometry in the same places.
pub open spec fn alike(one: BoxTree, other: BoxTree) -> bool
    decreases one,
{
    &&& one.box_type is BlockNode <==> other.box_type is BlockNode
    &&& one.box_type is InlineNode <==> other.box_type is InlineNode
    &&& one.box_type.style().specified_values@ == other.box_type.style().specified_values@
    &&& one.dimensions == other.dimensions
    &&& all_alike(one.children, other.children)
}

/// Whether the box trees are alike one by one.
pub open spec fn all_alike(ones: Seq<BoxTree>, others: Seq<BoxTree>) -> bool
    decreases ones,
{
    &&& ones.len() == others.len()
    &&& forall|i: int| 0 <= i < ones.len() ==> alike(#[trigger] ones[i], others[i])
}

/// Two style trees of one document under the same sheets give every node
/// the same properties.
pub proof fn styles_are_determined(one: &StyleNode, other: &StyleNode, sheets: Seq<StyleSheet>)
    requires
        one.node == other.node,
        one.styled_by(sheets),
        other.styled_by(sheets),
    ensures
        same_styles(one, other),
    decreases one,
{
    assert forall|i: int| 0 <= i < one.children@.len() implies same_styles(
        &#[trigger] one.children@[i],
        &other.children@[i],
    ) by {
        styles_are_determined(&one.children@[i], &other.children@[i], sheets);
    }
}

/// Style trees with the same properties are shown alike, and so are their
/// boxes.
proof fn lemma_boxes_alike<'a>(one: &'a StyleNode<'a>, other: &'a StyleNode<'a>)
    requires
        same_styles(one, other),
    ensures
        one.shown_as() == other.shown_as(),
        alike(box_of(one), box_of(other)),
    decreases one,
{
    let in_block = one.shown_as() == Display::Block;
    lemma_child_boxes_alike(one, other, in_block, one.children@, other.children@);
}

/// The same of the boxes that children give.
proof fn lemma_child_boxes_alike<'a>(
    one: &'a StyleNode<'a>,
    other: &'a StyleNode<'a>,
    in_block: bool,
    ones: Seq<StyleNode<'a>>,
    others: Seq<StyleNode<'a>>,
)
    requires
        one.specified_values@ == other.specified_values@,
        ones.len() == others.len(),
        forall|i: int| 0 <= i < ones.len() ==> same_styles(&#[trigger] ones[i], &others[i]),
    ensures
        all_alike(child_boxes(one, in_block, ones), child_boxes(other, in_block, others)),
    decreases ones,
{
    if ones.len() > 0 {
        lemma_child_boxes_alike(one, other, in_block, ones.drop_last(), others.drop_last());
        lemma_boxes_alike(&ones.last(), &others.last());
        let before = child_boxes(one, in_block, ones.drop_last());
        let other_before = child_boxes(other, in_block, others.drop_last());
        let child = box_of(&ones.last());
        let other_child = box_of(&others.last());
        match ones.last().shown_as() {
            Display::Hidden => {},
            Display::Block => {
                lemma_pushed_alike(before, other_before, child, other_child);
            },
            Display::Inline => {
                if in_block {
                    if before.len() > 0 && before.last().box_type is AnonymousBlock {
                        let at = before.len() - 1;
                        lemma_pushed_alike(
                            before[at].children,
                            other_before[at].children,
                            child,
                            other_child,
                        );
                    } else {
                        let made = fresh(BoxType::AnonymousBlock(one), seq![child]);
                        let other_made = fresh(BoxType::AnonymousBlock(other), seq![other_child]);
                        lemma_pushed_alike(before, other_before, made, other_made);
                    }
                } else {
                    lemma_pushed_alike(before, other_before, child, other_child);
                }
            },
        }
    }
}

/// Boxes that are alike stay so when boxes that are alike join them.
proof fn lemma_pushed_alike(
    ones: Seq<BoxTree>,
    others: Seq<BoxTree>,
    one: BoxTree,
    other: BoxTree,
)
    requires
        all_alike(ones, others),
        alike(one, other),
    ensures
        all_alike(ones.push(one), others.push(other)),
{
}

/// Box trees that are alike are laid out alike, or fail alike.
proof fn lemma_laid_out_alike(one: BoxTree, other: BoxTree, containing_block: Dimensions)
    requires
        alike(one, other),
    ensures
        match laid_out(one, containing_block) {
            Ok(laid) => laid_out(other, containing_block) is Ok && alike(
                laid,
                laid_out(other, containing_block)->Ok_0,
            ),
            Err(error) => laid_out(other, containing_block) == Err::<BoxTree, Error>(error),
        },
    decreases one,
{
    if one.box_type is BlockNode {
        let props = one.box_type.style().specified_values@;
        if placed(props, containing_block) is Ok {
            let dimensions = placed(props, containing_block)->Ok_0;
            lemma_children_laid_out_alike(one.children, other.children, dimensions);
        }
    }
}

/// The same of the children of a block.
proof fn lemma_children_laid_out_alike(
    ones: Seq<BoxTree>,
    others: Seq<BoxTree>,
    dimensions: Dimensions,
)
    requires
        all_alike(ones, others),
    ensures
        match children_laid_out(ones, dimensions) {
            Ok((laid, height)) => {
                &&& children_laid_out(others, dimensions) is Ok
                &&& children_laid_out(others, dimensions)->Ok_0.1 == height
                &&& all_alike(laid, children_laid_out(others, dimensions)->Ok_0.0)
            },
            Err(error) => children_laid_out(others, dimensions) == Err::<
                (Seq<BoxTree>, i64),
                Error,
            >(error),
        },
    decreases ones,
{
    if ones.len() > 0 {
        lemma_children_laid_out_alike(ones.drop_last(), others.drop_last(), dimensions);
        if let Ok((before, height)) = children_laid_out(ones.drop_last(), dimensions) {
            lemma_laid_out_alike(ones.last(), others.last(), with_height(dimensions, height));
            if let Ok(child) = laid_out(ones.last(), with_height(dimensions, height)) {
                let other_before = children_laid_out(others.drop_last(), dimensions)->Ok_0.0;
                let other_child = laid_out(others.last(), with_height(dimensions, height))->Ok_0;
                lemma_pushed_alike(before, other_before, child, other_child);
            }
        }
    }
}

/// Of box trees that are alike the same is painted.
proof fn lemma_rendered_alike(one: BoxTree, other: BoxTree)
    requires
        alike(one, other),
    ensures
        rendered(one) == rendered(other),
    decreases one,
{
    if one.box_type is BlockNode {
        assert forall|i: int| 0 <= i < one.children.len() implies rendered(one.children[i])
            == rendered(other.children[i]) by {
            lemma_rendered_alike(one.children[i], other.children[i]);
        }
        assert(rendered(one)->Block_0.children =~= rendered(other)->Block_0.children);
    }
}

/// What is painted of a document depends on nothing but the document, the
/// properties of its nodes and the viewport: of two style trees of one
/// document that give every node the same properties, the same is painted
/// in the same viewport, or layout fails for both in the same way.
pub proof fn render_depends_on_styles_only<'a>(
    one: &'a StyleNode<'a>,
    other: &'a StyleNode<'a>,
    viewport: Dimensions,
)
    requires
        same_styles(one, other),
    ensures
        render_of(one, viewport) == render_of(other, viewport),
{
    lemma_boxes_alike(one, other);
    if one.shown_as() != Display::Hidden {
        let containing_block = with_height(viewport, 0);
        lemma_laid_out_alike(box_of(one), box_of(other), containing_block);
        if let Ok(laid) = laid_out(box_of(one), containing_block) {
            lemma_rendered_alike(laid, laid_out(box_of(other), containing_block)->Ok_0);
        }
    }
}

/// Laying out the same document under the same sheets in the same viewport
/// gives the same, whichever style tree of the document is laid out.
pub proof fn same_document_same_render<'a>(
    one: &'a StyleNode<'a>,
    other: &'a StyleNode<'a>,
    sheets: Seq<StyleSheet>,
    viewport: Dimensions,
)
    requires
        one.node == other.node,
        one.styled_by(sheets),
        other.styled_by(sheets),
    ensures
        render_of(one, viewport) == render_of(other, viewport),
{
    styles_are_determined(one, other, sheets);
    render_depends_on_styles_only(one, other, viewport);
}

} // verus!
