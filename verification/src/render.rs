//! The outcome of layout: for every block its geometry and its colours.

use crate::block::{laid_out, layout_fills_the_width, layout_is_bounded, with_height};
use crate::css::Color;
use crate::error::Error;
use crate::layout::{box_of, build_layout_tree, BoxTree, BoxType, Dimensions};
use crate::style::{color_of, Display, StyleNode};
use vstd::prelude::*;

verus! {

/// What is painted of a document.
#[derive(Debug, PartialEq, Eq)]
pub struct RenderTree {
    pub root: RenderBox,
}

/// What is painted of a box.  Only blocks have geometry.
#[derive(Debug, PartialEq, Eq)]
pub enum RenderBox {
    Block(RenderBlockBox),
    Inline,
    Anonymous,
}

/// A block that was laid out, with the colours that its style names and
/// what is painted of its children.
#[derive(Debug, PartialEq, Eq)]
pub struct RenderBlockBox {
    pub dimensions: Dimensions,
    pub color: Option<Color>,
    pub background_color: Option<Color>,
    pub border_color: Option<Color>,
    pub children: Vec<RenderBox>,
}

/// A render tree as a value: what a `RenderBox` holds, children and all.
pub enum Rendered {
    Block(RenderedBlock),
    Inline,
    Anonymous,
}

/// What a `RenderBlockBox` holds.
pub struct RenderedBlock {
    pub dimensions: Dimensions,
    pub color: Option<Color>,
    pub background_color: Option<Color>,
    pub border_color: Option<Color>,
    pub children: Seq<Rendered>,
}

impl RenderBox {
    /// What the box holds, children and all.
    pub open spec fn tree(&self) -> Rendered
        decreases self,
    {
        match self {
            RenderBox::Block(block) => Rendered::Block(
                RenderedBlock {
                    dimensions: block.dimensions,
                    color: block.color,
                    background_color: block.background_color,
                    border_color: block.border_color,
                    children: Seq::new(
                        block.children@.len(),
                        |i: int|
                            if 0 <= i < block.children@.len() {
                                block.children@[i].tree()
                            } else {
                                arbitrary()
                            },
                    ),
                },
            ),
            RenderBox::Inline => Rendered::Inline,
            RenderBox::Anonymous => Rendered::Anonymous,
        }
    }
}

impl Rendered {
    /// Whether the geometry of every block lies within the range of lengths.
    pub open spec fn bounded(self) -> bool
        decreases self,
    {
        match self {
            Rendered::Block(block) => {
                &&& block.dimensions.bounded()
                &&& forall|i: int|
                    0 <= i < block.children.len() ==> (#[trigger] block.children[i]).bounded()
            },
            _ => true,
        }
    }
}

impl Rendered {
    /// Whether every block is exactly as wide as the content of the block
    /// around it, margins, borders and padding counted in; `containing` is
    /// the width of the content around this box.
    pub open spec fn fills(self, containing: int) -> bool
        decreases self,
    {
        match self {
            Rendered::Block(block) => {
                let d = block.dimensions;
                &&& d.margin.left + d.border.left + d.padding.left + d.content.width
                    + d.padding.right + d.border.right + d.margin.right == containing
                &&& forall|i: int|
                    0 <= i < block.children.len() ==> (#[trigger] block.children[i]).fills(
                        d.content.width as int,
                    )
            },
            _ => true,
        }
    }
}

impl RenderBox {
    /// Whether the geometry of every block lies within the range of lengths.
    pub fn is_bounded(&self) -> (yes: bool)
        ensures
            yes == self@.bounded(),
        decreases self,
    {
        match self {
            RenderBox::Block(block) => {
                if !block.dimensions.is_bounded() {
                    return false;
                }
                let mut k: usize = 0;
                while k < block.children.len()
                    invariant
                        k <= block.children@.len(),
                        self == RenderBox::Block(*block),
                        forall|i: int| 0 <= i < k ==> (#[trigger] block.children@[i])@.bounded(),
                    decreases block.children@.len() - k,
                {
                    if !block.children[k].is_bounded() {
                        assert(self@->Block_0.children[k as int] == block.children@[k as int]@);
                        return false;
                    }
                    k = k + 1;
                }
                true
            },
            _ => true,
        }
    }
}

impl View for RenderBox {
    type V = Rendered;

    open spec fn view(&self) -> Rendered {
        self.tree()
    }
}

/// What is painted of a box that was laid out: of a block its geometry, the
/// colours that its style names and what is painted of its children; of any
/// other box nothing but its kind.
pub open spec fn rendered(laid: BoxTree) -> Rendered
    decreases laid,
{
    match laid.box_type {
        BoxType::BlockNode(style) => Rendered::Block(
            RenderedBlock {
                dimensions: laid.dimensions,
                color: color_of(style.specified_values@, "color"@),
                background_color: color_of(style.specified_values@, "background"@),
                border_color: color_of(style.specified_values@, "border-color"@),
                children: Seq::new(
                    laid.children.len(),
                    |i: int|
                        if 0 <= i < laid.children.len() {
                            rendered(laid.children[i])
                        } else {
                            arbitrary()
                        },
                ),
            },
        ),
        BoxType::InlineNode(_) => Rendered::Inline,
        BoxType::AnonymousBlock(_) => Rendered::Anonymous,
    }
}

/// What is painted of the document below `style` in a viewport: the boxes
/// of what is shown, laid out in the content of the viewport and then
/// rendered.  The viewport counts as empty, whatever height its content has.
/// A root that is hidden is an error.
pub open spec fn render_of(style: &StyleNode, viewport: Dimensions) -> Result<Rendered, Error> {
    if style.shown_as() == Display::Hidden {
        Err(Error::RootDisplayNone)
    } else {
        match laid_out(box_of(style), with_height(viewport, 0)) {
            Ok(laid) => Ok(rendered(laid)),
            Err(error) => Err(error),
        }
    }
}

impl RenderTree {
    /// Lays out the document below `node` in the viewport `containing_block`,
    /// which is left as it was.
    pub fn new<'a>(node: &'a StyleNode<'a>, containing_block: &mut Dimensions) -> (result: Result<
        RenderTree,
        Error,
    >)
        ensures
            *final(containing_block) == *old(containing_block),
            match result {
                Ok(tree) => {
                    &&& render_of(node, *old(containing_block)) == Ok::<Rendered, Error>(
                        tree.root@,
                    )
                    &&& tree.root@.bounded()
                    &&& tree.root@.fills(old(containing_block).content.width as int)
                },
                Err(error) => render_of(node, *old(containing_block)) == Err::<Rendered, Error>(
                    error,
                ),
            },
    {
        let og_height = containing_block.content.height;
        containing_block.content.height = 0;

        let built = build_layout_tree(node);
        proof {
            if laid_out(box_of(node), *containing_block) is Ok {
                layout_is_bounded(box_of(node), *containing_block);
                layout_fills_the_width(box_of(node), *containing_block);
            }
        }
        let result = match built {
            Ok(mut bbox) => match bbox.layout(containing_block) {
                Ok(root) => Ok(RenderTree { root }),
                Err(error) => Err(error),
            },
            Err(error) => Err(error),
        };

        containing_block.content.height = og_height;
        result
    }
}

} // verus!
