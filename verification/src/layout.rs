//! Boxes: the geometry of the box model, and the tree of boxes that a style
//! tree gives rise to.  All sizes are in whole pixels.

use crate::css::{in_range, MAX_LENGTH};
use crate::error::Error;
use crate::style::{Display, StyleNode};
use vstd::prelude::*;

verus! {

/// Whether `v` can be held in an `i64`.
pub open spec fn fits(v: int) -> bool {
    i64::MIN <= v <= i64::MAX
}

/// A rectangle: where it begins, and how far it reaches from there.
#[derive(Clone, Copy, Debug, PartialEq, Eq, Structural)]
pub struct Rect {
    pub x: i64,
    pub y: i64,
    pub width: i64,
    pub height: i64,
}

/// How thick an edge is on each of the four sides.
#[derive(Clone, Copy, Debug, PartialEq, Eq, Structural)]
pub struct EdgeSizes {
    pub left: i64,
    pub right: i64,
    pub top: i64,
    pub bottom: i64,
}

/// The geometry of a box: its content, and the padding, the border and the
/// margin around it.  Positions count from the origin of the document.
#[derive(Clone, Copy, Debug, PartialEq, Eq, Structural)]
pub struct Dimensions {
    /// Position of the content area relative to the document origin:
    pub content: Rect,
    // Surrounding edges:
    pub padding: EdgeSizes,
    pub border: EdgeSizes,
    pub margin: EdgeSizes,
}

impl Default for Rect {
    fn default() -> (rect: Rect)
        ensures
            rect == Rect::zero(),
    {
        Rect { x: 0, y: 0, width: 0, height: 0 }
    }
}

impl Default for EdgeSizes {
    fn default() -> (edge: EdgeSizes)
        ensures
            edge == EdgeSizes::zero(),
    {
        EdgeSizes { left: 0, right: 0, top: 0, bottom: 0 }
    }
}

impl Default for Dimensions {
    fn default() -> (dimensions: Dimensions)
        ensures
            dimensions == Dimensions::zero(),
    {
        Dimensions {
            content: Rect { x: 0, y: 0, width: 0, height: 0 },
            padding: EdgeSizes { left: 0, right: 0, top: 0, bottom: 0 },
            border: EdgeSizes { left: 0, right: 0, top: 0, bottom: 0 },
            margin: EdgeSizes { left: 0, right: 0, top: 0, bottom: 0 },
        }
    }
}

impl EdgeSizes {
    pub open spec fn zero() -> EdgeSizes {
        EdgeSizes { left: 0, right: 0, top: 0, bottom: 0 }
    }

    pub fn is_bounded(&self) -> (yes: bool)
        ensures
            yes == self.bounded(),
    {
        within(self.left) && within(self.right) && within(self.top) && within(self.bottom)
    }

    /// Whether each of the four sizes lies within the range of lengths.
    pub open spec fn bounded(self) -> bool {
        &&& in_range(self.left as int)
        &&& in_range(self.right as int)
        &&& in_range(self.top as int)
        &&& in_range(self.bottom as int)
    }
}

/// Whether `v` lies within the range of lengths.
pub fn within(v: i64) -> (yes: bool)
    ensures
        yes == in_range(v as int),
{
    -MAX_LENGTH <= v && v <= MAX_LENGTH
}

impl Rect {
    pub open spec fn zero() -> Rect {
        Rect { x: 0, y: 0, width: 0, height: 0 }
    }

    pub fn is_bounded(&self) -> (yes: bool)
        ensures
            yes == self.bounded(),
    {
        within(self.x) && within(self.y) && within(self.width) && within(self.height)
    }

    /// Whether position and size lie within the range of lengths.
    pub open spec fn bounded(self) -> bool {
        &&& in_range(self.x as int)
        &&& in_range(self.y as int)
        &&& in_range(self.width as int)
        &&& in_range(self.height as int)
    }

    /// Whether the rectangle that results when `edge` is laid around this
    /// one can be held.
    pub open spec fn can_expand(self, edge: EdgeSizes) -> bool {
        &&& fits(self.x - edge.left)
        &&& fits(self.y - edge.top)
        &&& fits(self.width + edge.left + edge.right)
        &&& fits(self.height + edge.top + edge.bottom)
    }

    /// This rectangle with `edge` laid around it.
    pub open spec fn expanded(self, edge: EdgeSizes) -> Rect {
        Rect {
            x: (self.x - edge.left) as i64,
            y: (self.y - edge.top) as i64,
            width: (self.width + edge.left + edge.right) as i64,
            height: (self.height + edge.top + edge.bottom) as i64,
        }
    }

    /// This rectangle with `edge` laid around it.
    pub fn expanded_by(self, edge: EdgeSizes) -> (rect: Rect)
        requires
            self.can_expand(edge),
        ensures
            rect == self.expanded(edge),
            rect.x == self.x - edge.left,
            rect.y == self.y - edge.top,
            rect.width == self.width + edge.left + edge.right,
            rect.height == self.height + edge.top + edge.bottom,
    {
        let width: i128 = self.width as i128 + edge.left as i128 + edge.right as i128;
        let height: i128 = self.height as i128 + edge.top as i128 + edge.bottom as i128;
        Rect {
            x: self.x - edge.left,
            y: self.y - edge.top,
            width: width as i64,
            height: height as i64,
        }
    }
}

impl Dimensions {
    pub open spec fn zero() -> Dimensions {
        Dimensions {
            content: Rect::zero(),
            padding: EdgeSizes::zero(),
            border: EdgeSizes::zero(),
            margin: EdgeSizes::zero(),
        }
    }

    /// Whether every one of the sixteen numbers lies within the range of
    /// lengths.
    pub open spec fn bounded(self) -> bool {
        &&& self.content.bounded()
        &&& self.padding.bounded()
        &&& self.border.bounded()
        &&& self.margin.bounded()
    }

    pub fn is_bounded(&self) -> (yes: bool)
        ensures
            yes == self.bounded(),
    {
        self.content.is_bounded() && self.padding.is_bounded() && self.border.is_bounded()
            && self.margin.is_bounded()
    }

    /// Whether the padding box can be held.
    pub open spec fn has_padding_box(self) -> bool {
        self.content.can_expand(self.padding)
    }

    /// Whether the padding box and the border box can be held.
    pub open spec fn has_border_box(self) -> bool {
        &&& self.has_padding_box()
        &&& self.content.expanded(self.padding).can_expand(self.border)
    }

    /// Whether the padding box, the border box and the margin box can be
    /// held.
    pub open spec fn has_margin_box(self) -> bool {
        &&& self.has_border_box()
        &&& self.content.expanded(self.padding).expanded(self.border).can_expand(self.margin)
    }

    /// The area covered by the content area plus its padding.
    pub fn padding_box(self) -> (rect: Rect)
        requires
            self.has_padding_box(),
        ensures
            rect == self.content.expanded(self.padding),
    {
        self.content.expanded_by(self.padding)
    }

    /// The area covered by the content area plus padding and borders.
    pub fn border_box(self) -> (rect: Rect)
        requires
            self.has_border_box(),
        ensures
            rect == self.content.expanded(self.padding).expanded(self.border),
            rect.x == self.content.x - self.padding.left - self.border.left,
            rect.y == self.content.y - self.padding.top - self.border.top,
            rect.width == self.content.width + self.padding.left + self.padding.right
                + self.border.left + self.border.right,
            rect.height == self.content.height + self.padding.top + self.padding.bottom
                + self.border.top + self.border.bottom,
    {
        self.padding_box().expanded_by(self.border)
    }

    /// The area covered by the content area plus padding, borders, and margin.
    pub fn margin_box(self) -> (rect: Rect)
        requires
            self.has_margin_box(),
        ensures
            rect == self.content.expanded(self.padding).expanded(self.border).expanded(
                self.margin,
            ),
            rect.x == self.content.x - self.padding.left - self.border.left - self.margin.left,
            rect.y == self.content.y - self.padding.top - self.border.top - self.margin.top,
            rect.width == self.content.width + self.padding.left + self.padding.right
                + self.border.left + self.border.right + self.margin.left + self.margin.right,
            rect.height == self.content.height + self.padding.top + self.padding.bottom
                + self.border.top + self.border.bottom + self.margin.top + self.margin.bottom,
    {
        self.border_box().expanded_by(self.margin)
    }

    /// Dimensions within the range of lengths have all three boxes.
    pub proof fn bounded_has_boxes(self)
        requires
            self.bounded(),
        ensures
            self.has_margin_box(),
    {
    }
}

/// A node in the layout tree.
pub struct LayoutBox<'a> {
    pub dimensions: Dimensions,
    pub box_type: BoxType<'a>,
    pub children: Vec<LayoutBox<'a>>,
}

/// The kind of a box, with the style node that it takes its properties
/// from: its own for a block or an inline box, that of the block around it
/// for an anonymous one.
#[derive(Clone, Copy)]
pub enum BoxType<'a> {
    BlockNode(&'a StyleNode<'a>),
    InlineNode(&'a StyleNode<'a>),
    AnonymousBlock(&'a StyleNode<'a>),
}

/// A layout tree as a value: what a `LayoutBox` holds, children and all.
pub struct BoxTree<'a> {
    pub dimensions: Dimensions,
    pub box_type: BoxType<'a>,
    pub children: Seq<BoxTree<'a>>,
}

impl<'a> View for LayoutBox<'a> {
    type V = BoxTree<'a>;

    open spec fn view(&self) -> BoxTree<'a> {
        self.tree()
    }
}

impl<'a> BoxType<'a> {
    pub open spec fn style(self) -> &'a StyleNode<'a> {
        match self {
            BoxType::BlockNode(node) => node,
            BoxType::InlineNode(node) => node,
            BoxType::AnonymousBlock(node) => node,
        }
    }
}

/// A box of the given kind that is not laid out yet and has these children.
pub open spec fn fresh<'a>(box_type: BoxType<'a>, children: Seq<BoxTree<'a>>) -> BoxTree<'a> {
    BoxTree { dimensions: Dimensions::zero(), box_type, children }
}

/// The box of a style node that is shown, with the boxes of all that is
/// shown below it.
pub open spec fn box_of<'a>(style: &'a StyleNode<'a>) -> BoxTree<'a>
    decreases style,
{
    if style.shown_as() == Display::Block {
        fresh(BoxType::BlockNode(style), child_boxes(style, true, style.children@))
    } else {
        fresh(BoxType::InlineNode(style), child_boxes(style, false, style.children@))
    }
}

/// The boxes that the children of `parent` give its box, in the order of
/// the children.  A hidden child gives none, a block child its own box.
/// An inline child gives its own box too, but where the parent is a block
/// that box goes into an anonymous block: the one that the child before it
/// went into, if the parent's last box is one, else a new one.
pub open spec fn child_boxes<'a>(
    parent: &'a StyleNode<'a>,
    in_block: bool,
    children: Seq<StyleNode<'a>>,
) -> Seq<BoxTree<'a>>
    decreases children,
{
    if children.len() == 0 {
        Seq::empty()
    } else {
        let before = child_boxes(parent, in_block, children.drop_last());
        let child = &children.last();
        match child.shown_as() {
            Display::Hidden => before,
            Display::Block => before.push(box_of(child)),
            Display::Inline => if in_block {
                with_inline(parent, before, box_of(child))
            } else {
                before.push(box_of(child))
            },
        }
    }
}

/// The boxes of a block after an inline box joined them: inside the last
/// of them if that is an anonymous block, else inside a new anonymous block
/// behind them.
pub open spec fn with_inline<'a>(
    parent: &'a StyleNode<'a>,
    boxes: Seq<BoxTree<'a>>,
    inline: BoxTree<'a>,
) -> Seq<BoxTree<'a>> {
    if boxes.len() > 0 && boxes.last().box_type is AnonymousBlock {
        boxes.update(
            boxes.len() - 1,
            BoxTree { children: boxes.last().children.push(inline), ..boxes.last() },
        )
    } else {
        boxes.push(fresh(BoxType::AnonymousBlock(parent), seq![inline]))
    }
}

impl<'a> LayoutBox<'a> {
    /// What the box holds, children and all.
    pub open spec fn tree(&self) -> BoxTree<'a>
        decreases self,
    {
        BoxTree {
            dimensions: self.dimensions,
            box_type: self.box_type,
            children: Seq::new(
                self.children@.len(),
                |i: int|
                    if 0 <= i < self.children@.len() {
                        self.children@[i].tree()
                    } else {
                        arbitrary()
                    },
            ),
        }
    }

    /// A box of the given kind without children, not laid out yet.
    pub fn new(box_type: BoxType<'a>) -> (layout_box: LayoutBox<'a>)
        ensures
            layout_box@ == fresh(box_type, Seq::empty()),
            layout_box.children@.len() == 0,
    {
        let layout_box = LayoutBox {
            box_type,
            dimensions: Dimensions::default(),
            children: Vec::new(),
        };
        assert(layout_box@.children =~= Seq::empty());
        layout_box
    }

    /// The style node that the box takes its properties from.
    pub fn get_style_node(&self) -> (style: &'a StyleNode<'a>)
        ensures
            style == self.box_type.style(),
    {
        match &self.box_type {
            BoxType::BlockNode(node) => node,
            BoxType::InlineNode(node) => node,
            BoxType::AnonymousBlock(node) => node,
        }
    }
}

impl<'a> LayoutBox<'a> {
    /// Where a new inline child should go: into this box itself unless it is
    /// a block, else into the anonymous block at the end of its children,
    /// which is made if there is none yet.
    pub fn get_inline_container(&mut self) -> (container: &mut LayoutBox<'a>)
        ensures
            old(self).box_type is BlockNode ==> {
                &&& final(self).dimensions == old(self).dimensions
                &&& final(self).box_type == old(self).box_type
                &&& if old(self).children@.len() > 0
                    && old(self).children@.last().box_type is AnonymousBlock {
                    &&& *container == old(self).children@.last()
                    &&& final(self).children@ == old(self).children@.update(
                        old(self).children@.len() - 1,
                        *final(container),
                    )
                } else {
                    &&& container.tree() == fresh(
                        BoxType::AnonymousBlock(old(self).box_type.style()),
                        Seq::empty(),
                    )
                    &&& container.children@.len() == 0
                    &&& final(self).children@ == old(self).children@.push(*final(container))
                }
            },
            !(old(self).box_type is BlockNode) ==> {
                &&& *container == *old(self)
                &&& *final(self) == *final(container)
            },
    {
        match self.box_type {
            BoxType::InlineNode(_) | BoxType::AnonymousBlock(_) => self,
            BoxType::BlockNode(node) => {
                // If the last child is an anonymous block box, keep using it.
                let count = self.children.len();
                let is_anon = count > 0 && match self.children[count - 1].box_type {
                    BoxType::AnonymousBlock(_) => true,
                    _ => false,
                };
                if !is_anon {
                    self.children.push(LayoutBox::new(BoxType::AnonymousBlock(node)));
                }
                let last = self.children.len() - 1;
                &mut self.children[last]
            },
        }
    }
}

/// Build the tree of LayoutBoxes, but don't perform any layout calculations yet.
///
/// A root that is hidden has no box: that is an error.
pub fn build_layout_tree<'a>(style_node: &'a StyleNode<'a>) -> (built: Result<
    LayoutBox<'a>,
    Error,
>)
    ensures
        match built {
            Ok(root) => style_node.shown_as() != Display::Hidden && root@ == box_of(style_node),
            Err(error) => style_node.shown_as() == Display::Hidden && error
                == Error::RootDisplayNone,
        },
{
    match style_node.display() {
        Display::Hidden => Err(Error::RootDisplayNone),
        Display::Block => Ok(build_box(style_node, true)),
        Display::Inline => Ok(build_box(style_node, false)),
    }
}

/// The box of a style node that is shown, and those of what is shown below
/// it.
fn build_box<'a>(style_node: &'a StyleNode<'a>, block: bool) -> (root: LayoutBox<'a>)
    requires
        style_node.shown_as() != Display::Hidden,
        block == (style_node.shown_as() == Display::Block),
    ensures
        root@ == box_of(style_node),
    decreases style_node,
{
    let box_type = if block {
        BoxType::BlockNode(style_node)
    } else {
        BoxType::InlineNode(style_node)
    };
    let mut root = LayoutBox::new(box_type);
    let mut k: usize = 0;
    while k < style_node.children.len()
        invariant
            k <= style_node.children@.len(),
            root.dimensions == Dimensions::zero(),
            root.box_type == box_type,
            block == (box_type is BlockNode),
            box_type.style() == style_node,
            root@.children == child_boxes(style_node, block, style_node.children@.take(k as int)),
        decreases style_node.children@.len() - k,
    {
        let child = &style_node.children[k];
        assert(style_node.children@.take(k + 1).drop_last() =~= style_node.children@.take(
            k as int,
        ));
        let ghost before = root;
        match child.display() {
            Display::Block => {
                let child_box = build_box(child, true);
                root.children.push(child_box);
            },
            Display::Inline => {
                let child_box = build_box(child, false);
                let container = root.get_inline_container();
                let ghost held = *container;
                container.children.push(child_box);
                let ghost filled = *container;
                proof {
                    assert(filled@.children =~= held@.children.push(child_box@));
                    if block {
                        if before.children@.len() > 0
                            && before.children@.last().box_type is AnonymousBlock {
                            assert(filled@ == BoxTree {
                                children: held@.children.push(child_box@),
                                ..held@
                            });
                            assert(root@.children =~= with_inline(
                                style_node,
                                before@.children,
                                child_box@,
                            ));
                        } else {
                            assert(filled@ == fresh(
                                BoxType::AnonymousBlock(style_node),
                                seq![child_box@],
                            ));
                            if before.children@.len() > 0 {
                                assert(before@.children.last() == before.children@.last()@);
                            }
                            assert(root@.children =~= with_inline(
                                style_node,
                                before@.children,
                                child_box@,
                            ));
                        }
                    }
                }
            },
            Display::Hidden => {},
        }
        k = k + 1;
    }
    assert(style_node.children@.take(k as int) =~= style_node.children@);
    root
}

/// A hidden child leaves no box, and neither does anything below it: the
/// boxes are those that the children give without it.
pub proof fn hidden_child_leaves_no_box<'a>(
    parent: &'a StyleNode<'a>,
    in_block: bool,
    children: Seq<StyleNode<'a>>,
    at: int,
)
    requires
        0 <= at < children.len(),
        children[at].shown_as() == Display::Hidden,
    ensures
        child_boxes(parent, in_block, children) == child_boxes(
            parent,
            in_block,
            children.remove(at),
        ),
    decreases children.len(),
{
    if at < children.len() - 1 {
        hidden_child_leaves_no_box(parent, in_block, children.drop_last(), at);
        assert(children.remove(at).drop_last() =~= children.drop_last().remove(at));
    }
}

/// Inline children of a block that follow each other share one anonymous
/// block: where all children are inline, the block has one box, an
/// anonymous block that holds the box of each child.
pub proof fn inline_children_share_one_box<'a>(
    parent: &'a StyleNode<'a>,
    children: Seq<StyleNode<'a>>,
)
    requires
        children.len() > 0,
        forall|i: int|
            0 <= i < children.len() ==> (#[trigger] children[i]).shown_as() == Display::Inline,
    ensures
        child_boxes(parent, true, children).len() == 1,
        child_boxes(parent, true, children)[0].box_type == BoxType::AnonymousBlock(parent),
        child_boxes(parent, true, children)[0].dimensions == Dimensions::zero(),
        child_boxes(parent, true, children)[0].children.len() == children.len(),
        forall|i: int|
            0 <= i < children.len() ==> #[trigger] child_boxes(
                parent,
                true,
                children,
            )[0].children[i] == box_of(&children[i]),
    decreases children.len(),
{
    let before = children.drop_last();
    if before.len() > 0 {
        inline_children_share_one_box(parent, before);
        assert forall|i: int| 0 <= i < children.len() implies #[trigger] child_boxes(
            parent,
            true,
            children,
        )[0].children[i] == box_of(&children[i]) by {
            if i < before.len() {
                assert(child_boxes(parent, true, before)[0].children[i] == box_of(&before[i]));
            }
        }
    }
}

} // verus!
