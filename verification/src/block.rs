//! Block layout: the width, the position and the height of every block of
//! a box tree.

use crate::css::{in_range, Unit, Value, MAX_LENGTH};
use crate::error::Error;
use crate::layout::{within, BoxTree, BoxType, Dimensions, EdgeSizes, LayoutBox, Rect};
use crate::render::{rendered, RenderBlockBox, RenderBox};
use crate::style::{looked_up, Properties, StyleNode};
use vstd::prelude::*;

verus! {

/// The length of zero pixels, which margins, borders and padding have
/// where the style names none.
pub open spec fn zero_px() -> Value {
    Value::Length(0, Unit::Px)
}

/// A value as a size: `None` for `auto`, else its pixels, which must lie
/// within the range of lengths.
pub open spec fn resolved(value: Value) -> Result<Option<i64>, Error> {
    if value.auto() {
        Ok(None)
    } else {
        match value.px() {
            Ok(px) => if in_range(px as int) {
                Ok(Some(px))
            } else {
                Err(Error::Overflow)
            },
            Err(error) => Err(error),
        }
    }
}

/// The size that the properties give under `name`, else under `fallback`,
/// else zero.
pub open spec fn size(props: Properties, name: Seq<char>, fallback: Seq<char>) -> Result<
    Option<i64>,
    Error,
> {
    resolved(looked_up(props, name, fallback, zero_px()))
}

/// The same as a length, for which `auto` is zero.
pub open spec fn length(props: Properties, name: Seq<char>, fallback: Seq<char>) -> Result<
    i64,
    Error,
> {
    match size(props, name, fallback) {
        Ok(Some(px)) => Ok(px),
        Ok(None) => Ok(0i64),
        Err(error) => Err(error),
    }
}

/// The size that the properties give as `width`, which is `auto` where they
/// name none.
pub open spec fn width_size(props: Properties) -> Result<Option<i64>, Error> {
    if props.contains_key("width"@) {
        resolved(props["width"@])
    } else {
        Ok(None)
    }
}

/// What a style asks for along the horizontal axis; `None` stands for
/// `auto`.
pub struct Sizes {
    pub width: Option<i64>,
    pub margin_left: Option<i64>,
    pub margin_right: Option<i64>,
    pub border_left: i64,
    pub border_right: i64,
    pub padding_left: i64,
    pub padding_right: i64,
}

/// The horizontal sizes that a block takes in the end.
pub struct Widths {
    pub width: i64,
    pub margin_left: i64,
    pub margin_right: i64,
    pub border_left: i64,
    pub border_right: i64,
    pub padding_left: i64,
    pub padding_right: i64,
}

/// The vertical sizes of a block but for the height of its content.
pub struct Heights {
    pub margin_top: i64,
    pub margin_bottom: i64,
    pub border_top: i64,
    pub border_bottom: i64,
    pub padding_top: i64,
    pub padding_bottom: i64,
}

/// The width and the two margins that a block takes in the end.
pub struct Used {
    pub width: int,
    pub margin_left: int,
    pub margin_right: int,
}

/// A size in a sum, where `auto` counts as zero.
pub open spec fn or_zero(size: Option<i64>) -> int {
    match size {
        Some(px) => px as int,
        None => 0,
    }
}

impl Sizes {
    /// Whether each size that is given lies within the range of lengths.
    pub open spec fn bounded(self) -> bool {
        &&& in_range(or_zero(self.width))
        &&& in_range(or_zero(self.margin_left))
        &&& in_range(or_zero(self.margin_right))
        &&& in_range(self.border_left as int)
        &&& in_range(self.border_right as int)
        &&& in_range(self.padding_left as int)
        &&& in_range(self.padding_right as int)
    }

    /// The sum of the seven sizes.
    pub open spec fn total(self) -> int {
        or_zero(self.margin_left) + or_zero(self.margin_right) + self.border_left
            + self.border_right + self.padding_left + self.padding_right + or_zero(self.width)
    }
}

/// What the properties ask for along the horizontal axis.  Where several of
/// them are no lengths, the error is that of the first in this order: width,
/// left and right margin, left and right border, left and right padding.
pub open spec fn sizes(props: Properties) -> Result<Sizes, Error> {
    let width = width_size(props);
    let margin_left = size(props, "margin-left"@, "margin"@);
    let margin_right = size(props, "margin-right"@, "margin"@);
    let border_left = length(props, "border-left-width"@, "border-width"@);
    let border_right = length(props, "border-right-width"@, "border-width"@);
    let padding_left = length(props, "padding-left"@, "padding"@);
    let padding_right = length(props, "padding-right"@, "padding"@);
    if width is Err {
        Err(width->Err_0)
    } else if margin_left is Err {
        Err(margin_left->Err_0)
    } else if margin_right is Err {
        Err(margin_right->Err_0)
    } else if border_left is Err {
        Err(border_left->Err_0)
    } else if border_right is Err {
        Err(border_right->Err_0)
    } else if padding_left is Err {
        Err(padding_left->Err_0)
    } else if padding_right is Err {
        Err(padding_right->Err_0)
    } else {
        Ok(
            Sizes {
                width: width->Ok_0,
                margin_left: margin_left->Ok_0,
                margin_right: margin_right->Ok_0,
                border_left: border_left->Ok_0,
                border_right: border_right->Ok_0,
                padding_left: padding_left->Ok_0,
                padding_right: padding_right->Ok_0,
            },
        )
    }
}

/// The width and the margins of a block in a containing block of the given
/// width.
///
/// The seven sizes are summed with `auto` as zero, and what the containing
/// block has beyond that sum is the underflow.  A block with a width that is
/// too wide for the containing block has its `auto` margins set to zero.
/// Then, with nothing `auto` the right margin takes the underflow; with one
/// margin `auto` that margin is the underflow; with both margins `auto` each
/// is half of it, the right one taking the odd pixel; and with the width
/// `auto` the margins that are `auto` are zero and the width is the
/// underflow, or, where that is negative, zero, the right margin taking the
/// underflow.
pub open spec fn used(sizes: Sizes, containing: int) -> Used {
    let total = sizes.total();
    let too_wide = sizes.width is Some && total > containing;
    let left = if too_wide && sizes.margin_left is None {
        Some(0i64)
    } else {
        sizes.margin_left
    };
    let right = if too_wide && sizes.margin_right is None {
        Some(0i64)
    } else {
        sizes.margin_right
    };
    let underflow = containing - total;
    match (sizes.width, left, right) {
        (Some(width), Some(left), Some(right)) => Used {
            width: width as int,
            margin_left: left as int,
            margin_right: right + underflow,
        },
        (Some(width), Some(left), None) => Used {
            width: width as int,
            margin_left: left as int,
            margin_right: underflow,
        },
        (Some(width), None, Some(right)) => Used {
            width: width as int,
            margin_left: underflow,
            margin_right: right as int,
        },
        (Some(width), None, None) => Used {
            width: width as int,
            margin_left: underflow / 2,
            margin_right: underflow - underflow / 2,
        },
        (None, left, right) => if underflow >= 0 {
            Used { width: underflow, margin_left: or_zero(left), margin_right: or_zero(right) }
        } else {
            Used { width: 0, margin_left: or_zero(left), margin_right: or_zero(right) + underflow }
        },
    }
}

/// The horizontal sizes of a block with these properties in a containing
/// block of the given width: a size that is no length is an error, and so is
/// a width or a margin that leaves the range of lengths.
pub open spec fn widths(props: Properties, containing: i64) -> Result<Widths, Error> {
    match sizes(props) {
        Err(error) => Err(error),
        Ok(sizes) => {
            let used = used(sizes, containing as int);
            if in_range(used.width) && in_range(used.margin_left) && in_range(
                used.margin_right,
            ) {
                Ok(
                    Widths {
                        width: used.width as i64,
                        margin_left: used.margin_left as i64,
                        margin_right: used.margin_right as i64,
                        border_left: sizes.border_left,
                        border_right: sizes.border_right,
                        padding_left: sizes.padding_left,
                        padding_right: sizes.padding_right,
                    },
                )
            } else {
                Err(Error::Overflow)
            }
        },
    }
}

/// The vertical sizes of a block with these properties, for which `auto` is
/// zero.  Where several of them are no lengths, the error is that of the
/// first in this order: top and bottom margin, top and bottom border, top
/// and bottom padding.
pub open spec fn heights(props: Properties) -> Result<Heights, Error> {
    let margin_top = length(props, "margin-top"@, "margin"@);
    let margin_bottom = length(props, "margin-bottom"@, "margin"@);
    let border_top = length(props, "border-top-width"@, "border-width"@);
    let border_bottom = length(props, "border-bottom-width"@, "border-width"@);
    let padding_top = length(props, "padding-top"@, "padding"@);
    let padding_bottom = length(props, "padding-bottom"@, "padding"@);
    if margin_top is Err {
        Err(margin_top->Err_0)
    } else if margin_bottom is Err {
        Err(margin_bottom->Err_0)
    } else if border_top is Err {
        Err(border_top->Err_0)
    } else if border_bottom is Err {
        Err(border_bottom->Err_0)
    } else if padding_top is Err {
        Err(padding_top->Err_0)
    } else if padding_bottom is Err {
        Err(padding_bottom->Err_0)
    } else {
        Ok(
            Heights {
                margin_top: margin_top->Ok_0,
                margin_bottom: margin_bottom->Ok_0,
                border_top: border_top->Ok_0,
                border_bottom: border_bottom->Ok_0,
                padding_top: padding_top->Ok_0,
                padding_bottom: padding_bottom->Ok_0,
            },
        )
    }
}

/// `dimensions` with the horizontal sizes set.
pub open spec fn with_widths(dimensions: Dimensions, widths: Widths) -> Dimensions {
    Dimensions {
        content: Rect { width: widths.width, ..dimensions.content },
        padding: EdgeSizes {
            left: widths.padding_left,
            right: widths.padding_right,
            ..dimensions.padding
        },
        border: EdgeSizes {
            left: widths.border_left,
            right: widths.border_right,
            ..dimensions.border
        },
        margin: EdgeSizes {
            left: widths.margin_left,
            right: widths.margin_right,
            ..dimensions.margin
        },
    }
}

/// The value of a property as a size.
fn resolve(value: &Value) -> (size: Result<Option<i64>, Error>)
    ensures
        size == resolved(*value),
{
    if value.is_auto() {
        Ok(None)
    } else {
        match value.to_px() {
            Ok(px) => if within(px) {
                Ok(Some(px))
            } else {
                Err(Error::Overflow)
            },
            Err(error) => Err(error),
        }
    }
}

/// The size that the style gives under `name`, else under `fallback`, else
/// zero.
fn size_of(style: &StyleNode, name: &str, fallback: &str) -> (found: Result<Option<i64>, Error>)
    ensures
        found == size(style.specified_values@, name@, fallback@),
{
    let zero = Value::Length(0, Unit::Px);
    resolve(&style.lookup(name, fallback, &zero))
}

/// The same as a length, for which `auto` is zero.
fn length_of(style: &StyleNode, name: &str, fallback: &str) -> (found: Result<i64, Error>)
    ensures
        found == length(style.specified_values@, name@, fallback@),
{
    match size_of(style, name, fallback) {
        Ok(Some(px)) => Ok(px),
        Ok(None) => Ok(0),
        Err(error) => Err(error),
    }
}

/// What the style asks for along the horizontal axis.
fn sizes_of(style: &StyleNode) -> (asked: Result<Sizes, Error>)
    ensures
        asked == sizes(style.specified_values@),
        asked matches Ok(sizes) ==> sizes.bounded(),
{
    // `width` has initial value `auto`.
    let width = match style.get_value("width") {
        Some(value) => resolve(&value)?,
        None => None,
    };

    // margin, border, and padding have initial value 0.
    let margin_left = size_of(style, "margin-left", "margin")?;
    let margin_right = size_of(style, "margin-right", "margin")?;

    let border_left = length_of(style, "border-left-width", "border-width")?;
    let border_right = length_of(style, "border-right-width", "border-width")?;

    let padding_left = length_of(style, "padding-left", "padding")?;
    let padding_right = length_of(style, "padding-right", "padding")?;
    Ok(
        Sizes {
            width,
            margin_left,
            margin_right,
            border_left,
            border_right,
            padding_left,
            padding_right,
        },
    )
}

/// The width and the margins that a block takes in a containing block of
/// the given width, in this order: width, left margin, right margin.
fn used_widths(sizes: &Sizes, containing: i64) -> (taken: (i128, i128, i128))
    requires
        sizes.bounded(),
    ensures
        used(*sizes, containing as int) == (Used {
            width: taken.0 as int,
            margin_left: taken.1 as int,
            margin_right: taken.2 as int,
        }),
{
    let mut margin_left = sizes.margin_left;
    let mut margin_right = sizes.margin_right;
    let total: i64 = sum(
        [
            auto_as_zero(margin_left),
            auto_as_zero(margin_right),
            sizes.border_left,
            sizes.border_right,
            sizes.padding_left,
            sizes.padding_right,
            auto_as_zero(sizes.width),
        ],
    );

    // If width is not auto and the total is wider than the container, treat auto margins as 0.
    let total = total as i128;
    let containing = containing as i128;
    if sizes.width.is_some() && total > containing {
        if margin_left.is_none() {
            margin_left = Some(0);
        }
        if margin_right.is_none() {
            margin_right = Some(0);
        }
    }

    // Adjust used values so that the above sum equals `containing_block.width`.
    // Each arm of the `match` should increase the total width by exactly `underflow`,
    // and afterward all values should be absolute lengths in px.
    let underflow: i128 = containing - total;

    match (sizes.width, margin_left, margin_right) {
        // If the values are overconstrained, calculate margin_right.
        (Some(width), Some(left), Some(right)) => (
            width as i128,
            left as i128,
            right as i128 + underflow,
        ),
        // If exactly one size is auto, its used value follows from the equality.
        (Some(width), Some(left), None) => (width as i128, left as i128, underflow),
        (Some(width), None, Some(right)) => (width as i128, underflow, right as i128),
        // If margin-left and margin-right are both auto, their used values are equal.
        (Some(width), None, None) => (width as i128, underflow / 2, underflow - underflow / 2),
        // If width is set to auto, any other auto values become 0.
        (None, left, right) => {
            if underflow >= 0 {
                // Expand width to fill the underflow.
                (underflow, auto_as_zero(left) as i128, auto_as_zero(right) as i128)
            } else {
                // Width can't be negative. Adjust the right margin instead.
                (0, auto_as_zero(left) as i128, auto_as_zero(right) as i128 + underflow)
            }
        },
    }
}

/// The width and the margins that a block takes fill the containing block
/// together with its borders and its padding.
pub proof fn used_widths_fill(sizes: Sizes, containing: int)
    ensures
        ({
            let used = used(sizes, containing);
            used.margin_left + sizes.border_left + sizes.padding_left + used.width
                + sizes.padding_right + sizes.border_right + used.margin_right == containing
        }),
{
}

impl<'a> LayoutBox<'a> {
    /// Calculate the width of a block-level non-replaced element in normal flow.
    ///
    /// http://www.w3.org/TR/CSS2/visudet.html#blockwidth
    ///
    /// Sets the horizontal margin/padding/border dimensions, and the `width`.
    pub fn calculate_block_width(&mut self, containing_block: &Dimensions) -> (done: Result<
        (),
        Error,
    >)
        ensures
            final(self).box_type == old(self).box_type,
            final(self).children == old(self).children,
            match done {
                Ok(()) => {
                    let d = final(self).dimensions;
                    &&& widths(
                        old(self).box_type.style().specified_values@,
                        containing_block.content.width,
                    ) matches Ok(found)
                    &&& d == with_widths(old(self).dimensions, found)
                    &&& d.margin.left + d.border.left + d.padding.left + d.content.width
                        + d.padding.right + d.border.right + d.margin.right
                        == containing_block.content.width
                },
                Err(error) => {
                    &&& widths(
                        old(self).box_type.style().specified_values@,
                        containing_block.content.width,
                    ) == Err::<Widths, Error>(error)
                    &&& final(self).dimensions == old(self).dimensions
                },
            },
    {
        let sizes = sizes_of(self.get_style_node())?;
        let (width, margin_left, margin_right) = used_widths(
            &sizes,
            containing_block.content.width,
        );
        proof {
            used_widths_fill(sizes, containing_block.content.width as int);
        }
        if !(within_range(width) && within_range(margin_left) && within_range(margin_right)) {
            return Err(Error::Overflow);
        }
        self.dimensions.content.width = width as i64;

        self.dimensions.padding.left = sizes.padding_left;
        self.dimensions.padding.right = sizes.padding_right;

        self.dimensions.border.left = sizes.border_left;
        self.dimensions.border.right = sizes.border_right;

        self.dimensions.margin.left = margin_left as i64;
        self.dimensions.margin.right = margin_right as i64;
        Ok(())
    }
}

/// Whether `v` lies within the range of lengths.
fn within_range(v: i128) -> (yes: bool)
    ensures
        yes == in_range(v as int),
{
    -(MAX_LENGTH as i128) <= v && v <= MAX_LENGTH as i128
}

/// A size in a sum, where `auto` counts as zero.
fn auto_as_zero(size: Option<i64>) -> (px: i64)
    ensures
        px == or_zero(size),
{
    match size {
        Some(px) => px,
        None => 0,
    }
}

/// The sum of seven lengths.
fn sum(lengths: [i64; 7]) -> (total: i64)
    requires
        forall|i: int| 0 <= i < 7 ==> in_range(#[trigger] lengths[i] as int),
    ensures
        total == lengths[0] + lengths[1] + lengths[2] + lengths[3] + lengths[4] + lengths[5]
            + lengths[6],
{
    let mut total: i64 = 0;
    let mut i: usize = 0;
    while i < 7
        invariant
            i <= 7,
            forall|j: int| 0 <= j < 7 ==> in_range(#[trigger] lengths[j] as int),
            -i * MAX_LENGTH <= total <= i * MAX_LENGTH,
            total == (if i > 0 { lengths[0] as int } else { 0 })
                + (if i > 1 { lengths[1] as int } else { 0 })
                + (if i > 2 { lengths[2] as int } else { 0 })
                + (if i > 3 { lengths[3] as int } else { 0 })
                + (if i > 4 { lengths[4] as int } else { 0 })
                + (if i > 5 { lengths[5] as int } else { 0 })
                + (if i > 6 { lengths[6] as int } else { 0 }),
        decreases 7 - i,
    {
        total = total + lengths[i];
        i = i + 1;
    }
    total
}

/// `dimensions` with the vertical sizes and the position of the content
/// set.
pub open spec fn with_position(dimensions: Dimensions, heights: Heights, x: i64, y: i64) -> Dimensions {
    Dimensions {
        content: Rect { x, y, ..dimensions.content },
        padding: EdgeSizes {
            top: heights.padding_top,
            bottom: heights.padding_bottom,
            ..dimensions.padding
        },
        border: EdgeSizes {
            top: heights.border_top,
            bottom: heights.border_bottom,
            ..dimensions.border
        },
        margin: EdgeSizes {
            top: heights.margin_top,
            bottom: heights.margin_bottom,
            ..dimensions.margin
        },
    }
}

/// Where the content of a block begins from the left: at the left edge of
/// the containing block's content, moved in by the block's left margin,
/// border and padding.
pub open spec fn content_x(containing_block: Dimensions, dimensions: Dimensions) -> int {
    containing_block.content.x + dimensions.margin.left + dimensions.border.left
        + dimensions.padding.left
}

/// Where the content of a block begins from the top: below all that the
/// containing block holds so far, moved down by the block's top margin,
/// border and padding.
pub open spec fn content_y(containing_block: Dimensions, heights: Heights) -> int {
    containing_block.content.height + containing_block.content.y + heights.margin_top
        + heights.border_top + heights.padding_top
}

/// `dimensions`, whose horizontal sizes are set, with the vertical sizes
/// that the properties give and with the content at its place in the
/// containing block.  That place must lie within the range of lengths.
pub open spec fn positioned(
    props: Properties,
    containing_block: Dimensions,
    dimensions: Dimensions,
) -> Result<Dimensions, Error> {
    match heights(props) {
        Err(error) => Err(error),
        Ok(heights) => {
            let x = content_x(containing_block, dimensions);
            let y = content_y(containing_block, heights);
            if in_range(x) && in_range(y) {
                Ok(with_position(dimensions, heights, x as i64, y as i64))
            } else {
                Err(Error::Overflow)
            }
        },
    }
}

/// The geometry of a block with these properties in this containing block,
/// before it holds anything: its content has no height yet.
///
/// The horizontal sizes are settled before the vertical ones and the
/// position.
pub open spec fn placed(props: Properties, containing_block: Dimensions) -> Result<
    Dimensions,
    Error,
> {
    match widths(props, containing_block.content.width) {
        Err(error) => Err(error),
        Ok(widths) => positioned(props, containing_block, with_widths(Dimensions::zero(), widths)),
    }
}

/// The height of the content of a block whose children are laid out: the
/// height that the style gives in pixels, which must lie within the range
/// of lengths, else the height that the children take.
pub open spec fn content_height(props: Properties, of_children: i64) -> Result<i64, Error> {
    if props.contains_key("height"@) {
        match props["height"@] {
            Value::Length(height, Unit::Px) => if in_range(height as int) {
                Ok(height)
            } else {
                Err(Error::Overflow)
            },
            _ => Ok(of_children),
        }
    } else {
        Ok(of_children)
    }
}

/// `dimensions` with the height of the content set.
pub open spec fn with_height(dimensions: Dimensions, height: i64) -> Dimensions {
    Dimensions { content: Rect { height, ..dimensions.content }, ..dimensions }
}

/// The height that a box takes in the block around it: for a block the
/// height of its margin box, for any other box none.
pub open spec fn height_in_flow(laid: BoxTree) -> int {
    if laid.box_type is BlockNode {
        laid.dimensions.content.height + laid.dimensions.padding.top
            + laid.dimensions.padding.bottom + laid.dimensions.border.top
            + laid.dimensions.border.bottom + laid.dimensions.margin.top
            + laid.dimensions.margin.bottom
    } else {
        0
    }
}

/// The box laid out in the containing block.
///
/// A block is placed, then its children are laid out inside its content,
/// one below the other, and then its height is settled.  The geometry that
/// it had before does not count.  Any other box stays as it is, children
/// and all.
pub open spec fn laid_out<'a>(tree: BoxTree<'a>, containing_block: Dimensions) -> Result<
    BoxTree<'a>,
    Error,
>
    decreases tree,
{
    match tree.box_type {
        BoxType::BlockNode(style) => match placed(style.specified_values@, containing_block) {
            Err(error) => Err(error),
            Ok(dimensions) => match children_laid_out(tree.children, dimensions) {
                Err(error) => Err(error),
                Ok((children, height)) => match content_height(style.specified_values@, height) {
                    Err(error) => Err(error),
                    Ok(height) => Ok(
                        BoxTree {
                            dimensions: with_height(dimensions, height),
                            box_type: tree.box_type,
                            children,
                        },
                    ),
                },
            },
        },
        _ => Ok(tree),
    }
}

/// The children of a block with these dimensions laid out inside its
/// content, and the height that the content has after them.
///
/// The content grows from the height that it has: each child is laid out
/// in the content as it is after the children before it, below all that it
/// holds by then, and the content grows by the height that the child takes.
/// Only a block takes any, and the height that grew by it must lie within
/// the range of lengths.
pub open spec fn children_laid_out<'a>(
    children: Seq<BoxTree<'a>>,
    dimensions: Dimensions,
) -> Result<(Seq<BoxTree<'a>>, i64), Error>
    decreases children,
{
    if children.len() == 0 {
        Ok((Seq::empty(), dimensions.content.height))
    } else {
        match children_laid_out(children.drop_last(), dimensions) {
            Err(error) => Err(error),
            Ok((before, height)) => match laid_out(
                children.last(),
                with_height(dimensions, height),
            ) {
                Err(error) => Err(error),
                Ok(child) => if child.box_type is BlockNode {
                    let grown = height + height_in_flow(child);
                    if in_range(grown) {
                        Ok((before.push(child), grown as i64))
                    } else {
                        Err(Error::Overflow)
                    }
                } else {
                    Ok((before.push(child), height))
                },
            },
        }
    }
}

/// What a layout that fails leaves of a box.
///
/// The box itself keeps the geometry that it had.  Where it is a block that
/// could be placed, the failure lies with its children or with its height,
/// and its children are as far as they got.
pub open spec fn left_by_failure<'a>(tree: BoxTree<'a>, containing_block: Dimensions) -> BoxTree<
    'a,
>
    decreases tree,
{
    match tree.box_type {
        BoxType::BlockNode(style) => match placed(style.specified_values@, containing_block) {
            Err(_) => tree,
            Ok(dimensions) => BoxTree {
                children: children_as_far_as_laid_out(tree.children, dimensions),
                ..tree
            },
        },
        _ => tree,
    }
}

/// The children of a block with these dimensions as far as their layout
/// got: all laid out where none fails; else those before the first that
/// fails laid out, that one as its own failure leaves it, or laid out where
/// it is only the height of the content that leaves the range by it, and
/// those behind it as they were.
pub open spec fn children_as_far_as_laid_out<'a>(
    children: Seq<BoxTree<'a>>,
    dimensions: Dimensions,
) -> Seq<BoxTree<'a>>
    decreases children,
{
    if children.len() == 0 {
        Seq::empty()
    } else {
        match children_laid_out(children.drop_last(), dimensions) {
            Err(_) => children_as_far_as_laid_out(children.drop_last(), dimensions).push(
                children.last(),
            ),
            Ok((before, height)) => match laid_out(
                children.last(),
                with_height(dimensions, height),
            ) {
                Err(_) => before.push(
                    left_by_failure(children.last(), with_height(dimensions, height)),
                ),
                Ok(child) => before.push(child),
            },
        }
    }
}

impl<'a> LayoutBox<'a> {
    /// Finish calculating the block's edge sizes, and position it within its containing block.
    ///
    /// http://www.w3.org/TR/CSS2/visudet.html#normal-block
    ///
    /// Sets the vertical margin/padding/border dimensions, and the `x`, `y` values.
    pub fn calculate_block_position(&mut self, containing_block: &Dimensions) -> (done: Result<
        (),
        Error,
    >)
        ensures
            final(self).box_type == old(self).box_type,
            final(self).children == old(self).children,
            match done {
                Ok(()) => positioned(
                    old(self).box_type.style().specified_values@,
                    *containing_block,
                    old(self).dimensions,
                ) == Ok::<Dimensions, Error>(final(self).dimensions),
                Err(error) => {
                    &&& positioned(
                        old(self).box_type.style().specified_values@,
                        *containing_block,
                        old(self).dimensions,
                    ) == Err::<Dimensions, Error>(error)
                    &&& final(self).dimensions == old(self).dimensions
                },
            },
    {
        let style = self.get_style_node();

        // If margin-top or margin-bottom is `auto`, the used value is zero.
        let margin_top = length_of(style, "margin-top", "margin")?;
        let margin_bottom = length_of(style, "margin-bottom", "margin")?;

        let border_top = length_of(style, "border-top-width", "border-width")?;
        let border_bottom = length_of(style, "border-bottom-width", "border-width")?;

        let padding_top = length_of(style, "padding-top", "padding")?;
        let padding_bottom = length_of(style, "padding-bottom", "padding")?;

        let d = &self.dimensions;
        let x: i128 = containing_block.content.x as i128 + d.margin.left as i128
            + d.border.left as i128 + d.padding.left as i128;

        // Position the box below all the previous boxes in the container.
        let y: i128 = containing_block.content.height as i128 + containing_block.content.y as i128
            + margin_top as i128 + border_top as i128 + padding_top as i128;
        if !(within_range(x) && within_range(y)) {
            return Err(Error::Overflow);
        }
        self.dimensions.margin.top = margin_top;
        self.dimensions.margin.bottom = margin_bottom;

        self.dimensions.border.top = border_top;
        self.dimensions.border.bottom = border_bottom;

        self.dimensions.padding.top = padding_top;
        self.dimensions.padding.bottom = padding_bottom;

        self.dimensions.content.x = x as i64;
        self.dimensions.content.y = y as i64;
        Ok(())
    }

    /// Height of a block-level non-replaced element in normal flow with overflow visible.
    pub fn calculate_block_height(&mut self) -> (done: Result<(), Error>)
        ensures
            final(self).box_type == old(self).box_type,
            final(self).children == old(self).children,
            match done {
                Ok(()) => {
                    &&& content_height(
                        old(self).box_type.style().specified_values@,
                        old(self).dimensions.content.height,
                    ) matches Ok(height)
                    &&& final(self).dimensions == with_height(old(self).dimensions, height)
                },
                Err(error) => {
                    &&& content_height(
                        old(self).box_type.style().specified_values@,
                        old(self).dimensions.content.height,
                    ) == Err::<i64, Error>(error)
                    &&& final(self).dimensions == old(self).dimensions
                },
            },
    {
        // If the height is set to an explicit length, use that exact length.
        // Otherwise, just keep the value set by `layout_block_children`.
        if let Some(Value::Length(height, Unit::Px)) = self.get_style_node().get_value("height") {
            if !within(height) {
                return Err(Error::Overflow);
            }
            self.dimensions.content.height = height;
        }
        Ok(())
    }
}

/// Once the children up to some child cannot be laid out, all of them
/// cannot, for the same reason.
proof fn lemma_children_error(children: Seq<BoxTree>, dimensions: Dimensions, upto: int)
    requires
        0 <= upto <= children.len(),
        children_laid_out(children.take(upto), dimensions) is Err,
    ensures
        children_laid_out(children, dimensions) == children_laid_out(
            children.take(upto),
            dimensions,
        ),
    decreases children.len() - upto,
{
    if upto < children.len() {
        assert(children.take(upto + 1).drop_last() =~= children.take(upto));
        lemma_children_error(children, dimensions, upto + 1);
    } else {
        assert(children.take(upto) =~= children);
    }
}

/// A child behind children that cannot be laid out stays as it was.
proof fn lemma_child_behind_failure(children: Seq<BoxTree>, dimensions: Dimensions)
    requires
        children.len() > 0,
        children_laid_out(children.drop_last(), dimensions) is Err,
    ensures
        children_as_far_as_laid_out(children, dimensions) == children_as_far_as_laid_out(
            children.drop_last(),
            dimensions,
        ).push(children.last()),
{
}

/// Boxes behind some boxes, the last of them apart, and then the last, are
/// the boxes behind those boxes.
proof fn lemma_behind_with_last(so_far: Seq<BoxTree>, children: Seq<BoxTree>, upto: int)
    requires
        0 <= upto < children.len(),
    ensures
        (so_far + children.drop_last().skip(upto)).push(children.last()) == so_far
            + children.skip(upto),
{
    assert((so_far + children.drop_last().skip(upto)).push(children.last()) =~= so_far
        + children.skip(upto));
}

/// Of children that cannot be laid out up to some child, those behind that
/// child stay as they were.
proof fn lemma_children_behind_failure(children: Seq<BoxTree>, dimensions: Dimensions, upto: int)
    requires
        0 <= upto <= children.len(),
        children_laid_out(children.take(upto), dimensions) is Err,
    ensures
        children_as_far_as_laid_out(children, dimensions) == children_as_far_as_laid_out(
            children.take(upto),
            dimensions,
        ) + children.skip(upto),
    decreases children.len() - upto,
{
    let so_far = children_as_far_as_laid_out(children.take(upto), dimensions);
    if upto < children.len() {
        let before = children.drop_last();
        assert(before.take(upto) =~= children.take(upto));
        lemma_children_error(before, dimensions, upto);
        lemma_child_behind_failure(children, dimensions);
        lemma_children_behind_failure(before, dimensions, upto);
        lemma_behind_with_last(so_far, children, upto);
    } else {
        assert(children.take(upto) =~= children);
        assert(so_far + children.skip(upto) =~= so_far);
    }
}

/// Children that can all be laid out are laid out as far as their layout
/// gets.
proof fn lemma_children_all_laid_out(children: Seq<BoxTree>, dimensions: Dimensions)
    requires
        children_laid_out(children, dimensions) is Ok,
    ensures
        children_as_far_as_laid_out(children, dimensions) == children_laid_out(
            children,
            dimensions,
        )->Ok_0.0,
{
}

/// Content that is within the range of lengths before its children are
/// laid out is so after them.
proof fn lemma_height_stays_in_range(children: Seq<BoxTree>, dimensions: Dimensions)
    requires
        children_laid_out(children, dimensions) is Ok,
        in_range(dimensions.content.height as int),
    ensures
        in_range(children_laid_out(children, dimensions)->Ok_0.1 as int),
    decreases children.len(),
{
    if children.len() > 0 {
        lemma_height_stays_in_range(children.drop_last(), dimensions);
    }
}

/// A block that could be placed has its geometry within the range of
/// lengths.
proof fn lemma_placed_bounded(props: Properties, containing_block: Dimensions)
    requires
        placed(props, containing_block) is Ok,
    ensures
        placed(props, containing_block)->Ok_0.bounded(),
        placed(props, containing_block)->Ok_0.content.height == 0,
{
}

impl<'a> LayoutBox<'a> {
    /// Lay out a box and its descendants.
    ///
    /// Where that fails, the box keeps its own geometry, and the boxes
    /// below it are as far as their layout got.
    pub fn layout(&mut self, containing_block: &Dimensions) -> (result: Result<RenderBox, Error>)
        ensures
            same_boxes(old(self)@, final(self)@),
            match result {
                Ok(render) => {
                    &&& laid_out(old(self)@, *containing_block) == Ok::<BoxTree, Error>(
                        final(self)@,
                    )
                    &&& render@ == rendered(final(self)@)
                    &&& final(self).box_type is BlockNode ==> final(self).dimensions.bounded()
                },
                Err(error) => {
                    &&& laid_out(old(self)@, *containing_block) == Err::<BoxTree, Error>(error)
                    &&& final(self)@ == left_by_failure(old(self)@, *containing_block)
                },
            },
        decreases old(self).children@, 2nat,
    {
        match self.box_type {
            BoxType::BlockNode(_) => match self.layout_block(containing_block) {
                Ok(block) => Ok(RenderBox::Block(block)),
                Err(error) => Err(error),
            },
            BoxType::InlineNode(_) => {
                proof {
                    layout_keeps_the_boxes(self@, *containing_block);
                }
                Ok(RenderBox::Inline)
            },
            BoxType::AnonymousBlock(_) => {
                proof {
                    layout_keeps_the_boxes(self@, *containing_block);
                }
                Ok(RenderBox::Anonymous)
            },
        }
    }

    /// Lay out a block-level element and its descendants.
    ///
    /// Where that fails, the block keeps its own geometry, and the boxes
    /// below it are as far as their layout got.
    pub fn layout_block(&mut self, containing_block: &Dimensions) -> (result: Result<
        RenderBlockBox,
        Error,
    >)
        requires
            old(self).box_type is BlockNode,
        ensures
            same_boxes(old(self)@, final(self)@),
            match result {
                Ok(block) => {
                    &&& laid_out(old(self)@, *containing_block) == Ok::<BoxTree, Error>(
                        final(self)@,
                    )
                    &&& RenderBox::Block(block)@ == rendered(final(self)@)
                    &&& final(self).dimensions.bounded()
                },
                Err(error) => {
                    &&& laid_out(old(self)@, *containing_block) == Err::<BoxTree, Error>(error)
                    &&& final(self)@ == left_by_failure(old(self)@, *containing_block)
                },
            },
        decreases old(self).children@, 1nat,
    {
        let ghost props = self.box_type.style().specified_values@;
        proof {
            if laid_out(self@, *containing_block) is Ok {
                layout_keeps_the_boxes(self@, *containing_block);
            } else {
                failure_keeps_the_boxes(self@, *containing_block);
            }
        }
        let given = self.dimensions;
        // What the box was given by an earlier layout does not count.
        self.dimensions = Dimensions::default();

        // Child width can depend on parent width, so we need to calculate this box's width before
        // laying out its children.
        if let Err(error) = self.calculate_block_width(containing_block) {
            // A block that cannot be laid out keeps the geometry that it had.
            self.dimensions = given;
            assert(self@ == old(self)@);
            return Err(error);
        }
        // Determine where the box is located within its container.
        if let Err(error) = self.calculate_block_position(containing_block) {
            self.dimensions = given;
            assert(self@ == old(self)@);
            return Err(error);
        }
        proof {
            lemma_placed_bounded(props, *containing_block);
        }
        let ghost at = self.dimensions;

        // Recursively lay out the children of this box.
        let children = match self.layout_block_children() {
            Ok(children) => {
                proof {
                    lemma_height_stays_in_range(old(self)@.children, at);
                }
                children
            },
            Err(error) => {
                self.dimensions = given;
                return Err(error);
            },
        };

        // Parent height can depend on child height, so `calculate_height` must be called after the
        // children are laid out.
        if let Err(error) = self.calculate_block_height() {
            proof {
                lemma_children_all_laid_out(old(self)@.children, at);
            }
            self.dimensions = given;
            return Err(error);
        }

        let style = self.get_style_node();
        let block = RenderBlockBox {
            dimensions: self.dimensions,
            color: style.get_color("color"),
            background_color: style.get_color("background"),
            border_color: style.get_color("border-color"),
            children,
        };
        proof {
            let laid = self@;
            assert(RenderBox::Block(block)@->Block_0.children =~= rendered(laid)->Block_0.children);
        }
        Ok(block)
    }

    /// Lay out the block's children within its content area.
    ///
    /// Adds to `self.dimensions.height` the height that the children take:
    /// each child is laid out below what the content holds by then.  Where
    /// that fails, the block keeps the height that it had, and its children
    /// are as far as their layout got.
    pub fn layout_block_children(&mut self) -> (result: Result<Vec<RenderBox>, Error>)
        ensures
            final(self).box_type == old(self).box_type,
            final(self).children@.len() == old(self).children@.len(),
            same_boxes(old(self)@, final(self)@),
            match result {
                Ok(renders) => {
                    &&& children_laid_out(old(self)@.children, old(self).dimensions) matches Ok(
                        (children, height),
                    )
                    &&& final(self)@.children == children
                    &&& final(self).dimensions == with_height(old(self).dimensions, height)
                    &&& height == old(self).dimensions.content.height + heights_in_flow(children)
                    &&& renders@.len() == old(self).children@.len()
                    &&& renders@.len() == children.len()
                    &&& forall|i: int|
                        0 <= i < children.len() ==> (#[trigger] renders@[i])@ == rendered(
                            children[i],
                        )
                },
                Err(error) => {
                    &&& children_laid_out(old(self)@.children, old(self).dimensions) == Err::<
                        (Seq<BoxTree>, i64),
                        Error,
                    >(error)
                    &&& final(self)@.children == children_as_far_as_laid_out(
                        old(self)@.children,
                        old(self).dimensions,
                    )
                    &&& final(self).dimensions == old(self).dimensions
                },
            },
        decreases old(self).children@, 0nat,
    {
        let mut renders: Vec<RenderBox> = Vec::new();
        let count = self.children.len();
        let given_height = self.dimensions.content.height;
        let ghost start = self.dimensions;
        let ghost given = self@.children;
        let mut k: usize = 0;
        assert(self@.children.take(0) =~= Seq::empty());
        while k < count
            invariant
                k <= count,
                count == self.children@.len(),
                count == old(self).children@.len(),
                given == old(self)@.children,
                given.len() == count,
                start == old(self).dimensions,
                given_height == start.content.height,
                self.box_type == old(self).box_type,
                self.dimensions == with_height(start, self.dimensions.content.height),
                forall|j: int| k <= j < count ==> self.children@[j] == old(self).children@[j],
                children_laid_out(given.take(k as int), start) == Ok::<
                    (Seq<BoxTree>, i64),
                    Error,
                >((self@.children.take(k as int), self.dimensions.content.height)),
                renders@.len() == k,
                forall|i: int|
                    0 <= i < k ==> (#[trigger] renders@[i])@ == rendered(self.children@[i]@),
            decreases count - k,
        {
            let containing = self.dimensions;
            let ghost before = *self;
            assert(given.take(k + 1).drop_last() =~= given.take(k as int));
            assert(given.take(k + 1).last() == self.children@[k as int]@);
            let laid = self.children[k].layout(&containing);
            proof {
                assert(self.children@ == before.children@.update(k as int, self.children@[k as int]));
                assert(self@.children =~= before@.children.take(k as int).push(
                    self.children@[k as int]@,
                ) + given.skip(k + 1));
            }
            match laid {
                Err(error) => {
                    proof {
                        lemma_children_error(given, start, k + 1);
                        lemma_children_behind_failure(given, start, k + 1);
                        children_keep_the_boxes_so_far(given, start);
                    }
                    self.dimensions.content.height = given_height;
                    return Err(error);
                },
                Ok(render) => {
                    let child = &self.children[k];
                    if let BoxType::BlockNode(_) = child.box_type {
                        proof {
                            child.dimensions.bounded_has_boxes();
                        }
                        // Increment the height so each child is laid out below the previous one.
                        let grown: i128 = self.dimensions.content.height as i128
                            + child.dimensions.margin_box().height as i128;
                        if !within_range(grown) {
                            proof {
                                lemma_children_error(given, start, k + 1);
                                lemma_children_behind_failure(given, start, k + 1);
                                children_keep_the_boxes_so_far(given, start);
                            }
                            self.dimensions.content.height = given_height;
                            return Err(Error::Overflow);
                        }
                        self.dimensions.content.height = grown as i64;
                    }
                    renders.push(render);
                    proof {
                        assert(self@.children.take(k + 1) =~= before@.children.take(
                            k as int,
                        ).push(child@));
                    }
                },
            }
            k = k + 1;
        }
        assert(given.take(k as int) =~= given);
        assert(self@.children.take(k as int) =~= self@.children);
        proof {
            children_stack(given, start);
            children_keep_the_boxes(given, start);
        }
        Ok(renders)
    }
}

/// Whether two trees hold the same boxes in the same places, whatever the
/// geometry of the boxes.
pub open spec fn same_boxes(one: BoxTree, other: BoxTree) -> bool
    decreases one,
{
    &&& one.box_type == other.box_type
    &&& one.children.len() == other.children.len()
    &&& forall|i: int|
        0 <= i < one.children.len() ==> same_boxes(
            #[trigger] one.children[i],
            other.children[i],
        )
}

/// A tree holds the same boxes as itself.
proof fn lemma_same_boxes_itself(tree: BoxTree)
    ensures
        same_boxes(tree, tree),
    decreases tree,
{
    assert forall|i: int| 0 <= i < tree.children.len() implies same_boxes(
        #[trigger] tree.children[i],
        tree.children[i],
    ) by {
        lemma_same_boxes_itself(tree.children[i]);
    }
}

/// Layout changes nothing but geometry: the tree that was laid out holds
/// the boxes that it held before.
pub proof fn layout_keeps_the_boxes(tree: BoxTree, containing_block: Dimensions)
    requires
        laid_out(tree, containing_block) is Ok,
    ensures
        same_boxes(tree, laid_out(tree, containing_block)->Ok_0),
    decreases tree,
{
    if let BoxType::BlockNode(style) = tree.box_type {
        let dimensions = placed(style.specified_values@, containing_block)->Ok_0;
        children_keep_the_boxes(tree.children, dimensions);
    } else {
        lemma_same_boxes_itself(tree);
    }
}

/// The same of the children of a block.
proof fn children_keep_the_boxes(children: Seq<BoxTree>, dimensions: Dimensions)
    requires
        children_laid_out(children, dimensions) is Ok,
    ensures
        children_laid_out(children, dimensions)->Ok_0.0.len() == children.len(),
        forall|i: int|
            0 <= i < children.len() ==> same_boxes(
                #[trigger] children[i],
                children_laid_out(children, dimensions)->Ok_0.0[i],
            ),
    decreases children,
{
    if children.len() > 0 {
        children_keep_the_boxes(children.drop_last(), dimensions);
        let height = children_laid_out(children.drop_last(), dimensions)->Ok_0.1;
        layout_keeps_the_boxes(children.last(), with_height(dimensions, height));
        let laid = children_laid_out(children, dimensions)->Ok_0.0;
        assert forall|i: int| 0 <= i < children.len() implies same_boxes(
            #[trigger] children[i],
            laid[i],
        ) by {
            if i < children.len() - 1 {
                assert(children[i] == children.drop_last()[i]);
            }
        }
    }
}

/// A layout that fails changes nothing but geometry either, and leaves the
/// box at which it fails with the geometry that it had.
pub proof fn failure_keeps_the_boxes(tree: BoxTree, containing_block: Dimensions)
    ensures
        same_boxes(tree, left_by_failure(tree, containing_block)),
        left_by_failure(tree, containing_block).dimensions == tree.dimensions,
    decreases tree,
{
    lemma_same_boxes_itself(tree);
    if let BoxType::BlockNode(style) = tree.box_type {
        if let Ok(dimensions) = placed(style.specified_values@, containing_block) {
            children_keep_the_boxes_so_far(tree.children, dimensions);
        }
    }
}

/// The same of the children of a block.
proof fn children_keep_the_boxes_so_far(children: Seq<BoxTree>, dimensions: Dimensions)
    ensures
        children_as_far_as_laid_out(children, dimensions).len() == children.len(),
        forall|i: int|
            0 <= i < children.len() ==> same_boxes(
                #[trigger] children[i],
                children_as_far_as_laid_out(children, dimensions)[i],
            ),
    decreases children,
{
    if children.len() > 0 {
        let before = children.drop_last();
        let last = children.len() - 1;
        let so_far = children_as_far_as_laid_out(children, dimensions);
        children_keep_the_boxes_so_far(before, dimensions);
        lemma_same_boxes_itself(children.last());
        if let Ok((laid, height)) = children_laid_out(before, dimensions) {
            children_keep_the_boxes(before, dimensions);
            let containing_block = with_height(dimensions, height);
            if laid_out(children.last(), containing_block) is Ok {
                layout_keeps_the_boxes(children.last(), containing_block);
            } else {
                failure_keeps_the_boxes(children.last(), containing_block);
            }
        }
        assert forall|i: int| 0 <= i < children.len() implies same_boxes(
            #[trigger] children[i],
            so_far[i],
        ) by {
            if i < last {
                assert(children[i] == before[i]);
            }
        }
    }
}

/// The height that the boxes take together in the block around them.
pub open spec fn heights_in_flow(boxes: Seq<BoxTree>) -> int
    decreases boxes.len(),
{
    if boxes.len() == 0 {
        0
    } else {
        heights_in_flow(boxes.drop_last()) + height_in_flow(boxes.last())
    }
}

/// Where the margin box of a box begins from the top.
pub open spec fn margin_box_top(dimensions: Dimensions) -> int {
    dimensions.content.y - dimensions.padding.top - dimensions.border.top
        - dimensions.margin.top
}

/// The children of a block stack: the content of the block grows from the
/// height that it had by the heights of the margin boxes of its block
/// children, and the margin box of each block child begins where the
/// content ended before it, without a gap and without an overlap.
pub proof fn children_stack(children: Seq<BoxTree>, dimensions: Dimensions)
    requires
        children_laid_out(children, dimensions) is Ok,
    ensures
        ({
            let (laid, height) = children_laid_out(children, dimensions)->Ok_0;
            &&& laid.len() == children.len()
            &&& height == dimensions.content.height + heights_in_flow(laid)
            &&& forall|i: int|
                0 <= i < laid.len() && (#[trigger] laid[i]).box_type is BlockNode
                    ==> margin_box_top(laid[i].dimensions) == dimensions.content.y
                    + dimensions.content.height + heights_in_flow(laid.take(i))
        }),
    decreases children,
{
    if children.len() > 0 {
        let (before, grown) = children_laid_out(children.drop_last(), dimensions)->Ok_0;
        let (laid, height) = children_laid_out(children, dimensions)->Ok_0;
        let last = children.len() - 1;
        children_stack(children.drop_last(), dimensions);
        assert(laid.drop_last() =~= before);
        assert(laid.take(last) =~= before);
        assert forall|i: int| 0 <= i < laid.len() && (#[trigger] laid[i]).box_type is BlockNode implies
            margin_box_top(laid[i].dimensions) == dimensions.content.y + dimensions.content.height
            + heights_in_flow(laid.take(i)) by {
            if i < last {
                assert(laid[i] == before[i]);
                assert(laid.take(i) =~= before.take(i));
            } else {
                let containing_block = with_height(dimensions, grown);
                let child = laid_out(children.last(), containing_block)->Ok_0;
                assert(laid[i] == child);
                let props = children.last().box_type.style().specified_values@;
                let at = placed(props, containing_block)->Ok_0;
                assert(child.dimensions.content.y == at.content.y);
                assert(margin_box_top(at) == containing_block.content.height
                    + containing_block.content.y);
            }
        }
    }
}

/// After layout the geometry of every block that is painted lies within
/// the range of lengths.
pub proof fn layout_is_bounded(tree: BoxTree, containing_block: Dimensions)
    requires
        laid_out(tree, containing_block) is Ok,
    ensures
        rendered(laid_out(tree, containing_block)->Ok_0).bounded(),
    decreases tree,
{
    if let BoxType::BlockNode(style) = tree.box_type {
        let props = style.specified_values@;
        lemma_placed_bounded(props, containing_block);
        let dimensions = placed(props, containing_block)->Ok_0;
        lemma_height_stays_in_range(tree.children, dimensions);
        children_are_bounded(tree.children, dimensions);
    }
}

/// The same of the children of a block.
proof fn children_are_bounded(children: Seq<BoxTree>, dimensions: Dimensions)
    requires
        children_laid_out(children, dimensions) is Ok,
    ensures
        forall|i: int|
            0 <= i < children_laid_out(children, dimensions)->Ok_0.0.len() ==> rendered(
                #[trigger] children_laid_out(children, dimensions)->Ok_0.0[i],
            ).bounded(),
    decreases children,
{
    if children.len() > 0 {
        children_are_bounded(children.drop_last(), dimensions);
        let height = children_laid_out(children.drop_last(), dimensions)->Ok_0.1;
        layout_is_bounded(children.last(), with_height(dimensions, height));
    }
}

/// After layout every block that is painted is exactly as wide as the
/// content of the block around it: its left margin, border and padding, the
/// width of its content, and its right padding, border and margin add up to
/// the width of that content.
pub proof fn layout_fills_the_width(tree: BoxTree, containing_block: Dimensions)
    requires
        laid_out(tree, containing_block) is Ok,
    ensures
        rendered(laid_out(tree, containing_block)->Ok_0).fills(
            containing_block.content.width as int,
        ),
    decreases tree,
{
    if let BoxType::BlockNode(style) = tree.box_type {
        let props = style.specified_values@;
        let dimensions = placed(props, containing_block)->Ok_0;
        used_widths_fill(sizes(props)->Ok_0, containing_block.content.width as int);
        children_fill_the_width(tree.children, dimensions);
    }
}

/// The same of the children of a block.
proof fn children_fill_the_width(children: Seq<BoxTree>, dimensions: Dimensions)
    requires
        children_laid_out(children, dimensions) is Ok,
    ensures
        forall|i: int|
            0 <= i < children_laid_out(children, dimensions)->Ok_0.0.len() ==> rendered(
                #[trigger] children_laid_out(children, dimensions)->Ok_0.0[i],
            ).fills(dimensions.content.width as int),
    decreases children,
{
    if children.len() > 0 {
        children_fill_the_width(children.drop_last(), dimensions);
        let height = children_laid_out(children.drop_last(), dimensions)->Ok_0.1;
        layout_fills_the_width(children.last(), with_height(dimensions, height));
    }
}

/// Layout does not build on what it left behind: a tree that was laid out
/// in a containing block and is laid out in it once more stays as it is.
pub proof fn layout_is_idempotent(tree: BoxTree, containing_block: Dimensions)
    requires
        laid_out(tree, containing_block) is Ok,
    ensures
        laid_out(laid_out(tree, containing_block)->Ok_0, containing_block) == laid_out(
            tree,
            containing_block,
        ),
    decreases tree,
{
    if let BoxType::BlockNode(style) = tree.box_type {
        let props = style.specified_values@;
        let dimensions = placed(props, containing_block)->Ok_0;
        children_stay(tree.children, dimensions);
    }
}

/// The same of the children of a block.
proof fn children_stay(children: Seq<BoxTree>, dimensions: Dimensions)
    requires
        children_laid_out(children, dimensions) is Ok,
    ensures
        children_laid_out(children_laid_out(children, dimensions)->Ok_0.0, dimensions)
            == children_laid_out(children, dimensions),
    decreases children,
{
    if children.len() > 0 {
        children_stay(children.drop_last(), dimensions);
        let (before, height) = children_laid_out(children.drop_last(), dimensions)->Ok_0;
        layout_is_idempotent(children.last(), with_height(dimensions, height));
        let laid = children_laid_out(children, dimensions)->Ok_0.0;
        assert(laid.drop_last() =~= before);
    }
}

} // verus!
