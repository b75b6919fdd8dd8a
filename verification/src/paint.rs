//! Painting: the rectangles to fill for a render tree, in the order in
//! which they are filled, and the pixels that result.

use crate::css::Color;
use crate::layout::{Dimensions, Rect};
use crate::render::{RenderBlockBox, RenderBox, RenderTree, Rendered, RenderedBlock};
use vstd::prelude::*;

verus! {

/// A rectangle to fill with one colour.
#[derive(Clone, Copy, Debug, PartialEq, Eq, Structural)]
pub struct SolidColor {
    pub rect: Rect,
    pub color: Color,
}

/// Rectangles in the order in which they are filled: a later one covers an
/// earlier one.
pub type DisplayList = Vec<SolidColor>;

/// The border box of a block.
pub open spec fn border_rect(d: Dimensions) -> Rect {
    d.content.expanded(d.padding).expanded(d.border)
}

/// The background of a block: its border box in its background colour, if
/// it has one.
pub open spec fn background(block: RenderedBlock) -> Seq<SolidColor> {
    match block.background_color {
        Some(color) => seq![SolidColor { color, rect: border_rect(block.dimensions) }],
        None => Seq::empty(),
    }
}

/// The four borders of a block in `color`: left, right, top, bottom.  Each
/// lies along one edge of the border box, inside it, as long as that edge
/// and as thick as the border on that side.
pub open spec fn border_rects(d: Dimensions, color: Color) -> Seq<SolidColor> {
    let border_box = border_rect(d);
    seq![
        SolidColor {
            color,
            rect: Rect {
                x: border_box.x,
                y: border_box.y,
                width: d.border.left,
                height: border_box.height,
            },
        },
        SolidColor {
            color,
            rect: Rect {
                x: (border_box.x + border_box.width - d.border.right) as i64,
                y: border_box.y,
                width: d.border.right,
                height: border_box.height,
            },
        },
        SolidColor {
            color,
            rect: Rect {
                x: border_box.x,
                y: border_box.y,
                width: border_box.width,
                height: d.border.top,
            },
        },
        SolidColor {
            color,
            rect: Rect {
                x: border_box.x,
                y: (border_box.y + border_box.height - d.border.bottom) as i64,
                width: border_box.width,
                height: d.border.bottom,
            },
        },
    ]
}

/// The borders of a block, if it has a border colour.
pub open spec fn borders(block: RenderedBlock) -> Seq<SolidColor> {
    match block.border_color {
        Some(color) => border_rects(block.dimensions, color),
        None => Seq::empty(),
    }
}

/// What is filled for a render tree: for a block its background, then its
/// borders, then what is filled for each of its children in their order;
/// for any other box nothing.
pub open spec fn display_list(render: Rendered) -> Seq<SolidColor>
    decreases render,
{
    match render {
        Rendered::Block(block) => background(block) + borders(block) + display_lists(
            block.children,
        ),
        _ => Seq::empty(),
    }
}

/// What is filled for each of the render trees, one after the other.
pub open spec fn display_lists(renders: Seq<Rendered>) -> Seq<SolidColor>
    decreases renders,
{
    if renders.len() == 0 {
        Seq::empty()
    } else {
        display_lists(renders.drop_last()) + display_list(renders.last())
    }
}

/// What is filled for the render tree, in the order in which it is filled.
pub fn build_display_list(render_box: &RenderBox) -> (list: DisplayList)
    requires
        render_box@.bounded(),
    ensures
        list@ == display_list(render_box@),
{
    let mut list = Vec::new();
    render_layout_box(&mut list, render_box);
    list
}

/// Adds to `list` what is filled for the render tree.
pub fn render_layout_box(list: &mut DisplayList, render_box: &RenderBox)
    requires
        render_box@.bounded(),
    ensures
        final(list)@ == old(list)@ + display_list(render_box@),
    decreases render_box,
{
    if let RenderBox::Block(block) = render_box {
        let ghost tree = render_box@->Block_0;
        make_background(list, block);
        if let Some(color) = block.border_color {
            make_border(list, block, color);
        }
        let ghost own = list@;
        let mut k: usize = 0;
        while k < block.children.len()
            invariant
                k <= block.children@.len(),
                render_box@.bounded(),
                render_box == RenderBox::Block(*block),
                tree == render_box@->Block_0,
                list@ == own + display_lists(tree.children.take(k as int)),
            decreases block.children@.len() - k,
        {
            assert(tree.children.take(k + 1).drop_last() =~= tree.children.take(k as int));
            assert(tree.children[k as int].bounded());
            render_layout_box(list, &block.children[k]);
            k = k + 1;
        }
        assert(tree.children.take(k as int) =~= tree.children);
    }
}

/// Adds to `list` the background of the block, if it has one.
pub fn make_background(list: &mut DisplayList, render_block: &RenderBlockBox)
    requires
        render_block.dimensions.bounded(),
    ensures
        final(list)@ == old(list)@ + background(RenderBox::Block(*render_block)@->Block_0),
{
    if let Some(color) = render_block.background_color {
        proof {
            render_block.dimensions.bounded_has_boxes();
        }
        list.push(SolidColor { color, rect: render_block.dimensions.border_box() });
    }
}

/// Adds to `list` the four borders of the block in `color`.
pub fn make_border(list: &mut DisplayList, render_block: &RenderBlockBox, color: Color)
    requires
        render_block.dimensions.bounded(),
    ensures
        final(list)@ == old(list)@ + border_rects(render_block.dimensions, color),
{
    let d = &render_block.dimensions;
    proof {
        d.bounded_has_boxes();
    }
    let border_box = d.border_box();

    // Left border
    list.push(
        SolidColor {
            color,
            rect: Rect {
                x: border_box.x,
                y: border_box.y,
                width: d.border.left,
                height: border_box.height,
            },
        },
    );

    // Right border
    list.push(
        SolidColor {
            color,
            rect: Rect {
                x: border_box.x + border_box.width - d.border.right,
                y: border_box.y,
                width: d.border.right,
                height: border_box.height,
            },
        },
    );

    // Top border
    list.push(
        SolidColor {
            color,
            rect: Rect {
                x: border_box.x,
                y: border_box.y,
                width: border_box.width,
                height: d.border.top,
            },
        },
    );

    // Bottom border
    list.push(
        SolidColor {
            color,
            rect: Rect {
                x: border_box.x,
                y: border_box.y + border_box.height - d.border.bottom,
                width: border_box.width,
                height: d.border.bottom,
            },
        },
    );
}

/// A render tree with the size in pixels of the surface that it is painted
/// on.
pub struct Canvas {
    pub render_tree: RenderTree,
    pub width: usize,
    pub height: usize,
}

/// The colour of a pixel that nothing was painted on.
pub open spec fn white() -> Color {
    Color { r: 255, g: 255, b: 255, a: 255 }
}

/// The coordinate `v` brought into `0 ..= limit`.
pub open spec fn clipped(v: int, limit: int) -> int {
    if v < 0 {
        0
    } else if v > limit {
        limit
    } else {
        v
    }
}

/// Whether the rectangle of `item`, cut down to a surface of the given
/// size, holds the pixel in column `x` and row `y`.
pub open spec fn covers(item: SolidColor, x: int, y: int, width: int, height: int) -> bool {
    &&& clipped(item.rect.x as int, width) <= x < clipped(item.rect.x + item.rect.width, width)
    &&& clipped(item.rect.y as int, height) <= y < clipped(
        item.rect.y + item.rect.height,
        height,
    )
}

/// The colour of the pixel in column `x` and row `y` after the rectangles
/// were filled one after the other: that of the last rectangle that holds
/// the pixel, or white.
pub open spec fn pixel(list: Seq<SolidColor>, x: int, y: int, width: int, height: int) -> Color
    decreases list.len(),
{
    if list.len() == 0 {
        white()
    } else if covers(list.last(), x, y, width, height) {
        list.last().color
    } else {
        pixel(list.drop_last(), x, y, width, height)
    }
}

/// Where the pixel in column `x` and row `y` is stored: the pixels of a
/// surface are stored row after row.
pub open spec fn place(x: int, y: int, width: int) -> int {
    y * width + x
}

/// The pixel in column `x` and row `y` lies within the pixels of a surface.
proof fn lemma_pixel_index(x: int, y: int, width: int, height: int)
    requires
        0 <= x < width,
        0 <= y < height,
    ensures
        0 <= y * width <= place(x, y, width) < width * height,
{
    assert(y * width >= 0 && (y + 1) * width <= height * width && (y + 1) * width == y * width
        + width && height * width == width * height) by (nonlinear_arith)
        requires
            0 <= y < height,
            0 < width,
    ;
}

/// No two pixels of a surface are stored in one place.
proof fn lemma_pixel_apart(x: int, y: int, other_x: int, other_y: int, width: int)
    requires
        0 <= x < width,
        0 <= other_x < width,
        0 <= y,
        0 <= other_y,
        place(x, y, width) == place(other_x, other_y, width),
    ensures
        x == other_x,
        y == other_y,
{
    if y < other_y {
        assert((y + 1) * width <= other_y * width && (y + 1) * width == y * width + width)
            by (nonlinear_arith)
            requires
                y + 1 <= other_y,
                0 < width,
        ;
    } else if other_y < y {
        assert((other_y + 1) * width <= y * width && (other_y + 1) * width == other_y * width
            + width) by (nonlinear_arith)
            requires
                other_y + 1 <= y,
                0 < width,
        ;
    }
}

/// The coordinate `v` brought into `0 ..= limit`.
fn clip(v: i128, limit: usize) -> (at: usize)
    ensures
        at == clipped(v as int, limit as int),
{
    if v < 0 {
        0
    } else if v > limit as i128 {
        limit
    } else {
        v as usize
    }
}

impl Canvas {
    /// A canvas for this render tree and a surface of this size.
    pub fn new(render_tree: RenderTree, width: usize, height: usize) -> (canvas: Canvas)
        ensures
            canvas.render_tree == render_tree,
            canvas.width == width,
            canvas.height == height,
    {
        Canvas { render_tree, width, height }
    }

    /// The pixels of the surface, row after row, after the display list of
    /// the render tree was painted on white.
    pub fn get_pixels(&mut self) -> (pixels: Vec<Color>)
        requires
            old(self).render_tree.root@.bounded(),
            old(self).width * old(self).height <= usize::MAX,
        ensures
            *final(self) == *old(self),
            pixels@.len() == old(self).width * old(self).height,
            forall|x: int, y: int|
                0 <= x < old(self).width && 0 <= y < old(self).height ==> pixels@[#[trigger] place(
                    x,
                    y,
                    old(self).width as int,
                )] == pixel(
                    display_list(old(self).render_tree.root@),
                    x,
                    y,
                    old(self).width as int,
                    old(self).height as int,
                ),
    {
        let white = Color { r: 255, g: 255, b: 255, a: 255 };
        let mut pixels = vec![white; self.width * self.height];
        let display_list = build_display_list(&self.render_tree.root);
        let mut k: usize = 0;
        assert forall|x: int, y: int| 0 <= x < self.width && 0 <= y < self.height implies pixels@[
            #[trigger] place(x, y, self.width as int)] == white by {
            lemma_pixel_index(x, y, self.width as int, self.height as int);
        }
        while k < display_list.len()
            invariant
                k <= display_list@.len(),
                *self == *old(self),
                self.width * self.height <= usize::MAX,
                pixels@.len() == self.width * self.height,
                forall|x: int, y: int|
                    0 <= x < self.width && 0 <= y < self.height ==> pixels@[#[trigger] place(
                        x,
                        y,
                        self.width as int,
                    )] == pixel(
                        display_list@.take(k as int),
                        x,
                        y,
                        self.width as int,
                        self.height as int,
                    ),
            decreases display_list@.len() - k,
        {
            assert(display_list@.take(k + 1).drop_last() =~= display_list@.take(k as int));
            self.paint_item(&mut pixels, &display_list[k]);
            k = k + 1;
        }
        assert(display_list@.take(k as int) =~= display_list@);
        pixels
    }

    /// Fills the rectangle of `item`, cut down to the surface, with its
    /// colour.
    pub fn paint_item(&mut self, pixels: &mut Vec<Color>, item: &SolidColor)
        requires
            old(self).width * old(self).height <= usize::MAX,
            old(pixels)@.len() == old(self).width * old(self).height,
        ensures
            *final(self) == *old(self),
            final(pixels)@.len() == old(pixels)@.len(),
            forall|x: int, y: int|
                0 <= x < old(self).width && 0 <= y < old(self).height ==> final(pixels)@[
                    #[trigger] place(x, y, old(self).width as int)] == (if covers(
                    *item,
                    x,
                    y,
                    old(self).width as int,
                    old(self).height as int,
                ) {
                    item.color
                } else {
                    old(pixels)@[place(x, y, old(self).width as int)]
                }),
    {
        // Clip the rectangle to the canvas boundaries.
        let x0 = clip(item.rect.x as i128, self.width);
        let y0 = clip(item.rect.y as i128, self.height);
        let x1 = clip(item.rect.x as i128 + item.rect.width as i128, self.width);
        let y1 = clip(item.rect.y as i128 + item.rect.height as i128, self.height);
        let width = self.width;
        let height = self.height;

        let mut y = y0;
        while y < y1
            invariant
                y0 <= y,
                y <= y1 || y == y0,
                y1 <= height,
                x1 <= width,
                width * height <= usize::MAX,
                pixels@.len() == width * height,
                forall|col: int, row: int|
                    0 <= col < width && 0 <= row < height ==> pixels@[#[trigger] place(
                        col,
                        row,
                        width as int,
                    )] == (if x0 <= col < x1 && y0 <= row < y {
                        item.color
                    } else {
                        old(pixels)@[place(col, row, width as int)]
                    }),
            decreases y1 - y,
        {
            let mut x = x0;
            while x < x1
                invariant
                    x0 <= x,
                    x <= x1 || x == x0,
                    y0 <= y < y1,
                    y1 <= height,
                    x1 <= width,
                    width * height <= usize::MAX,
                    pixels@.len() == width * height,
                    forall|col: int, row: int|
                        0 <= col < width && 0 <= row < height ==> pixels@[#[trigger] place(
                            col,
                            row,
                            width as int,
                        )] == (if (x0 <= col < x1 && y0 <= row < y) || (row == y && x0 <= col
                            < x) {
                            item.color
                        } else {
                            old(pixels)@[place(col, row, width as int)]
                        }),
                decreases x1 - x,
            {
                proof {
                    lemma_pixel_index(x as int, y as int, width as int, height as int);
                }
                let ghost before = pixels@;
                pixels.set(y * width + x, item.color);
                assert forall|col: int, row: int|
                    0 <= col < width && 0 <= row < height implies pixels@[#[trigger] place(
                    col,
                    row,
                    width as int,
                )] == (if (x0 <= col < x1 && y0 <= row < y) || (row == y && x0 <= col < x + 1) {
                    item.color
                } else {
                    old(pixels)@[place(col, row, width as int)]
                }) by {
                    lemma_pixel_index(col, row, width as int, height as int);
                    if place(col, row, width as int) == place(x as int, y as int, width as int) {
                        lemma_pixel_apart(col, row, x as int, y as int, width as int);
                    } else {
                        assert(pixels@[place(col, row, width as int)] == before[place(
                            col,
                            row,
                            width as int,
                        )]);
                    }
                }
                x = x + 1;
            }
            y = y + 1;
        }
    }
}

} // verus!
