//! What a window shows of a document: the canvas for a window of a given
//! size, the triangles that the canvas is drawn with, and what the window
//! does when something happens to it.

use crate::alike::same_document_same_render;
use crate::css::{Color, StyleSheet};
use crate::dom::Node;
use crate::error::Error;
use crate::layout::{fits, Dimensions, EdgeSizes, Rect};
use crate::paint::{background, border_rects, borders, build_display_list, display_list};
use crate::paint::{display_lists, Canvas, SolidColor};
use crate::render::{render_of, RenderTree, Rendered};
use crate::style::{StyleNode, StyleTree};
use vstd::prelude::*;

verus! {

/// A corner of a triangle.
#[derive(Clone, Copy, Debug, PartialEq, Eq, Structural)]
pub struct Vertex {
    pub x: i64,
    pub y: i64,
    pub color: Color,
}

/// The viewport of a window of the given size: half as wide and half as
/// high, at the origin, without edges.  The halves are whole pixels: of a
/// size that is odd the half pixel is left out.
pub open spec fn viewport(width: u32, height: u32) -> Dimensions {
    Dimensions {
        content: Rect { x: 0, y: 0, width: (width / 2) as i64, height: (height / 2) as i64 },
        padding: EdgeSizes::zero(),
        border: EdgeSizes::zero(),
        margin: EdgeSizes::zero(),
    }
}

/// The canvas for a window of the given size: the document styled by the
/// sheets and laid out in the viewport of the window, on a surface as large
/// as that viewport.  The document has a style tree under the sheets, and
/// whichever of its style trees is laid out, the outcome is this one.
pub fn generate_canvas(
    width: u32,
    height: u32,
    root_node: &Node,
    stylesheets: &Vec<StyleSheet>,
) -> (result: Result<Canvas, Error>)
    ensures
        exists|styled: StyleNode|
            styled.node == root_node && #[trigger] styled.styled_by(stylesheets@),
        forall|styled: StyleNode|
            styled.node == root_node && #[trigger] styled.styled_by(stylesheets@) ==> match result {
                Ok(canvas) => render_of(&styled, viewport(width, height)) == Ok::<Rendered, Error>(
                    canvas.render_tree.root@,
                ),
                Err(error) => render_of(&styled, viewport(width, height)) == Err::<
                    Rendered,
                    Error,
                >(error),
            },
        result matches Ok(canvas) ==> {
            &&& canvas.render_tree.root@.bounded()
            &&& canvas.width == width / 2
            &&& canvas.height == height / 2
        },
{
    let mut viewport = Dimensions {
        content: Rect { x: 0, y: 0, width: (width / 2) as i64, height: (height / 2) as i64 },
        padding: EdgeSizes { left: 0, right: 0, top: 0, bottom: 0 },
        border: EdgeSizes { left: 0, right: 0, top: 0, bottom: 0 },
        margin: EdgeSizes { left: 0, right: 0, top: 0, bottom: 0 },
    };

    let style_tree = StyleTree::new(root_node, stylesheets);
    let rendered = RenderTree::new(&style_tree.root, &mut viewport);
    proof {
        assert forall|styled: StyleNode|
            styled.node == root_node && #[trigger] styled.styled_by(
                stylesheets@,
            ) implies render_of(&styled, viewport) == render_of(&style_tree.root, viewport) by {
            same_document_same_render(&styled, &style_tree.root, stylesheets@, viewport);
        }
    }
    match rendered {
        Ok(render_tree) => Ok(
            Canvas::new(
                render_tree,
                viewport.content.width as usize,
                viewport.content.height as usize,
            ),
        ),
        Err(error) => Err(error),
    }
}

/// Whether the corner of the rectangle that lies opposite its origin can
/// be held.
pub open spec fn has_far_corner(rect: Rect) -> bool {
    fits(rect.x + rect.width) && fits(rect.y + rect.height)
}

/// The two triangles that cover the rectangle of `item`, in its colour: the
/// first through its upper left, lower left and lower right corner, the
/// second through its lower right, upper right and upper left corner.
pub open spec fn triangles(item: SolidColor) -> Seq<Vertex> {
    let x0 = item.rect.x;
    let y0 = item.rect.y;
    let x1 = (item.rect.x + item.rect.width) as i64;
    let y1 = (item.rect.y + item.rect.height) as i64;
    let color = item.color;
    seq![
        Vertex { x: x0, y: y0, color },
        Vertex { x: x0, y: y1, color },
        Vertex { x: x1, y: y1, color },
        Vertex { x: x1, y: y1, color },
        Vertex { x: x1, y: y0, color },
        Vertex { x: x0, y: y0, color },
    ]
}

/// The triangles of each of the items, one item after the other.
pub open spec fn all_triangles(list: Seq<SolidColor>) -> Seq<Vertex>
    decreases list.len(),
{
    if list.len() == 0 {
        Seq::empty()
    } else {
        all_triangles(list.drop_last()) + triangles(list.last())
    }
}

/// Adds to `vertices` the two triangles that cover the rectangle of `item`.
pub fn paint_item(vertices: &mut Vec<Vertex>, item: &SolidColor)
    requires
        has_far_corner(item.rect),
    ensures
        final(vertices)@ == old(vertices)@ + triangles(*item),
{
    let x0 = item.rect.x;
    let y0 = item.rect.y;
    let x1 = item.rect.x + item.rect.width;
    let y1 = item.rect.y + item.rect.height;

    let color = item.color;

    // Triangle 1
    vertices.push(Vertex { x: x0, y: y0, color });
    vertices.push(Vertex { x: x0, y: y1, color });
    vertices.push(Vertex { x: x1, y: y1, color });

    // Triangle 2
    vertices.push(Vertex { x: x1, y: y1, color });
    vertices.push(Vertex { x: x1, y: y0, color });
    vertices.push(Vertex { x: x0, y: y0, color });
}

/// Every rectangle that is filled for a render tree within the range of
/// lengths has its far corner.
pub proof fn display_list_has_corners(render: Rendered)
    requires
        render.bounded(),
    ensures
        forall|i: int|
            0 <= i < display_list(render).len() ==> has_far_corner(
                (#[trigger] display_list(render)[i]).rect,
            ),
    decreases render,
{
    if let Rendered::Block(block) = render {
        display_lists_have_corners(block.children);
        let ground = background(block);
        let edges = borders(block);
        let below = display_lists(block.children);
        let all = display_list(render);
        assert(all == ground + edges + below);
        block.dimensions.bounded_has_boxes();
        assert forall|i: int| 0 <= i < all.len() implies has_far_corner((#[trigger] all[i]).rect) by {
            if i < ground.len() {
                assert(all[i] == ground[i]);
            } else if i < ground.len() + edges.len() {
                let j = i - ground.len();
                assert(all[i] == edges[j]);
                let color = block.border_color->0;
                assert(edges == border_rects(block.dimensions, color));
                assert(0 <= j < 4);
            } else {
                assert(all[i] == below[i - ground.len() - edges.len()]);
            }
        }
    }
}

/// The same of several render trees.
proof fn display_lists_have_corners(renders: Seq<Rendered>)
    requires
        forall|i: int| 0 <= i < renders.len() ==> (#[trigger] renders[i]).bounded(),
    ensures
        forall|i: int|
            0 <= i < display_lists(renders).len() ==> has_far_corner(
                (#[trigger] display_lists(renders)[i]).rect,
            ),
    decreases renders,
{
    if renders.len() > 0 {
        assert forall|i: int| 0 <= i < renders.drop_last().len() implies (
        #[trigger] renders.drop_last()[i]).bounded() by {
            assert(renders.drop_last()[i] == renders[i]);
        }
        display_lists_have_corners(renders.drop_last());
        assert(renders[renders.len() - 1].bounded());
        display_list_has_corners(renders.last());
        let before = display_lists(renders.drop_last());
        let last = display_list(renders.last());
        let all = display_lists(renders);
        assert(all == before + last);
        assert forall|i: int| 0 <= i < all.len() implies has_far_corner((#[trigger] all[i]).rect) by {
            if i < before.len() {
                assert(all[i] == before[i]);
            } else {
                assert(all[i] == last[i - before.len()]);
            }
        }
    }
}

/// The triangles that the canvas is drawn with: two for each rectangle of
/// its display list, in the order of that list.
pub fn generate_vertices(canvas: &Canvas) -> (vertices: Vec<Vertex>)
    requires
        canvas.render_tree.root@.bounded(),
    ensures
        vertices@ == all_triangles(display_list(canvas.render_tree.root@)),
{
    let mut vertices = Vec::new();
    let display_list = build_display_list(&canvas.render_tree.root);
    proof {
        display_list_has_corners(canvas.render_tree.root@);
    }
    let mut k: usize = 0;
    while k < display_list.len()
        invariant
            k <= display_list@.len(),
            vertices@ == all_triangles(display_list@.take(k as int)),
            forall|i: int|
                0 <= i < display_list@.len() ==> has_far_corner((#[trigger] display_list@[i]).rect),
        decreases display_list@.len() - k,
    {
        assert(display_list@.take(k + 1).drop_last() =~= display_list@.take(k as int));
        paint_item(&mut vertices, &display_list[k]);
        k = k + 1;
    }
    assert(display_list@.take(k as int) =~= display_list@);
    vertices
}

/// A key of the keyboard.
#[derive(Clone, Copy, Debug, PartialEq, Eq, Structural)]
pub enum Key {
    P,
    Other,
}

/// What happened to the window.
#[derive(Clone, Copy, Debug, PartialEq, Eq, Structural)]
pub enum WindowEvent {
    CloseRequested,
    /// The window has a new size: width, then height.
    Resized(u32, u32),
    /// The scale factor changed, and with it the size: width, then height.
    ScaleFactorChanged(u32, u32),
    KeyPressed(Key),
    RedrawRequested,
    Other,
}

/// What the window does next.
#[derive(Clone, Copy, Debug, PartialEq, Eq, Structural)]
pub enum Action {
    Exit,
    /// Lay the document out anew for this size: width, then height.
    Resize(u32, u32),
    PrintPdf,
    Render,
    Ignore,
}

/// What the window does when `event` happens: it closes when asked to,
/// follows a new size, prints on the key `P` and draws when asked to.
pub open spec fn reaction(event: WindowEvent) -> Action {
    match event {
        WindowEvent::CloseRequested => Action::Exit,
        WindowEvent::Resized(width, height) => Action::Resize(width, height),
        WindowEvent::ScaleFactorChanged(width, height) => Action::Resize(width, height),
        WindowEvent::KeyPressed(Key::P) => Action::PrintPdf,
        WindowEvent::RedrawRequested => Action::Render,
        _ => Action::Ignore,
    }
}

/// What the window does when `event` happens.
pub fn on_event(event: WindowEvent) -> (action: Action)
    ensures
        action == reaction(event),
{
    match event {
        WindowEvent::CloseRequested => Action::Exit,
        WindowEvent::Resized(width, height) => Action::Resize(width, height),
        WindowEvent::ScaleFactorChanged(width, height) => Action::Resize(width, height),
        WindowEvent::KeyPressed(Key::P) => Action::PrintPdf,
        WindowEvent::RedrawRequested => Action::Render,
        _ => Action::Ignore,
    }
}

} // verus!
