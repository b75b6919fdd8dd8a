use robinson::css::{Color, Declaration, Rule, Selector, SimpleSelector, StyleSheet, Unit, Value};
use robinson::dom::{AttrMap, Node};
use robinson::layout::{Dimensions, EdgeSizes, Rect};
use robinson::paint::{build_display_list, make_background, make_border, render_layout_box};
use robinson::paint::{Canvas, DisplayList, SolidColor};
use robinson::render::{RenderBlockBox, RenderBox, RenderTree};
use robinson::style::StyleNode;

const WHITE: Color = Color { r: 255, g: 255, b: 255, a: 255 };
const RED: Color = Color { r: 255, g: 0, b: 0, a: 255 };
const GREEN: Color = Color { r: 0, g: 128, b: 0, a: 255 };
const BLUE: Color = Color { r: 0, g: 0, b: 255, a: 255 };
const BLACK: Color = Color { r: 0, g: 0, b: 0, a: 255 };

fn element(id: &str, children: Vec<Node>) -> Node {
    let mut map = AttrMap::new();
    map.insert("id".to_string(), id.to_string());
    Node::new_element("div".to_string(), map, children)
}

fn px(amount: i64) -> Value {
    Value::Length(amount, Unit::Px)
}

fn keyword(word: &str) -> Value {
    Value::Keyword(word.to_string())
}

fn rule(id: &str, declarations: Vec<(&str, Value)>) -> Rule {
    Rule {
        selectors: vec![Selector::Simple(SimpleSelector {
            tag_name: None,
            id: Some(id.to_string()),
            class: vec![],
        })],
        declarations: declarations
            .into_iter()
            .map(|(name, value)| Declaration { name: name.to_string(), value })
            .collect(),
    }
}

fn block(id: &str, mut declarations: Vec<(&str, Value)>) -> Rule {
    declarations.push(("display", keyword("block")));
    rule(id, declarations)
}

fn render(document: &Node, rules: Vec<Rule>, width: i64) -> RenderTree {
    let sheets = vec![StyleSheet { rules }];
    let styled = StyleNode::new(document, &sheets);
    let mut viewport = Dimensions {
        content: Rect { x: 0, y: 0, width, height: 600 },
        padding: EdgeSizes::default(),
        border: EdgeSizes::default(),
        margin: EdgeSizes::default(),
    };
    RenderTree::new(&styled, &mut viewport).unwrap()
}

fn fill(x: i64, y: i64, width: i64, height: i64, color: Color) -> SolidColor {
    SolidColor { rect: Rect { x, y, width, height }, color }
}

fn all(edge: i64) -> EdgeSizes {
    EdgeSizes { left: edge, right: edge, top: edge, bottom: edge }
}

fn painted(dimensions: Dimensions, background: Option<Color>, border: Option<Color>) -> RenderBlockBox {
    RenderBlockBox {
        dimensions,
        color: None,
        background_color: background,
        border_color: border,
        children: vec![],
    }
}

#[test]
fn box_with_padding_border_and_background_is_painted_by_five_fills() {
    let dimensions = Dimensions {
        content: Rect { x: 100, y: 200, width: 100, height: 50 },
        padding: all(10),
        border: all(5),
        margin: all(40),
    };
    let list = build_display_list(&RenderBox::Block(painted(dimensions, Some(RED), Some(BLACK))));
    assert_eq!(
        list,
        vec![
            fill(85, 185, 130, 80, RED),
            fill(85, 185, 5, 80, BLACK),
            fill(210, 185, 5, 80, BLACK),
            fill(85, 185, 130, 5, BLACK),
            fill(85, 260, 130, 5, BLACK),
        ]
    );
}

#[test]
fn styled_box_is_painted_by_five_fills() {
    let document = element("a", vec![]);
    let rules = vec![block(
        "a",
        vec![
            ("width", px(100)),
            ("height", px(50)),
            ("padding", px(10)),
            ("border-width", px(5)),
            ("border-color", Value::Color(BLACK)),
            ("background", Value::Color(RED)),
        ],
    )];
    let tree = render(&document, rules, 800);
    assert_eq!(
        build_display_list(&tree.root),
        vec![
            fill(0, 0, 130, 80, RED),
            fill(0, 0, 5, 80, BLACK),
            fill(125, 0, 5, 80, BLACK),
            fill(0, 0, 130, 5, BLACK),
            fill(0, 75, 130, 5, BLACK),
        ]
    );
}

#[test]
fn borders_are_as_thick_as_their_side() {
    let dimensions = Dimensions {
        content: Rect { x: 20, y: 30, width: 40, height: 10 },
        padding: EdgeSizes { left: 1, right: 2, top: 3, bottom: 4 },
        border: EdgeSizes { left: 5, right: 6, top: 7, bottom: 8 },
        margin: all(0),
    };
    let mut list: DisplayList = vec![fill(0, 0, 1, 1, GREEN)];
    make_border(&mut list, &painted(dimensions, None, None), BLUE);
    assert_eq!(
        list,
        vec![
            fill(0, 0, 1, 1, GREEN),
            fill(14, 20, 5, 32, BLUE),
            fill(62, 20, 6, 32, BLUE),
            fill(14, 20, 54, 7, BLUE),
            fill(14, 44, 54, 8, BLUE),
        ]
    );
}

#[test]
fn background_is_the_border_box_if_there_is_a_colour() {
    let dimensions = Dimensions {
        content: Rect { x: 20, y: 30, width: 40, height: 10 },
        padding: all(2),
        border: all(3),
        margin: all(4),
    };
    let mut list: DisplayList = vec![];
    make_background(&mut list, &painted(dimensions, None, Some(BLUE)));
    assert!(list.is_empty());
    make_background(&mut list, &painted(dimensions, Some(GREEN), None));
    assert_eq!(list, vec![fill(15, 25, 50, 20, GREEN)]);
}

#[test]
fn box_without_colours_paints_nothing() {
    let dimensions = Dimensions {
        content: Rect { x: 0, y: 0, width: 10, height: 10 },
        padding: all(1),
        border: all(1),
        margin: all(1),
    };
    assert!(build_display_list(&RenderBox::Block(painted(dimensions, None, None))).is_empty());
    assert!(build_display_list(&RenderBox::Inline).is_empty());
    assert!(build_display_list(&RenderBox::Anonymous).is_empty());
}

#[test]
fn parents_are_painted_before_children_and_children_in_their_order() {
    let document = element(
        "a",
        vec![
            element("b", vec![element("c", vec![])]),
            Node::new_text("text".to_string()),
            element("d", vec![]),
        ],
    );
    let rules = vec![
        block("a", vec![("background", Value::Color(WHITE)), ("padding", px(1))]),
        block("b", vec![("border-color", Value::Color(BLACK)), ("border-width", px(1))]),
        block("c", vec![("background", Value::Color(RED)), ("height", px(10))]),
        block("d", vec![("background", Value::Color(BLUE)), ("height", px(5))]),
    ];
    let tree = render(&document, rules, 100);
    assert_eq!(
        build_display_list(&tree.root),
        vec![
            fill(0, 0, 100, 19, WHITE),
            fill(1, 1, 1, 12, BLACK),
            fill(98, 1, 1, 12, BLACK),
            fill(1, 1, 98, 1, BLACK),
            fill(1, 12, 98, 1, BLACK),
            fill(2, 2, 96, 10, RED),
            fill(1, 13, 98, 5, BLUE),
        ]
    );
}

#[test]
fn hidden_element_paints_nothing_and_neither_does_what_is_below_it() {
    let document = element("a", vec![element("gone", vec![element("c", vec![])]), element("d", vec![])]);
    let rules = vec![
        block("a", vec![]),
        rule(
            "gone",
            vec![("display", keyword("none")), ("background", Value::Color(RED)), ("height", px(9))],
        ),
        block("c", vec![("background", Value::Color(GREEN)), ("height", px(9))]),
        block("d", vec![("background", Value::Color(BLUE)), ("height", px(5))]),
    ];
    let tree = render(&document, rules, 100);
    assert_eq!(build_display_list(&tree.root), vec![fill(0, 0, 100, 5, BLUE)]);
}

#[test]
fn display_list_is_added_behind_what_is_there() {
    let dimensions = Dimensions {
        content: Rect { x: 0, y: 0, width: 10, height: 10 },
        padding: all(0),
        border: all(0),
        margin: all(0),
    };
    let mut list: DisplayList = vec![fill(1, 2, 3, 4, GREEN)];
    render_layout_box(&mut list, &RenderBox::Block(painted(dimensions, Some(RED), None)));
    render_layout_box(&mut list, &RenderBox::Inline);
    assert_eq!(list, vec![fill(1, 2, 3, 4, GREEN), fill(0, 0, 10, 10, RED)]);
}

fn canvas_of(fills: Vec<SolidColor>, width: usize, height: usize) -> Canvas {
    // Each fill as the background of a block without edges.
    let children = fills
        .into_iter()
        .map(|item| {
            RenderBox::Block(painted(
                Dimensions {
                    content: item.rect,
                    padding: all(0),
                    border: all(0),
                    margin: all(0),
                },
                Some(item.color),
                None,
            ))
        })
        .collect();
    let root = RenderBox::Block(RenderBlockBox {
        dimensions: Dimensions::default(),
        color: None,
        background_color: None,
        border_color: None,
        children,
    });
    Canvas::new(RenderTree { root }, width, height)
}

fn rows(pixels: &[Color], width: usize) -> Vec<String> {
    pixels
        .chunks(width)
        .map(|row| {
            row.iter()
                .map(|c| match *c {
                    WHITE => '.',
                    RED => 'r',
                    GREEN => 'g',
                    BLUE => 'b',
                    _ => '?',
                })
                .collect()
        })
        .collect()
}

#[test]
fn canvas_holds_what_it_is_given() {
    let canvas = Canvas::new(RenderTree { root: RenderBox::Inline }, 7, 9);
    assert_eq!(canvas.width, 7);
    assert_eq!(canvas.height, 9);
    assert_eq!(canvas.render_tree, RenderTree { root: RenderBox::Inline });
}

#[test]
fn empty_canvas_is_white() {
    let mut canvas = Canvas::new(RenderTree { root: RenderBox::Inline }, 3, 2);
    assert_eq!(canvas.get_pixels(), vec![WHITE; 6]);
    let mut canvas = Canvas::new(RenderTree { root: RenderBox::Inline }, 0, 5);
    assert!(canvas.get_pixels().is_empty());
}

#[test]
fn later_fills_cover_earlier_ones() {
    let mut canvas =
        canvas_of(vec![fill(0, 0, 3, 2, RED), fill(1, 1, 3, 2, GREEN), fill(2, 0, 1, 4, BLUE)], 5, 4);
    let pixels = canvas.get_pixels();
    assert_eq!(pixels.len(), 20);
    assert_eq!(rows(&pixels, 5), vec!["rrb..", "rgbg.", ".gbg.", "..b.."]);
    assert_eq!(canvas.width, 5);
    assert_eq!(canvas.height, 4);
}

#[test]
fn fills_are_cut_down_to_the_surface() {
    let mut canvas = canvas_of(
        vec![fill(-2, -1, 4, 3, RED), fill(3, 2, 10, 10, GREEN), fill(-5, -5, 2, 2, BLUE)],
        4,
        3,
    );
    assert_eq!(rows(&canvas.get_pixels(), 4), vec!["rr..", "rr..", "...g"]);
}

#[test]
fn fills_far_outside_the_surface_paint_nothing() {
    let mut canvas = Canvas::new(RenderTree { root: RenderBox::Inline }, 2, 2);
    let mut pixels = vec![WHITE; 4];
    canvas.paint_item(&mut pixels, &fill(i64::MIN, i64::MIN, i64::MAX, i64::MAX, RED));
    assert_eq!(rows(&pixels, 2), vec!["..", ".."]);
    canvas.paint_item(&mut pixels, &fill(i64::MAX, i64::MAX, i64::MAX, i64::MAX, RED));
    assert_eq!(rows(&pixels, 2), vec!["..", ".."]);
    canvas.paint_item(&mut pixels, &fill(i64::MIN, 1, i64::MAX, i64::MAX, RED));
    assert_eq!(rows(&pixels, 2), vec!["..", ".."]);
    canvas.paint_item(&mut pixels, &fill(-1, -1, i64::MAX, i64::MAX, BLUE));
    assert_eq!(rows(&pixels, 2), vec!["bb", "bb"]);
}

#[test]
fn fills_without_area_paint_nothing() {
    let mut canvas = canvas_of(
        vec![fill(1, 1, 0, 2, RED), fill(1, 1, 2, 0, RED), fill(2, 2, -2, -2, RED)],
        3,
        3,
    );
    assert_eq!(rows(&canvas.get_pixels(), 3), vec!["...", "...", "..."]);
}

#[test]
fn paint_item_fills_one_rectangle() {
    let mut canvas = Canvas::new(RenderTree { root: RenderBox::Inline }, 3, 3);
    let mut pixels = vec![WHITE; 9];
    canvas.paint_item(&mut pixels, &fill(1, 0, 1, 3, BLUE));
    assert_eq!(rows(&pixels, 3), vec![".b.", ".b.", ".b."]);
    canvas.paint_item(&mut pixels, &fill(0, 1, 5, 1, RED));
    assert_eq!(rows(&pixels, 3), vec![".b.", "rrr", ".b."]);
}
