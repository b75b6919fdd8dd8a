use robinson::css::{Color, Declaration, Rule, Selector, SimpleSelector, StyleSheet, Unit, Value};
use robinson::css::MAX_LENGTH;
use robinson::dom::{AttrMap, Node};
use robinson::error::Error;
use robinson::layout::{build_layout_tree, BoxType, Dimensions, EdgeSizes, LayoutBox, Rect};
use robinson::render::{RenderBlockBox, RenderBox, RenderTree};
use robinson::style::StyleNode;

fn element(tag: &str, attrs: &[(&str, &str)], children: Vec<Node>) -> Node {
    let mut map = AttrMap::new();
    for (name, value) in attrs {
        map.insert(name.to_string(), value.to_string());
    }
    Node::new_element(tag.to_string(), map, children)
}

fn text(content: &str) -> Node {
    Node::new_text(content.to_string())
}

fn px(amount: i64) -> Value {
    Value::Length(amount, Unit::Px)
}

fn keyword(word: &str) -> Value {
    Value::Keyword(word.to_string())
}

fn auto() -> Value {
    keyword("auto")
}

/// A rule for the elements with the given id.
fn rule(id: &str, declarations: Vec<(&str, Value)>) -> Rule {
    Rule {
        selectors: vec![Selector::Simple(SimpleSelector {
            tag_name: None,
            id: Some(id.to_string()),
            class: vec![],
        })],
        declarations: declarations
            .into_iter()
            .map(|(name, value)| Declaration { name: name.to_string(), value })
            .collect(),
    }
}

/// A block with the given id.
fn block(id: &str, mut declarations: Vec<(&str, Value)>) -> Rule {
    declarations.push(("display", keyword("block")));
    rule(id, declarations)
}

fn sheets(rules: Vec<Rule>) -> Vec<StyleSheet> {
    vec![StyleSheet { rules }]
}

fn viewport(width: i64, height: i64) -> Dimensions {
    Dimensions {
        content: Rect { x: 0, y: 0, width, height },
        padding: EdgeSizes::default(),
        border: EdgeSizes::default(),
        margin: EdgeSizes::default(),
    }
}

fn edges(left: i64, right: i64, top: i64, bottom: i64) -> EdgeSizes {
    EdgeSizes { left, right, top, bottom }
}

fn render(document: &Node, rules: Vec<Rule>, width: i64) -> Result<RenderTree, Error> {
    let sheets = sheets(rules);
    let styled = StyleNode::new(document, &sheets);
    let mut viewport = viewport(width, 600);
    let tree = RenderTree::new(&styled, &mut viewport);
    assert_eq!(viewport, self::viewport(width, 600));
    tree
}

fn as_block(render: &RenderBox) -> &RenderBlockBox {
    match render {
        RenderBox::Block(block) => block,
        other => panic!("not a block: {:?}", other),
    }
}

/// The dimensions of a lone block with these declarations in a viewport of
/// the given width.
fn lone(declarations: Vec<(&str, Value)>, width: i64) -> Result<Dimensions, Error> {
    let document = element("div", &[("id", "a")], vec![]);
    render(&document, vec![block("a", declarations)], width)
        .map(|tree| as_block(&tree.root).dimensions)
}

fn fills(d: &Dimensions, containing: i64) -> bool {
    d.margin.left + d.border.left + d.padding.left + d.content.width + d.padding.right
        + d.border.right + d.margin.right == containing
}

#[test]
fn auto_width_without_margins_fills_the_containing_block() {
    let d = lone(vec![], 800).unwrap();
    assert_eq!(d.content, Rect { x: 0, y: 0, width: 800, height: 0 });
    assert_eq!(d.margin, EdgeSizes::default());
    assert_eq!(d.border, EdgeSizes::default());
    assert_eq!(d.padding, EdgeSizes::default());
}

#[test]
fn auto_width_takes_what_the_edges_leave() {
    let d = lone(
        vec![("margin-left", px(10)), ("padding", px(5)), ("border-width", px(2))],
        800,
    )
    .unwrap();
    assert_eq!(d.content, Rect { x: 17, y: 7, width: 776, height: 0 });
    assert_eq!(d.margin, edges(10, 0, 0, 0));
    assert_eq!(d.border, edges(2, 2, 2, 2));
    assert_eq!(d.padding, edges(5, 5, 5, 5));
    assert!(fills(&d, 800));
}

#[test]
fn side_properties_come_before_the_shorthand() {
    let d = lone(
        vec![
            ("padding", px(10)),
            ("padding-left", px(3)),
            ("padding-bottom", px(4)),
            ("margin", px(1)),
            ("margin-top", px(6)),
            ("border-width", px(2)),
            ("border-right-width", px(7)),
            ("border-top-width", px(8)),
        ],
        800,
    )
    .unwrap();
    assert_eq!(d.padding, edges(3, 10, 10, 4));
    assert_eq!(d.margin, edges(1, 1, 6, 1));
    assert_eq!(d.border, edges(2, 7, 8, 2));
    assert_eq!(d.content, Rect { x: 6, y: 24, width: 776, height: 0 });
    assert!(fills(&d, 800));
}

#[test]
fn with_nothing_auto_the_right_margin_takes_the_rest() {
    let d = lone(vec![("width", px(100)), ("margin", px(10))], 800).unwrap();
    assert_eq!(d.content, Rect { x: 10, y: 10, width: 100, height: 0 });
    assert_eq!(d.margin, edges(10, 690, 10, 10));
    assert!(fills(&d, 800));
}

#[test]
fn a_block_that_is_too_wide_gets_a_negative_right_margin() {
    let d = lone(vec![("width", px(900)), ("margin-left", px(20))], 800).unwrap();
    assert_eq!(d.content.width, 900);
    assert_eq!(d.margin, edges(20, -120, 0, 0));
    assert!(fills(&d, 800));
}

#[test]
fn an_auto_right_margin_takes_the_rest() {
    let d = lone(
        vec![("width", px(100)), ("margin-left", px(10)), ("margin-right", auto())],
        800,
    )
    .unwrap();
    assert_eq!(d.content.width, 100);
    assert_eq!(d.margin, edges(10, 690, 0, 0));
    assert_eq!(d.content.x, 10);
}

#[test]
fn an_auto_left_margin_takes_the_rest() {
    let d = lone(
        vec![("width", px(100)), ("margin-left", auto()), ("margin-right", px(10))],
        800,
    )
    .unwrap();
    assert_eq!(d.content.width, 100);
    assert_eq!(d.margin, edges(690, 10, 0, 0));
    assert_eq!(d.content.x, 690);
}

#[test]
fn two_auto_margins_share_the_rest() {
    let d = lone(vec![("width", px(100)), ("margin", auto())], 800).unwrap();
    assert_eq!(d.margin, edges(350, 350, 0, 0));
    assert_eq!(d.content, Rect { x: 350, y: 0, width: 100, height: 0 });

    let d = lone(vec![("width", px(100)), ("margin", auto())], 801).unwrap();
    assert_eq!(d.margin, edges(350, 351, 0, 0));
    assert!(fills(&d, 801));
}

#[test]
fn auto_margins_of_a_block_that_is_too_wide_are_zero() {
    let d = lone(vec![("width", px(900)), ("margin", auto())], 800).unwrap();
    assert_eq!(d.content.width, 900);
    assert_eq!(d.margin, edges(0, -100, 0, 0));

    let d = lone(
        vec![("width", px(900)), ("margin-left", auto()), ("margin-right", px(5))],
        800,
    )
    .unwrap();
    assert_eq!(d.margin, edges(0, -100, 0, 0));
    assert!(fills(&d, 800));
}

#[test]
fn auto_margins_beside_an_auto_width_are_zero() {
    let d = lone(vec![("margin", auto()), ("padding", px(4))], 800).unwrap();
    assert_eq!(d.margin, edges(0, 0, 0, 0));
    assert_eq!(d.content, Rect { x: 4, y: 4, width: 792, height: 0 });

    let d = lone(vec![("width", auto()), ("margin-left", auto())], 800).unwrap();
    assert_eq!(d.margin, edges(0, 0, 0, 0));
    assert_eq!(d.content.width, 800);
}

#[test]
fn an_auto_width_is_never_negative() {
    let d = lone(vec![("padding-left", px(500)), ("padding-right", px(500))], 800).unwrap();
    assert_eq!(d.content.width, 0);
    assert_eq!(d.margin, edges(0, -200, 0, 0));
    assert_eq!(d.padding, edges(500, 500, 0, 0));
    assert!(fills(&d, 800));

    let d = lone(
        vec![("padding-left", px(900)), ("margin-right", px(30)), ("margin-left", auto())],
        800,
    )
    .unwrap();
    assert_eq!(d.content.width, 0);
    assert_eq!(d.margin, edges(0, -100, 0, 0));
}

#[test]
fn a_negative_width_is_taken_as_it_is() {
    let d = lone(vec![("width", px(-50))], 800).unwrap();
    assert_eq!(d.content.width, -50);
    assert_eq!(d.margin, edges(0, 850, 0, 0));
}

#[test]
fn children_stack_below_each_other() {
    let document = element(
        "div",
        &[("id", "parent")],
        vec![element("div", &[("id", "one")], vec![]), element("div", &[("id", "two")], vec![])],
    );
    let rules = vec![
        block("parent", vec![("padding", px(10))]),
        block("one", vec![("height", px(30)), ("margin-top", px(5)), ("margin-bottom", px(5))]),
        block("two", vec![("height", px(50)), ("border-width", px(1))]),
    ];
    let tree = render(&document, rules, 800).unwrap();
    let parent = as_block(&tree.root);
    assert_eq!(parent.dimensions.content, Rect { x: 10, y: 10, width: 780, height: 92 });
    assert_eq!(parent.dimensions.padding, edges(10, 10, 10, 10));
    assert_eq!(parent.children.len(), 2);

    let one = as_block(&parent.children[0]);
    assert_eq!(one.dimensions.content, Rect { x: 10, y: 15, width: 780, height: 30 });
    assert_eq!(one.dimensions.margin, edges(0, 0, 5, 5));
    assert!(one.children.is_empty());

    let two = as_block(&parent.children[1]);
    assert_eq!(two.dimensions.content, Rect { x: 11, y: 51, width: 778, height: 50 });
    assert_eq!(two.dimensions.border, edges(1, 1, 1, 1));

    assert!(fills(&parent.dimensions, 800));
    assert!(fills(&one.dimensions, 780));
    assert!(fills(&two.dimensions, 780));
}

#[test]
fn every_block_fills_the_content_around_it() {
    let document = element(
        "div",
        &[("id", "a")],
        vec![element(
            "div",
            &[("id", "b")],
            vec![element("div", &[("id", "c")], vec![]), element("div", &[("id", "d")], vec![])],
        )],
    );
    let rules = vec![
        block("a", vec![("width", px(500)), ("margin", auto()), ("padding", px(3))]),
        block("b", vec![("margin-left", px(-20)), ("border-width", px(4))]),
        block("c", vec![("width", px(1000)), ("margin-left", auto())]),
        block("d", vec![("width", px(101)), ("margin", auto()), ("height", px(9))]),
    ];
    let tree = render(&document, rules, 1001).unwrap();
    let a = as_block(&tree.root);
    let b = as_block(&a.children[0]);
    let c = as_block(&b.children[0]);
    let d = as_block(&b.children[1]);
    assert!(fills(&a.dimensions, 1001));
    assert!(fills(&b.dimensions, a.dimensions.content.width));
    assert!(fills(&c.dimensions, b.dimensions.content.width));
    assert!(fills(&d.dimensions, b.dimensions.content.width));
    assert_eq!(a.dimensions.content.width, 500);
    assert_eq!(a.dimensions.margin, edges(247, 248, 0, 0));
    assert_eq!(b.dimensions.content.width, 512);
    assert_eq!(c.dimensions.margin, edges(0, -488, 0, 0));
    assert_eq!(d.dimensions.margin, edges(205, 206, 0, 0));
    assert_eq!(d.dimensions.content, Rect { x: 439, y: 7, width: 101, height: 9 });
    assert_eq!(b.dimensions.content.height, 9);
    assert_eq!(a.dimensions.content.height, 17);
}

#[test]
fn a_height_in_pixels_overrides_what_the_children_take() {
    let document = element("div", &[("id", "parent")], vec![element("div", &[("id", "one")], vec![])]);
    let child = || block("one", vec![("height", px(50))]);
    let tree = render(&document, vec![block("parent", vec![("height", px(20))]), child()], 800)
        .unwrap();
    assert_eq!(as_block(&tree.root).dimensions.content.height, 20);
    assert_eq!(as_block(&as_block(&tree.root).children[0]).dimensions.content.height, 50);

    let tree = render(&document, vec![block("parent", vec![]), child()], 800).unwrap();
    assert_eq!(as_block(&tree.root).dimensions.content.height, 50);

    let tree = render(&document, vec![block("parent", vec![("height", px(0))]), child()], 800)
        .unwrap();
    assert_eq!(as_block(&tree.root).dimensions.content.height, 0);
}

#[test]
fn a_height_that_is_no_pixel_length_leaves_the_height_to_the_children() {
    let document = element("div", &[("id", "parent")], vec![element("div", &[("id", "one")], vec![])]);
    let child = || block("one", vec![("height", px(50))]);
    for height in [auto(), keyword("tall"), Value::Length(20, Unit::Unrecognized)] {
        let tree =
            render(&document, vec![block("parent", vec![("height", height)]), child()], 800)
                .unwrap();
        assert_eq!(as_block(&tree.root).dimensions.content.height, 50);
    }
}

#[test]
fn the_viewport_counts_as_empty_and_is_left_as_it_was() {
    let document = element("div", &[("id", "a")], vec![]);
    let sheets = sheets(vec![block("a", vec![("margin-top", px(3))])]);
    let styled = StyleNode::new(&document, &sheets);
    let mut viewport = Dimensions {
        content: Rect { x: 40, y: 60, width: 300, height: 200 },
        padding: edges(1, 2, 3, 4),
        border: edges(5, 6, 7, 8),
        margin: edges(9, 10, 11, 12),
    };
    let before = viewport;
    let tree = RenderTree::new(&styled, &mut viewport).unwrap();
    assert_eq!(viewport, before);
    assert_eq!(
        as_block(&tree.root).dimensions.content,
        Rect { x: 40, y: 63, width: 300, height: 0 }
    );
}

#[test]
fn only_the_geometry_of_the_boxes_must_lie_within_the_range() {
    let document = element("div", &[("id", "a")], vec![]);
    let sheets = sheets(vec![block(
        "a",
        vec![("margin-left", px(-MAX_LENGTH)), ("margin-top", px(-5)), ("width", px(10))],
    )]);
    let styled = StyleNode::new(&document, &sheets);
    let mut viewport = Dimensions {
        content: Rect { x: 2 * MAX_LENGTH, y: MAX_LENGTH + 5, width: 0, height: i64::MAX },
        padding: edges(i64::MAX, i64::MIN, 0, 0),
        border: edges(0, 0, i64::MAX, i64::MIN),
        margin: edges(i64::MIN, i64::MIN, i64::MIN, i64::MIN),
    };
    let tree = RenderTree::new(&styled, &mut viewport).unwrap();
    let d = as_block(&tree.root).dimensions;
    assert_eq!(d.content, Rect { x: MAX_LENGTH, y: MAX_LENGTH, width: 10, height: 0 });
    assert_eq!(d.margin, edges(-MAX_LENGTH, MAX_LENGTH - 10, -5, 0));

    viewport.content.y = MAX_LENGTH + 6;
    assert_eq!(RenderTree::new(&styled, &mut viewport), Err(Error::Overflow));
    viewport.content.y = i64::MAX;
    assert_eq!(RenderTree::new(&styled, &mut viewport), Err(Error::Overflow));
    viewport.content.y = 0;
    viewport.content.width = i64::MIN;
    assert_eq!(RenderTree::new(&styled, &mut viewport), Err(Error::Overflow));
}

#[test]
fn a_value_that_is_no_length_is_an_error() {
    assert_eq!(lone(vec![("width", keyword("wide"))], 800), Err(Error::InvalidLength));
    assert_eq!(
        lone(vec![("padding-left", Value::Color(Color { r: 1, g: 2, b: 3, a: 4 }))], 800),
        Err(Error::InvalidLength)
    );
    assert_eq!(lone(vec![("margin", keyword("none"))], 800), Err(Error::InvalidLength));
    assert_eq!(lone(vec![("border-width", keyword("thin"))], 800), Err(Error::InvalidLength));
    assert_eq!(lone(vec![("padding-top", keyword("x"))], 800), Err(Error::InvalidLength));
    assert_eq!(lone(vec![("margin-bottom", keyword("x"))], 800), Err(Error::InvalidLength));
}

#[test]
fn a_length_in_another_unit_is_an_error() {
    let em = |amount| Value::Length(amount, Unit::Unrecognized);
    assert_eq!(lone(vec![("width", em(10))], 800), Err(Error::InvalidUnit));
    assert_eq!(lone(vec![("margin-left", em(0))], 800), Err(Error::InvalidUnit));
    assert_eq!(lone(vec![("border-bottom-width", em(1))], 800), Err(Error::InvalidUnit));
    assert_eq!(lone(vec![("padding", em(1))], 800), Err(Error::InvalidUnit));
}

#[test]
fn the_first_value_that_fails_gives_the_error() {
    let em = Value::Length(1, Unit::Unrecognized);
    assert_eq!(
        lone(vec![("margin-left", em.clone()), ("width", keyword("wide"))], 800),
        Err(Error::InvalidLength)
    );
    assert_eq!(
        lone(vec![("margin-left", em.clone()), ("margin-right", keyword("x"))], 800),
        Err(Error::InvalidUnit)
    );
    assert_eq!(
        lone(vec![("padding-top", em.clone()), ("padding-right", keyword("x"))], 800),
        Err(Error::InvalidLength)
    );
    assert_eq!(
        lone(vec![("padding-top", em.clone()), ("margin-top", px(MAX_LENGTH + 1))], 800),
        Err(Error::Overflow)
    );
    // The widths are settled before the vertical sizes are looked up.
    assert_eq!(
        lone(
            vec![("width", px(MAX_LENGTH)), ("padding-left", px(900)), ("margin-top", em.clone())],
            800
        ),
        Err(Error::Overflow)
    );
    // The vertical sizes are looked up before the block is placed.
    assert_eq!(
        lone(
            vec![
                ("margin-left", px(MAX_LENGTH)),
                ("padding-left", px(MAX_LENGTH)),
                ("padding-right", px(-MAX_LENGTH)),
                ("border-right-width", px(-MAX_LENGTH)),
                ("margin-top", em),
            ],
            800
        ),
        Err(Error::InvalidUnit)
    );
}

#[test]
fn an_error_below_the_root_fails_the_whole_layout() {
    let document = element(
        "div",
        &[("id", "a")],
        vec![element("div", &[("id", "b")], vec![]), element("div", &[("id", "c")], vec![])],
    );
    let rules = vec![
        block("a", vec![]),
        block("b", vec![("height", px(5))]),
        block("c", vec![("width", keyword("wide"))]),
    ];
    assert_eq!(render(&document, rules, 800), Err(Error::InvalidLength));
}

#[test]
fn lengths_beyond_the_range_are_an_error() {
    assert_eq!(lone(vec![("width", px(MAX_LENGTH + 1))], 800), Err(Error::Overflow));
    assert_eq!(lone(vec![("margin-left", px(-MAX_LENGTH - 1))], 800), Err(Error::Overflow));
    assert_eq!(lone(vec![("height", px(MAX_LENGTH + 1))], 800), Err(Error::Overflow));
    assert_eq!(lone(vec![("height", px(i64::MIN))], 800), Err(Error::Overflow));
    assert_eq!(lone(vec![("padding-top", px(i64::MAX))], 800), Err(Error::Overflow));
    assert_eq!(lone(vec![], MAX_LENGTH + 1), Err(Error::Overflow));

    let d = lone(vec![("width", px(MAX_LENGTH)), ("height", px(-MAX_LENGTH))], 800).unwrap();
    assert_eq!(d.content, Rect { x: 0, y: 0, width: MAX_LENGTH, height: -MAX_LENGTH });
    assert_eq!(d.margin, edges(0, 800 - MAX_LENGTH, 0, 0));
    assert_eq!(lone(vec![], MAX_LENGTH).unwrap().content.width, MAX_LENGTH);
}

#[test]
fn geometry_that_leaves_the_range_is_an_error() {
    // The right margin would be 800 + MAX_LENGTH.
    assert_eq!(lone(vec![("width", px(-MAX_LENGTH))], 800), Err(Error::Overflow));
    // The width would be 800 + MAX_LENGTH.
    assert_eq!(lone(vec![("margin-left", px(-MAX_LENGTH))], 800), Err(Error::Overflow));
    // The content would begin at 2 * MAX_LENGTH.
    assert_eq!(
        lone(
            vec![
                ("margin-left", px(MAX_LENGTH)),
                ("padding-left", px(MAX_LENGTH)),
                ("padding-right", px(-MAX_LENGTH)),
                ("border-right-width", px(-MAX_LENGTH)),
            ],
            800
        ),
        Err(Error::Overflow)
    );
    let d = lone(
        vec![
            ("margin-left", px(MAX_LENGTH)),
            ("padding-right", px(-MAX_LENGTH)),
        ],
        800,
    )
    .unwrap();
    assert_eq!(d.content, Rect { x: MAX_LENGTH, y: 0, width: 800, height: 0 });
    assert_eq!(
        lone(vec![("margin-top", px(MAX_LENGTH)), ("border-top-width", px(1))], 800),
        Err(Error::Overflow)
    );

    // Two children that are MAX_LENGTH high each.
    let document = element(
        "div",
        &[("id", "a")],
        vec![element("div", &[("id", "b")], vec![]), element("div", &[("id", "c")], vec![])],
    );
    let high = |id| block(id, vec![("height", px(MAX_LENGTH))]);
    assert_eq!(
        render(&document, vec![block("a", vec![]), high("b"), high("c")], 800),
        Err(Error::Overflow)
    );
    let tree = render(&document, vec![block("a", vec![]), high("b")], 800).unwrap();
    assert_eq!(as_block(&tree.root).dimensions.content.height, MAX_LENGTH);
}

#[test]
fn a_hidden_root_is_an_error() {
    let document = element("div", &[("id", "a")], vec![text("unseen")]);
    let rules = vec![rule("a", vec![("display", keyword("none")), ("width", keyword("wide"))])];
    assert_eq!(render(&document, rules, 800), Err(Error::RootDisplayNone));

    let sheets = sheets(vec![rule("a", vec![("display", keyword("none"))])]);
    let styled = StyleNode::new(&document, &sheets);
    assert!(matches!(build_layout_tree(&styled), Err(Error::RootDisplayNone)));
}

#[test]
fn an_inline_root_is_not_laid_out() {
    let document = element("span", &[("id", "a")], vec![element("div", &[("id", "b")], vec![])]);
    let rules = vec![rule("a", vec![("width", keyword("wide"))]), block("b", vec![])];
    assert_eq!(render(&document, rules, 800), Ok(RenderTree { root: RenderBox::Inline }));
    assert_eq!(render(&text("plain"), vec![], 800), Ok(RenderTree { root: RenderBox::Inline }));
}

#[test]
fn three_texts_in_a_block_share_one_anonymous_block() {
    let document = element("div", &[("id", "a")], vec![text("one"), text("two"), text("three")]);
    let sheets = sheets(vec![block("a", vec![])]);
    let styled = StyleNode::new(&document, &sheets);
    let root = build_layout_tree(&styled).ok().unwrap();
    assert!(matches!(root.box_type, BoxType::BlockNode(node) if std::ptr::eq(node, &styled)));
    assert_eq!(root.dimensions, Dimensions::default());
    assert_eq!(root.children.len(), 1);
    let anonymous = &root.children[0];
    assert!(
        matches!(anonymous.box_type, BoxType::AnonymousBlock(node) if std::ptr::eq(node, &styled))
    );
    assert_eq!(anonymous.children.len(), 3);
    for (k, inline) in anonymous.children.iter().enumerate() {
        assert!(matches!(
            inline.box_type,
            BoxType::InlineNode(node) if std::ptr::eq(node, &styled.children[k])
        ));
        assert!(inline.children.is_empty());
    }

    let tree = render(&document, vec![block("a", vec![])], 800).unwrap();
    assert_eq!(as_block(&tree.root).children, vec![RenderBox::Anonymous]);
    assert_eq!(as_block(&tree.root).dimensions.content.height, 0);
}

#[test]
fn a_block_between_inline_nodes_ends_the_anonymous_block() {
    let document = element(
        "div",
        &[("id", "a")],
        vec![
            text("one"),
            element("div", &[("id", "b")], vec![]),
            text("two"),
            element("span", &[], vec![text("three")]),
            element("div", &[("id", "gone")], vec![]),
            text("four"),
        ],
    );
    let sheets =
        sheets(vec![block("a", vec![]), block("b", vec![]), rule("gone", vec![("display", keyword("none"))])]);
    let styled = StyleNode::new(&document, &sheets);
    let root = build_layout_tree(&styled).ok().unwrap();
    assert_eq!(root.children.len(), 3);
    assert!(matches!(root.children[0].box_type, BoxType::AnonymousBlock(_)));
    assert_eq!(root.children[0].children.len(), 1);
    assert!(matches!(
        root.children[1].box_type,
        BoxType::BlockNode(node) if std::ptr::eq(node, &styled.children[1])
    ));
    assert!(matches!(root.children[2].box_type, BoxType::AnonymousBlock(_)));
    let run = &root.children[2].children;
    assert_eq!(run.len(), 3);
    assert!(matches!(run[0].box_type, BoxType::InlineNode(n) if std::ptr::eq(n, &styled.children[2])));
    assert!(matches!(run[1].box_type, BoxType::InlineNode(n) if std::ptr::eq(n, &styled.children[3])));
    assert!(matches!(run[2].box_type, BoxType::InlineNode(n) if std::ptr::eq(n, &styled.children[5])));
    // The text inside the span hangs directly below the span's box.
    assert_eq!(run[1].children.len(), 1);
    assert!(matches!(run[1].children[0].box_type, BoxType::InlineNode(_)));
}

#[test]
fn children_of_an_inline_box_hang_directly_below_it() {
    let document = element(
        "span",
        &[],
        vec![text("one"), element("div", &[("id", "b")], vec![]), text("two")],
    );
    let sheets = sheets(vec![block("b", vec![])]);
    let styled = StyleNode::new(&document, &sheets);
    let root = build_layout_tree(&styled).ok().unwrap();
    assert!(matches!(root.box_type, BoxType::InlineNode(_)));
    assert_eq!(root.children.len(), 3);
    assert!(matches!(root.children[0].box_type, BoxType::InlineNode(_)));
    assert!(matches!(root.children[1].box_type, BoxType::BlockNode(_)));
    assert!(matches!(root.children[2].box_type, BoxType::InlineNode(_)));
}

#[test]
fn a_hidden_element_leaves_no_box_and_neither_does_what_is_below_it() {
    let document = element(
        "div",
        &[("id", "a")],
        vec![
            element("div", &[("id", "b")], vec![]),
            element(
                "div",
                &[("id", "gone")],
                vec![element("div", &[("id", "c")], vec![text("unseen")]), text("unseen too")],
            ),
            element("div", &[("id", "d")], vec![]),
        ],
    );
    let rules = || {
        vec![
            block("a", vec![]),
            block("b", vec![("height", px(10))]),
            rule("gone", vec![("display", keyword("none")), ("height", px(1000))]),
            block("c", vec![("height", px(100)), ("width", keyword("wide"))]),
            block("d", vec![("height", px(20))]),
        ]
    };
    let sheets = sheets(rules());
    let styled = StyleNode::new(&document, &sheets);
    let root = build_layout_tree(&styled).ok().unwrap();
    assert_eq!(root.children.len(), 2);
    assert!(matches!(
        root.children[0].box_type,
        BoxType::BlockNode(node) if std::ptr::eq(node, &styled.children[0])
    ));
    assert!(matches!(
        root.children[1].box_type,
        BoxType::BlockNode(node) if std::ptr::eq(node, &styled.children[2])
    ));
    assert!(root.children[0].children.is_empty());
    assert!(root.children[1].children.is_empty());

    let tree = render(&document, rules(), 800).unwrap();
    let a = as_block(&tree.root);
    assert_eq!(a.children.len(), 2);
    assert_eq!(a.dimensions.content.height, 30);
    assert_eq!(as_block(&a.children[1]).dimensions.content.y, 10);
}

#[test]
fn boxes_that_are_no_blocks_take_no_height() {
    let document = element(
        "div",
        &[("id", "a")],
        vec![
            text("one"),
            element("div", &[("id", "b")], vec![]),
            element("span", &[("id", "s")], vec![]),
            element("div", &[("id", "c")], vec![]),
        ],
    );
    let rules = vec![
        block("a", vec![]),
        block("b", vec![("height", px(10))]),
        rule("s", vec![("height", px(500)), ("margin", px(20))]),
        block("c", vec![("height", px(20))]),
    ];
    let tree = render(&document, rules, 800).unwrap();
    let a = as_block(&tree.root);
    assert_eq!(a.children.len(), 4);
    assert_eq!(a.children[0], RenderBox::Anonymous);
    assert_eq!(a.children[2], RenderBox::Anonymous);
    assert_eq!(as_block(&a.children[1]).dimensions.content.y, 0);
    assert_eq!(as_block(&a.children[3]).dimensions.content.y, 10);
    assert_eq!(a.dimensions.content.height, 30);
}

#[test]
fn layout_sets_the_geometry_of_the_boxes_in_place() {
    let document = element(
        "div",
        &[("id", "a")],
        vec![text("one"), element("div", &[("id", "b")], vec![])],
    );
    let sheets = sheets(vec![
        block("a", vec![("padding", px(2))]),
        block("b", vec![("height", px(10)), ("margin", px(1))]),
    ]);
    let styled = StyleNode::new(&document, &sheets);
    let mut root = build_layout_tree(&styled).ok().unwrap();
    let render = root.layout(&viewport(100, 0)).unwrap();
    let expected = Dimensions {
        content: Rect { x: 2, y: 2, width: 96, height: 12 },
        padding: edges(2, 2, 2, 2),
        border: edges(0, 0, 0, 0),
        margin: edges(0, 0, 0, 0),
    };
    assert_eq!(root.dimensions, expected);
    assert_eq!(as_block(&render).dimensions, expected);
    assert_eq!(root.children.len(), 2);
    assert_eq!(root.children[0].dimensions, Dimensions::default());
    assert_eq!(
        root.children[1].dimensions,
        Dimensions {
            content: Rect { x: 3, y: 3, width: 94, height: 10 },
            padding: edges(0, 0, 0, 0),
            border: edges(0, 0, 0, 0),
            margin: edges(1, 1, 1, 1),
        }
    );
    assert_eq!(as_block(&as_block(&render).children[1]).dimensions, root.children[1].dimensions);
}

#[test]
fn laying_out_twice_gives_the_same() {
    let document = element(
        "div",
        &[("id", "a")],
        vec![element("div", &[("id", "b")], vec![text("t")]), element("div", &[("id", "c")], vec![])],
    );
    let rules = || {
        vec![
            block("a", vec![("margin", auto()), ("width", px(333)), ("padding", px(7))]),
            block("b", vec![("height", px(10)), ("margin", px(1))]),
            block("c", vec![("border-width", px(3))]),
        ]
    };
    let first = render(&document, rules(), 1000).unwrap();
    let second = render(&document, rules(), 1000).unwrap();
    assert_eq!(first, second);

    let sheets = sheets(rules());
    let styled = StyleNode::new(&document, &sheets);
    let mut root = build_layout_tree(&styled).ok().unwrap();
    let once = root.layout(&viewport(1000, 0)).unwrap();
    let after_once = (root.dimensions, root.children[0].dimensions, root.children[1].dimensions);
    let twice = root.layout(&viewport(1000, 0)).unwrap();
    let after_twice = (root.dimensions, root.children[0].dimensions, root.children[1].dimensions);
    assert_eq!(once, twice);
    assert_eq!(once, first.root);
    assert_eq!(after_once, after_twice);
    assert_eq!(root.dimensions.content, Rect { x: 333, y: 7, width: 333, height: 18 });
}

#[test]
fn colours_come_from_the_style() {
    let red = Color { r: 255, g: 0, b: 0, a: 255 };
    let black = Color { r: 0, g: 0, b: 0, a: 255 };
    let document = element("div", &[("id", "a")], vec![element("div", &[("id", "b")], vec![])]);
    let rules = vec![
        block(
            "a",
            vec![
                ("color", Value::Color(black)),
                ("background", Value::Color(red)),
                ("border-color", keyword("blue")),
            ],
        ),
        block("b", vec![("border-color", Value::Color(black))]),
    ];
    let tree = render(&document, rules, 800).unwrap();
    let a = as_block(&tree.root);
    assert_eq!(a.color, Some(black));
    assert_eq!(a.background_color, Some(red));
    assert_eq!(a.border_color, None);
    let b = as_block(&a.children[0]);
    assert_eq!(b.color, None);
    assert_eq!(b.background_color, None);
    assert_eq!(b.border_color, Some(black));
}

#[test]
fn steps_of_block_layout_can_be_taken_one_by_one() {
    let document = element("div", &[("id", "a")], vec![]);
    let sheets = sheets(vec![block(
        "a",
        vec![("width", px(50)), ("padding", px(5)), ("margin-top", px(2)), ("height", px(9))],
    )]);
    let styled = StyleNode::new(&document, &sheets);
    let mut root = LayoutBox::new(BoxType::BlockNode(&styled));
    assert!(std::ptr::eq(root.get_style_node(), &styled));
    let containing = Dimensions {
        content: Rect { x: 100, y: 200, width: 300, height: 40 },
        ..Dimensions::default()
    };
    assert_eq!(root.calculate_block_width(&containing), Ok(()));
    assert_eq!(root.dimensions.content, Rect { x: 0, y: 0, width: 50, height: 0 });
    assert_eq!(root.dimensions.padding, edges(5, 5, 0, 0));
    assert_eq!(root.dimensions.margin, edges(0, 240, 0, 0));
    assert_eq!(root.calculate_block_position(&containing), Ok(()));
    assert_eq!(root.dimensions.content, Rect { x: 105, y: 247, width: 50, height: 0 });
    assert_eq!(root.dimensions.padding, edges(5, 5, 5, 5));
    assert_eq!(root.dimensions.margin, edges(0, 240, 2, 0));
    assert_eq!(root.layout_block_children(), Ok(vec![]));
    assert_eq!(root.calculate_block_height(), Ok(()));
    assert_eq!(root.dimensions.content, Rect { x: 105, y: 247, width: 50, height: 9 });

    let block = root.layout_block(&containing).unwrap();
    assert_eq!(block.dimensions, root.dimensions);
    assert_eq!(block.dimensions.content, Rect { x: 105, y: 247, width: 50, height: 9 });
}

#[test]
fn children_are_laid_out_below_what_the_content_holds() {
    let document = element(
        "div",
        &[("id", "a")],
        vec![
            element("div", &[("id", "b")], vec![]),
            text("between"),
            element("div", &[("id", "c")], vec![]),
        ],
    );
    let sheets = sheets(vec![
        block("a", vec![]),
        block("b", vec![("height", px(10)), ("margin", px(1))]),
        block("c", vec![("height", px(5))]),
    ]);
    let styled = StyleNode::new(&document, &sheets);
    let mut root = build_layout_tree(&styled).ok().unwrap();
    root.dimensions = Dimensions {
        content: Rect { x: 5, y: 7, width: 100, height: 40 },
        padding: edges(1, 2, 3, 4),
        border: edges(5, 6, 7, 8),
        margin: edges(9, 10, 11, 12),
    };
    let renders = root.layout_block_children().unwrap();
    assert_eq!(renders.len(), 3);
    assert_eq!(renders[1], RenderBox::Anonymous);
    // The content grew from 40 by 12 and by 5; nothing else changed.
    assert_eq!(
        root.dimensions,
        Dimensions {
            content: Rect { x: 5, y: 7, width: 100, height: 57 },
            padding: edges(1, 2, 3, 4),
            border: edges(5, 6, 7, 8),
            margin: edges(9, 10, 11, 12),
        }
    );
    let b = root.children[0].dimensions;
    let c = root.children[2].dimensions;
    assert_eq!(b.content, Rect { x: 6, y: 48, width: 98, height: 10 });
    assert_eq!(c.content, Rect { x: 5, y: 59, width: 100, height: 5 });
    // The first margin box begins at the content's y + 40, the next where it ends.
    assert_eq!(b.margin_box().y, 7 + 40);
    assert_eq!(c.margin_box().y, b.margin_box().y + b.margin_box().height);
    assert_eq!(as_block(&renders[0]).dimensions, b);
    assert_eq!(as_block(&renders[2]).dimensions, c);
}

#[test]
fn content_without_block_children_keeps_its_height() {
    let document = element("div", &[("id", "a")], vec![text("one"), text("two")]);
    let sheets = sheets(vec![block("a", vec![])]);
    let styled = StyleNode::new(&document, &sheets);
    for height in [0, 40, -3, i64::MAX, i64::MIN] {
        let mut root = build_layout_tree(&styled).ok().unwrap();
        root.dimensions.content.height = height;
        assert_eq!(root.layout_block_children(), Ok(vec![RenderBox::Anonymous]));
        assert_eq!(root.dimensions.content.height, height);

        let mut childless = LayoutBox::new(BoxType::BlockNode(&styled));
        childless.dimensions.content.height = height;
        assert_eq!(childless.layout_block_children(), Ok(vec![]));
        assert_eq!(childless.dimensions.content.height, height);
    }
}

#[test]
fn content_that_grows_out_of_the_range_is_an_error() {
    let document = element("div", &[("id", "a")], vec![element("div", &[("id", "b")], vec![])]);
    let sheets = sheets(vec![block("a", vec![]), block("b", vec![("height", px(10))])]);
    let styled = StyleNode::new(&document, &sheets);
    let mut root = build_layout_tree(&styled).ok().unwrap();
    root.dimensions.content.height = MAX_LENGTH - 10;
    assert!(root.layout_block_children().is_ok());
    assert_eq!(root.dimensions.content.height, MAX_LENGTH);

    let mut root = build_layout_tree(&styled).ok().unwrap();
    root.dimensions.content.height = MAX_LENGTH - 9;
    assert_eq!(root.layout_block_children(), Err(Error::Overflow));
    assert_eq!(root.dimensions.content.height, MAX_LENGTH - 9);
    // The child was laid out before the height was found too large.
    assert_eq!(
        root.children[0].dimensions.content,
        Rect { x: 0, y: MAX_LENGTH - 9, width: 0, height: 10 }
    );
}

#[test]
fn a_layout_that_fails_leaves_the_box_with_its_geometry() {
    let document = element(
        "div",
        &[("id", "a")],
        vec![
            element("div", &[("id", "b")], vec![]),
            element(
                "div",
                &[("id", "c")],
                vec![element("div", &[("id", "e")], vec![]), element("div", &[("id", "f")], vec![])],
            ),
            element("div", &[("id", "d")], vec![]),
        ],
    );
    let sheets = sheets(vec![
        block("a", vec![("padding", px(2))]),
        block("b", vec![("height", px(10))]),
        block("c", vec![("margin-top", px(3))]),
        block("e", vec![("height", px(4))]),
        block("f", vec![("width", keyword("wide"))]),
        block("d", vec![("height", px(5))]),
    ]);
    let styled = StyleNode::new(&document, &sheets);
    let mut root = build_layout_tree(&styled).ok().unwrap();
    let given = Dimensions {
        content: Rect { x: 1, y: 2, width: 3, height: 4 },
        padding: edges(5, 6, 7, 8),
        border: edges(9, 10, 11, 12),
        margin: edges(13, 14, 15, 16),
    };
    root.dimensions = given;
    root.children[1].dimensions = given;
    root.children[1].children[1].dimensions = given;
    root.children[2].dimensions = given;
    assert_eq!(root.layout(&viewport(100, 0)), Err(Error::InvalidLength));
    // The boxes on the way to the failure and behind it are as they were.
    assert_eq!(root.dimensions, given);
    assert_eq!(root.children[1].dimensions, given);
    assert_eq!(root.children[1].children[1].dimensions, given);
    assert_eq!(root.children[2].dimensions, given);
    // Those before it are laid out.
    assert_eq!(
        root.children[0].dimensions.content,
        Rect { x: 2, y: 2, width: 96, height: 10 }
    );
    assert_eq!(
        root.children[1].children[0].dimensions.content,
        Rect { x: 2, y: 15, width: 96, height: 4 }
    );
    assert_eq!(root.children.len(), 3);
    assert_eq!(root.children[1].children.len(), 2);
}

#[test]
fn a_height_that_fails_leaves_the_block_with_its_geometry() {
    let document = element("div", &[("id", "a")], vec![element("div", &[("id", "b")], vec![])]);
    let sheets = sheets(vec![
        block("a", vec![("height", px(MAX_LENGTH + 1)), ("padding", px(2))]),
        block("b", vec![("height", px(10))]),
    ]);
    let styled = StyleNode::new(&document, &sheets);
    let mut root = build_layout_tree(&styled).ok().unwrap();
    let given = Dimensions {
        content: Rect { x: 1, y: 2, width: 3, height: 4 },
        padding: edges(5, 6, 7, 8),
        border: edges(9, 10, 11, 12),
        margin: edges(13, 14, 15, 16),
    };
    root.dimensions = given;
    assert_eq!(root.layout_block(&viewport(100, 0)).err(), Some(Error::Overflow));
    assert_eq!(root.dimensions, given);
    // The height is settled after the children are laid out.
    assert_eq!(
        root.children[0].dimensions.content,
        Rect { x: 2, y: 2, width: 96, height: 10 }
    );

    assert_eq!(root.calculate_block_height(), Err(Error::Overflow));
    assert_eq!(root.dimensions, given);
}

#[test]
fn a_step_that_fails_leaves_the_geometry_as_it_was() {
    let document = element("div", &[("id", "a")], vec![]);
    let given = Dimensions {
        content: Rect { x: 1, y: 2, width: 3, height: 4 },
        padding: edges(5, 6, 7, 8),
        border: edges(9, 10, 11, 12),
        margin: edges(13, 14, 15, 16),
    };
    let containing = viewport(100, 0);

    let bad_width = sheets(vec![block("a", vec![("padding-left", keyword("x"))])]);
    let styled = StyleNode::new(&document, &bad_width);
    let mut root = LayoutBox::new(BoxType::BlockNode(&styled));
    root.dimensions = given;
    assert_eq!(root.calculate_block_width(&containing), Err(Error::InvalidLength));
    assert_eq!(root.dimensions, given);

    let bad_position = sheets(vec![block("a", vec![("padding-top", keyword("x"))])]);
    let styled = StyleNode::new(&document, &bad_position);
    let mut root = LayoutBox::new(BoxType::BlockNode(&styled));
    root.dimensions = given;
    assert_eq!(root.calculate_block_position(&containing), Err(Error::InvalidLength));
    assert_eq!(root.dimensions, given);

    let too_far = sheets(vec![block("a", vec![("margin-top", px(MAX_LENGTH))])]);
    let styled = StyleNode::new(&document, &too_far);
    let mut root = LayoutBox::new(BoxType::BlockNode(&styled));
    root.dimensions = given;
    assert_eq!(root.calculate_block_position(&viewport(100, 1)), Err(Error::Overflow));
    assert_eq!(root.dimensions, given);
    assert_eq!(root.layout(&viewport(100, 1)), Err(Error::Overflow));
    assert_eq!(root.dimensions, given);
}

#[test]
fn inline_container_of_a_block_is_its_last_anonymous_block() {
    let document = element("div", &[("id", "a")], vec![]);
    let sheets = sheets(vec![block("a", vec![])]);
    let styled = StyleNode::new(&document, &sheets);
    let mut root = LayoutBox::new(BoxType::BlockNode(&styled));
    root.get_inline_container().children.push(LayoutBox::new(BoxType::InlineNode(&styled)));
    root.get_inline_container().children.push(LayoutBox::new(BoxType::InlineNode(&styled)));
    assert_eq!(root.children.len(), 1);
    assert_eq!(root.children[0].children.len(), 2);
    root.children.push(LayoutBox::new(BoxType::BlockNode(&styled)));
    root.get_inline_container();
    assert_eq!(root.children.len(), 3);
    assert!(matches!(root.children[2].box_type, BoxType::AnonymousBlock(_)));
    assert!(root.children[2].children.is_empty());

    let mut inline = LayoutBox::new(BoxType::InlineNode(&styled));
    inline.get_inline_container().children.push(LayoutBox::new(BoxType::InlineNode(&styled)));
    assert_eq!(inline.children.len(), 1);
    assert!(matches!(inline.children[0].box_type, BoxType::InlineNode(_)));
}

#[test]
fn boxes_grow_outward_edge_by_edge() {
    let rect = Rect { x: 10, y: 20, width: 100, height: 50 };
    assert_eq!(rect.expanded_by(edges(1, 2, 3, 4)), Rect { x: 9, y: 17, width: 103, height: 57 });
    assert_eq!(rect.expanded_by(EdgeSizes::default()), rect);
    assert_eq!(
        rect.expanded_by(edges(-1, -2, -3, -4)),
        Rect { x: 11, y: 23, width: 97, height: 43 }
    );

    let d = Dimensions {
        content: rect,
        padding: edges(1, 2, 3, 4),
        border: edges(10, 20, 30, 40),
        margin: edges(100, 200, 300, 400),
    };
    assert_eq!(d.padding_box(), Rect { x: 9, y: 17, width: 103, height: 57 });
    assert_eq!(d.border_box(), Rect { x: -1, y: -13, width: 133, height: 127 });
    assert_eq!(d.margin_box(), Rect { x: -101, y: -313, width: 433, height: 827 });
    assert_eq!(Dimensions::default().margin_box(), Rect::default());
    assert_eq!(Rect::default(), Rect { x: 0, y: 0, width: 0, height: 0 });
}
