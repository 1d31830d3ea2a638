use blockflow::css::{Value, Unit, Declaration, Selector, SimpleSelector, Rule, Stylesheet};
use blockflow::dom::Node;
use blockflow::layout::{layout_tree, BoxType, Dimensions, EdgeSizes, Rect, LayoutBox};
use blockflow::style::{style_tree, Display};

fn attr(name: &str, value: &str) -> (String, String) {
    (name.to_string(), value.to_string())
}

fn simple(tag: Option<&str>, id: Option<&str>, classes: &[&str]) -> Selector {
    Selector::Simple(SimpleSelector {
        tag_name: tag.map(|t| t.to_string()),
        id: id.map(|i| i.to_string()),
        class: classes.iter().map(|c| c.to_string()).collect(),
    })
}

fn decl(name: &str, value: Value) -> Declaration {
    Declaration { name: name.to_string(), value }
}

fn keyword(k: &str) -> Value {
    Value::Keyword(k.to_string())
}

fn px(n: i64) -> Value {
    Value::Length(n, Unit::Px)
}

fn class_rule(class: &str, declarations: Vec<Declaration>) -> Rule {
    Rule { selectors: vec![simple(None, None, &[class])], declarations }
}

fn universal_rule(declarations: Vec<Declaration>) -> Rule {
    Rule { selectors: vec![simple(None, None, &[])], declarations }
}

fn div(class: &str, children: Vec<Node>) -> Node {
    Node::elem("div".to_string(), vec![attr("class", class)], children)
}

/// A viewport-like containing block: content 800 wide, flow cursor at the
/// origin.
fn viewport() -> Dimensions {
    Dimensions {
        content: Rect { x: 0, y: 0, width: 800, height: 0 },
        padding: EdgeSizes::default(),
        border: EdgeSizes::default(),
        margin: EdgeSizes::default(),
    }
}

fn layout_of(doc: &Node, sheet: &Stylesheet) -> LayoutBox {
    let styled = style_tree(doc, sheet);
    assert!(!matches!(styled.display(), Display::DisplayNone));
    let unsized_box = layout_tree(&styled);
    unsized_box.layout(viewport()).expect("layout overflowed")
}

#[test]
fn auto_width_fills_containing_block() {
    // width: auto with zero margins, border and padding resolves to the
    // whole containing width.
    let doc = div("a", Vec::new());
    let sheet = Stylesheet {
        rules: vec![class_rule("a", vec![decl("display", keyword("block"))])],
    };
    let laid = layout_of(&doc, &sheet);
    assert_eq!(laid.dimensions.content.width, 800);
    assert_eq!(laid.dimensions.margin.left, 0);
    assert_eq!(laid.dimensions.margin.right, 0);
    assert_eq!(laid.dimensions.content.x, 0);
    assert_eq!(laid.dimensions.content.y, 0);
}

#[test]
fn explicit_width_auto_margins_split_evenly() {
    // Explicit width with both margins auto: the margins come out equal,
    // each half of the underflow; the edge sum feeding the underflow does
    // not include the explicit width, so each margin is 800 / 2.
    let doc = div("a", Vec::new());
    let sheet = Stylesheet {
        rules: vec![class_rule(
            "a",
            vec![
                decl("display", keyword("block")),
                decl("width", px(100)),
                decl("margin", keyword("auto")),
            ],
        )],
    };
    let laid = layout_of(&doc, &sheet);
    assert_eq!(laid.dimensions.content.width, 100);
    assert_eq!(laid.dimensions.margin.left, laid.dimensions.margin.right);
    assert_eq!(laid.dimensions.margin.left, 400);
}

#[test]
fn overconstrained_box_absorbs_underflow_into_margin_right() {
    let doc = div("a", Vec::new());
    let sheet = Stylesheet {
        rules: vec![class_rule(
            "a",
            vec![
                decl("display", keyword("block")),
                decl("width", px(100)),
                decl("margin-left", px(10)),
                decl("margin-right", px(10)),
            ],
        )],
    };
    let laid = layout_of(&doc, &sheet);
    assert_eq!(laid.dimensions.content.width, 100);
    assert_eq!(laid.dimensions.margin.left, 10);
    // underflow = 800 - (10 + 10) = 780, absorbed into margin-right.
    assert_eq!(laid.dimensions.margin.right, 790);
}

#[test]
fn one_auto_margin_takes_the_underflow() {
    let doc = div("a", Vec::new());
    let sheet = Stylesheet {
        rules: vec![class_rule(
            "a",
            vec![
                decl("display", keyword("block")),
                decl("width", px(100)),
                decl("margin-left", keyword("auto")),
                decl("margin-right", px(20)),
            ],
        )],
    };
    let laid = layout_of(&doc, &sheet);
    assert_eq!(laid.dimensions.margin.right, 20);
    // underflow = 800 - 20 = 780 goes to the auto left margin.
    assert_eq!(laid.dimensions.margin.left, 780);
}

#[test]
fn specific_property_overrides_shorthand() {
    let doc = div("a", Vec::new());
    let sheet = Stylesheet {
        rules: vec![class_rule(
            "a",
            vec![
                decl("display", keyword("block")),
                decl("width", px(100)),
                decl("margin", px(5)),
                decl("margin-left", px(50)),
            ],
        )],
    };
    let laid = layout_of(&doc, &sheet);
    assert_eq!(laid.dimensions.margin.left, 50);
    // margin-right falls back to the shorthand, then absorbs the
    // underflow: 5 + (800 - 55) = 750.
    assert_eq!(laid.dimensions.margin.right, 750);
}

#[test]
fn vertical_flow_accumulates_sibling_heights() {
    // Two block children with explicit heights 50 and 30 and no margins:
    // the first starts at y = 0, the second at y = 50, and the parent's
    // content height is their sum.
    let doc = div("root", vec![div("c1", Vec::new()), div("c2", Vec::new())]);
    let sheet = Stylesheet {
        rules: vec![
            universal_rule(vec![decl("display", keyword("block"))]),
            class_rule("c1", vec![decl("height", px(50))]),
            class_rule("c2", vec![decl("height", px(30))]),
        ],
    };
    let laid = layout_of(&doc, &sheet);
    assert_eq!(laid.children.len(), 2);
    assert_eq!(laid.children[0].dimensions.content.y, 0);
    assert_eq!(laid.children[0].dimensions.content.height, 50);
    assert_eq!(laid.children[1].dimensions.content.y, 50);
    assert_eq!(laid.children[1].dimensions.content.height, 30);
    assert_eq!(laid.dimensions.content.height, 80);
}

#[test]
fn vertical_flow_counts_margins_and_padding() {
    let doc = div("root", vec![div("c1", Vec::new()), div("c2", Vec::new())]);
    let sheet = Stylesheet {
        rules: vec![
            universal_rule(vec![decl("display", keyword("block"))]),
            class_rule("c1", vec![decl("height", px(50)), decl("margin", px(10))]),
            class_rule("c2", vec![decl("height", px(30))]),
        ],
    };
    let laid = layout_of(&doc, &sheet);
    // c1's margin box is 10 + 50 + 10 = 70 high; c2 starts below it.
    assert_eq!(laid.children[0].dimensions.content.y, 10);
    assert_eq!(laid.children[1].dimensions.content.y, 70);
    assert_eq!(laid.dimensions.content.height, 100);
}

#[test]
fn explicit_height_overrides_accumulated_height() {
    let doc = div("root", vec![div("c1", Vec::new())]);
    let sheet = Stylesheet {
        rules: vec![
            universal_rule(vec![decl("display", keyword("block"))]),
            Rule {
                selectors: vec![simple(None, None, &["root"])],
                declarations: vec![decl("height", px(200))],
            },
            class_rule("c1", vec![decl("height", px(50))]),
        ],
    };
    let laid = layout_of(&doc, &sheet);
    assert_eq!(laid.dimensions.content.height, 200);
}

#[test]
fn display_none_child_produces_no_box_and_no_height() {
    // The hidden child is present in the style tree but contributes no
    // layout box and no height to the parent's flow.
    let doc = div(
        "root",
        vec![div("c1", Vec::new()), div("hidden", Vec::new()), div("c2", Vec::new())],
    );
    let sheet = Stylesheet {
        rules: vec![
            universal_rule(vec![decl("display", keyword("block"))]),
            class_rule("c1", vec![decl("height", px(50))]),
            class_rule("hidden", vec![decl("display", keyword("none")), decl("height", px(99))]),
            class_rule("c2", vec![decl("height", px(30))]),
        ],
    };
    let styled = style_tree(&doc, &sheet);
    assert_eq!(styled.children.len(), 3);
    let laid = layout_of(&doc, &sheet);
    assert_eq!(laid.children.len(), 2);
    assert_eq!(laid.children[1].dimensions.content.y, 50);
    assert_eq!(laid.dimensions.content.height, 80);
}

#[test]
fn inline_run_shares_one_anonymous_block() {
    // Three consecutive inline children under a block parent collapse
    // into exactly one anonymous block hosting exactly those three.
    let doc = div(
        "root",
        vec![
            div("b1", Vec::new()),
            div("i1", Vec::new()),
            div("i2", Vec::new()),
            div("i3", Vec::new()),
            div("b2", Vec::new()),
        ],
    );
    let sheet = Stylesheet {
        rules: vec![
            class_rule("root", vec![decl("display", keyword("block"))]),
            class_rule("b1", vec![decl("display", keyword("block"))]),
            class_rule("b2", vec![decl("display", keyword("block"))]),
        ],
    };
    let styled = style_tree(&doc, &sheet);
    let root = layout_tree(&styled);
    assert_eq!(root.children.len(), 3);
    assert!(matches!(root.children[0].box_type, BoxType::BlockNode(_)));
    assert!(matches!(root.children[1].box_type, BoxType::AnonymousBlock));
    assert_eq!(root.children[1].children.len(), 3);
    for inline_box in root.children[1].children.iter() {
        assert!(matches!(inline_box.box_type, BoxType::InlineNode(_)));
    }
    assert!(matches!(root.children[2].box_type, BoxType::BlockNode(_)));
}

#[test]
fn separate_inline_runs_get_separate_wrappers() {
    let doc = div(
        "root",
        vec![
            div("i1", Vec::new()),
            div("b1", Vec::new()),
            div("i2", Vec::new()),
            div("i3", Vec::new()),
        ],
    );
    let sheet = Stylesheet {
        rules: vec![
            class_rule("root", vec![decl("display", keyword("block"))]),
            class_rule("b1", vec![decl("display", keyword("block"))]),
        ],
    };
    let styled = style_tree(&doc, &sheet);
    let root = layout_tree(&styled);
    assert_eq!(root.children.len(), 3);
    assert!(matches!(root.children[0].box_type, BoxType::AnonymousBlock));
    assert_eq!(root.children[0].children.len(), 1);
    assert!(matches!(root.children[1].box_type, BoxType::BlockNode(_)));
    assert!(matches!(root.children[2].box_type, BoxType::AnonymousBlock));
    assert_eq!(root.children[2].children.len(), 2);
}

#[test]
fn inline_parent_keeps_children_directly() {
    let doc = div("root", vec![div("i1", Vec::new()), div("i2", Vec::new())]);
    let sheet = Stylesheet { rules: Vec::new() };
    let styled = style_tree(&doc, &sheet);
    let root = layout_tree(&styled);
    assert!(matches!(root.box_type, BoxType::InlineNode(_)));
    assert_eq!(root.children.len(), 2);
    assert!(matches!(root.children[0].box_type, BoxType::InlineNode(_)));
    assert!(matches!(root.children[1].box_type, BoxType::InlineNode(_)));
}

#[test]
fn layout_leaves_inline_box_unchanged() {
    let doc = div("a", Vec::new());
    let sheet = Stylesheet { rules: Vec::new() };
    let styled = style_tree(&doc, &sheet);
    let unsized_box = layout_tree(&styled);
    let laid = unsized_box.layout(viewport()).expect("layout overflowed");
    assert!(matches!(laid.box_type, BoxType::InlineNode(_)));
    assert_eq!(laid.dimensions.content.width, 0);
    assert_eq!(laid.dimensions.content.height, 0);
}

#[test]
fn nested_blocks_use_parent_content_as_containing_block() {
    let doc = div("root", vec![div("c1", Vec::new())]);
    let sheet = Stylesheet {
        rules: vec![
            universal_rule(vec![decl("display", keyword("block"))]),
            class_rule("root", vec![decl("padding", px(10)), decl("width", px(400))]),
            class_rule("c1", vec![decl("height", px(50))]),
        ],
    };
    let laid = layout_of(&doc, &sheet);
    // The child fills the parent's 400px content box and starts at its
    // padded origin.
    assert_eq!(laid.children[0].dimensions.content.width, 400);
    assert_eq!(laid.children[0].dimensions.content.x, 10);
    assert_eq!(laid.children[0].dimensions.content.y, 10);
}

#[test]
fn margin_box_expands_content_outward() {
    let d = Dimensions {
        content: Rect { x: 100, y: 200, width: 50, height: 60 },
        padding: EdgeSizes { left: 1, right: 2, top: 3, bottom: 4 },
        border: EdgeSizes { left: 5, right: 6, top: 7, bottom: 8 },
        margin: EdgeSizes { left: 9, right: 10, top: 11, bottom: 12 },
    };
    let p = d.padding_box();
    assert_eq!((p.x, p.y, p.width, p.height), (99, 197, 53, 67));
    let b = d.border_box();
    assert_eq!((b.x, b.y, b.width, b.height), (94, 190, 64, 82));
    let m = d.margin_box();
    assert_eq!((m.x, m.y, m.width, m.height), (85, 179, 83, 105));
}

#[test]
fn layout_reports_overflow_as_none() {
    let doc = div("root", Vec::new());
    let sheet = Stylesheet {
        rules: vec![class_rule(
            "root",
            vec![
                decl("display", keyword("block")),
                decl("width", px(100)),
                decl("margin-left", px(i64::MIN + 10)),
            ],
        )],
    };
    let styled = style_tree(&doc, &sheet);
    let unsized_box = layout_tree(&styled);
    // The over-constrained branch adds the underflow to margin-right;
    // with this huge negative left margin the sum cannot be represented.
    assert!(unsized_box.layout(viewport()).is_none());
}

#[test]
fn get_style_node_returns_the_box_properties() {
    let doc = div("a", Vec::new());
    let sheet = Stylesheet {
        rules: vec![class_rule(
            "a",
            vec![decl("display", keyword("block")), decl("width", px(100))],
        )],
    };
    let styled = style_tree(&doc, &sheet);
    let root = layout_tree(&styled);
    let props = root.get_style_node();
    match props.get("width") {
        Some(Value::Length(n, Unit::Px)) => assert_eq!(*n, 100),
        other => panic!("expected width 100px, got {:?}", other),
    }
}

#[test]
fn inline_container_of_block_is_trailing_anonymous_block() {
    let doc = div("a", Vec::new());
    let sheet = Stylesheet {
        rules: vec![class_rule("a", vec![decl("display", keyword("block"))])],
    };
    let styled = style_tree(&doc, &sheet);
    let mut root = layout_tree(&styled);
    assert_eq!(root.children.len(), 0);
    {
        let container = root.get_inline_container();
        assert!(matches!(container.box_type, BoxType::AnonymousBlock));
    }
    // A second request reuses the same trailing anonymous block.
    assert_eq!(root.children.len(), 1);
    {
        let container = root.get_inline_container();
        assert!(matches!(container.box_type, BoxType::AnonymousBlock));
    }
    assert_eq!(root.children.len(), 1);
}

#[test]
fn inline_container_of_inline_box_is_itself() {
    let doc = div("a", Vec::new());
    let sheet = Stylesheet { rules: Vec::new() };
    let styled = style_tree(&doc, &sheet);
    let mut root = layout_tree(&styled);
    {
        let container = root.get_inline_container();
        assert!(matches!(container.box_type, BoxType::InlineNode(_)));
    }
    assert_eq!(root.children.len(), 0);
}
