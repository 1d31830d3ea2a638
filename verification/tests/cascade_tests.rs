use blockflow::css::{Value, Unit, Declaration, Selector, SimpleSelector, Rule, Stylesheet};
use blockflow::dom::Node;
use blockflow::style::{style_tree, Display, StyleNode};

fn attr(name: &str, value: &str) -> (String, String) {
    (name.to_string(), value.to_string())
}

fn simple(tag: Option<&str>, id: Option<&str>, classes: &[&str]) -> Selector {
    Selector::Simple(SimpleSelector {
        tag_name: tag.map(|t| t.to_string()),
        id: id.map(|i| i.to_string()),
        class: classes.iter().map(|c| c.to_string()).collect(),
    })
}

fn decl(name: &str, value: Value) -> Declaration {
    Declaration { name: name.to_string(), value }
}

fn keyword(k: &str) -> Value {
    Value::Keyword(k.to_string())
}

fn px(n: i64) -> Value {
    Value::Length(n, Unit::Px)
}

fn assert_keyword(node: &StyleNode, name: &str, expected: &str) {
    match node.value(name) {
        Some(Value::Keyword(s)) => assert_eq!(s, expected),
        other => panic!("expected keyword {} for {}, got {:?}", expected, name, other),
    }
}

fn assert_px(node: &StyleNode, name: &str, expected: i64) {
    match node.value(name) {
        Some(Value::Length(n, Unit::Px)) => assert_eq!(*n, expected),
        other => panic!("expected {}px for {}, got {:?}", expected, name, other),
    }
}

#[test]
fn specificity_counts_id_classes_tag() {
    let sel = simple(Some("div"), Some("x"), &["a", "b"]);
    assert_eq!(sel.specificity(), (1, 2, 1));
    let sel = simple(None, None, &[]);
    assert_eq!(sel.specificity(), (0, 0, 0));
    let sel = simple(Some("p"), None, &["a"]);
    assert_eq!(sel.specificity(), (0, 1, 1));
}

#[test]
fn element_id_and_classes() {
    let node = Node::elem(
        "div".to_string(),
        vec![attr("id", "main"), attr("class", "a b c")],
        Vec::new(),
    );
    match node.node_type {
        blockflow::dom::NodeType::Element(ref e) => {
            assert_eq!(e.id(), Some(&"main".to_string()));
            assert_eq!(e.classes(), vec!["a".to_string(), "b".to_string(), "c".to_string()]);
        },
        _ => panic!("expected element"),
    }
}

#[test]
fn classes_split_keeps_empty_pieces() {
    let node = Node::elem("div".to_string(), vec![attr("class", "a  b")], Vec::new());
    match node.node_type {
        blockflow::dom::NodeType::Element(ref e) => {
            assert_eq!(e.classes(), vec!["a".to_string(), "".to_string(), "b".to_string()]);
        },
        _ => panic!("expected element"),
    }
}

#[test]
fn classes_empty_when_attribute_absent() {
    let node = Node::elem("div".to_string(), Vec::new(), Vec::new());
    match node.node_type {
        blockflow::dom::NodeType::Element(ref e) => {
            assert_eq!(e.id(), None);
            assert!(e.classes().is_empty());
        },
        _ => panic!("expected element"),
    }
}

#[test]
fn selector_matching_rules() {
    let node = Node::elem(
        "div".to_string(),
        vec![attr("id", "x"), attr("class", "a b")],
        Vec::new(),
    );
    let elem = match node.node_type {
        blockflow::dom::NodeType::Element(ref e) => e,
        _ => panic!("expected element"),
    };
    assert!(blockflow::style::matches(elem, &simple(Some("div"), None, &[])));
    assert!(!blockflow::style::matches(elem, &simple(Some("p"), None, &[])));
    assert!(blockflow::style::matches(elem, &simple(None, Some("x"), &[])));
    assert!(!blockflow::style::matches(elem, &simple(None, Some("y"), &[])));
    assert!(blockflow::style::matches(elem, &simple(None, None, &["a", "b"])));
    assert!(!blockflow::style::matches(elem, &simple(None, None, &["a", "c"])));
    assert!(blockflow::style::matches(elem, &simple(Some("div"), Some("x"), &["b"])));
}

#[test]
fn text_node_has_empty_property_map() {
    let doc = Node::text("hello".to_string());
    let sheet = Stylesheet {
        rules: vec![Rule {
            selectors: vec![simple(None, None, &[])],
            declarations: vec![decl("display", keyword("block"))],
        }],
    };
    let styled = style_tree(&doc, &sheet);
    assert!(styled.value("display").is_none());
    assert!(matches!(styled.display(), Display::Inline));
}

#[test]
fn unmatched_element_gets_empty_map_and_inline_display() {
    let doc = Node::elem("span".to_string(), Vec::new(), Vec::new());
    let sheet = Stylesheet {
        rules: vec![Rule {
            selectors: vec![simple(Some("div"), None, &[])],
            declarations: vec![decl("display", keyword("block"))],
        }],
    };
    let styled = style_tree(&doc, &sheet);
    assert!(styled.value("display").is_none());
    assert!(matches!(styled.display(), Display::Inline));
}

#[test]
fn id_selector_outranks_class_selector() {
    // `.a` has specificity (0,1,0); `#x` has (1,0,0): the id rule's
    // declarations must win for overlapping names regardless of source
    // order, while non-overlapping declarations from `.a` still appear.
    let doc = Node::elem(
        "div".to_string(),
        vec![attr("id", "x"), attr("class", "a")],
        Vec::new(),
    );
    let class_rule = Rule {
        selectors: vec![simple(None, None, &["a"])],
        declarations: vec![decl("color", keyword("red")), decl("margin", px(5))],
    };
    let id_rule = Rule {
        selectors: vec![simple(None, Some("x"), &[])],
        declarations: vec![decl("color", keyword("blue"))],
    };

    let sheet = Stylesheet { rules: vec![class_rule.clone(), id_rule.clone()] };
    let styled = style_tree(&doc, &sheet);
    assert_keyword(&styled, "color", "blue");
    assert_px(&styled, "margin", 5);

    let sheet_reversed = Stylesheet { rules: vec![id_rule, class_rule] };
    let styled = style_tree(&doc, &sheet_reversed);
    assert_keyword(&styled, "color", "blue");
    assert_px(&styled, "margin", 5);
}

#[test]
fn equal_specificity_later_rule_wins() {
    let doc = Node::elem("div".to_string(), vec![attr("class", "a b")], Vec::new());
    let sheet = Stylesheet {
        rules: vec![
            Rule {
                selectors: vec![simple(None, None, &["a"])],
                declarations: vec![decl("color", keyword("red"))],
            },
            Rule {
                selectors: vec![simple(None, None, &["b"])],
                declarations: vec![decl("color", keyword("green"))],
            },
        ],
    };
    let styled = style_tree(&doc, &sheet);
    assert_keyword(&styled, "color", "green");
}

#[test]
fn rule_specificity_is_first_matching_selector() {
    // The rule lists a non-matching id selector first, then a matching
    // class selector: it contributes the class selector's specificity,
    // so a later id rule still beats it.
    let doc = Node::elem(
        "div".to_string(),
        vec![attr("id", "x"), attr("class", "a")],
        Vec::new(),
    );
    let sheet = Stylesheet {
        rules: vec![
            Rule {
                selectors: vec![simple(None, Some("x"), &[])],
                declarations: vec![decl("color", keyword("blue"))],
            },
            Rule {
                selectors: vec![simple(None, Some("missing"), &[]), simple(None, None, &["a"])],
                declarations: vec![decl("color", keyword("red"))],
            },
        ],
    };
    let styled = style_tree(&doc, &sheet);
    // (1,0,0) beats (0,1,0) even though the second rule comes later.
    assert_keyword(&styled, "color", "blue");
}

fn assert_same_style(a: &StyleNode, b: &StyleNode, names: &[&str]) {
    for name in names {
        match (a.value(name), b.value(name)) {
            (None, None) => {},
            (Some(Value::Keyword(x)), Some(Value::Keyword(y))) => assert_eq!(x, y),
            (Some(Value::Length(x, Unit::Px)), Some(Value::Length(y, Unit::Px))) => {
                assert_eq!(x, y)
            },
            (Some(Value::ColorValue(x)), Some(Value::ColorValue(y))) => assert_eq!(x, y),
            other => panic!("differing values for {}: {:?}", name, other),
        }
    }
    assert_eq!(a.children.len(), b.children.len());
    for (ca, cb) in a.children.iter().zip(b.children.iter()) {
        assert_same_style(ca, cb, names);
    }
}

#[test]
fn cascade_resolution_is_idempotent() {
    let doc = Node::elem(
        "div".to_string(),
        vec![attr("class", "a")],
        vec![
            Node::elem("p".to_string(), vec![attr("id", "x")], vec![Node::text(
                "t".to_string(),
            )]),
            Node::elem("p".to_string(), Vec::new(), Vec::new()),
        ],
    );
    let sheet = Stylesheet {
        rules: vec![
            Rule {
                selectors: vec![simple(None, None, &["a"])],
                declarations: vec![decl("display", keyword("block")), decl("margin", px(7))],
            },
            Rule {
                selectors: vec![simple(Some("p"), None, &[])],
                declarations: vec![decl("color", keyword("red"))],
            },
            Rule {
                selectors: vec![simple(None, Some("x"), &[])],
                declarations: vec![decl("color", keyword("blue"))],
            },
        ],
    };
    let t1 = style_tree(&doc, &sheet);
    let t2 = style_tree(&doc, &sheet);
    assert_same_style(&t1, &t2, &["display", "margin", "color"]);
}

#[test]
fn display_reads_keyword() {
    let doc = Node::elem("div".to_string(), Vec::new(), Vec::new());
    let block = Stylesheet {
        rules: vec![Rule {
            selectors: vec![simple(None, None, &[])],
            declarations: vec![decl("display", keyword("block"))],
        }],
    };
    assert_eq!(style_tree(&doc, &block).display(), Display::Block);
    let none = Stylesheet {
        rules: vec![Rule {
            selectors: vec![simple(None, None, &[])],
            declarations: vec![decl("display", keyword("none"))],
        }],
    };
    assert_eq!(style_tree(&doc, &none).display(), Display::DisplayNone);
    let other = Stylesheet {
        rules: vec![Rule {
            selectors: vec![simple(None, None, &[])],
            declarations: vec![decl("display", keyword("flex"))],
        }],
    };
    assert_eq!(style_tree(&doc, &other).display(), Display::Inline);
}

#[test]
fn property_map_later_insert_shadows_earlier() {
    let mut map = blockflow::style::PropertyMap::new();
    assert!(map.get("color").is_none());
    map.insert("color".to_string(), keyword("red"));
    map.insert("width".to_string(), px(10));
    map.insert("color".to_string(), keyword("blue"));
    match map.get("color") {
        Some(Value::Keyword(s)) => assert_eq!(s, "blue"),
        other => panic!("expected blue, got {:?}", other),
    }
    match map.get("width") {
        Some(Value::Length(n, Unit::Px)) => assert_eq!(*n, 10),
        other => panic!("expected 10px, got {:?}", other),
    }
    let copy = map.duplicate();
    match copy.get("color") {
        Some(Value::Keyword(s)) => assert_eq!(s, "blue"),
        other => panic!("expected blue, got {:?}", other),
    }
}

#[test]
fn lookup_falls_back_to_shorthand_then_default() {
    let doc = Node::elem("div".to_string(), Vec::new(), Vec::new());
    let sheet = Stylesheet {
        rules: vec![Rule {
            selectors: vec![simple(None, None, &[])],
            declarations: vec![decl("margin", px(7)), decl("margin-left", px(3))],
        }],
    };
    let styled = style_tree(&doc, &sheet);
    let zero = px(0);
    match styled.lookup("margin-left", "margin", &zero) {
        Value::Length(n, Unit::Px) => assert_eq!(*n, 3),
        other => panic!("unexpected {:?}", other),
    }
    match styled.lookup("margin-right", "margin", &zero) {
        Value::Length(n, Unit::Px) => assert_eq!(*n, 7),
        other => panic!("unexpected {:?}", other),
    }
    match styled.lookup("padding-left", "padding", &zero) {
        Value::Length(n, Unit::Px) => assert_eq!(*n, 0),
        other => panic!("unexpected {:?}", other),
    }
}
