use arche::cssom::{
    rule, specificity_less, Color, Declaration, Rule, Selector, SimpleSelector, StyleSheet, Unit,
    Value,
};
use arche::dom::{element, text, AttrMap, ElementData, NodeType};
use arche::listmap::ListMap;
use arche::style::{matches_simple_selector, specified_values, style_tree};

fn attrs(pairs: &[(&str, &str)]) -> AttrMap {
    let mut m = ListMap::new();
    for (k, v) in pairs {
        m.insert(k.to_string(), v.to_string());
    }
    m
}

fn elem(tag: &str, pairs: &[(&str, &str)]) -> ElementData {
    ElementData { tag_name: tag.to_string(), attributes: attrs(pairs) }
}

fn sel(tag: Option<&str>, id: Option<&str>, classes: &[&str]) -> SimpleSelector {
    SimpleSelector {
        tag_name: tag.map(|t| t.to_string()),
        id: id.map(|i| i.to_string()),
        class: classes.iter().map(|c| c.to_string()).collect(),
    }
}

fn color_rule(s: SimpleSelector, r: u8, g: u8, b: u8) -> Rule {
    rule(
        vec![Selector::Simple(s)],
        vec![Declaration {
            name: "color".to_string(),
            value: Value::ColorValue(Color { r, g, b, a: 255 }),
        }],
    )
}

fn px_rule(s: SimpleSelector, name: &str, n: u64) -> Rule {
    rule(
        vec![Selector::Simple(s)],
        vec![Declaration { name: name.to_string(), value: Value::Length(n, Unit::Px) }],
    )
}

fn key(s: &str) -> String {
    s.to_string()
}

#[test]
fn scenario_a_compound_selector_matches() {
    let e = elem("div", &[("id", "a"), ("class", "b c")]);
    let s = sel(Some("div"), Some("a"), &["b"]);
    assert!(matches_simple_selector(&e, &s));
    assert_eq!(Selector::Simple(s).specificity(), (1, 1, 1));
}

#[test]
fn scenario_b_class_outranks_tag() {
    let e = elem("p", &[("class", "big")]);
    let p = sel(Some("p"), None, &[]);
    let big = sel(None, None, &["big"]);
    assert_eq!(Selector::Simple(p.clone()).specificity(), (0, 0, 1));
    assert_eq!(Selector::Simple(big.clone()).specificity(), (0, 1, 0));
    assert!(specificity_less((0, 0, 1), (0, 1, 0)));
    assert!(!specificity_less((0, 1, 0), (0, 0, 1)));
    let green = Value::ColorValue(Color { r: 0, g: 255, b: 0, a: 255 });
    let sheet = StyleSheet {
        rules: vec![color_rule(p.clone(), 255, 0, 0), color_rule(big.clone(), 0, 255, 0)],
    };
    assert_eq!(specified_values(&e, &sheet).get(&key("color")), Some(&green));
    let reversed = StyleSheet { rules: vec![color_rule(big, 0, 255, 0), color_rule(p, 255, 0, 0)] };
    assert_eq!(specified_values(&e, &reversed).get(&key("color")), Some(&green));
}

#[test]
fn scenario_c_no_matching_rule_gives_empty_map() {
    let e = elem("span", &[]);
    let sheet = StyleSheet { rules: vec![color_rule(sel(Some("p"), None, &[]), 255, 0, 0)] };
    let values = specified_values(&e, &sheet);
    assert_eq!(values.entries.len(), 0);
    assert_eq!(values.get(&key("color")), None);
}

#[test]
fn universal_selector_matches_anything() {
    let s = sel(None, None, &[]);
    assert!(matches_simple_selector(&elem("div", &[]), &s));
    assert!(matches_simple_selector(&elem("p", &[("id", "x"), ("class", "y")]), &s));
}

#[test]
fn each_constraint_must_hold() {
    let e = elem("div", &[("id", "a"), ("class", "b c")]);
    assert!(!matches_simple_selector(&e, &sel(Some("p"), None, &[])));
    assert!(!matches_simple_selector(&e, &sel(Some("DIV"), None, &[])));
    assert!(!matches_simple_selector(&e, &sel(None, Some("b"), &[])));
    assert!(!matches_simple_selector(&e, &sel(None, None, &["d"])));
    assert!(!matches_simple_selector(&e, &sel(None, None, &["b", "d"])));
    assert!(matches_simple_selector(&e, &sel(None, None, &["c", "b"])));
    assert!(arche::style::matches(&e, &Selector::Simple(sel(None, Some("a"), &["c"]))));
}

#[test]
fn missing_id_or_class_attribute_fails_those_constraints() {
    let e = elem("div", &[]);
    assert!(!matches_simple_selector(&e, &sel(None, Some("a"), &[])));
    assert!(!matches_simple_selector(&e, &sel(None, None, &["b"])));
    assert!(matches_simple_selector(&e, &sel(Some("div"), None, &[])));
}

#[test]
fn class_attribute_splits_on_single_spaces() {
    let e = elem("div", &[("class", "a  b")]);
    assert_eq!(e.classes(), vec!["a".to_string(), "".to_string(), "b".to_string()]);
    assert_eq!(elem("div", &[]).classes(), Vec::<String>::new());
    assert_eq!(elem("div", &[("class", "")]).classes(), vec!["".to_string()]);
    assert_eq!(e.id(), None);
    assert_eq!(elem("div", &[("id", "main")]).id(), Some(&"main".to_string()));
}

#[test]
fn equal_specificity_later_rule_wins() {
    let e = elem("p", &[]);
    let sheet = StyleSheet {
        rules: vec![
            color_rule(sel(Some("p"), None, &[]), 255, 0, 0),
            color_rule(sel(Some("p"), None, &[]), 0, 0, 255),
        ],
    };
    assert_eq!(
        specified_values(&e, &sheet).get(&key("color")),
        Some(&Value::ColorValue(Color { r: 0, g: 0, b: 255, a: 255 }))
    );
}

#[test]
fn id_outranks_many_classes() {
    let e = elem("p", &[("id", "x"), ("class", "a b c")]);
    let sheet = StyleSheet {
        rules: vec![
            px_rule(sel(None, Some("x"), &[]), "font-size", 1000),
            px_rule(sel(Some("p"), None, &["a", "b", "c"]), "font-size", 2000),
        ],
    };
    assert_eq!(
        specified_values(&e, &sheet).get(&key("font-size")),
        Some(&Value::Length(1000, Unit::Px))
    );
}

#[test]
fn rule_is_credited_with_its_first_matching_selector() {
    // selectors stand highest specificity first; the first that matches counts
    let e = elem("p", &[("class", "big")]);
    let wide = Rule {
        selectors: vec![
            Selector::Simple(sel(None, Some("nope"), &[])),
            Selector::Simple(sel(Some("p"), None, &[])),
        ],
        declarations: vec![Declaration { name: key("font-size"), value: Value::Length(5000, Unit::Px) }],
    };
    let sheet = StyleSheet { rules: vec![wide, px_rule(sel(None, None, &["big"]), "font-size", 7000)] };
    assert_eq!(
        specified_values(&e, &sheet).get(&key("font-size")),
        Some(&Value::Length(7000, Unit::Px))
    );
}

#[test]
fn reordering_rules_without_shared_names_keeps_map() {
    let e = elem("p", &[("class", "big")]);
    let a = color_rule(sel(Some("p"), None, &[]), 1, 2, 3);
    let b = px_rule(sel(None, None, &["big"]), "font-size", 12000);
    let first = specified_values(&e, &StyleSheet { rules: vec![a.clone(), b.clone()] });
    let second = specified_values(&e, &StyleSheet { rules: vec![b, a] });
    for name in ["color", "font-size", "padding-top"] {
        assert_eq!(first.get(&key(name)), second.get(&key(name)));
    }
    assert_eq!(first.get(&key("font-size")), Some(&Value::Length(12000, Unit::Px)));
}

#[test]
fn later_declaration_in_a_rule_wins() {
    let e = elem("p", &[]);
    let r = rule(
        vec![Selector::Simple(sel(Some("p"), None, &[]))],
        vec![
            Declaration { name: key("x"), value: Value::Keyword(key("one")) },
            Declaration { name: key("x"), value: Value::Keyword(key("two")) },
        ],
    );
    let m = specified_values(&e, &StyleSheet { rules: vec![r] });
    assert_eq!(m.get(&key("x")), Some(&Value::Keyword(key("two"))));
    assert_eq!(m.entries.len(), 1);
}

#[test]
fn styling_twice_gives_same_maps() {
    let doc = element(
        "div".to_string(),
        attrs(&[("class", "big")]),
        vec![element("p".to_string(), attrs(&[]), vec![text("hi".to_string())])],
    );
    let sheet = StyleSheet {
        rules: vec![
            color_rule(sel(None, None, &["big"]), 9, 9, 9),
            px_rule(sel(Some("p"), None, &[]), "font-size", 16000),
        ],
    };
    let a = style_tree(&doc, &sheet, None);
    let b = style_tree(&doc, &sheet, None);
    assert_eq!(a.specified_values, b.specified_values);
    assert_eq!(a.children.len(), b.children.len());
    assert_eq!(a.children[0].specified_values, b.children[0].specified_values);
    assert_eq!(a.children[0].children[0].specified_values, b.children[0].children[0].specified_values);
}

#[test]
fn text_takes_parent_element_map() {
    let doc = element(
        "p".to_string(),
        attrs(&[]),
        vec![text("hello".to_string())],
    );
    let sheet = StyleSheet { rules: vec![px_rule(sel(Some("p"), None, &[]), "font-size", 16000)] };
    let styled = style_tree(&doc, &sheet, None);
    assert_eq!(styled.children.len(), 1);
    assert_eq!(styled.children[0].specified_values, styled.specified_values);
    assert_eq!(
        styled.children[0].specified_values.get(&key("font-size")),
        Some(&Value::Length(16000, Unit::Px))
    );
    match &styled.children[0].node.node_type {
        NodeType::Text(t) => assert_eq!(t, "hello"),
        _ => panic!("expected text"),
    }
}

#[test]
fn root_text_has_empty_map() {
    let doc = text("alone".to_string());
    let sheet = StyleSheet { rules: vec![color_rule(sel(None, None, &[]), 1, 1, 1)] };
    let styled = style_tree(&doc, &sheet, None);
    assert_eq!(styled.specified_values.entries.len(), 0);
}

#[test]
fn comments_get_empty_map() {
    let doc = element(
        "div".to_string(),
        attrs(&[]),
        vec![arche::dom::comment("note".to_string())],
    );
    let sheet = StyleSheet { rules: vec![color_rule(sel(None, None, &[]), 1, 1, 1)] };
    let styled = style_tree(&doc, &sheet, None);
    assert_eq!(styled.specified_values.entries.len(), 1);
    assert_eq!(styled.children[0].specified_values.entries.len(), 0);
}

#[test]
fn list_map_replaces_values() {
    let mut m: ListMap<u32> = ListMap::new();
    m.insert(key("a"), 1);
    m.insert(key("b"), 2);
    m.insert(key("a"), 3);
    assert_eq!(m.get(&key("a")), Some(&3));
    assert_eq!(m.get(&key("b")), Some(&2));
    assert_eq!(m.get(&key("c")), None);
    assert_eq!(m.entries.len(), 2);
}

#[test]
fn value_duplicate_is_equal() {
    let v = Value::Keyword(key("bold"));
    assert_eq!(v.duplicate(), v);
    assert_eq!(Color::default(), Color { r: 0, g: 0, b: 0, a: 0 });
}

#[test]
fn reordering_keeping_shared_names_in_order_keeps_map() {
    let e = elem("p", &[("class", "big")]);
    let a = color_rule(sel(Some("p"), None, &[]), 1, 0, 0);
    let b = px_rule(sel(None, None, &["big"]), "font-size", 9000);
    let c = color_rule(sel(Some("p"), None, &[]), 0, 1, 0);
    let given = specified_values(&e, &StyleSheet { rules: vec![a.clone(), b.clone(), c.clone()] });
    let moved = specified_values(&e, &StyleSheet { rules: vec![b.clone(), a.clone(), c.clone()] });
    for name in ["color", "font-size"] {
        assert_eq!(given.get(&key(name)), moved.get(&key(name)));
    }
    assert_eq!(
        given.get(&key("color")),
        Some(&Value::ColorValue(Color { r: 0, g: 1, b: 0, a: 255 }))
    );
    // the two colour rules swapped: the later one still wins
    let swapped = specified_values(&e, &StyleSheet { rules: vec![c, b, a] });
    assert_eq!(
        swapped.get(&key("color")),
        Some(&Value::ColorValue(Color { r: 1, g: 0, b: 0, a: 255 }))
    );
}
