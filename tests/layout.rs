use arche::boxes::{InnerBox, OuterBox};
use arche::cssom::{rule, Color, Declaration, Selector, SimpleSelector, StyleSheet, Unit, Value};
use arche::dom::{comment, element, text, Node};
use arche::listmap::ListMap;
use arche::renderer::{Bounds, Coordinates, PaintCommand, Renderer};
use arche::style::style_tree;
use arche::visuals::{get_length_or_default, Block, Padding, VisualRules};

fn tag(t: &str) -> SimpleSelector {
    SimpleSelector { tag_name: Some(t.to_string()), id: None, class: Vec::new() }
}

fn decl(name: &str, v: Value) -> Declaration {
    Declaration { name: name.to_string(), value: v }
}

fn px(n: u64) -> Value {
    Value::Length(n, Unit::Px)
}

fn el(t: &str, children: Vec<Node>) -> Node {
    element(t.to_string(), ListMap::new(), children)
}

fn nested_sheet() -> StyleSheet {
    StyleSheet {
        rules: vec![
            rule(
                vec![Selector::Simple(tag("div"))],
                vec![decl("padding-top", px(10000)), decl("padding-bottom", px(5000))],
            ),
            rule(vec![Selector::Simple(tag("p"))], vec![decl("font-size", px(16000))]),
        ],
    }
}

#[test]
fn scenario_d_nested_padding_and_text() {
    let doc = el("div", vec![el("p", vec![text("text".to_string())])]);
    let sheet = nested_sheet();
    let styled = style_tree(&doc, &sheet, None);
    let mut r = Renderer::new(500, 500);
    r.draw(&styled);
    assert_eq!(
        r.commands,
        vec![
            PaintCommand::Clear,
            PaintCommand::SelectFontFace,
            PaintCommand::MoveTo(0, 26000),
            PaintCommand::SetSourceRgb(0, 0, 0),
            PaintCommand::SetFontSize(16000),
            PaintCommand::ShowText("text".to_string()),
        ]
    );
    assert_eq!(r.coords, Coordinates { x: 0, y: 31000 });
}

#[test]
fn walk_restores_x_after_indented_element() {
    let sheet = StyleSheet {
        rules: vec![
            rule(
                vec![Selector::Simple(tag("div"))],
                vec![decl("padding-left", px(7000)), decl("padding-top", px(1000))],
            ),
            rule(vec![Selector::Simple(tag("p"))], vec![decl("font-size", px(2000))]),
        ],
    };
    let doc = el(
        "body",
        vec![
            el("div", vec![el("p", vec![text("one".to_string())])]),
            el("div", vec![el("p", vec![text("two".to_string())])]),
        ],
    );
    let styled = style_tree(&doc, &sheet, None);
    let mut r = Renderer::new(100, 100);
    r.walk_node_tree(&styled);
    let moves: Vec<PaintCommand> = r
        .commands
        .iter()
        .filter(|c| matches!(c, PaintCommand::MoveTo(_, _)))
        .cloned()
        .collect();
    assert_eq!(moves, vec![PaintCommand::MoveTo(7000, 3000), PaintCommand::MoveTo(7000, 6000)]);
    assert_eq!(r.coords.x, 0);
    assert_eq!(r.coords.y, 6000);
}

#[test]
fn deep_nesting_accumulates_then_unwinds_x() {
    let sheet = StyleSheet {
        rules: vec![rule(vec![Selector::Simple(tag("div"))], vec![decl("padding-left", px(1000))])],
    };
    let doc = el(
        "div",
        vec![el("div", vec![el("div", vec![text("deep".to_string())])]), text("back".to_string())],
    );
    let styled = style_tree(&doc, &sheet, None);
    let mut r = Renderer::new(100, 100);
    r.draw(&styled);
    let moves: Vec<PaintCommand> = r
        .commands
        .iter()
        .filter(|c| matches!(c, PaintCommand::MoveTo(_, _)))
        .cloned()
        .collect();
    assert_eq!(moves, vec![PaintCommand::MoveTo(3000, 0), PaintCommand::MoveTo(1000, 0)]);
    assert_eq!(r.coords.x, 0);
}

#[test]
fn cursor_is_clamped_to_canvas() {
    let sheet = StyleSheet {
        rules: vec![rule(
            vec![Selector::Simple(tag("div"))],
            vec![decl("padding-top", px(80000)), decl("padding-left", px(999000)), decl("padding-bottom", px(90000))],
        )],
    };
    let doc = el("div", vec![text("x".to_string())]);
    let styled = style_tree(&doc, &sheet, None);
    let mut r = Renderer::new(50, 100);
    r.draw(&styled);
    assert!(r.commands.contains(&PaintCommand::MoveTo(50000, 80000)));
    assert_eq!(r.coords, Coordinates { x: 0, y: 100000 });
    assert_eq!(r.bounds, Bounds { width: 50000, height: 100000 });
}

#[test]
fn scenario_c_unstyled_element_has_zero_geometry() {
    let doc = el("span", vec![]);
    let styled = style_tree(&doc, &StyleSheet { rules: vec![] }, None);
    let block = Block::new(&styled);
    assert_eq!(
        block.visuals,
        VisualRules {
            font_size: 0,
            color: Color { r: 0, g: 0, b: 0, a: 0 },
            padding: Padding { top: 0, bottom: 0, left: 0, right: 0 },
        }
    );
    let d = block.dimensions();
    assert_eq!(d.inner_box, InnerBox { x: 0, y: 0 });
    assert_eq!(d.outer_box, OuterBox { top_y: 0, bottom_y: 0, left_x: 0, right_x: 0 });
    let mut r = Renderer::new(10, 10);
    r.draw(&styled);
    assert_eq!(r.commands, vec![PaintCommand::Clear, PaintCommand::SelectFontFace]);
    assert_eq!(r.coords, Coordinates { x: 0, y: 0 });
}

#[test]
fn visual_rules_read_own_map_and_ignore_wrong_types() {
    let sheet = StyleSheet {
        rules: vec![rule(
            vec![Selector::Simple(tag("p"))],
            vec![
                decl("font-size", Value::Keyword("large".to_string())),
                decl("color", px(3000)),
                decl("padding-right", px(4000)),
                decl("padding-left", Value::ColorValue(Color { r: 1, g: 2, b: 3, a: 255 })),
            ],
        )],
    };
    let doc = el("p", vec![]);
    let styled = style_tree(&doc, &sheet, None);
    let v = VisualRules::new(&styled);
    assert_eq!(v.font_size, 0);
    assert_eq!(v.color, Color::default());
    assert_eq!(v.padding, Padding { top: 0, bottom: 0, left: 0, right: 4000 });
    assert_eq!(Padding::new(&styled), v.padding);
    let d = Block::new(&styled).dimensions();
    assert_eq!(d.outer_box, OuterBox { top_y: 0, bottom_y: 0, left_x: 0, right_x: 4000 });
    assert_eq!(d.inner_box, InnerBox { x: 0, y: 0 });
}

#[test]
fn text_geometry_is_inner_box_of_font_size() {
    let sheet = StyleSheet {
        rules: vec![rule(
            vec![Selector::Simple(tag("p"))],
            vec![
                decl("font-size", px(12500)),
                decl("padding-top", px(3000)),
                decl("color", Value::ColorValue(Color { r: 10, g: 20, b: 30, a: 255 })),
            ],
        )],
    };
    let doc = el("p", vec![text("t".to_string())]);
    let styled = style_tree(&doc, &sheet, None);
    let block = Block::new(&styled.children[0]);
    let d = block.dimensions();
    assert_eq!(d.inner_box, InnerBox { x: 0, y: 12500 });
    assert_eq!(d.outer_box, OuterBox { top_y: 0, bottom_y: 0, left_x: 0, right_x: 0 });
    assert_eq!(block.visuals.color_to_rgb(), (10, 20, 30));
    let mut out = Vec::new();
    block.paint(4, 5, &mut out);
    assert_eq!(
        out,
        vec![
            PaintCommand::MoveTo(4, 5),
            PaintCommand::SetSourceRgb(10, 20, 30),
            PaintCommand::SetFontSize(12500),
            PaintCommand::ShowText("t".to_string()),
        ]
    );
}

#[test]
fn comments_paint_nothing_and_do_not_move() {
    let doc = el("div", vec![comment("hidden".to_string())]);
    let styled = style_tree(&doc, &StyleSheet { rules: vec![] }, None);
    let d = Block::new(&styled.children[0]).dimensions();
    assert_eq!(d.inner_box, InnerBox { x: 0, y: 0 });
    assert_eq!(d.outer_box, OuterBox { top_y: 0, bottom_y: 0, left_x: 0, right_x: 0 });
    let mut r = Renderer::new(10, 10);
    r.draw(&styled);
    assert_eq!(r.commands.len(), 2);
}

#[test]
fn redraw_starts_from_origin() {
    let doc = el("div", vec![el("p", vec![text("text".to_string())])]);
    let styled = style_tree(&doc, &nested_sheet(), None);
    let mut r = Renderer::new(500, 500);
    r.draw(&styled);
    let first = r.commands.clone();
    r.draw(&styled);
    assert_eq!(r.commands, first);
    assert_eq!(r.coords.y, 31000);
}

#[test]
fn coordinates_move_and_clamp() {
    let b = Bounds { width: 10, height: 20 };
    let mut c = Coordinates { x: 3, y: 4 };
    c.move_right(5, &b);
    assert_eq!(c, Coordinates { x: 8, y: 4 });
    c.move_right(5, &b);
    assert_eq!(c.x, 10);
    c.move_down(100, &b);
    assert_eq!(c.y, 20);
    c.move_left(4);
    assert_eq!(c.x, 6);
    c.move_left(40);
    assert_eq!(c.x, 0);
    c.move_up(5);
    assert_eq!(c.y, 15);
    c.move_up(50);
    assert_eq!(c.y, 0);
    c.reset_x(Some(7));
    assert_eq!(c.x, 7);
    c.reset_x(None);
    assert_eq!(c.x, 0);
}

#[test]
fn length_or_default() {
    assert_eq!(get_length_or_default(Some(&px(42))), 42);
    assert_eq!(get_length_or_default(Some(&Value::Keyword("a".to_string()))), 0);
    assert_eq!(get_length_or_default(None), 0);
}
