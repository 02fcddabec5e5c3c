use arche::css;
use arche::cssom::{Color, Selector, SimpleSelector, Unit, Value};
use arche::dom::{Node, NodeType};
use arche::html;
use arche::parser::{is_whitespace, ParseError, Parser};

fn tag_of(n: &Node) -> String {
    match &n.node_type {
        NodeType::Element(e) => e.tag_name.clone(),
        _ => panic!("expected an element"),
    }
}

#[test]
fn html_single_root_element() {
    let doc = html::parse("<div id=\"a\" class='b c'><p>hello</p> <!-- note --></div>".to_string())
        .unwrap();
    assert_eq!(tag_of(&doc), "div");
    match &doc.node_type {
        NodeType::Element(e) => {
            assert_eq!(e.id(), Some(&"a".to_string()));
            assert_eq!(e.classes(), vec!["b".to_string(), "c".to_string()]);
        }
        _ => unreachable!(),
    }
    assert_eq!(doc.children.len(), 2);
    assert_eq!(tag_of(&doc.children[0]), "p");
    match &doc.children[0].children[0].node_type {
        NodeType::Text(t) => assert_eq!(t, "hello"),
        _ => panic!("expected text"),
    }
    match &doc.children[1].node_type {
        NodeType::Comment(c) => assert_eq!(c, "note"),
        _ => panic!("expected a comment"),
    }
}

#[test]
fn html_several_roots_are_wrapped() {
    let doc = html::parse("<p>a</p><p>b</p>".to_string()).unwrap();
    assert_eq!(tag_of(&doc), "html");
    assert_eq!(doc.children.len(), 2);
    let empty = html::parse("   ".to_string()).unwrap();
    assert_eq!(tag_of(&empty), "html");
    assert_eq!(empty.children.len(), 0);
}

#[test]
fn html_repeated_attribute_keeps_last() {
    let doc = html::parse("<a x='1' x=\"2\"></a>".to_string()).unwrap();
    match &doc.node_type {
        NodeType::Element(e) => {
            assert_eq!(e.attributes.get(&"x".to_string()), Some(&"2".to_string()));
            assert_eq!(e.attributes.entries.len(), 1);
        }
        _ => panic!("expected an element"),
    }
}

#[test]
fn html_errors() {
    assert_eq!(html::parse("<a></b>".to_string()).unwrap_err(), ParseError::MismatchedTag(5));
    assert_eq!(html::parse("<a".to_string()).unwrap_err(), ParseError::UnexpectedEnd);
    assert_eq!(html::parse("<a x=1></a>".to_string()).unwrap_err(), ParseError::Unexpected('1', 5));
    assert_eq!(html::parse("<a x'1'></a>".to_string()).unwrap_err(), ParseError::Expected('=', 4));
    assert_eq!(html::parse("<a x='1></a>".to_string()).unwrap_err(), ParseError::UnexpectedEnd);
    assert_eq!(html::parse("<!-- open".to_string()).unwrap_err(), ParseError::UnexpectedEnd);
}

#[test]
fn html_comment_text_is_trimmed() {
    let doc = html::parse("<!--   spaced out   -->".to_string()).unwrap();
    match &doc.node_type {
        NodeType::Comment(c) => assert_eq!(c, "spaced out"),
        _ => panic!("expected a comment"),
    }
    assert_eq!(html::trim_end(&"ab \t\n".to_string()), "ab");
    assert_eq!(html::trim_end(&"  ".to_string()), "");
}

fn simple(s: &Selector) -> &SimpleSelector {
    match s {
        Selector::Simple(x) => x,
    }
}

#[test]
fn css_rule_with_all_value_kinds() {
    let sheet = css::parse(
        "div#a.b, p { color: #ff8000; font-size: 12.5px; display: block; padding-top: 3PX; }"
            .to_string(),
    )
    .unwrap();
    assert_eq!(sheet.rules.len(), 1);
    let r = &sheet.rules[0];
    assert_eq!(r.selectors.len(), 2);
    let first = simple(&r.selectors[0]);
    assert_eq!(first.tag_name, Some("div".to_string()));
    assert_eq!(first.id, Some("a".to_string()));
    assert_eq!(first.class, vec!["b".to_string()]);
    assert_eq!(r.selectors[0].specificity(), (1, 1, 1));
    assert_eq!(r.selectors[1].specificity(), (0, 0, 1));
    let values: Vec<(String, Value)> =
        r.declarations.iter().map(|d| (d.name.clone(), d.value.clone())).collect();
    assert_eq!(
        values,
        vec![
            ("color".to_string(), Value::ColorValue(Color { r: 255, g: 128, b: 0, a: 255 })),
            ("font-size".to_string(), Value::Length(12500, Unit::Px)),
            ("display".to_string(), Value::Keyword("block".to_string())),
            ("padding-top".to_string(), Value::Length(3000, Unit::Px)),
        ]
    );
}

#[test]
fn css_selectors_sorted_highest_first() {
    let sheet = css::parse("p, .x, #y, *, a.b.c { }".to_string()).unwrap();
    let specs: Vec<(usize, usize, usize)> =
        sheet.rules[0].selectors.iter().map(|s| s.specificity()).collect();
    assert_eq!(specs, vec![(1, 0, 0), (0, 2, 1), (0, 1, 0), (0, 0, 1), (0, 0, 0)]);
}

#[test]
fn css_equal_specificity_keeps_order() {
    let sheet = css::parse("a, b, .c, d { }".to_string()).unwrap();
    let tags: Vec<Option<String>> =
        sheet.rules[0].selectors.iter().map(|s| simple(s).tag_name.clone()).collect();
    assert_eq!(tags, vec![None, Some("a".to_string()), Some("b".to_string()), Some("d".to_string())]);
}

#[test]
fn css_numbers_in_thousandths() {
    let one = |src: &str| {
        let sheet = css::parse(format!("p {{ w: {}; }}", src)).map(|s| s.rules[0].declarations[0].value.clone());
        sheet
    };
    assert_eq!(one("7px"), Ok(Value::Length(7000, Unit::Px)));
    assert_eq!(one("0.5px"), Ok(Value::Length(500, Unit::Px)));
    assert_eq!(one("1.25px"), Ok(Value::Length(1250, Unit::Px)));
    assert_eq!(one("2.34567px"), Ok(Value::Length(2345, Unit::Px)));
    assert_eq!(one("3.px"), Ok(Value::Length(3000, Unit::Px)));
    assert_eq!(one("18446744073709551.615px"), Ok(Value::Length(u64::MAX, Unit::Px)));
    assert_eq!(one("18446744073709551.616px"), Err(ParseError::BadNumber(7)));
    assert_eq!(one("99999999999999999999px"), Err(ParseError::BadNumber(7)));
    assert_eq!(one("1.2.3px"), Err(ParseError::BadNumber(7)));
    assert_eq!(one("4em"), Err(ParseError::UnknownUnit(8)));
    assert_eq!(one("4"), Err(ParseError::UnknownUnit(8)));
}

#[test]
fn css_errors() {
    assert_eq!(css::parse("p ! { }".to_string()).unwrap_err(), ParseError::Unexpected('!', 2));
    assert_eq!(css::parse("p { color #fff; }".to_string()).unwrap_err(), ParseError::Expected(':', 10));
    assert_eq!(css::parse("p { color: #ff00zz; }".to_string()).unwrap_err(), ParseError::BadHex(16));
    assert_eq!(css::parse("p { color: #ff; }".to_string()).unwrap_err(), ParseError::BadHex(14));
    assert_eq!(css::parse("p { x: y }".to_string()).unwrap_err(), ParseError::Expected(';', 9));
    assert_eq!(css::parse("p { x: y;".to_string()).unwrap_err(), ParseError::UnexpectedEnd);
    assert_eq!(css::parse("p".to_string()).unwrap_err(), ParseError::UnexpectedEnd);
}

#[test]
fn css_empty_and_several_rules() {
    assert_eq!(css::parse("  ".to_string()).unwrap().rules.len(), 0);
    let sheet = css::parse("a { x: y; } b { } c { z: #000000; }".to_string()).unwrap();
    assert_eq!(sheet.rules.len(), 3);
    assert_eq!(sheet.rules[1].declarations.len(), 0);
    assert_eq!(sheet.rules[2].declarations[0].value, Value::ColorValue(Color { r: 0, g: 0, b: 0, a: 255 }));
}

#[test]
fn identifier_characters() {
    for c in ['a', 'Z', '0', '9', '-', '_'] {
        assert!(css::valid_identifier_char(c));
    }
    for c in [' ', '.', '#', '{', 'é'] {
        assert!(!css::valid_identifier_char(c));
    }
}

#[test]
fn parser_reads_characters() {
    let mut p = Parser::new(0, "  héllo world".to_string());
    assert!(!p.ended());
    p.consume_whitespace();
    assert_eq!(p.position(), 2);
    assert!(p.starts_with("hé"));
    assert!(!p.starts_with("he"));
    assert!(!p.starts_with("héllo world and more"));
    assert_eq!(p.next_chars(3), "hél");
    assert_eq!(p.next_char(), 'h');
    assert_eq!(p.consume_char(), 'h');
    assert_eq!(p.consume_char(), 'é');
    let word = p.consume_while(|c| c != ' ');
    assert_eq!(word, "llo");
    assert_eq!(p.expect_char(' '), Ok(()));
    assert_eq!(p.expect_char('x'), Err(ParseError::Expected('x', 8)));
    assert_eq!(p.consume_while(|_| true), "world");
    assert!(p.ended());
    assert_eq!(p.expect_char('x'), Err(ParseError::UnexpectedEnd));
    assert!(p.starts_with(""));
}

#[test]
fn parser_starts_part_way() {
    let p = Parser::new(3, "abcdef".to_string());
    assert_eq!(p.next_char(), 'd');
    assert!(p.starts_with("def"));
}

#[test]
fn whitespace_is_unicode_white_space() {
    for c in [' ', '\t', '\n', '\r', '\u{0b}', '\u{0c}', '\u{85}', '\u{a0}', '\u{2003}', '\u{3000}'] {
        assert!(is_whitespace(c));
        assert_eq!(is_whitespace(c), c.is_whitespace());
    }
    for c in ['a', '\u{200b}', '_', '\0'] {
        assert!(!is_whitespace(c));
        assert_eq!(is_whitespace(c), c.is_whitespace());
    }
}

#[test]
fn sort_keeps_every_selector() {
    let mk = |t: Option<&str>, id: Option<&str>| {
        Selector::Simple(SimpleSelector {
            tag_name: t.map(|x| x.to_string()),
            id: id.map(|x| x.to_string()),
            class: Vec::new(),
        })
    };
    let sorted = css::sort_by_specificity(vec![mk(Some("a"), None), mk(None, Some("b")), mk(None, None)]);
    assert_eq!(sorted, vec![mk(None, Some("b")), mk(Some("a"), None), mk(None, None)]);
}

#[test]
fn html_white_space_around_text() {
    let doc = html::parse("<p>  two words  <b x='y z'>bold</b></p>".to_string()).unwrap();
    assert_eq!(doc.children.len(), 2);
    match &doc.children[0].node_type {
        NodeType::Text(t) => assert_eq!(t, "two words  "),
        _ => panic!("expected text"),
    }
    match &doc.children[1].node_type {
        NodeType::Element(e) => {
            assert_eq!(e.tag_name, "b");
            assert_eq!(e.attributes.get(&"x".to_string()), Some(&"y z".to_string()));
        }
        _ => panic!("expected an element"),
    }
}

#[test]
fn html_stops_at_unmatched_closing_tag() {
    let doc = html::parse("<p>a</p></div> trailing".to_string()).unwrap();
    assert_eq!(tag_of(&doc), "p");
    assert_eq!(doc.children.len(), 1);
}
