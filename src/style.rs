//! Selector matching, the cascade, and the styled tree.

use vstd::prelude::*;

use crate::cssom::{
    specificity_less, specificity_lt, spec_specificity, Declaration, Rule, Selector,
    SimpleSelector, Specificity, StyleSheet, Value,
};
use crate::dom::{classes_of, id_of, views, ElementData, Node, NodeType};
use crate::listmap::{lemma_map_values, unique_names, ListMap};

verus! {

/// Property name to resolved value.
pub type PropertyMap = ListMap<Value>;

/// A document node with its resolved properties, and its children styled
/// in the same order.
pub struct StyledNode<'a> {
    pub node: &'a Node,
    pub specified_values: PropertyMap,
    pub children: Vec<StyledNode<'a>>,
}

/// Every constraint that the selector states holds of the element.
pub open spec fn simple_selector_matches(e: ElementData, s: SimpleSelector) -> bool {
    &&& match s.tag_name {
        Some(t) => t@ == e.tag_name@,
        None => true,
    }
    &&& match s.id {
        Some(i) => id_of(e) == Some(i@),
        None => true,
    }
    &&& forall|k: int| 0 <= k < s.class.len() ==> classes_of(e).contains(#[trigger] s.class@[k]@)
}

pub open spec fn selector_matches(e: ElementData, sel: Selector) -> bool {
    match sel {
        Selector::Simple(s) => simple_selector_matches(e, s),
    }
}

/// The specificity a rule is credited with for an element: that of the first
/// of its selectors that matches, if one does.
pub open spec fn rule_specificity(e: ElementData, sels: Seq<Selector>) -> Option<Specificity>
    decreases sels.len(),
{
    if sels.len() == 0 {
        None
    } else if selector_matches(e, sels[0]) {
        Some(spec_specificity(sels[0]))
    } else {
        rule_specificity(e, sels.drop_first())
    }
}

/// Declarations of one rule merged into the cascade so far: each replaces the
/// value held for its name unless that value came from a higher specificity.
pub open spec fn merge_declarations(
    m: Map<Seq<char>, (Specificity, Value)>,
    sp: Specificity,
    decls: Seq<Declaration>,
) -> Map<Seq<char>, (Specificity, Value)>
    decreases decls.len(),
{
    if decls.len() == 0 {
        m
    } else {
        let prev = merge_declarations(m, sp, decls.drop_last());
        let d = decls.last();
        if prev.contains_key(d.name@) && specificity_lt(sp, prev[d.name@].0) {
            prev
        } else {
            prev.insert(d.name@, (sp, d.value))
        }
    }
}

/// The cascade over the rules in stylesheet order, each value kept with the
/// specificity of the rule it came from.
pub open spec fn cascade_entries(e: ElementData, rules: Seq<Rule>) -> Map<
    Seq<char>,
    (Specificity, Value),
>
    decreases rules.len(),
{
    if rules.len() == 0 {
        Map::empty()
    } else {
        let prev = cascade_entries(e, rules.drop_last());
        match rule_specificity(e, rules.last().selectors@) {
            Some(sp) => merge_declarations(prev, sp, rules.last().declarations@),
            None => prev,
        }
    }
}

pub open spec fn value_part(p: (Specificity, Value)) -> Value {
    p.1
}

/// The property map that the cascade gives an element.
pub open spec fn cascade(e: ElementData, rules: Seq<Rule>) -> Map<Seq<char>, Value> {
    cascade_entries(e, rules).map_values(|p: (Specificity, Value)| value_part(p))
}

/// The property map of a node: its own cascade for an element, its parent
/// element's for text, and none for anything else.
pub open spec fn node_values(n: Node, rules: Seq<Rule>, parent: Option<Node>) -> Map<
    Seq<char>,
    Value,
> {
    match n.node_type {
        NodeType::Element(e) => cascade(e, rules),
        NodeType::Text(_) => match parent {
            Some(p) => match p.node_type {
                NodeType::Element(pe) => cascade(pe, rules),
                _ => Map::empty(),
            },
            None => Map::empty(),
        },
        NodeType::Comment(_) => Map::empty(),
    }
}

/// `s` is the styled tree of `n` under `rules`: same shape and order, each node
/// holding its property map.
pub open spec fn styled_as(s: StyledNode, n: Node, rules: Seq<Rule>, parent: Option<Node>) -> bool
    decreases n,
{
    &&& *s.node == n
    &&& s.specified_values@ == node_values(n, rules, parent)
    &&& s.children@.len() == n.children@.len()
    &&& forall|i: int|
        0 <= i < n.children@.len() ==> styled_as(
            #[trigger] s.children@[i],
            n.children@[i],
            rules,
            Some(n),
        )
}

fn contains_string(v: &Vec<String>, s: &String) -> (r: bool)
    ensures
        r == views(v@).contains(s@),
{
    let mut i: usize = 0;
    while i < v.len()
        invariant
            i <= v@.len(),
            forall|k: int| 0 <= k < i ==> v@[k]@ != s@,
        decreases v@.len() - i,
    {
        if v[i] == *s {
            assert(views(v@)[i as int] == s@);
            return true;
        }
        i = i + 1;
    }
    assert forall|k: int| 0 <= k < views(v@).len() implies views(v@)[k] != s@ by {
        assert(views(v@)[k] == v@[k]@);
    }
    false
}

/// Whether every constraint of `selector` holds of `element`.
pub fn matches_simple_selector(element: &ElementData, selector: &SimpleSelector) -> (r: bool)
    ensures
        r == simple_selector_matches(*element, *selector),
{
    if let Some(name) = &selector.tag_name {
        if !(*name == element.tag_name) {
            return false;
        }
    }
    if let Some(id) = &selector.id {
        match element.id() {
            Some(own) => {
                if !(*own == *id) {
                    return false;
                }
            },
            None => {
                return false;
            },
        }
    }
    let classes = element.classes();
    let mut k: usize = 0;
    while k < selector.class.len()
        invariant
            k <= selector.class@.len(),
            views(classes@) == classes_of(*element),
            forall|j: int| 0 <= j < k ==> classes_of(*element).contains(#[trigger] selector.class@[j]@),
        decreases selector.class@.len() - k,
    {
        if !contains_string(&classes, &selector.class[k]) {
            return false;
        }
        k = k + 1;
    }
    true
}

/// Whether `selector` matches `element`.
pub fn matches(element: &ElementData, selector: &Selector) -> (r: bool)
    ensures
        r == selector_matches(*element, *selector),
{
    match selector {
        Selector::Simple(s) => matches_simple_selector(element, s),
    }
}

/// The specificity of the first selector of `rule` that matches `element`.
fn match_rule(element: &ElementData, rule: &Rule) -> (r: Option<Specificity>)
    ensures
        r == rule_specificity(*element, rule.selectors@),
{
    let mut i: usize = 0;
    assert(rule.selectors@.skip(0) == rule.selectors@);
    while i < rule.selectors.len()
        invariant
            i <= rule.selectors@.len(),
            rule_specificity(*element, rule.selectors@) == rule_specificity(
                *element,
                rule.selectors@.skip(i as int),
            ),
        decreases rule.selectors@.len() - i,
    {
        let ghost rest = rule.selectors@.skip(i as int);
        assert(rest[0] == rule.selectors@[i as int]);
        assert(rest.drop_first() == rule.selectors@.skip(i + 1));
        if matches(element, &rule.selectors[i]) {
            return Some(rule.selectors[i].specificity());
        }
        i = i + 1;
    }
    assert(rule.selectors@.skip(i as int).len() == 0);
    None
}

/// Merges the declarations of a matching rule of specificity `sp`.
fn merge_rule(
    entries: &mut ListMap<(Specificity, Value)>,
    sp: Specificity,
    declarations: &Vec<Declaration>,
)
    ensures
        final(entries)@ == merge_declarations(old(entries)@, sp, declarations@),
        unique_names(old(entries).entries@) ==> unique_names(final(entries).entries@),
{
    let ghost start = entries@;
    let mut j: usize = 0;
    while j < declarations.len()
        invariant
            j <= declarations@.len(),
            entries@ == merge_declarations(start, sp, declarations@.take(j as int)),
            unique_names(old(entries).entries@) ==> unique_names(entries.entries@),
        decreases declarations@.len() - j,
    {
        let d = &declarations[j];
        assert(declarations@.take(j + 1).drop_last() == declarations@.take(j as int));
        let keep = match entries.get(&d.name) {
            Some(held) => specificity_less(sp, held.0),
            None => false,
        };
        if !keep {
            entries.insert(d.name.clone(), (sp, d.value.duplicate()));
        }
        j = j + 1;
    }
    assert(declarations@.take(declarations@.len() as int) == declarations@);
}

/// The property map that the cascade gives `element` under `stylesheet`.
pub fn specified_values(element: &ElementData, stylesheet: &StyleSheet) -> (r: PropertyMap)
    ensures
        r@ == cascade(*element, stylesheet.rules@),
        unique_names(r.entries@),
{
    let rules = &stylesheet.rules;
    let mut entries: ListMap<(Specificity, Value)> = ListMap::new();
    let mut i: usize = 0;
    while i < rules.len()
        invariant
            i <= rules@.len(),
            entries@ == cascade_entries(*element, rules@.take(i as int)),
            unique_names(entries.entries@),
        decreases rules@.len() - i,
    {
        assert(rules@.take(i + 1).drop_last() == rules@.take(i as int));
        match match_rule(element, &rules[i]) {
            Some(sp) => merge_rule(&mut entries, sp, &rules[i].declarations),
            None => {},
        }
        i = i + 1;
    }
    assert(rules@.take(rules@.len() as int) == rules@);
    let mut values: PropertyMap = ListMap::new();
    let mut k: usize = 0;
    while k < entries.entries.len()
        invariant
            k <= entries.entries@.len(),
            values.entries@.len() == k,
            entries@ == cascade_entries(*element, rules@),
            unique_names(entries.entries@),
            forall|j: int|
                0 <= j < k ==> values.entries@[j].0 == entries.entries@[j].0
                    && values.entries@[j].1 == value_part(entries.entries@[j].1),
        decreases entries.entries@.len() - k,
    {
        let name = entries.entries[k].0.clone();
        let value = entries.entries[k].1.1.duplicate();
        values.entries.push((name, value));
        k = k + 1;
    }
    assert(unique_names(values.entries@)) by {
        assert forall|a: int, b: int| 0 <= a < b < values.entries@.len() implies (#[trigger] values.entries@[a]).0@ != (#[trigger] values.entries@[b]).0@ by {
            assert(entries.entries@[a].0@ != entries.entries@[b].0@);
        }
    }
    proof {
        lemma_map_values(
            entries.entries@,
            values.entries@,
            |p: (Specificity, Value)| value_part(p),
        );
    }
    values
}

/// The property map of `node`; text takes that of its parent element.
fn determine_specified_values(node: &Node, stylesheet: &StyleSheet, parent_node: Option<&Node>) -> (r:
    PropertyMap)
    ensures
        r@ == node_values(*node, stylesheet.rules@, match parent_node {
            Some(p) => Some(*p),
            None => None,
        }),
{
    match &node.node_type {
        NodeType::Element(element) => specified_values(element, stylesheet),
        NodeType::Text(_) => match parent_node {
            Some(parent) => match &parent.node_type {
                NodeType::Element(element) => specified_values(element, stylesheet),
                _ => ListMap::new(),
            },
            None => ListMap::new(),
        },
        NodeType::Comment(_) => ListMap::new(),
    }
}

/// The styled tree of `node`, visiting nodes in document order.
pub fn style_tree<'a>(node: &'a Node, stylesheet: &StyleSheet, parent_node: Option<&'a Node>) -> (r:
    StyledNode<'a>)
    ensures
        styled_as(r, *node, stylesheet.rules@, match parent_node {
            Some(p) => Some(*p),
            None => None,
        }),
    decreases node,
{
    let specified_values = determine_specified_values(node, stylesheet, parent_node);
    let mut children: Vec<StyledNode<'a>> = Vec::new();
    let mut i: usize = 0;
    while i < node.children.len()
        invariant
            i <= node.children@.len(),
            children@.len() == i,
            forall|k: int|
                0 <= k < i ==> styled_as(
                    #[trigger] children@[k],
                    node.children@[k],
                    stylesheet.rules@,
                    Some(*node),
                ),
        decreases node.children@.len() - i,
    {
        let child = style_tree(&node.children[i], stylesheet, Some(node));
        children.push(child);
        i = i + 1;
    }
    StyledNode { node, specified_values, children }
}

} // verus!
