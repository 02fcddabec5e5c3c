//! The stylesheet model: rules, selectors, declarations and values.

use vstd::prelude::*;

verus! {

/// An ordered list of rules; later rules win ties in the cascade.
#[derive(Clone, Debug, PartialEq)]
pub struct StyleSheet {
    pub rules: Vec<Rule>,
}

/// Comma-separated selectors (highest specificity first) and the
/// declarations that apply where one of them matches.
#[derive(Clone, Debug, PartialEq)]
pub struct Rule {
    pub selectors: Vec<Selector>,
    pub declarations: Vec<Declaration>,
}

#[derive(Clone, Debug, PartialEq)]
pub enum Selector {
    Simple(SimpleSelector),
}

/// An optional tag name, an optional id, and the classes an element must carry.
#[derive(Clone, Debug, PartialEq)]
pub struct SimpleSelector {
    pub tag_name: Option<String>,
    pub id: Option<String>,
    pub class: Vec<String>,
}

#[derive(Clone, Debug, PartialEq)]
pub struct Declaration {
    pub name: String,
    pub value: Value,
}

/// A declared value. A length is held in thousandths of its unit.
#[derive(Clone, Debug, PartialEq)]
pub enum Value {
    Keyword(String),
    Length(u64, Unit),
    ColorValue(Color),
}

#[derive(Clone, Copy, Debug, PartialEq, Eq, Structural)]
pub enum Unit {
    Px,
}

/// An RGBA colour with 8-bit channels.
#[derive(Clone, Copy, Debug, PartialEq, Eq, Structural)]
pub struct Color {
    pub r: u8,
    pub g: u8,
    pub b: u8,
    pub a: u8,
}

impl Default for Color {
    /// Black, with every channel zero.
    fn default() -> (c: Color)
        ensures
            c == (Color { r: 0, g: 0, b: 0, a: 0 }),
    {
        Color { r: 0, g: 0, b: 0, a: 0 }
    }
}

/// (an id is required: 0 or 1, number of classes required, a tag is required: 0 or 1)
pub type Specificity = (usize, usize, usize);

/// Lexicographic order on specificities: id weight, then classes, then tag.
pub open spec fn specificity_lt(a: Specificity, b: Specificity) -> bool {
    a.0 < b.0 || (a.0 == b.0 && (a.1 < b.1 || (a.1 == b.1 && a.2 < b.2)))
}

/// `a < b` in the lexicographic order of specificities.
pub fn specificity_less(a: Specificity, b: Specificity) -> (r: bool)
    ensures
        r == specificity_lt(a, b),
{
    a.0 < b.0 || (a.0 == b.0 && (a.1 < b.1 || (a.1 == b.1 && a.2 < b.2)))
}

pub open spec fn simple_specificity(s: SimpleSelector) -> Specificity {
    (
        if s.id is Some { 1 } else { 0 },
        s.class.len() as usize,
        if s.tag_name is Some { 1 } else { 0 },
    )
}

pub open spec fn spec_specificity(sel: Selector) -> Specificity {
    match sel {
        Selector::Simple(s) => simple_specificity(s),
    }
}

impl Selector {
    /// How precisely this selector picks elements.
    pub fn specificity(&self) -> (r: Specificity)
        ensures
            r == spec_specificity(*self),
    {
        match self {
            Selector::Simple(s) => {
                let ids: usize = if s.id.is_some() { 1 } else { 0 };
                let tags: usize = if s.tag_name.is_some() { 1 } else { 0 };
                (ids, s.class.len(), tags)
            },
        }
    }
}

impl Value {
    /// A copy of this value.
    pub fn duplicate(&self) -> (r: Value)
        ensures
            r == *self,
    {
        match self {
            Value::Keyword(k) => Value::Keyword(k.clone()),
            Value::Length(n, u) => Value::Length(*n, *u),
            Value::ColorValue(c) => Value::ColorValue(*c),
        }
    }
}

/// A rule from its selectors and declarations.
pub fn rule(selectors: Vec<Selector>, declarations: Vec<Declaration>) -> (r: Rule)
    ensures
        r.selectors == selectors,
        r.declarations == declarations,
{
    Rule { selectors, declarations }
}

} // verus!
