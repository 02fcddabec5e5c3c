//! The document tree: elements, text and comments.

use vstd::prelude::*;
use vstd::string::*;

use crate::chars::{chars_of, string_of};
use crate::listmap::ListMap;

verus! {

/// A document node and its children, in document order.
#[derive(Debug)]
pub struct Node {
    pub children: Vec<Node>,
    pub node_type: NodeType,
}

#[derive(Debug)]
pub enum NodeType {
    Element(ElementData),
    Text(String),
    Comment(String),
}

/// Attribute name to value, one entry per name.
pub type AttrMap = ListMap<String>;

#[derive(Clone, Debug, PartialEq)]
pub struct ElementData {
    pub tag_name: String,
    pub attributes: AttrMap,
}

/// A text node.
pub fn text(content: String) -> (r: Node)
    ensures
        r.children@.len() == 0,
        r.node_type == NodeType::Text(content),
{
    Node { children: Vec::new(), node_type: NodeType::Text(content) }
}

/// A comment node.
pub fn comment(content: String) -> (r: Node)
    ensures
        r.children@.len() == 0,
        r.node_type == NodeType::Comment(content),
{
    Node { children: Vec::new(), node_type: NodeType::Comment(content) }
}

/// An element node with the given children.
pub fn element(tag_name: String, attributes: AttrMap, children: Vec<Node>) -> (r: Node)
    ensures
        r.children == children,
        r.node_type == NodeType::Element(ElementData { tag_name, attributes }),
{
    Node { children, node_type: NodeType::Element(ElementData { tag_name, attributes }) }
}

/// The pieces of `s` between single spaces, as `str::split(' ')` gives them:
/// one more piece than there are spaces, empty pieces included.
pub open spec fn split_spaces(s: Seq<char>) -> Seq<Seq<char>>
    decreases s.len(),
{
    if s.len() == 0 {
        seq![Seq::empty()]
    } else {
        let prev = split_spaces(s.drop_last());
        if s.last() == ' ' {
            prev.push(Seq::empty())
        } else {
            prev.update(prev.len() - 1, prev.last().push(s.last()))
        }
    }
}

pub proof fn lemma_split_nonempty(s: Seq<char>)
    ensures
        split_spaces(s).len() >= 1,
    decreases s.len(),
{
    if s.len() > 0 {
        lemma_split_nonempty(s.drop_last());
    }
}

/// The value of the element's `id` attribute.
pub open spec fn id_of(e: ElementData) -> Option<Seq<char>> {
    if e.attributes@.contains_key("id"@) {
        Some(e.attributes@["id"@]@)
    } else {
        None
    }
}

/// The classes of an element: the space-separated pieces of its `class`
/// attribute, or none when it has no such attribute.
pub open spec fn classes_of(e: ElementData) -> Seq<Seq<char>> {
    if e.attributes@.contains_key("class"@) {
        split_spaces(e.attributes@["class"@]@)
    } else {
        Seq::empty()
    }
}

pub open spec fn views(v: Seq<String>) -> Seq<Seq<char>> {
    v.map_values(|s: String| s@)
}

impl ElementData {
    /// The `id` attribute, if present.
    pub fn id(&self) -> (r: Option<&String>)
        ensures
            r.is_some() == id_of(*self).is_some(),
            r.is_some() ==> r.unwrap()@ == id_of(*self).unwrap(),
    {
        let key = String::from_str("id");
        self.attributes.get(&key)
    }

    /// The pieces of the `class` attribute between single spaces.
    pub fn classes(&self) -> (r: Vec<String>)
        ensures
            views(r@) == classes_of(*self),
    {
        let key = String::from_str("class");
        match self.attributes.get(&key) {
            None => Vec::new(),
            Some(list) => {
                let cs = chars_of(list.as_str());
                let mut pieces: Vec<String> = Vec::new();
                let mut current: Vec<char> = Vec::new();
                let mut i: usize = 0;
                while i < cs.len()
                    invariant
                        i <= cs@.len(),
                        cs@ == list@,
                        views(pieces@).push(current@) == split_spaces(cs@.take(i as int)),
                    decreases cs@.len() - i,
                {
                    let c = cs[i];
                    let ghost prefix = cs@.take(i as int);
                    assert(cs@.take(i + 1).drop_last() == prefix);
                    proof {
                        lemma_split_nonempty(prefix);
                    }
                    if c == ' ' {
                        let piece = string_of(current.as_slice());
                        pieces.push(piece);
                        current = Vec::new();
                        assert(views(pieces@) == views(pieces@.drop_last()).push(piece@));
                        assert(views(pieces@).push(current@) =~= split_spaces(cs@.take(i + 1)));
                    } else {
                        current.push(c);
                        assert(views(pieces@).push(current@) =~= split_spaces(cs@.take(i + 1)));
                    }
                    i = i + 1;
                }
                let piece = string_of(current.as_slice());
                let ghost before = pieces@;
                pieces.push(piece);
                assert(cs@.take(cs@.len() as int) == cs@);
                assert(views(pieces@) =~= views(before).push(piece@));
                pieces
            },
        }
    }
}

} // verus!
