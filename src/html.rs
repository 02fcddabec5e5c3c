//! A parser for a small subset of HTML: elements with quoted attributes,
//! text, and comments.

use vstd::prelude::*;
use vstd::string::*;

use crate::dom::{self, AttrMap, Node, NodeType};
use crate::listmap::{unique_names, ListMap};
use crate::parser::{
    at, is_white_space, lemma_run_end, lemma_run_end_bounds, run_end, white_space_chars, ParseError,
    Parser,
};

verus! {

/// A letter or digit of ASCII.
pub open spec fn is_tag_char(c: char) -> bool {
    ('a' <= c && c <= 'z') || ('A' <= c && c <= 'Z') || ('0' <= c && c <= '9')
}

pub open spec fn tag_chars() -> spec_fn(char) -> bool {
    |c: char| is_tag_char(c)
}

pub open spec fn text_chars() -> spec_fn(char) -> bool {
    |c: char| c != '<'
}

/// `s` with the white space at its end removed.
pub open spec fn trimmed_end(s: Seq<char>) -> Seq<char>
    decreases s.len(),
{
    if s.len() > 0 && is_white_space(s.last()) {
        trimmed_end(s.drop_last())
    } else {
        s
    }
}

/// A parsed document as the grammar gives it: elements with their tag name,
/// attributes and children; text; comments.
pub enum Markup {
    Element(Seq<char>, Map<Seq<char>, Seq<char>>, Seq<Markup>),
    Text(Seq<char>),
    Comment(Seq<char>),
}

pub open spec fn attribute_views(m: Map<Seq<char>, String>) -> Map<Seq<char>, Seq<char>> {
    m.map_values(|v: String| v@)
}

/// `n` is the node tree that `m` describes.
pub open spec fn node_is(n: Node, m: Markup) -> bool
    decreases n,
{
    match m {
        Markup::Element(tag, attrs, kids) => {
            &&& n.node_type matches NodeType::Element(e)
            &&& n.node_type->Element_0.tag_name@ == tag
            &&& attribute_views(n.node_type->Element_0.attributes@) == attrs
            &&& n.children@.len() == kids.len()
            &&& forall|i: int|
                0 <= i < kids.len() ==> node_is(#[trigger] n.children@[i], kids[i])
        },
        Markup::Text(t) => n.node_type == NodeType::Text(n.node_type->Text_0) && n.node_type->Text_0@
            == t && n.children@.len() == 0,
        Markup::Comment(c) => n.node_type == NodeType::Comment(n.node_type->Comment_0)
            && n.node_type->Comment_0@ == c && n.children@.len() == 0,
    }
}

pub open spec fn other_than(q: char) -> spec_fn(char) -> bool {
    |c: char| c != q
}

/// After `!`: where the opening dashes of a comment end, one past the first
/// `-` that is followed by something else.
pub open spec fn comment_opening_end(t: Seq<char>, k: int) -> Option<int>
    decreases t.len() - k,
{
    if k < 0 || k + 1 >= t.len() {
        None
    } else if t[k] == '-' && t[k + 1] != '-' {
        Some(k + 1)
    } else {
        comment_opening_end(t, k + 1)
    }
}

/// A comment whose `!` stands at `p`, and where it ends.
pub open spec fn comment_at(t: Seq<char>, p: int) -> Option<(Markup, int)> {
    if !at(t, p, '!') {
        None
    } else {
        match comment_opening_end(t, p + 1) {
            None => None,
            Some(q) => {
                let w = run_end(t, q, white_space_chars());
                let e = run_end(t, w, other_than('-'));
                if at(t, e, '-') && at(t, e + 1, '-') && at(t, e + 2, '>') {
                    Some((Markup::Comment(trimmed_end(t.subrange(w, e))), e + 3))
                } else {
                    None
                }
            },
        }
    }
}

/// `name=` and a quoted value at `p`: the name, the value, and where it ends.
pub open spec fn attribute_at(t: Seq<char>, p: int) -> Option<(Seq<char>, Seq<char>, int)> {
    let a = run_end(t, p, tag_chars());
    let q = a + 1;
    if !at(t, a, '=') || !(at(t, q, '"') || at(t, q, '\'')) {
        None
    } else {
        let e = run_end(t, q + 1, other_than(t[q]));
        if e < t.len() {
            Some((t.subrange(p, a), t.subrange(q + 1, e), e + 1))
        } else {
            None
        }
    }
}

/// The attributes from `p` on, up to the `>` that ends the tag, and where
/// that `>` stands. A later value for a name replaces an earlier one.
pub open spec fn attributes_at(t: Seq<char>, p: int) -> Option<(Map<Seq<char>, Seq<char>>, int)>
    decreases t.len() - p,
{
    let q = run_end(t, p, white_space_chars());
    if q < p || q >= t.len() {
        None
    } else if t[q] == '>' {
        Some((Map::empty(), q))
    } else {
        match attribute_at(t, q) {
            None => None,
            Some((name, value, r)) => if r <= q || r > t.len() {
                None
            } else {
                match attributes_at(t, r) {
                    None => None,
                    Some((rest, e)) => Some((Map::empty().insert(name, value).union_prefer_right(rest), e)),
                }
            },
        }
    }
}

/// The nodes from `p` on, up to the end or a closing tag, and where they end.
pub open spec fn nodes_at(t: Seq<char>, p: int) -> Option<(Seq<Markup>, int)>
    decreases t.len() - p, 3int,
{
    let q = run_end(t, p, white_space_chars());
    if q < p {
        None
    } else if q >= t.len() || (at(t, q, '<') && at(t, q + 1, '/')) {
        Some((Seq::empty(), q))
    } else {
        match node_at(t, q) {
            None => None,
            Some((n, r)) => if r <= q || r > t.len() {
                None
            } else {
                match nodes_at(t, r) {
                    None => None,
                    Some((rest, e)) => Some((seq![n] + rest, e)),
                }
            },
        }
    }
}

/// The node at `p` and where it ends.
pub open spec fn node_at(t: Seq<char>, p: int) -> Option<(Markup, int)>
    decreases t.len() - p, 2int,
{
    if p < 0 || p >= t.len() {
        None
    } else if t[p] == '<' {
        if p + 1 >= t.len() {
            None
        } else if t[p + 1] == '!' {
            comment_at(t, p + 1)
        } else {
            element_at(t, p + 1)
        }
    } else {
        let e = run_end(t, p, text_chars());
        Some((Markup::Text(t.subrange(p, e)), e))
    }
}

/// The element whose tag name starts at `p`, just after `<`, and where it ends.
pub open spec fn element_at(t: Seq<char>, p: int) -> Option<(Markup, int)>
    decreases t.len() - p, 1int,
{
    let a = run_end(t, p, tag_chars());
    let tag = t.subrange(p, a);
    match attributes_at(t, a) {
        None => None,
        Some((attrs, b)) => if b + 1 <= p || b + 1 > t.len() {
            None
        } else {
            match nodes_at(t, b + 1) {
                None => None,
                Some((kids, d)) => {
                    let e = run_end(t, d + 2, tag_chars());
                    if at(t, d, '<') && at(t, d + 1, '/') && t.subrange(d + 2, e) == tag && at(
                        t,
                        e,
                        '>',
                    ) {
                        Some((Markup::Element(tag, attrs, kids), e + 1))
                    } else {
                        None
                    }
                },
            }
        },
    }
}

/// The document: its one top-level node, or an `html` element around its
/// top-level nodes when there are none or several.
pub open spec fn document(t: Seq<char>) -> Option<Markup> {
    match nodes_at(t, 0) {
        None => None,
        Some((nodes, _)) => if nodes.len() == 1 {
            Some(nodes[0])
        } else {
            Some(Markup::Element("html"@, Map::empty(), nodes))
        },
    }
}

/// The document in `source`: its one top-level node, or an `html` element
/// around its top-level nodes when there are none or several.
pub fn parse(source: String) -> (r: Result<Node, ParseError>)
    ensures
        r is Ok <==> document(source@) is Some,
        r is Ok ==> node_is(r->Ok_0, document(source@)->Some_0),
{
    let mut p = HTMLParser::new(source);
    let mut nodes = p.parse_nodes()?;
    let ghost kids = nodes_at(p.text(), 0)->Some_0.0;
    if nodes.len() == 1 {
        let n = nodes.pop().unwrap();
        assert(node_is(n, kids[0]));
        Ok(n)
    } else {
        let r = dom::element(String::from_str("html"), ListMap::new(), nodes);
        proof {
            reveal_strlit("html");
            assert(attribute_views(Map::<Seq<char>, String>::empty()) =~= Map::empty());
            assert forall|i: int| 0 <= i < kids.len() implies node_is(#[trigger] r.children@[i], kids[i]) by {
                assert(r.children@[i] == nodes@[i]);
            }
        }
        Ok(r)
    }
}

/// `s` without the white space at its end.
pub fn trim_end(s: &String) -> (r: String)
    ensures
        r@ == trimmed_end(s@),
{
    let cs = crate::chars::chars_of(s.as_str());
    let mut n: usize = cs.len();
    assert(cs@.take(cs@.len() as int) == cs@);
    while n > 0 && crate::parser::is_whitespace(cs[n - 1])
        invariant
            n <= cs@.len(),
            trimmed_end(cs@.take(n as int)) == trimmed_end(cs@),
        decreases n,
    {
        assert(cs@.take(n as int).drop_last() == cs@.take(n - 1));
        n = n - 1;
    }
    assert(cs@.take(cs@.len() as int) == cs@);
    let mut piece: Vec<char> = Vec::new();
    let mut i: usize = 0;
    while i < n
        invariant
            i <= n <= cs@.len(),
            piece@ == cs@.take(i as int),
        decreases n - i,
    {
        piece.push(cs[i]);
        assert(piece@ =~= cs@.take(i + 1));
        i = i + 1;
    }
    crate::chars::string_of(piece.as_slice())
}

struct HTMLParser {
    parser: Parser,
}

impl HTMLParser {
    spec fn text(&self) -> Seq<char> {
        self.parser.text()
    }

    spec fn pos(&self) -> int {
        self.parser.pos()
    }

    spec fn rem(&self) -> nat {
        (self.parser.text().len() - self.parser.pos()) as nat
    }

    fn new(input: String) -> (r: HTMLParser)
        ensures
            r.text() == input@,
            r.pos() == 0,
    {
        HTMLParser { parser: Parser::new(0, input) }
    }

    fn skip_white_space(&mut self)
        requires
            old(self).pos() <= old(self).text().len(),
        ensures
            final(self).text() == old(self).text(),
            final(self).pos() == run_end(old(self).text(), old(self).pos(), white_space_chars()),
            old(self).pos() <= final(self).pos() <= final(self).text().len(),
    {
        self.parser.consume_whitespace();
        proof {
            lemma_run_end(self.text(), old(self).pos(), self.pos(), white_space_chars());
        }
    }

    /// Text, or an element or comment where the next character is `<`.
    fn parse_node(&mut self) -> (r: Result<Node, ParseError>)
        requires
            old(self).pos() < old(self).text().len(),
        ensures
            final(self).text() == old(self).text(),
            old(self).pos() <= final(self).pos() <= final(self).text().len(),
            r is Ok <==> node_at(old(self).text(), old(self).pos()) is Some,
            r is Ok ==> final(self).pos() > old(self).pos() && node_is(
                r->Ok_0,
                node_at(old(self).text(), old(self).pos())->Some_0.0,
            ) && final(self).pos() == node_at(old(self).text(), old(self).pos())->Some_0.1,
        decreases old(self).rem(), 2int,
    {
        if self.parser.next_char() == '<' {
            self.parse_element_or_comment()
        } else {
            let ghost start = self.pos();
            let r = self.parse_text();
            proof {
                assert(run_end(self.text(), start, text_chars()) == run_end(
                    self.text(),
                    start + 1,
                    text_chars(),
                ));
                lemma_run_end_bounds(self.text(), start + 1, text_chars());
            }
            r
        }
    }

    fn parse_element_or_comment(&mut self) -> (r: Result<Node, ParseError>)
        requires
            old(self).pos() < old(self).text().len(),
            old(self).text()[old(self).pos()] == '<',
        ensures
            final(self).text() == old(self).text(),
            old(self).pos() <= final(self).pos() <= final(self).text().len(),
            r is Ok <==> node_at(old(self).text(), old(self).pos()) is Some,
            r is Ok ==> final(self).pos() > old(self).pos() && node_is(
                r->Ok_0,
                node_at(old(self).text(), old(self).pos())->Some_0.0,
            ) && final(self).pos() == node_at(old(self).text(), old(self).pos())->Some_0.1,
        decreases old(self).rem(), 1int,
    {
        self.parser.consume_char();
        if self.parser.ended() {
            return Err(ParseError::UnexpectedEnd);
        }
        if self.parser.next_char() == '!' {
            self.parse_comment()
        } else {
            self.parse_element()
        }
    }

    /// A comment from `!` to `-->`; its text starts after the opening dashes
    /// and white space and loses its trailing white space.
    fn parse_comment(&mut self) -> (r: Result<Node, ParseError>)
        requires
            old(self).pos() <= old(self).text().len(),
        ensures
            final(self).text() == old(self).text(),
            old(self).pos() <= final(self).pos() <= final(self).text().len(),
            r is Ok <==> comment_at(old(self).text(), old(self).pos()) is Some,
            r is Ok ==> final(self).pos() > old(self).pos() && node_is(
                r->Ok_0,
                comment_at(old(self).text(), old(self).pos())->Some_0.0,
            ) && final(self).pos() == comment_at(old(self).text(), old(self).pos())->Some_0.1,
    {
        let ghost t = self.text();
        let ghost p = self.pos();
        self.parser.expect_char('!')?;
        loop
            invariant_except_break
                comment_opening_end(t, p + 1) == comment_opening_end(t, self.pos()),
            invariant
                t == old(self).text(),
                p == old(self).pos(),
                self.text() == t,
                p < self.pos() <= t.len(),
                at(t, p, '!'),
            ensures
                self.text() == t,
                p < self.pos() <= t.len(),
                comment_opening_end(t, p + 1) == Some(self.pos()),
            decreases self.rem(),
        {
            if self.parser.ended() {
                return Err(ParseError::UnexpectedEnd);
            }
            let delimiter = self.parser.consume_char();
            if self.parser.ended() {
                return Err(ParseError::UnexpectedEnd);
            }
            if delimiter == '-' && self.parser.next_char() != delimiter {
                break;
            }
        }
        self.skip_white_space();
        let ghost w = self.pos();
        let test = |c: char| -> (r: bool)
            ensures
                r == (c != '-'),
            { c != '-' };
        let comment = self.parser.consume_while(test);
        proof {
            lemma_run_end(t, w, self.pos(), other_than('-'));
        }
        self.parser.expect_char('-')?;
        self.parser.expect_char('-')?;
        self.parser.expect_char('>')?;
        Ok(dom::comment(trim_end(&comment)))
    }

    /// The text up to the next `<` or the end.
    fn parse_text(&mut self) -> (r: Result<Node, ParseError>)
        requires
            old(self).pos() <= old(self).text().len(),
        ensures
            final(self).text() == old(self).text(),
            final(self).pos() == run_end(old(self).text(), old(self).pos(), text_chars()),
            old(self).pos() <= final(self).pos() <= final(self).text().len(),
            r is Ok,
            r is Ok ==> node_is(
                r->Ok_0,
                Markup::Text(old(self).text().subrange(old(self).pos(), final(self).pos())),
            ),
    {
        let test = |c: char| -> (r: bool)
            ensures
                r == (c != '<'),
            { c != '<' };
        let t = self.parser.consume_while(test);
        proof {
            lemma_run_end(self.text(), old(self).pos(), self.pos(), text_chars());
        }
        Ok(dom::text(t))
    }

    /// An element, from its tag name to its closing tag.
    fn parse_element(&mut self) -> (r: Result<Node, ParseError>)
        requires
            old(self).pos() <= old(self).text().len(),
        ensures
            final(self).text() == old(self).text(),
            old(self).pos() <= final(self).pos() <= final(self).text().len(),
            r is Ok <==> element_at(old(self).text(), old(self).pos()) is Some,
            r is Ok ==> final(self).pos() > old(self).pos() && node_is(
                r->Ok_0,
                element_at(old(self).text(), old(self).pos())->Some_0.0,
            ) && final(self).pos() == element_at(old(self).text(), old(self).pos())->Some_0.1,
        decreases old(self).rem(), 0int,
    {
        let ghost t = self.text();
        let ghost p = self.pos();
        let tag_name = self.parse_tag_name();
        let attributes = self.parse_attributes()?;
        let ghost b = self.pos();
        self.parser.expect_char('>')?;
        let children = self.parse_nodes()?;
        self.parser.expect_char('<')?;
        self.parser.expect_char('/')?;
        let at = self.parser_position();
        let closing = self.parse_tag_name();
        if !(closing == tag_name) {
            return Err(ParseError::MismatchedTag(at));
        }
        self.parser.expect_char('>')?;
        let r = dom::element(tag_name, attributes, children);
        proof {
            let kids = nodes_at(t, b + 1)->Some_0.0;
            assert forall|i: int| 0 <= i < kids.len() implies node_is(#[trigger] r.children@[i], kids[i]) by {
                assert(r.children@[i] == children@[i]);
            }
        }
        Ok(r)
    }

    fn parser_position(&self) -> (r: usize)
        ensures
            r == self.pos(),
    {
        self.parser.position()
    }

    /// Nodes up to the end of the input or a closing tag, skipping white
    /// space between them.
    fn parse_nodes(&mut self) -> (r: Result<Vec<Node>, ParseError>)
        requires
            old(self).pos() <= old(self).text().len(),
        ensures
            final(self).text() == old(self).text(),
            old(self).pos() <= final(self).pos() <= final(self).text().len(),
            r is Ok <==> nodes_at(old(self).text(), old(self).pos()) is Some,
            r is Ok ==> ({
                let (kids, e) = nodes_at(old(self).text(), old(self).pos())->Some_0;
                &&& final(self).pos() == e
                &&& r->Ok_0@.len() == kids.len()
                &&& forall|i: int| 0 <= i < kids.len() ==> node_is(#[trigger] r->Ok_0@[i], kids[i])
            }),
        decreases old(self).rem(), 3int,
    {
        let ghost t = self.text();
        let ghost p = self.pos();
        let mut nodes: Vec<Node> = Vec::new();
        loop
            invariant_except_break
                nodes_at(t, p) is Some <==> nodes_at(t, self.pos()) is Some,
                nodes_at(t, self.pos()) is Some ==> ({
                    let (all, e) = nodes_at(t, p)->Some_0;
                    let (rest, e2) = nodes_at(t, self.pos())->Some_0;
                    &&& e == e2
                    &&& all.len() == nodes@.len() + rest.len()
                    &&& forall|i: int| 0 <= i < nodes@.len() ==> node_is(#[trigger] nodes@[i], all[i])
                    &&& forall|j: int| 0 <= j < rest.len() ==> all[nodes@.len() + j] == #[trigger] rest[j]
                }),
            invariant
                t == old(self).text(),
                p == old(self).pos(),
                self.text() == t,
                p <= self.pos() <= t.len(),
            ensures
                self.text() == t,
                p <= self.pos() <= t.len(),
                nodes_at(t, p) is Some,
                ({
                    let (all, e) = nodes_at(t, p)->Some_0;
                    &&& e == self.pos()
                    &&& all.len() == nodes@.len()
                    &&& forall|i: int| 0 <= i < nodes@.len() ==> node_is(#[trigger] nodes@[i], all[i])
                }),
            decreases self.rem(),
        {
            let ghost cur = self.pos();
            self.skip_white_space();
            let ghost q = self.pos();
            if self.parser.ended() || self.parser.starts_with("</") {
                proof {
                    reveal_strlit("</");
                    if q < t.len() {
                        assert(t.subrange(q, q + 2) == "</"@ ==> at(t, q, '<') && at(t, q + 1, '/')) by {
                            if t.subrange(q, q + 2) == "</"@ {
                                assert(t.subrange(q, q + 2)[0] == t[q]);
                                assert(t.subrange(q, q + 2)[1] == t[q + 1]);
                            }
                        }
                    }
                }
                break;
            }
            proof {
                reveal_strlit("</");
                if at(t, q, '<') && at(t, q + 1, '/') {
                    assert(t.subrange(q, q + 2) =~= "</"@);
                }
            }
            let node = self.parse_node()?;
            let ghost before = nodes@;
            nodes.push(node);
            proof {
                let (n, r) = node_at(t, q)->Some_0;
                if nodes_at(t, self.pos()) is Some {
                    let (rest, e) = nodes_at(t, self.pos())->Some_0;
                    let (all, _) = nodes_at(t, p)->Some_0;
                    let (cur_rest, _) = nodes_at(t, cur)->Some_0;
                    assert(cur_rest == seq![n] + rest);
                    assert forall|j: int| 0 <= j < rest.len() implies all[nodes@.len() + j] == #[trigger] rest[j] by {
                        assert(cur_rest[j + 1] == rest[j]);
                    }
                    assert forall|i: int| 0 <= i < nodes@.len() implies node_is(#[trigger] nodes@[i], all[i]) by {
                        if i < before.len() {
                            assert(nodes@[i] == before[i]);
                        } else {
                            assert(cur_rest[0] == n);
                        }
                    }
                }
            }
        }
        Ok(nodes)
    }

    /// Attributes up to the `>` that ends the opening tag; a name given twice
    /// keeps its last value.
    fn parse_attributes(&mut self) -> (r: Result<AttrMap, ParseError>)
        requires
            old(self).pos() <= old(self).text().len(),
        ensures
            final(self).text() == old(self).text(),
            old(self).pos() <= final(self).pos() <= final(self).text().len(),
            r is Ok <==> attributes_at(old(self).text(), old(self).pos()) is Some,
            r is Ok ==> ({
                let (attrs, e) = attributes_at(old(self).text(), old(self).pos())->Some_0;
                &&& attribute_views(r->Ok_0@) == attrs
                &&& unique_names(r->Ok_0.entries@)
                &&& final(self).pos() == e
                &&& e < final(self).text().len()
                &&& final(self).text()[e] == '>'
            }),
    {
        let ghost t = self.text();
        let ghost p = self.pos();
        let mut attributes: AttrMap = ListMap::new();
        loop
            invariant_except_break
                attributes_at(t, p) is Some <==> attributes_at(t, self.pos()) is Some,
                attributes_at(t, self.pos()) is Some ==> attributes_at(t, p)->Some_0 == (
                    attribute_views(attributes@).union_prefer_right(
                        attributes_at(t, self.pos())->Some_0.0,
                    ),
                    attributes_at(t, self.pos())->Some_0.1,
                ),
            invariant
                t == old(self).text(),
                p == old(self).pos(),
                self.text() == t,
                p <= self.pos() <= t.len(),
                unique_names(attributes.entries@),
            ensures
                self.text() == t,
                p <= self.pos() < t.len(),
                t[self.pos() as int] == '>',
                unique_names(attributes.entries@),
                attributes_at(t, p) == Some((attribute_views(attributes@), self.pos())),
            decreases self.rem(),
        {
            self.skip_white_space();
            if self.parser.ended() {
                return Err(ParseError::UnexpectedEnd);
            }
            if self.parser.next_char() == '>' {
                assert(attribute_views(attributes@).union_prefer_right(Map::empty()) =~= attribute_views(attributes@));
                break;
            }
            let (name, value) = self.parse_attr()?;
            let ghost before = attribute_views(attributes@);
            let ghost nv = (name@, value@);
            attributes.insert(name, value);
            proof {
                assert(attribute_views(attributes@) =~= before.insert(nv.0, nv.1));
                if attributes_at(t, self.pos()) is Some {
                    let rest = attributes_at(t, self.pos())->Some_0.0;
                    assert(before.union_prefer_right(Map::empty().insert(nv.0, nv.1).union_prefer_right(rest))
                        =~= before.insert(nv.0, nv.1).union_prefer_right(rest));
                }
            }
        }
        Ok(attributes)
    }

    /// `name="value"` or `name='value'`.
    fn parse_attr(&mut self) -> (r: Result<(String, String), ParseError>)
        requires
            old(self).pos() <= old(self).text().len(),
        ensures
            final(self).text() == old(self).text(),
            old(self).pos() <= final(self).pos() <= final(self).text().len(),
            r is Ok <==> attribute_at(old(self).text(), old(self).pos()) is Some,
            r is Ok ==> final(self).pos() > old(self).pos(),
            r is Ok ==> attribute_at(old(self).text(), old(self).pos())->Some_0 == (
                r->Ok_0.0@,
                r->Ok_0.1@,
                final(self).pos(),
            ),
    {
        let name = self.parse_tag_name();
        self.parser.expect_char('=')?;
        let value = self.parse_attr_value()?;
        Ok((name, value))
    }

    /// A value in matching single or double quotes.
    fn parse_attr_value(&mut self) -> (r: Result<String, ParseError>)
        requires
            old(self).pos() <= old(self).text().len(),
        ensures
            final(self).text() == old(self).text(),
            old(self).pos() <= final(self).pos() <= final(self).text().len(),
            r is Ok ==> final(self).pos() > old(self).pos(),
            ({
                let t = old(self).text();
                let q = old(self).pos();
                &&& r is Ok <==> (at(t, q, '"') || at(t, q, '\'')) && run_end(t, q + 1, other_than(t[q])) < t.len()
                &&& r is Ok ==> r->Ok_0@ == t.subrange(q + 1, run_end(t, q + 1, other_than(t[q])))
                    && final(self).pos() == run_end(t, q + 1, other_than(t[q])) + 1
            }),
    {
        if self.parser.ended() {
            return Err(ParseError::UnexpectedEnd);
        }
        let at = self.parser_position();
        let open_quote = self.parser.consume_char();
        if !(open_quote == '"' || open_quote == '\'') {
            return Err(ParseError::Unexpected(open_quote, at));
        }
        let test = |c: char| -> (r: bool)
            ensures
                r == (c != open_quote),
            { c != open_quote };
        let value = self.parser.consume_while(test);
        proof {
            lemma_run_end(self.text(), at + 1, self.pos(), other_than(open_quote));
        }
        if self.parser.ended() {
            return Err(ParseError::UnexpectedEnd);
        }
        self.parser.consume_char();
        Ok(value)
    }

    /// The run of ASCII letters and digits that follows.
    fn parse_tag_name(&mut self) -> (r: String)
        requires
            old(self).pos() <= old(self).text().len(),
        ensures
            final(self).text() == old(self).text(),
            final(self).pos() == run_end(old(self).text(), old(self).pos(), tag_chars()),
            old(self).pos() <= final(self).pos() <= final(self).text().len(),
            r@ == old(self).text().subrange(old(self).pos(), final(self).pos()),
    {
        let test = |c: char| -> (r: bool)
            ensures
                r == is_tag_char(c),
            { ('a' <= c && c <= 'z') || ('A' <= c && c <= 'Z') || ('0' <= c && c <= '9') };
        let r = self.parser.consume_while(test);
        proof {
            lemma_run_end(self.text(), old(self).pos(), self.pos(), tag_chars());
        }
        r
    }
}

} // verus!
