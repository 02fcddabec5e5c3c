//! A parser for a small subset of CSS: rules of simple selectors and
//! declarations whose values are keywords, pixel lengths or `#rrggbb` colours.

use vstd::prelude::*;
use vstd::multiset::Multiset;
use vstd::seq_lib::*;

use crate::cssom::{
    specificity_less, specificity_lt, spec_specificity, Color, Specificity, Declaration, Rule, Selector,
    SimpleSelector, StyleSheet, Unit, Value,
};
use crate::parser::{
    at, lemma_run_end, lemma_run_end_bounds, run_end, white_space_chars, ParseError, Parser,
};

verus! {

/// A letter or digit of ASCII, `-` or `_`.
pub open spec fn is_ident_char(c: char) -> bool {
    ('a' <= c && c <= 'z') || ('A' <= c && c <= 'Z') || ('0' <= c && c <= '9') || c == '-' || c
        == '_'
}

pub open spec fn ident_chars() -> spec_fn(char) -> bool {
    |c: char| is_ident_char(c)
}

pub open spec fn is_digit(c: char) -> bool {
    '0' <= c && c <= '9'
}

pub open spec fn number_chars() -> spec_fn(char) -> bool {
    |c: char| is_digit(c) || c == '.'
}

pub open spec fn digit_value(c: char) -> nat {
    (c as u32 - '0' as u32) as nat
}

/// The value of a string of decimal digits.
pub open spec fn digits_value(s: Seq<char>) -> nat
    decreases s.len(),
{
    if s.len() == 0 {
        0
    } else {
        digits_value(s.drop_last()) * 10 + digit_value(s.last())
    }
}

pub open spec fn is_hex_digit(c: char) -> bool {
    ('0' <= c && c <= '9') || ('a' <= c && c <= 'f') || ('A' <= c && c <= 'F')
}

pub open spec fn hex_digit_value(c: char) -> nat {
    if '0' <= c && c <= '9' {
        (c as u32 - '0' as u32) as nat
    } else if 'a' <= c && c <= 'f' {
        (c as u32 - 'a' as u32 + 10) as nat
    } else {
        (c as u32 - 'A' as u32 + 10) as nat
    }
}

/// Where the first `.` of `s` stands, or its length.
pub open spec fn point_index(s: Seq<char>) -> int
    decreases s.len(),
{
    if s.len() == 0 {
        0
    } else if s[0] == '.' {
        0
    } else {
        1 + point_index(s.drop_first())
    }
}

/// The first three digits after the point, as thousandths.
pub open spec fn fraction_thousandths(f: Seq<char>) -> nat {
    if f.len() >= 3 {
        digits_value(f.take(3))
    } else if f.len() == 2 {
        digits_value(f) * 10
    } else if f.len() == 1 {
        digits_value(f) * 100
    } else {
        0
    }
}

/// A number of digits with at most one point, in thousandths; further
/// digits after the point are dropped.
pub open spec fn number_thousandths(s: Seq<char>) -> nat {
    let p = point_index(s);
    digits_value(s.take(p)) * 1000 + if p < s.len() {
        fraction_thousandths(s.skip(p + 1))
    } else {
        0
    }
}

/// At most one point.
pub open spec fn well_formed_number(s: Seq<char>) -> bool {
    forall|k: int| point_index(s) < k < s.len() ==> #[trigger] s[k] != '.'
}

/// A simple selector as plain values.
pub struct SelectorView {
    pub tag: Option<Seq<char>>,
    pub id: Option<Seq<char>>,
    pub classes: Seq<Seq<char>>,
}

pub enum ValueView {
    Keyword(Seq<char>),
    Length(u64),
    ColorValue(Color),
}

/// A rule as plain values: its selectors and its (name, value) declarations.
pub struct RuleView {
    pub selectors: Seq<SelectorView>,
    pub declarations: Seq<(Seq<char>, ValueView)>,
}

pub open spec fn option_view(o: Option<String>) -> Option<Seq<char>> {
    match o {
        Some(s) => Some(s@),
        None => None,
    }
}

pub open spec fn selector_view(sel: Selector) -> SelectorView {
    match sel {
        Selector::Simple(s) => SelectorView {
            tag: option_view(s.tag_name),
            id: option_view(s.id),
            classes: s.class@.map_values(|c: String| c@),
        },
    }
}

pub open spec fn value_view(v: Value) -> ValueView {
    match v {
        Value::Keyword(k) => ValueView::Keyword(k@),
        Value::Length(n, _) => ValueView::Length(n),
        Value::ColorValue(c) => ValueView::ColorValue(c),
    }
}

pub open spec fn declaration_view(d: Declaration) -> (Seq<char>, ValueView) {
    (d.name@, value_view(d.value))
}

pub open spec fn rule_view(r: Rule) -> RuleView {
    RuleView {
        selectors: r.selectors@.map_values(|s: Selector| selector_view(s)),
        declarations: r.declarations@.map_values(|d: Declaration| declaration_view(d)),
    }
}

pub open spec fn view_specificity(v: SelectorView) -> (usize, usize, usize) {
    (
        if v.id is Some { 1 } else { 0 },
        v.classes.len() as usize,
        if v.tag is Some { 1 } else { 0 },
    )
}

/// `x` placed before the first selector of `l` that is not more specific.
pub open spec fn insert_desc(l: Seq<SelectorView>, x: SelectorView) -> Seq<SelectorView>
    decreases l.len(),
{
    if l.len() == 0 || !specificity_lt(view_specificity(x), view_specificity(l[0])) {
        seq![x] + l
    } else {
        seq![l[0]] + insert_desc(l.drop_first(), x)
    }
}

/// The selectors by descending specificity; equally specific ones keep their order.
pub open spec fn sort_desc(s: Seq<SelectorView>) -> Seq<SelectorView>
    decreases s.len(),
{
    if s.len() == 0 {
        s
    } else {
        insert_desc(sort_desc(s.drop_first()), s[0])
    }
}

pub open spec fn skip_ws(t: Seq<char>, p: int) -> int {
    run_end(t, p, white_space_chars())
}

/// The parts of a simple selector from `p` on, added to `acc`, and where they end.
pub open spec fn simple_scan(t: Seq<char>, p: int, acc: SelectorView) -> (SelectorView, int)
    decreases t.len() - p,
{
    if p < 0 || p >= t.len() {
        (acc, p)
    } else if t[p] == '#' {
        let e = run_end(t, p + 1, ident_chars());
        if e <= p || e > t.len() {
            (acc, p)
        } else {
            simple_scan(t, e, SelectorView { id: Some(t.subrange(p + 1, e)), ..acc })
        }
    } else if t[p] == '.' {
        let e = run_end(t, p + 1, ident_chars());
        if e <= p || e > t.len() {
            (acc, p)
        } else {
            simple_scan(
                t,
                e,
                SelectorView { classes: acc.classes.push(t.subrange(p + 1, e)), ..acc },
            )
        }
    } else if t[p] == '*' {
        simple_scan(t, p + 1, acc)
    } else if is_ident_char(t[p]) {
        let e = run_end(t, p, ident_chars());
        if e <= p || e > t.len() {
            (acc, p)
        } else {
            simple_scan(t, e, SelectorView { tag: Some(t.subrange(p, e)), ..acc })
        }
    } else {
        (acc, p)
    }
}

pub open spec fn no_selector() -> SelectorView {
    SelectorView { tag: None, id: None, classes: Seq::empty() }
}

/// Comma-separated simple selectors from `p` on, in the order written, and
/// where the `{` after them stands.
pub open spec fn selectors_at(t: Seq<char>, p: int) -> Option<(Seq<SelectorView>, int)>
    decreases t.len() - p,
{
    let (v, a) = simple_scan(t, p, no_selector());
    let q = skip_ws(t, a);
    if q < 0 || q >= t.len() {
        None
    } else if t[q] == ',' {
        let r = skip_ws(t, q + 1);
        if r <= p || r > t.len() {
            None
        } else {
            match selectors_at(t, r) {
                None => None,
                Some((rest, e)) => Some((seq![v] + rest, e)),
            }
        }
    } else if t[q] == '{' {
        Some((seq![v], q))
    } else {
        None
    }
}

/// A value from `p` on: a length where a digit stands, a colour where `#`
/// does, a keyword otherwise; and where it ends.
pub open spec fn value_at(t: Seq<char>, p: int) -> Option<(ValueView, int)> {
    if p < 0 || p >= t.len() {
        None
    } else if is_digit(t[p]) {
        let n = run_end(t, p, number_chars());
        let s = t.subrange(p, n);
        let u = run_end(t, n, ident_chars());
        let unit = t.subrange(n, u);
        if well_formed_number(s) && number_thousandths(s) <= u64::MAX && unit.len() == 2 && (
        unit[0] == 'p' || unit[0] == 'P') && (unit[1] == 'x' || unit[1] == 'X') {
            Some((ValueView::Length(number_thousandths(s) as u64), u))
        } else {
            None
        }
    } else if t[p] == '#' {
        if p + 7 <= t.len() && forall|k: int| p + 1 <= k < p + 7 ==> is_hex_digit(#[trigger] t[k]) {
            Some(
                (
                    ValueView::ColorValue(
                        Color {
                            r: (hex_digit_value(t[p + 1]) * 16 + hex_digit_value(t[p + 2])) as u8,
                            g: (hex_digit_value(t[p + 3]) * 16 + hex_digit_value(t[p + 4])) as u8,
                            b: (hex_digit_value(t[p + 5]) * 16 + hex_digit_value(t[p + 6])) as u8,
                            a: 255,
                        },
                    ),
                    p + 7,
                ),
            )
        } else {
            None
        }
    } else {
        let e = run_end(t, p, ident_chars());
        Some((ValueView::Keyword(t.subrange(p, e)), e))
    }
}

/// `name : value ;` from `p` on, white space allowed around the colon and
/// the value, and where it ends.
pub open spec fn declaration_at(t: Seq<char>, p: int) -> Option<((Seq<char>, ValueView), int)> {
    let a = run_end(t, p, ident_chars());
    let b = skip_ws(t, a);
    if !at(t, b, ':') {
        None
    } else {
        match value_at(t, skip_ws(t, b + 1)) {
            None => None,
            Some((v, d)) => {
                let e = skip_ws(t, d);
                if at(t, e, ';') {
                    Some(((t.subrange(p, a), v), e + 1))
                } else {
                    None
                }
            },
        }
    }
}

/// The declarations from `p` on, just after `{`, and where the `}` after
/// them ends.
pub open spec fn declarations_at(t: Seq<char>, p: int) -> Option<(Seq<(Seq<char>, ValueView)>, int)>
    decreases t.len() - p,
{
    let q = skip_ws(t, p);
    if q < p || q >= t.len() {
        None
    } else if t[q] == '}' {
        Some((Seq::empty(), q + 1))
    } else {
        match declaration_at(t, q) {
            None => None,
            Some((d, r)) => if r <= q || r > t.len() {
                None
            } else {
                match declarations_at(t, r) {
                    None => None,
                    Some((rest, e)) => Some((seq![d] + rest, e)),
                }
            },
        }
    }
}

/// A rule from `p` on, its selectors sorted, and where it ends.
pub open spec fn rule_at(t: Seq<char>, p: int) -> Option<(RuleView, int)> {
    match selectors_at(t, p) {
        None => None,
        Some((sels, b)) => match declarations_at(t, b + 1) {
            None => None,
            Some((decls, e)) => Some((RuleView { selectors: sort_desc(sels), declarations: decls }, e)),
        },
    }
}

/// The rules from `p` on, up to the end.
pub open spec fn rules_at(t: Seq<char>, p: int) -> Option<Seq<RuleView>>
    decreases t.len() - p,
{
    let q = skip_ws(t, p);
    if q < p || q >= t.len() {
        Some(Seq::empty())
    } else {
        match rule_at(t, q) {
            None => None,
            Some((r, e)) => if e <= q || e > t.len() {
                None
            } else {
                match rules_at(t, e) {
                    None => None,
                    Some(rest) => Some(seq![r] + rest),
                }
            },
        }
    }
}

/// Whether `c` may stand in an identifier.
pub fn valid_identifier_char(c: char) -> (r: bool)
    ensures
        r == is_ident_char(c),
{
    ('a' <= c && c <= 'z') || ('A' <= c && c <= 'Z') || ('0' <= c && c <= '9') || c == '-' || c
        == '_'
}

/// The stylesheet in `source`.
pub fn parse(source: String) -> (r: Result<StyleSheet, ParseError>)
    ensures
        r is Ok <==> rules_at(source@, 0) is Some,
        r is Ok ==> r->Ok_0.rules@.map_values(|x: Rule| rule_view(x)) == rules_at(source@, 0)->Some_0,
        r is Ok ==> forall|i: int|
            0 <= i < r->Ok_0.rules@.len() ==> selectors_sorted(#[trigger] r->Ok_0.rules@[i].selectors@),
{
    let mut parser = CSSParser::new(source);
    let rules = parser.parse_rules()?;
    Ok(StyleSheet { rules })
}

/// Highest specificity first.
pub open spec fn selectors_sorted(s: Seq<Selector>) -> bool {
    forall|i: int, j: int|
        0 <= i < j < s.len() ==> !specificity_lt(
            spec_specificity(#[trigger] s[i]),
            spec_specificity(#[trigger] s[j]),
        )
}

pub open spec fn selector_views(s: Seq<Selector>) -> Seq<SelectorView> {
    s.map_values(|x: Selector| selector_view(x))
}

proof fn lemma_insert_desc_at(l: Seq<SelectorView>, x: SelectorView, k: int)
    requires
        0 <= k <= l.len(),
        forall|j: int| 0 <= j < k ==> specificity_lt(view_specificity(x), view_specificity(#[trigger] l[j])),
        k == l.len() || !specificity_lt(view_specificity(x), view_specificity(l[k])),
    ensures
        insert_desc(l, x) == l.take(k).push(x) + l.skip(k),
    decreases k,
{
    if k == 0 {
        assert(l.take(0).push(x) + l.skip(0) =~= seq![x] + l);
    } else {
        assert forall|j: int| 0 <= j < k - 1 implies specificity_lt(
            view_specificity(x),
            view_specificity(#[trigger] l.drop_first()[j]),
        ) by {
            assert(l.drop_first()[j] == l[j + 1]);
        }
        if k < l.len() {
            assert(l.drop_first()[k - 1] == l[k]);
        }
        lemma_insert_desc_at(l.drop_first(), x, k - 1);
        assert(seq![l[0]] + (l.drop_first().take(k - 1).push(x) + l.drop_first().skip(k - 1))
            =~= l.take(k).push(x) + l.skip(k));
    }
}

/// The first position whose selector is not more specific than `sp`.
fn insertion_point(sorted: &Vec<Selector>, sp: Specificity) -> (k: usize)
    ensures
        k <= sorted@.len(),
        forall|j: int| 0 <= j < k ==> specificity_lt(sp, spec_specificity(#[trigger] sorted@[j])),
        k == sorted@.len() || !specificity_lt(sp, spec_specificity(sorted@[k as int])),
{
    let mut k: usize = 0;
    while k < sorted.len() && specificity_less(sp, sorted[k].specificity())
        invariant
            k <= sorted@.len(),
            forall|j: int| 0 <= j < k ==> specificity_lt(sp, spec_specificity(#[trigger] sorted@[j])),
        decreases sorted@.len() - k,
    {
        k = k + 1;
    }
    k
}

/// The selectors reordered with the highest specificity first; selectors of
/// equal specificity keep their order.
pub fn sort_by_specificity(selectors: Vec<Selector>) -> (r: Vec<Selector>)
    ensures
        selectors_sorted(r@),
        r@.to_multiset() == selectors@.to_multiset(),
        selector_views(r@) == sort_desc(selector_views(selectors@)),
{
    broadcast use group_to_multiset_ensures;

    let mut input = selectors;
    let mut sorted: Vec<Selector> = Vec::new();
    let ghost given = input@;
    assert(selector_views(given).skip(given.len() as int) =~= Seq::<SelectorView>::empty());
    while input.len() > 0
        invariant
            selectors_sorted(sorted@),
            sorted@.to_multiset().add(input@.to_multiset()) == given.to_multiset(),
            input@.len() <= given.len(),
            input@ == given.take(input@.len() as int),
            selector_views(sorted@) == sort_desc(selector_views(given).skip(input@.len() as int)),
        decreases input@.len(),
    {
        let ghost before = input@;
        let s = input.pop().unwrap();
        assert(before == input@.push(s));
        let sp = s.specificity();
        // the selectors already placed stood later in the list: `s` goes
        // before those of its own specificity
        let k = insertion_point(&sorted, sp);
        let ghost prev = sorted@;
        sorted.insert(k, s);
        proof {
            let n = input@.len() as int;
            let vs = selector_views(given);
            assert(given[n] == s) by {
                assert(before == given.take(n + 1));
                assert(before[n] == s);
            }
            assert(input@ =~= given.take(n));
            assert(vs.skip(n).drop_first() =~= vs.skip(n + 1));
            assert(vs.skip(n)[0] == selector_view(s));
            assert forall|j: int| 0 <= j < k implies specificity_lt(
                view_specificity(selector_view(s)),
                view_specificity(#[trigger] selector_views(prev)[j]),
            ) by {
                assert(selector_views(prev)[j] == selector_view(prev[j]));
            }
            if k < prev.len() {
                assert(selector_views(prev)[k as int] == selector_view(prev[k as int]));
            }
            lemma_insert_desc_at(selector_views(prev), selector_view(s), k as int);
            assert(selector_views(sorted@) =~= selector_views(prev).take(k as int).push(
                selector_view(s),
            ) + selector_views(prev).skip(k as int));
            assert forall|i: int, j: int|
                0 <= i < j < sorted@.len() implies !specificity_lt(
                spec_specificity(#[trigger] sorted@[i]),
                spec_specificity(#[trigger] sorted@[j]),
            ) by {
                if j < k {
                    assert(sorted@[i] == prev[i]);
                    assert(sorted@[j] == prev[j]);
                } else if i < k && j == k {
                    assert(sorted@[i] == prev[i]);
                } else if i < k && j > k {
                    assert(sorted@[i] == prev[i]);
                    assert(sorted@[j] == prev[j - 1]);
                } else if i == k && j > k {
                    assert(sorted@[j] == prev[j - 1]);
                    assert(!specificity_lt(sp, spec_specificity(prev[k as int])));
                    if j - 1 > k {
                        assert(!specificity_lt(spec_specificity(prev[k as int]), spec_specificity(prev[j - 1])));
                    }
                } else {
                    assert(sorted@[i] == prev[i - 1]);
                    assert(sorted@[j] == prev[j - 1]);
                }
            }
            to_multiset_insert(prev, k as int, s);
            to_multiset_build(input@, s);
            assert(sorted@.to_multiset() == prev.to_multiset().insert(s));
            assert(before.to_multiset() == input@.to_multiset().insert(s));
            assert(sorted@.to_multiset().add(input@.to_multiset()) =~= prev.to_multiset().add(before.to_multiset()));
        }
    }
    assert(input@ =~= Seq::<Selector>::empty());
    assert(input@.to_multiset() =~= Multiset::empty());
    assert(selector_views(given).skip(0) =~= selector_views(given));
    assert(sorted@.to_multiset() =~= given.to_multiset());
    sorted
}

struct CSSParser {
    parser: Parser,
}

impl CSSParser {
    spec fn text(&self) -> Seq<char> {
        self.parser.text()
    }

    spec fn pos(&self) -> int {
        self.parser.pos()
    }

    spec fn rem(&self) -> nat {
        (self.parser.text().len() - self.parser.pos()) as nat
    }

    fn new(input: String) -> (r: CSSParser)
        ensures
            r.text() == input@,
            r.pos() == 0,
    {
        CSSParser { parser: Parser::new(0, input) }
    }

    fn skip_white_space(&mut self)
        requires
            old(self).pos() <= old(self).text().len(),
        ensures
            final(self).text() == old(self).text(),
            final(self).pos() == skip_ws(old(self).text(), old(self).pos()),
            old(self).pos() <= final(self).pos() <= final(self).text().len(),
    {
        self.parser.consume_whitespace();
        proof {
            lemma_run_end(self.text(), old(self).pos(), self.pos(), white_space_chars());
        }
    }

    /// Rules up to the end of the input.
    fn parse_rules(&mut self) -> (r: Result<Vec<Rule>, ParseError>)
        requires
            old(self).pos() <= old(self).text().len(),
        ensures
            r is Ok <==> rules_at(old(self).text(), old(self).pos()) is Some,
            r is Ok ==> r->Ok_0@.map_values(|x: Rule| rule_view(x)) == rules_at(old(self).text(), old(self).pos())->Some_0,
            r is Ok ==> forall|i: int|
                0 <= i < r->Ok_0@.len() ==> selectors_sorted(#[trigger] r->Ok_0@[i].selectors@),
    {
        let ghost t = self.text();
        let ghost p = self.pos();
        let mut rules: Vec<Rule> = Vec::new();
        loop
            invariant_except_break
                rules_at(t, p) is Some <==> rules_at(t, self.pos()) is Some,
                rules_at(t, self.pos()) is Some ==> rules_at(t, p)->Some_0 == rules@.map_values(
                    |x: Rule| rule_view(x),
                ) + rules_at(t, self.pos())->Some_0,
            invariant
                t == old(self).text(),
                p == old(self).pos(),
                self.text() == t,
                p <= self.pos() <= t.len(),
                forall|i: int| 0 <= i < rules@.len() ==> selectors_sorted(#[trigger] rules@[i].selectors@),
            ensures
                rules_at(t, p) == Some(rules@.map_values(|x: Rule| rule_view(x))),
                forall|i: int| 0 <= i < rules@.len() ==> selectors_sorted(#[trigger] rules@[i].selectors@),
            decreases self.rem(),
        {
            self.skip_white_space();
            if self.parser.ended() {
                assert(rules@.map_values(|x: Rule| rule_view(x)) + Seq::<RuleView>::empty() =~= rules@.map_values(|x: Rule| rule_view(x)));
                break;
            }
            let rule = self.parse_rule()?;
            let ghost before = rules@;
            rules.push(rule);
            proof {
                let v = rule_view(rule);
                assert(rules@.map_values(|x: Rule| rule_view(x)) =~= before.map_values(|x: Rule| rule_view(x)).push(v));
                if rules_at(t, self.pos()) is Some {
                    let rest = rules_at(t, self.pos())->Some_0;
                    assert(before.map_values(|x: Rule| rule_view(x)) + (seq![v] + rest) =~= rules@.map_values(|x: Rule| rule_view(x)) + rest);
                }
            }
        }
        Ok(rules)
    }

    /// Selectors, then declarations in braces.
    fn parse_rule(&mut self) -> (r: Result<Rule, ParseError>)
        requires
            old(self).pos() <= old(self).text().len(),
        ensures
            final(self).text() == old(self).text(),
            old(self).pos() <= final(self).pos() <= final(self).text().len(),
            r is Ok <==> rule_at(old(self).text(), old(self).pos()) is Some,
            r is Ok ==> final(self).pos() > old(self).pos() && (rule_view(r->Ok_0), final(self).pos())
                == rule_at(old(self).text(), old(self).pos())->Some_0,
            r is Ok ==> selectors_sorted(r->Ok_0.selectors@),
    {
        let selectors = self.parse_selectors()?;
        let declarations = self.parse_declarations()?;
        let r = Rule { selectors, declarations };
        assert(rule_view(r).selectors == selector_views(selectors@));
        Ok(r)
    }

    /// Comma-separated simple selectors up to `{`, highest specificity first.
    fn parse_selectors(&mut self) -> (r: Result<Vec<Selector>, ParseError>)
        requires
            old(self).pos() <= old(self).text().len(),
        ensures
            final(self).text() == old(self).text(),
            old(self).pos() <= final(self).pos() <= final(self).text().len(),
            r is Ok <==> selectors_at(old(self).text(), old(self).pos()) is Some,
            r is Ok ==> ({
                let (sels, e) = selectors_at(old(self).text(), old(self).pos())->Some_0;
                &&& selector_views(r->Ok_0@) == sort_desc(sels)
                &&& final(self).pos() == e
                &&& at(final(self).text(), e, '{')
                &&& selectors_sorted(r->Ok_0@)
            }),
    {
        let ghost t = self.text();
        let ghost p = self.pos();
        let mut selectors: Vec<Selector> = Vec::new();
        loop
            invariant_except_break
                selectors_at(t, p) is Some <==> selectors_at(t, self.pos()) is Some,
                selectors_at(t, self.pos()) is Some ==> selectors_at(t, p)->Some_0 == (
                    selector_views(selectors@) + selectors_at(t, self.pos())->Some_0.0,
                    selectors_at(t, self.pos())->Some_0.1,
                ),
            invariant
                t == old(self).text(),
                p == old(self).pos(),
                self.text() == t,
                p <= self.pos() <= t.len(),
            ensures
                at(t, self.pos(), '{'),
                selectors_at(t, p) == Some((selector_views(selectors@), self.pos())),
            decreases self.rem(),
        {
            let simple = self.parse_simple_selector();
            let ghost v = selector_view(Selector::Simple(simple));
            let ghost before = selectors@;
            selectors.push(Selector::Simple(simple));
            assert(selector_views(selectors@) =~= selector_views(before).push(v));
            self.skip_white_space();
            if self.parser.ended() {
                return Err(ParseError::UnexpectedEnd);
            }
            let c = self.parser.next_char();
            if c == ',' {
                self.parser.consume_char();
                self.skip_white_space();
                proof {
                    if selectors_at(t, self.pos()) is Some {
                        let rest = selectors_at(t, self.pos())->Some_0.0;
                        assert(selector_views(before) + (seq![v] + rest) =~= selector_views(selectors@) + rest);
                    }
                }
            } else if c == '{' {
                assert(selector_views(before) + seq![v] =~= selector_views(selectors@));
                break;
            } else {
                return Err(ParseError::Unexpected(c, self.parser.position()));
            }
        }
        Ok(sort_by_specificity(selectors))
    }

    /// Tag name, `#id`, `.class` and `*` parts, up to anything else.
    fn parse_simple_selector(&mut self) -> (r: SimpleSelector)
        requires
            old(self).pos() <= old(self).text().len(),
        ensures
            final(self).text() == old(self).text(),
            old(self).pos() <= final(self).pos() <= final(self).text().len(),
            (selector_view(Selector::Simple(r)), final(self).pos()) == simple_scan(
                old(self).text(),
                old(self).pos(),
                no_selector(),
            ),
    {
        let ghost t = self.text();
        let ghost p = self.pos();
        let mut selector = SimpleSelector { tag_name: None, id: None, class: Vec::new() };
        assert(selector_view(Selector::Simple(selector)).classes =~= Seq::<Seq<char>>::empty());
        while !self.parser.ended()
            invariant_except_break
                simple_scan(t, p, no_selector()) == simple_scan(
                    t,
                    self.pos(),
                    selector_view(Selector::Simple(selector)),
                ),
            invariant
                t == old(self).text(),
                p == old(self).pos(),
                self.text() == t,
                p <= self.pos() <= t.len(),
            ensures
                simple_scan(t, p, no_selector()) == (
                    selector_view(Selector::Simple(selector)),
                    self.pos(),
                ),
            decreases self.rem(),
        {
            let ghost cur = self.pos();
            let ghost acc = selector_view(Selector::Simple(selector));
            let c = self.parser.next_char();
            if c == '#' {
                self.parser.consume_char();
                selector.id = Some(self.parse_identifier());
                proof {
                    lemma_run_end_bounds(t, cur + 1, ident_chars());
                    assert(selector_view(Selector::Simple(selector)) == SelectorView {
                        id: Some(t.subrange(cur + 1, self.pos())),
                        ..acc
                    });
                }
            } else if c == '.' {
                self.parser.consume_char();
                let ghost old_class = selector.class@;
                selector.class.push(self.parse_identifier());
                proof {
                    lemma_run_end_bounds(t, cur + 1, ident_chars());
                    assert(selector.class@.map_values(|x: String| x@) =~= old_class.map_values(
                        |x: String| x@,
                    ).push(t.subrange(cur + 1, self.pos())));
                }
            } else if c == '*' {
                self.parser.consume_char();
            } else if valid_identifier_char(c) {
                selector.tag_name = Some(self.parse_identifier());
                proof {
                    assert(run_end(t, cur, ident_chars()) == run_end(t, cur + 1, ident_chars()));
                    lemma_run_end_bounds(t, cur + 1, ident_chars());
                }
            } else {
                break;
            }
        }
        selector
    }

    /// Declarations in braces.
    fn parse_declarations(&mut self) -> (r: Result<Vec<Declaration>, ParseError>)
        requires
            old(self).pos() <= old(self).text().len(),
        ensures
            final(self).text() == old(self).text(),
            old(self).pos() <= final(self).pos() <= final(self).text().len(),
            r is Ok <==> at(old(self).text(), old(self).pos(), '{') && declarations_at(
                old(self).text(),
                old(self).pos() + 1,
            ) is Some,
            r is Ok ==> final(self).pos() > old(self).pos() && (
                r->Ok_0@.map_values(|d: Declaration| declaration_view(d)),
                final(self).pos(),
            ) == declarations_at(old(self).text(), old(self).pos() + 1)->Some_0,
    {
        let ghost t = self.text();
        let ghost p = self.pos();
        self.parser.expect_char('{')?;
        let mut declarations: Vec<Declaration> = Vec::new();
        loop
            invariant_except_break
                declarations_at(t, p + 1) is Some <==> declarations_at(t, self.pos()) is Some,
                declarations_at(t, self.pos()) is Some ==> declarations_at(t, p + 1)->Some_0 == (
                    declarations@.map_values(|d: Declaration| declaration_view(d))
                        + declarations_at(t, self.pos())->Some_0.0,
                    declarations_at(t, self.pos())->Some_0.1,
                ),
            invariant
                t == old(self).text(),
                p == old(self).pos(),
                at(t, p, '{'),
                self.text() == t,
                p < self.pos() <= t.len(),
            ensures
                p < self.pos() <= t.len(),
                declarations_at(t, p + 1) == Some(
                    (declarations@.map_values(|d: Declaration| declaration_view(d)), self.pos()),
                ),
            decreases self.rem(),
        {
            self.skip_white_space();
            if self.parser.ended() {
                return Err(ParseError::UnexpectedEnd);
            }
            if self.parser.next_char() == '}' {
                self.parser.consume_char();
                assert(declarations@.map_values(|d: Declaration| declaration_view(d)) + Seq::<
                    (Seq<char>, ValueView),
                >::empty() =~= declarations@.map_values(|d: Declaration| declaration_view(d)));
                break;
            }
            let declaration = self.parse_declaration()?;
            let ghost before = declarations@;
            let ghost v = declaration_view(declaration);
            declarations.push(declaration);
            proof {
                assert(declarations@.map_values(|d: Declaration| declaration_view(d)) =~= before.map_values(
                    |d: Declaration| declaration_view(d),
                ).push(v));
                if declarations_at(t, self.pos()) is Some {
                    let rest = declarations_at(t, self.pos())->Some_0.0;
                    assert(before.map_values(|d: Declaration| declaration_view(d)) + (seq![v] + rest)
                        =~= declarations@.map_values(|d: Declaration| declaration_view(d)) + rest);
                }
            }
        }
        Ok(declarations)
    }

    /// `name: value;`
    fn parse_declaration(&mut self) -> (r: Result<Declaration, ParseError>)
        requires
            old(self).pos() <= old(self).text().len(),
        ensures
            final(self).text() == old(self).text(),
            old(self).pos() <= final(self).pos() <= final(self).text().len(),
            r is Ok <==> declaration_at(old(self).text(), old(self).pos()) is Some,
            r is Ok ==> final(self).pos() > old(self).pos() && (
                declaration_view(r->Ok_0),
                final(self).pos(),
            ) == declaration_at(old(self).text(), old(self).pos())->Some_0,
    {
        let property_name = self.parse_identifier();
        self.skip_white_space();
        self.parser.expect_char(':')?;
        self.skip_white_space();
        let value = self.parse_value()?;
        self.skip_white_space();
        self.parser.expect_char(';')?;
        Ok(Declaration { name: property_name, value })
    }

    /// The run of identifier characters that follows.
    fn parse_identifier(&mut self) -> (r: String)
        requires
            old(self).pos() <= old(self).text().len(),
        ensures
            final(self).text() == old(self).text(),
            final(self).pos() == run_end(old(self).text(), old(self).pos(), ident_chars()),
            old(self).pos() <= final(self).pos() <= final(self).text().len(),
            r@ == old(self).text().subrange(old(self).pos(), final(self).pos()),
    {
        let test = |c: char| -> (r: bool)
            ensures
                r == is_ident_char(c),
            { valid_identifier_char(c) };
        let r = self.parser.consume_while(test);
        proof {
            lemma_run_end(self.text(), old(self).pos(), self.pos(), ident_chars());
        }
        r
    }

    /// A length where a digit follows, a colour where `#` does, and a keyword
    /// otherwise.
    fn parse_value(&mut self) -> (r: Result<Value, ParseError>)
        requires
            old(self).pos() <= old(self).text().len(),
        ensures
            final(self).text() == old(self).text(),
            old(self).pos() <= final(self).pos() <= final(self).text().len(),
            r is Ok <==> value_at(old(self).text(), old(self).pos()) is Some,
            r is Ok ==> (value_view(r->Ok_0), final(self).pos()) == value_at(
                old(self).text(),
                old(self).pos(),
            )->Some_0,
    {
        if self.parser.ended() {
            return Err(ParseError::UnexpectedEnd);
        }
        let c = self.parser.next_char();
        if '0' <= c && c <= '9' {
            self.parse_length()
        } else if c == '#' {
            self.parse_color()
        } else {
            Ok(Value::Keyword(self.parse_identifier()))
        }
    }

    /// A number followed by its unit.
    fn parse_length(&mut self) -> (r: Result<Value, ParseError>)
        requires
            old(self).pos() <= old(self).text().len(),
        ensures
            final(self).text() == old(self).text(),
            old(self).pos() <= final(self).pos() <= final(self).text().len(),
            ({
                let t = old(self).text();
                let p = old(self).pos();
                let n = run_end(t, p, number_chars());
                let s = t.subrange(p, n);
                let u = run_end(t, n, ident_chars());
                let unit = t.subrange(n, u);
                &&& r is Ok <==> well_formed_number(s) && number_thousandths(s) <= u64::MAX
                    && unit.len() == 2 && (unit[0] == 'p' || unit[0] == 'P') && (unit[1] == 'x'
                    || unit[1] == 'X')
                &&& r is Ok ==> r->Ok_0 == Value::Length(number_thousandths(s) as u64, Unit::Px)
                    && final(self).pos() == u
            }),
    {
        let amount = self.parse_float()?;
        let unit = self.parse_unit()?;
        Ok(Value::Length(amount, unit))
    }

    /// A number of digits with at most one point, in thousandths.
    fn parse_float(&mut self) -> (r: Result<u64, ParseError>)
        requires
            old(self).pos() <= old(self).text().len(),
        ensures
            final(self).text() == old(self).text(),
            final(self).pos() == run_end(old(self).text(), old(self).pos(), number_chars()),
            old(self).pos() <= final(self).pos() <= final(self).text().len(),
            ({
                let s = old(self).text().subrange(old(self).pos(), final(self).pos());
                &&& r is Ok <==> well_formed_number(s) && number_thousandths(s) <= u64::MAX
                &&& r is Ok ==> r->Ok_0 == number_thousandths(s)
            }),
    {
        let start = self.parser.position();
        let test = |c: char| -> (r: bool)
            ensures
                r == (('0' <= c && c <= '9') || c == '.'),
            { ('0' <= c && c <= '9') || c == '.' };
        self.parser.consume_while(test);
        proof {
            lemma_run_end(self.text(), old(self).pos(), self.pos(), number_chars());
        }
        let end = self.parser.position();
        read_number(&self.parser.input, start, end)
    }

    /// `px`, in any case.
    fn parse_unit(&mut self) -> (r: Result<Unit, ParseError>)
        requires
            old(self).pos() <= old(self).text().len(),
        ensures
            final(self).text() == old(self).text(),
            old(self).pos() <= final(self).pos() <= final(self).text().len(),
            final(self).pos() == run_end(old(self).text(), old(self).pos(), ident_chars()),
            ({
                let s = old(self).text().subrange(old(self).pos(), final(self).pos());
                r is Ok <==> s.len() == 2 && (s[0] == 'p' || s[0] == 'P') && (s[1] == 'x' || s[1]
                    == 'X')
            }),
            r is Ok ==> r->Ok_0 == Unit::Px,
    {
        let start = self.parser.position();
        self.parse_identifier();
        let end = self.parser.position();
        if end - start == 2 {
            let a = self.parser.input[start];
            let b = self.parser.input[start + 1];
            if (a == 'p' || a == 'P') && (b == 'x' || b == 'X') {
                return Ok(Unit::Px);
            }
        }
        Err(ParseError::UnknownUnit(start))
    }

    /// `#` and three hexadecimal bytes; the colour is opaque.
    fn parse_color(&mut self) -> (r: Result<Value, ParseError>)
        requires
            old(self).pos() <= old(self).text().len(),
        ensures
            final(self).text() == old(self).text(),
            old(self).pos() <= final(self).pos() <= final(self).text().len(),
            ({
                let t = old(self).text();
                let p = old(self).pos();
                &&& r is Ok <==> p + 7 <= t.len() && t[p] == '#' && forall|k: int|
                    p + 1 <= k < p + 7 ==> is_hex_digit(#[trigger] t[k])
                &&& r is Ok ==> final(self).pos() == p + 7 && r->Ok_0 == Value::ColorValue(
                    Color {
                        r: (hex_digit_value(t[p + 1]) * 16 + hex_digit_value(t[p + 2])) as u8,
                        g: (hex_digit_value(t[p + 3]) * 16 + hex_digit_value(t[p + 4])) as u8,
                        b: (hex_digit_value(t[p + 5]) * 16 + hex_digit_value(t[p + 6])) as u8,
                        a: 255,
                    },
                )
            }),
    {
        self.parser.expect_char('#')?;
        let r = self.parse_hex_pair()?;
        let g = self.parse_hex_pair()?;
        let b = self.parse_hex_pair()?;
        Ok(Value::ColorValue(Color { r, g, b, a: 255 }))
    }

    /// Two hexadecimal digits as a byte.
    fn parse_hex_pair(&mut self) -> (r: Result<u8, ParseError>)
        requires
            old(self).pos() <= old(self).text().len(),
        ensures
            final(self).text() == old(self).text(),
            old(self).pos() <= final(self).pos() <= final(self).text().len(),
            ({
                let t = old(self).text();
                let p = old(self).pos();
                &&& r is Ok <==> p + 2 <= t.len() && is_hex_digit(t[p]) && is_hex_digit(t[p + 1])
                &&& r is Ok ==> final(self).pos() == p + 2 && r->Ok_0 == hex_digit_value(t[p]) * 16
                    + hex_digit_value(t[p + 1])
            }),
    {
        let at = self.parser.position();
        let len = self.parser.input.len();
        if len - at < 2 {
            return Err(ParseError::UnexpectedEnd);
        }
        let hi = hex_digit(self.parser.input[at]);
        let lo = hex_digit(self.parser.input[at + 1]);
        match (hi, lo) {
            (Some(h), Some(l)) => {
                self.parser.consume_char();
                self.parser.consume_char();
                Ok(h * 16 + l)
            },
            _ => Err(ParseError::BadHex(at)),
        }
    }
}

/// The value of a hexadecimal digit.
fn hex_digit(c: char) -> (r: Option<u8>)
    ensures
        r is Some <==> is_hex_digit(c),
        r matches Some(v) ==> v == hex_digit_value(c) && v < 16,
{
    if '0' <= c && c <= '9' {
        Some((c as u32 - '0' as u32) as u8)
    } else if 'a' <= c && c <= 'f' {
        Some((c as u32 - 'a' as u32 + 10) as u8)
    } else if 'A' <= c && c <= 'F' {
        Some((c as u32 - 'A' as u32 + 10) as u8)
    } else {
        None
    }
}

proof fn lemma_point_index(s: Seq<char>, p: int)
    requires
        0 <= p <= s.len(),
        forall|k: int| 0 <= k < p ==> #[trigger] s[k] != '.',
        p == s.len() || s[p] == '.',
    ensures
        point_index(s) == p,
    decreases p,
{
    if p > 0 {
        assert forall|k: int| 0 <= k < p - 1 implies #[trigger] s.drop_first()[k] != '.' by {
            assert(s.drop_first()[k] == s[k + 1]);
        }
        lemma_point_index(s.drop_first(), p - 1);
    }
}

proof fn lemma_digits_grow(s: Seq<char>, i: int)
    requires
        0 <= i <= s.len(),
    ensures
        digits_value(s.take(i)) <= digits_value(s),
    decreases s.len(),
{
    if i < s.len() {
        assert(s.drop_last().take(i) == s.take(i));
        lemma_digits_grow(s.drop_last(), i);
    } else {
        assert(s.take(i) == s);
    }
}

/// The largest whole part whose thousandths fit in a `u64`.
const WHOLE_LIMIT: u64 = 18446744073709551;

/// The number written in `v` from `start` up to `end`, in thousandths.
fn read_number(v: &Vec<char>, start: usize, end: usize) -> (r: Result<u64, ParseError>)
    requires
        start <= end <= v@.len(),
        forall|k: int| start <= k < end ==> is_digit(#[trigger] v@[k]) || v@[k] == '.',
    ensures
        ({
            let s = v@.subrange(start as int, end as int);
            &&& r is Ok <==> well_formed_number(s) && number_thousandths(s) <= u64::MAX
            &&& r matches Ok(n) ==> n == number_thousandths(s)
        }),
{
    let ghost s = v@.subrange(start as int, end as int);
    let mut point: usize = start;
    while point < end && v[point] != '.'
        invariant
            start <= point <= end <= v@.len(),
            forall|k: int| start <= k < point ==> #[trigger] v@[k] != '.',
        decreases end - point,
    {
        point = point + 1;
    }
    proof {
        assert forall|k: int| 0 <= k < point - start implies #[trigger] s[k] != '.' by {
            assert(s[k] == v@[start + k]);
        }
        lemma_point_index(s, point - start);
        assert(s.take(point - start) == v@.subrange(start as int, point as int));
    }
    let mut i: usize = start;
    let mut whole: u64 = 0;
    while i < point
        invariant
            start <= i <= point <= end <= v@.len(),
            forall|k: int| start <= k < end ==> is_digit(#[trigger] v@[k]) || v@[k] == '.',
            forall|k: int| start <= k < point ==> #[trigger] v@[k] != '.',
            whole == digits_value(v@.subrange(start as int, i as int)),
            whole <= WHOLE_LIMIT,
            s == v@.subrange(start as int, end as int),
            point_index(s) == point - start,
            s.take(point - start) == v@.subrange(start as int, point as int),
        decreases point - i,
    {
        let d = (v[i] as u32 - '0' as u32) as u64;
        assert(v@.subrange(start as int, i + 1).drop_last() == v@.subrange(start as int, i as int));
        let next: u128 = whole as u128 * 10 + d as u128;
        if next > WHOLE_LIMIT as u128 {
            proof {
                lemma_digits_grow(v@.subrange(start as int, point as int), i + 1 - start);
                assert(v@.subrange(start as int, point as int).take(i + 1 - start) == v@.subrange(
                    start as int,
                    i + 1,
                ));
                assert(digits_value(s.take(point_index(s))) * 1000 > u64::MAX);
            }
            return Err(ParseError::BadNumber(start));
        }
        whole = next as u64;
        i = i + 1;
    }
    if i == end {
        return Ok(whole * 1000);
    }
    let point = i;
    let mut j: usize = point + 1;
    let mut fraction: u64 = 0;
    let mut places: u64 = 0;
    while j < end
        invariant
            start <= point < j <= end <= v@.len(),
            s == v@.subrange(start as int, end as int),
            point_index(s) == point - start,
            forall|k: int| start <= k < end ==> is_digit(#[trigger] v@[k]) || v@[k] == '.',
            forall|k: int| point < k < j ==> #[trigger] v@[k] != '.',
            places <= 3,
            places == (if j - point - 1 < 3 { j - point - 1 } else { 3 }),
            fraction == digits_value(v@.subrange(point + 1, point + 1 + places)),
            fraction < (if places == 0 {
                1int
            } else if places == 1 {
                10int
            } else if places == 2 {
                100int
            } else {
                1000int
            }),
        decreases end - j,
    {
        if v[j] == '.' {
            assert(s[j - start] == '.');
            return Err(ParseError::BadNumber(start));
        }
        if places < 3 {
            let d = (v[j] as u32 - '0' as u32) as u64;
            assert(v@.subrange(point + 1, point + 1 + places + 1).drop_last() == v@.subrange(
                point + 1,
                point + 1 + places,
            ));
            fraction = fraction * 10 + d;
            places = places + 1;
        }
        j = j + 1;
    }
    let ghost f = s.skip(point - start + 1);
    assert(f == v@.subrange(point + 1, end as int));
    if places == 3 {
        assert(f.take(3) == v@.subrange(point + 1, point + 4));
    } else {
        assert(f == v@.subrange(point + 1, point + 1 + places));
    }
    let scaled: u64 = if places == 0 {
        0
    } else if places == 1 {
        fraction * 100
    } else if places == 2 {
        fraction * 10
    } else {
        fraction
    };
    assert forall|k: int| point_index(s) < k < s.len() implies #[trigger] s[k] != '.' by {
        assert(s[k] == v@[start + k]);
    }
    if whole * 1000 > u64::MAX - scaled {
        return Err(ParseError::BadNumber(start));
    }
    Ok(whole * 1000 + scaled)
}

} // verus!
