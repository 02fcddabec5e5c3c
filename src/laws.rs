//! What holds of the cascade and of styled trees as a whole.

use vstd::prelude::*;

use crate::cssom::{specificity_lt, Declaration, Rule, Specificity, Value};
use crate::dom::{ElementData, Node};
use crate::style::{
    cascade, cascade_entries, merge_declarations, rule_specificity, styled_as, value_part,
    StyledNode,
};

verus! {

/// Some declaration of the list is for `name`.
pub open spec fn declares(decls: Seq<Declaration>, name: Seq<char>) -> bool {
    exists|j: int| 0 <= j < decls.len() && (#[trigger] decls[j]).name@ == name
}

/// The value of the last declaration of `name` in the list.
pub open spec fn last_declared(decls: Seq<Declaration>, name: Seq<char>) -> Value
    decreases decls.len(),
{
    if decls.len() == 0 {
        Value::Length(0, crate::cssom::Unit::Px)
    } else if decls.last().name@ == name {
        decls.last().value
    } else {
        last_declared(decls.drop_last(), name)
    }
}

/// Rule `i` matches the element and declares `name`.
pub open spec fn declares_matching(e: ElementData, rules: Seq<Rule>, i: int, name: Seq<char>) -> bool {
    &&& 0 <= i < rules.len()
    &&& rule_specificity(e, rules[i].selectors@) is Some
    &&& declares(rules[i].declarations@, name)
}

pub open spec fn credited(e: ElementData, rules: Seq<Rule>, i: int) -> Specificity {
    rule_specificity(e, rules[i].selectors@)->0
}

/// Rule `w` comes after rule `j` in the cascade: its specificity is higher, or
/// equal and it stands later in the stylesheet.
pub open spec fn outranks(e: ElementData, rules: Seq<Rule>, w: int, j: int) -> bool {
    specificity_lt(credited(e, rules, j), credited(e, rules, w)) || (credited(e, rules, j)
        == credited(e, rules, w) && j < w)
}

/// Rule `w` matches, declares `name`, and outranks every other such rule.
pub open spec fn is_winner(e: ElementData, rules: Seq<Rule>, w: int, name: Seq<char>) -> bool {
    &&& declares_matching(e, rules, w, name)
    &&& forall|j: int|
        #![trigger declares_matching(e, rules, j, name)]
        declares_matching(e, rules, j, name) && j != w ==> outranks(e, rules, w, j)
}

proof fn lemma_merge_at(
    m: Map<Seq<char>, (Specificity, Value)>,
    sp: Specificity,
    decls: Seq<Declaration>,
    name: Seq<char>,
)
    ensures
        !declares(decls, name) ==> merge_declarations(m, sp, decls).contains_key(name)
            == m.contains_key(name) && (m.contains_key(name) ==> merge_declarations(
            m,
            sp,
            decls,
        )[name] == m[name]),
        declares(decls, name) ==> merge_declarations(m, sp, decls).contains_key(name),
        declares(decls, name) && m.contains_key(name) && specificity_lt(sp, m[name].0)
            ==> merge_declarations(m, sp, decls)[name] == m[name],
        declares(decls, name) && !(m.contains_key(name) && specificity_lt(sp, m[name].0))
            ==> merge_declarations(m, sp, decls)[name] == (sp, last_declared(decls, name)),
    decreases decls.len(),
{
    if decls.len() > 0 {
        let init = decls.drop_last();
        lemma_merge_at(m, sp, init, name);
        if decls.last().name@ != name {
            if declares(decls, name) {
                let j = choose|j: int| 0 <= j < decls.len() && (#[trigger] decls[j]).name@ == name;
                assert(init[j] == decls[j]);
            }
            if declares(init, name) {
                let j = choose|j: int| 0 <= j < init.len() && (#[trigger] init[j]).name@ == name;
                assert(decls[j] == init[j]);
            }
        } else {
            assert(decls[decls.len() - 1] == decls.last());
        }
    }
}

proof fn lemma_entries_winner(e: ElementData, rules: Seq<Rule>, name: Seq<char>)
    ensures
        cascade_entries(e, rules).contains_key(name) == exists|i: int|
            declares_matching(e, rules, i, name),
        cascade_entries(e, rules).contains_key(name) ==> exists|w: int|
            is_winner(e, rules, w, name) && cascade_entries(e, rules)[name] == (
                credited(e, rules, w),
                last_declared(rules[w].declarations@, name),
            ),
    decreases rules.len(),
{
    if rules.len() == 0 {
        return;
    }
    let init = rules.drop_last();
    let n = rules.len() - 1;
    lemma_entries_winner(e, init, name);
    assert forall|i: int| 0 <= i < n implies declares_matching(e, rules, i, name)
        == declares_matching(e, init, i, name) && credited(e, rules, i) == credited(
        e,
        init,
        i,
    ) by {
        assert(rules[i] == init[i]);
    }
    let prev = cascade_entries(e, init);
    assert(rules.last() == rules[n]);
    lemma_merge_at(prev, credited(e, rules, n), rules[n].declarations@, name);
    if declares_matching(e, rules, n, name) {
        let sp = credited(e, rules, n);
        if prev.contains_key(name) {
            let w = choose|w: int|
                is_winner(e, init, w, name) && prev[name] == (
                    credited(e, init, w),
                    last_declared(init[w].declarations@, name),
                );
            assert(rules[w] == init[w]);
            if specificity_lt(sp, prev[name].0) {
                assert(is_winner(e, rules, w, name));
            } else {
                assert forall|j: int|
                    #![trigger declares_matching(e, rules, j, name)]
                    declares_matching(e, rules, j, name) && j != n implies outranks(
                    e,
                    rules,
                    n,
                    j,
                ) by {
                    assert(declares_matching(e, init, j, name));
                    if j != w {
                        assert(outranks(e, init, w, j));
                    }
                }
                assert(is_winner(e, rules, n, name));
            }
        } else {
            assert forall|j: int|
                #![trigger declares_matching(e, rules, j, name)]
                declares_matching(e, rules, j, name) && j != n implies outranks(
                e,
                rules,
                n,
                j,
            ) by {
                assert(declares_matching(e, init, j, name));
            }
            assert(is_winner(e, rules, n, name));
        }
    } else {
        if rule_specificity(e, rules.last().selectors@) is Some {
            assert(!declares(rules[n].declarations@, name));
        }
        if prev.contains_key(name) {
            let w = choose|w: int|
                is_winner(e, init, w, name) && prev[name] == (
                    credited(e, init, w),
                    last_declared(init[w].declarations@, name),
                );
            assert(rules[w] == init[w]);
            assert(is_winner(e, rules, w, name));
        }
        if exists|i: int| declares_matching(e, rules, i, name) {
            let i = choose|i: int| declares_matching(e, rules, i, name);
            assert(declares_matching(e, init, i, name));
        }
    }
}

/// The cascade gives an element a value for `name` exactly when some matching
/// rule declares it. The value is that of the last declaration of `name` in
/// the winning rule: the one of highest specificity among those rules and,
/// among equally specific ones, the one that stands last in the stylesheet.
pub proof fn lemma_cascade_winner(e: ElementData, rules: Seq<Rule>, name: Seq<char>)
    ensures
        cascade(e, rules).contains_key(name) == exists|i: int| declares_matching(e, rules, i, name),
        cascade(e, rules).contains_key(name) ==> exists|w: int|
            is_winner(e, rules, w, name) && cascade(e, rules)[name] == last_declared(
                rules[w].declarations@,
                name,
            ),
{
    lemma_entries_winner(e, rules, name);
    if cascade(e, rules).contains_key(name) {
        let w = choose|w: int|
            is_winner(e, rules, w, name) && cascade_entries(e, rules)[name] == (
                credited(e, rules, w),
                last_declared(rules[w].declarations@, name),
            );
        assert(cascade(e, rules)[name] == value_part(cascade_entries(e, rules)[name]));
    }
}

/// `reordered` holds the rules of `rules`, the `k`-th being `rules[perm[k]]`,
/// and `inv` undoes `perm`.
pub open spec fn is_reordering(rules: Seq<Rule>, reordered: Seq<Rule>, perm: Seq<int>, inv: Seq<int>) -> bool {
    &&& reordered.len() == rules.len()
    &&& perm.len() == rules.len()
    &&& inv.len() == rules.len()
    &&& forall|k: int| 0 <= k < rules.len() ==> 0 <= #[trigger] perm[k] < rules.len()
    &&& forall|i: int| 0 <= i < rules.len() ==> 0 <= #[trigger] inv[i] < rules.len()
    &&& forall|k: int| 0 <= k < rules.len() ==> #[trigger] reordered[k] == rules[perm[k]]
    &&& forall|i: int| 0 <= i < rules.len() ==> #[trigger] perm[inv[i]] == i
    &&& forall|k: int| 0 <= k < rules.len() ==> #[trigger] inv[perm[k]] == k
}

/// Two rules that declare a property in common keep their relative order.
pub open spec fn keeps_order_of_shared_names(rules: Seq<Rule>, reordered: Seq<Rule>, perm: Seq<int>) -> bool {
    forall|a: int, b: int, n: Seq<char>|
        0 <= a < b < reordered.len() && #[trigger] declares(reordered[a].declarations@, n)
            && #[trigger] declares(reordered[b].declarations@, n) ==> perm[a] < perm[b]
}

proof fn lemma_reorder_at(
    e: ElementData,
    rules: Seq<Rule>,
    reordered: Seq<Rule>,
    perm: Seq<int>,
    inv: Seq<int>,
    name: Seq<char>,
)
    requires
        is_reordering(rules, reordered, perm, inv),
        keeps_order_of_shared_names(rules, reordered, perm),
    ensures
        cascade(e, reordered).contains_key(name) == cascade(e, rules).contains_key(name),
        cascade(e, rules).contains_key(name) ==> cascade(e, reordered)[name] == cascade(
            e,
            rules,
        )[name],
{
    assert forall|k: int|
        #![trigger declares_matching(e, reordered, k, name)]
        0 <= k < rules.len() ==> declares_matching(e, reordered, k, name) == declares_matching(
            e,
            rules,
            perm[k],
            name,
        ) && credited(e, reordered, k) == credited(e, rules, perm[k]) by {
        if 0 <= k < rules.len() {
            assert(reordered[k] == rules[perm[k]]);
        }
    }
    lemma_cascade_winner(e, rules, name);
    lemma_cascade_winner(e, reordered, name);
    if exists|i: int| declares_matching(e, rules, i, name) {
        let i = choose|i: int| declares_matching(e, rules, i, name);
        assert(perm[inv[i]] == i);
        assert(declares_matching(e, reordered, inv[i], name));
    }
    if exists|k: int| declares_matching(e, reordered, k, name) {
        let k = choose|k: int| declares_matching(e, reordered, k, name);
        assert(declares_matching(e, rules, perm[k], name));
    }
    if cascade(e, rules).contains_key(name) {
        let w2 = choose|w: int|
            is_winner(e, reordered, w, name) && cascade(e, reordered)[name] == last_declared(
                reordered[w].declarations@,
                name,
            );
        let w1 = choose|w: int|
            is_winner(e, rules, w, name) && cascade(e, rules)[name] == last_declared(
                rules[w].declarations@,
                name,
            );
        let v = perm[w2];
        assert forall|j: int|
            #![trigger declares_matching(e, rules, j, name)]
            declares_matching(e, rules, j, name) && j != v implies outranks(e, rules, v, j) by {
            let k = inv[j];
            assert(perm[k] == j);
            assert(declares_matching(e, reordered, k, name));
            assert(k != w2);
            assert(outranks(e, reordered, w2, k));
            if k < w2 {
                assert(declares(reordered[k].declarations@, name));
                assert(declares(reordered[w2].declarations@, name));
                assert(perm[k] < perm[w2]);
            } else {
                assert(declares(reordered[k].declarations@, name));
                assert(declares(reordered[w2].declarations@, name));
                assert(perm[w2] < perm[k]);
            }
        }
        assert(is_winner(e, rules, v, name));
        if w1 != v {
            assert(outranks(e, rules, w1, v));
            assert(outranks(e, rules, v, w1));
        }
        assert(reordered[w2] == rules[v]);
    }
}

/// Reordering the rules so that any two that declare a property in common
/// keep their relative order leaves every element's property map as it was:
/// rules that share no property name may stand in any order.
pub proof fn lemma_reorder_unrelated_rules(
    e: ElementData,
    rules: Seq<Rule>,
    reordered: Seq<Rule>,
    perm: Seq<int>,
    inv: Seq<int>,
)
    requires
        is_reordering(rules, reordered, perm, inv),
        keeps_order_of_shared_names(rules, reordered, perm),
    ensures
        cascade(e, reordered) == cascade(e, rules),
{
    assert forall|name: Seq<char>|
        #![trigger cascade(e, rules).contains_key(name)]
        cascade(e, reordered).contains_key(name) == cascade(e, rules).contains_key(name) && (
        cascade(e, rules).contains_key(name) ==> cascade(e, reordered)[name] == cascade(
            e,
            rules,
        )[name]) by {
        lemma_reorder_at(e, rules, reordered, perm, inv, name);
    }
    assert(cascade(e, reordered) =~= cascade(e, rules));
}

/// Two styled nodes have the same shape and the same property map at every node.
pub open spec fn same_styling(a: StyledNode, b: StyledNode) -> bool
    decreases a,
{
    &&& a.node == b.node
    &&& a.specified_values@ == b.specified_values@
    &&& a.children@.len() == b.children@.len()
    &&& forall|i: int|
        0 <= i < a.children@.len() ==> same_styling(#[trigger] a.children@[i], b.children@[i])
}

/// Styling the same node under the same rules twice gives the same shape and
/// the same property maps throughout.
pub proof fn lemma_styling_deterministic(
    a: StyledNode,
    b: StyledNode,
    n: Node,
    rules: Seq<Rule>,
    parent: Option<Node>,
)
    requires
        styled_as(a, n, rules, parent),
        styled_as(b, n, rules, parent),
    ensures
        same_styling(a, b),
    decreases a,
{
    assert forall|i: int| 0 <= i < a.children@.len() implies same_styling(
        #[trigger] a.children@[i],
        b.children@[i],
    ) by {
        assert(styled_as(a.children@[i], n.children@[i], rules, Some(n)));
        assert(styled_as(b.children@[i], n.children@[i], rules, Some(n)));
        lemma_styling_deterministic(a.children@[i], b.children@[i], n.children@[i], rules, Some(n));
    }
}

/// A text node styled under an element carries that element's property map;
/// one with no parent carries none.
pub proof fn lemma_text_takes_parent_values(
    s: StyledNode,
    n: Node,
    rules: Seq<Rule>,
    parent: Option<Node>,
    i: int,
)
    requires
        styled_as(s, n, rules, parent),
        0 <= i < n.children@.len(),
        n.children@[i].node_type is Text,
    ensures
        n.node_type is Element ==> s.children@[i].specified_values@ == s.specified_values@,
        n.node_type is Text ==> s.children@[i].specified_values@ == Map::<Seq<char>, Value>::empty(),
        n.node_type is Comment ==> s.children@[i].specified_values@ == Map::<
            Seq<char>,
            Value,
        >::empty(),
{
    assert(styled_as(s.children@[i], n.children@[i], rules, Some(n)));
}

/// A text node styled with no parent carries an empty property map.
pub proof fn lemma_root_text_has_no_values(s: StyledNode, n: Node, rules: Seq<Rule>)
    requires
        styled_as(s, n, rules, None),
        n.node_type is Text,
    ensures
        s.specified_values@ == Map::<Seq<char>, Value>::empty(),
{
}

} // verus!
