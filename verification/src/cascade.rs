//! What the cascade comes to: which declaration of a property reaches an
//! element.

use crate::css::{specificity_le, Declaration, Specificity, StyleSheet, Value};
use crate::dom::ElementData;
use crate::style::{all_matching, apply, by_weight, cascade, declare, slot, MatchedRule};
use crate::style::Properties;
use vstd::prelude::*;

verus! {

/// Whether one of the declarations is for the property `name`.
pub open spec fn declares(declarations: Seq<Declaration>, name: Seq<char>) -> bool {
    exists|j: int| 0 <= j < declarations.len() && (#[trigger] declarations[j]).name@ == name
}

/// The value of the last of the declarations that is for the property
/// `name`.
pub open spec fn last_declared(declarations: Seq<Declaration>, name: Seq<char>) -> Value
    decreases declarations.len(),
{
    if declarations.len() == 0 {
        arbitrary()
    } else if declarations.last().name@ == name {
        declarations.last().value
    } else {
        last_declared(declarations.drop_last(), name)
    }
}

/// Whether the rules are in ascending order of weight.
pub open spec fn ascending(rules: Seq<MatchedRule>) -> bool {
    forall|i: int, j: int|
        0 <= i < j < rules.len() ==> specificity_le(
            (#[trigger] rules[i]).specificity,
            (#[trigger] rules[j]).specificity,
        )
}

/// Writing declarations into properties sets each property that they name
/// to the value of the last of them that names it, and leaves the others as
/// they were.
proof fn lemma_declare(props: Properties, declarations: Seq<Declaration>, name: Seq<char>)
    ensures
        declares(declarations, name) ==> declare(props, declarations).contains_key(name)
            && declare(props, declarations)[name] == last_declared(declarations, name),
        !declares(declarations, name) ==> declare(props, declarations).contains_key(name)
            == props.contains_key(name) && (props.contains_key(name) ==> declare(
            props,
            declarations,
        )[name] == props[name]),
    decreases declarations.len(),
{
    if declarations.len() > 0 {
        let before = declarations.drop_last();
        lemma_declare(props, before, name);
        if declarations.last().name@ != name {
            if declares(declarations, name) {
                let j = choose|j: int|
                    0 <= j < declarations.len() && (#[trigger] declarations[j]).name@ == name;
                assert(before[j].name@ == name);
            }
        }
    }
}

/// Rules none of which names a property leave it as it was.
proof fn lemma_apply_none(props: Properties, rules: Seq<MatchedRule>, name: Seq<char>)
    requires
        forall|i: int|
            0 <= i < rules.len() ==> !declares((#[trigger] rules[i]).rule.declarations@, name),
    ensures
        apply(props, rules).contains_key(name) == props.contains_key(name),
        props.contains_key(name) ==> apply(props, rules)[name] == props[name],
    decreases rules.len(),
{
    if rules.len() > 0 {
        let before = rules.drop_last();
        lemma_apply_none(props, before, name);
        lemma_declare(apply(props, before), rules.last().rule.declarations@, name);
    }
}

/// Of rules that are applied one after the other, the last that names a
/// property sets it.
proof fn lemma_apply_last(
    props: Properties,
    rules: Seq<MatchedRule>,
    name: Seq<char>,
    at: int,
)
    requires
        0 <= at < rules.len(),
        declares(rules[at].rule.declarations@, name),
        forall|i: int|
            at < i < rules.len() ==> !declares((#[trigger] rules[i]).rule.declarations@, name),
    ensures
        apply(props, rules).contains_key(name),
        apply(props, rules)[name] == last_declared(rules[at].rule.declarations@, name),
    decreases rules.len(),
{
    let before = rules.drop_last();
    if at < rules.len() - 1 {
        lemma_apply_last(props, before, name, at);
    }
    lemma_declare(apply(props, before), rules.last().rule.declarations@, name);
}

/// In rules that are in ascending order, a rule goes behind all that weigh
/// at most as much and before all that weigh more.
proof fn lemma_slot(sorted: Seq<MatchedRule>, weight: Specificity)
    requires
        ascending(sorted),
    ensures
        0 <= slot(sorted, weight) <= sorted.len(),
        forall|i: int|
            0 <= i < slot(sorted, weight) ==> specificity_le(
                (#[trigger] sorted[i]).specificity,
                weight,
            ),
        forall|i: int|
            slot(sorted, weight) <= i < sorted.len() ==> !specificity_le(
                (#[trigger] sorted[i]).specificity,
                weight,
            ),
    decreases sorted.len(),
{
    if sorted.len() > 0 {
        let before = sorted.drop_last();
        lemma_slot(before, weight);
        if !specificity_le(sorted.last().specificity, weight) {
            assert forall|i: int| slot(sorted, weight) <= i < sorted.len() implies !specificity_le(
                (#[trigger] sorted[i]).specificity,
                weight,
            ) by {
                if i < sorted.len() - 1 {
                    assert(before[i] == sorted[i]);
                }
            }
            assert forall|i: int| 0 <= i < slot(sorted, weight) implies specificity_le(
                (#[trigger] sorted[i]).specificity,
                weight,
            ) by {
                assert(before[i] == sorted[i]);
            }
        }
    }
}

/// The rules by weight are the same rules, in ascending order.
pub proof fn by_weight_orders_the_rules(rules: Seq<MatchedRule>)
    ensures
        by_weight(rules).len() == rules.len(),
        ascending(by_weight(rules)),
        forall|i: int|
            0 <= i < rules.len() ==> exists|j: int|
                0 <= j < rules.len() && #[trigger] by_weight(rules)[i] == rules[j],
    decreases rules.len(),
{
    if rules.len() > 0 {
        let before = by_weight(rules.drop_last());
        let last = rules.last();
        by_weight_orders_the_rules(rules.drop_last());
        lemma_slot(before, last.specificity);
    }
}

/// Where the rule at `at` stands among the rules by weight.
pub open spec fn place(rules: Seq<MatchedRule>, at: int) -> int
    decreases rules.len(),
{
    if rules.len() == 0 {
        0
    } else {
        let slot = slot(by_weight(rules.drop_last()), rules.last().specificity);
        if at == rules.len() - 1 {
            slot
        } else {
            let before = place(rules.drop_last(), at);
            if before < slot {
                before
            } else {
                before + 1
            }
        }
    }
}

/// The rules by weight are a stable sort of the rules: every rule has a
/// place of its own among them, they are in ascending order of weight, and
/// rules of equal weight follow each other as they did.
pub proof fn by_weight_is_a_stable_sort(rules: Seq<MatchedRule>)
    ensures
        by_weight(rules).len() == rules.len(),
        ascending(by_weight(rules)),
        forall|i: int|
            0 <= i < rules.len() ==> 0 <= #[trigger] place(rules, i) < rules.len() && by_weight(
                rules,
            )[place(rules, i)] == rules[i],
        forall|i: int, j: int|
            0 <= i < j < rules.len() ==> #[trigger] place(rules, i) != #[trigger] place(rules, j),
        forall|i: int, j: int|
            0 <= i < j < rules.len() && rules[i].specificity == rules[j].specificity
                ==> #[trigger] place(rules, i) < #[trigger] place(rules, j),
    decreases rules.len(),
{
    by_weight_orders_the_rules(rules);
    if rules.len() > 0 {
        let given = rules.drop_last();
        let before = by_weight(given);
        let last = rules.len() - 1;
        by_weight_is_a_stable_sort(given);
        by_weight_orders_the_rules(given);
        lemma_slot(before, rules.last().specificity);
        let slot = slot(before, rules.last().specificity);
        let sorted = by_weight(rules);
        assert forall|i: int| 0 <= i < rules.len() implies 0 <= #[trigger] place(rules, i)
            < rules.len() && sorted[place(rules, i)] == rules[i] by {
            if i < last {
                assert(before[place(given, i)] == given[i]);
            }
        }
        assert forall|i: int, j: int|
            0 <= i < j < rules.len() && rules[i].specificity
                == rules[j].specificity implies #[trigger] place(rules, i) < #[trigger] place(
            rules,
            j,
        ) by {
            if j < last {
                assert(place(given, i) < place(given, j));
            }
        }
    }
}

/// Whether the rule at `at` is the one whose declaration of the property
/// reaches the element: it names the property, no rule that names it weighs
/// more, and none that weighs as much comes later.
pub open spec fn wins(rules: Seq<MatchedRule>, name: Seq<char>, at: int) -> bool {
    &&& 0 <= at < rules.len()
    &&& declares(rules[at].rule.declarations@, name)
    &&& forall|j: int|
        0 <= j < rules.len() && j != at && declares(
            (#[trigger] rules[j]).rule.declarations@,
            name,
        ) ==> if j < at {
            specificity_le(rules[j].specificity, rules[at].specificity)
        } else {
            !specificity_le(rules[at].specificity, rules[j].specificity)
        }
}

/// Among the first `upto` rules by weight, the rule that wins is the last
/// that names the property.  The result is its place.
proof fn lemma_winner_is_last(rules: Seq<MatchedRule>, name: Seq<char>, at: int, upto: int) -> (place:
    int)
    requires
        wins(rules, name, at),
        at < upto <= rules.len(),
    ensures
        0 <= place < upto,
        by_weight(rules.take(upto)).len() == upto,
        by_weight(rules.take(upto))[place] == rules[at],
        forall|i: int|
            place < i < upto ==> !declares(
                (#[trigger] by_weight(rules.take(upto))[i]).rule.declarations@,
                name,
            ),
    decreases upto,
{
    let given = rules.take(upto);
    let before = by_weight(given.drop_last());
    let last = given.last();
    assert(given.drop_last() =~= rules.take(upto - 1));
    by_weight_orders_the_rules(given.drop_last());
    by_weight_orders_the_rules(given);
    lemma_slot(before, last.specificity);
    let slot = slot(before, last.specificity);
    if at == upto - 1 {
        slot
    } else {
        let held = lemma_winner_is_last(rules, name, at, upto - 1);
        if slot <= held {
            held + 1
        } else {
            held
        }
    }
}

/// The heaviest rule wins, and among the heaviest the last: where the rule
/// at `at` of those that match the element names a property, no other rule
/// that names it weighs more, and none that weighs as much comes later, the
/// element has that property with the value of the rule's last declaration
/// of it.
pub proof fn heaviest_last_rule_wins(
    elem: &ElementData,
    sheets: Seq<StyleSheet>,
    name: Seq<char>,
    at: int,
)
    requires
        wins(all_matching(elem, sheets), name, at),
    ensures
        cascade(elem, sheets).contains_key(name),
        cascade(elem, sheets)[name] == last_declared(
            all_matching(elem, sheets)[at].rule.declarations@,
            name,
        ),
{
    winning_rule_sets_the_property(all_matching(elem, sheets), name, at);
}

/// A property that no matching rule names is not set.
pub proof fn unnamed_property_is_unset(elem: &ElementData, sheets: Seq<StyleSheet>, name: Seq<char>)
    requires
        forall|i: int|
            0 <= i < all_matching(elem, sheets).len() ==> !declares(
                (#[trigger] all_matching(elem, sheets)[i]).rule.declarations@,
                name,
            ),
    ensures
        !cascade(elem, sheets).contains_key(name),
{
    property_without_rule_is_unset(all_matching(elem, sheets), name);
}

/// Sheets whose matching rules come in another order, but so that those of
/// equal weight still follow each other as they did, give an element the
/// same properties.
pub proof fn reordered_sheets_cascade_alike(
    elem: &ElementData,
    sheets: Seq<StyleSheet>,
    others: Seq<StyleSheet>,
    to: spec_fn(int) -> int,
    from: spec_fn(int) -> int,
)
    requires
        reordered(all_matching(elem, sheets), all_matching(elem, others), to, from),
    ensures
        cascade(elem, sheets) == cascade(elem, others),
{
    order_counts_only_at_equal_weight(
        all_matching(elem, sheets),
        all_matching(elem, others),
        to,
        from,
    );
}

/// Where some rule names a property, one rule wins it.  The result is
/// its place.
pub proof fn winner_exists(rules: Seq<MatchedRule>, name: Seq<char>) -> (at: int)
    requires
        exists|i: int|
            0 <= i < rules.len() && declares((#[trigger] rules[i]).rule.declarations@, name),
    ensures
        wins(rules, name, at),
    decreases rules.len(),
{
    let before = rules.drop_last();
    let last = rules.len() - 1;
    let some = choose|i: int|
        0 <= i < rules.len() && declares((#[trigger] rules[i]).rule.declarations@, name);
    if some < last || exists|i: int|
        0 <= i < before.len() && declares((#[trigger] before[i]).rule.declarations@, name) {
        if some < last {
            assert(declares(before[some].rule.declarations@, name));
        }
        let held = winner_exists(before, name);
        if declares(rules[last].rule.declarations@, name) && specificity_le(
            rules[held].specificity,
            rules[last].specificity,
        ) {
            assert forall|j: int|
                0 <= j < rules.len() && j != last && declares(
                    (#[trigger] rules[j]).rule.declarations@,
                    name,
                ) implies specificity_le(rules[j].specificity, rules[last].specificity) by {
                assert(before[j] == rules[j]);
            }
            last
        } else {
            assert forall|j: int|
                0 <= j < rules.len() && j != held && declares(
                    (#[trigger] rules[j]).rule.declarations@,
                    name,
                ) implies if j < held {
                specificity_le(rules[j].specificity, rules[held].specificity)
            } else {
                !specificity_le(rules[held].specificity, rules[j].specificity)
            } by {
                if j < last {
                    assert(before[j] == rules[j]);
                }
            }
            held
        }
    } else {
        assert forall|j: int|
            0 <= j < rules.len() && j != last && declares(
                (#[trigger] rules[j]).rule.declarations@,
                name,
            ) implies specificity_le(rules[j].specificity, rules[last].specificity) by {
            assert(before[j] == rules[j]);
        }
        last
    }
}

/// Whether `moved` holds the rules of `rules` in another order in which
/// rules of equal weight still follow each other as they did: the rule at
/// `i` went to `to(i)`, and the rule now at `j` came from `from(j)`.
pub open spec fn reordered(
    rules: Seq<MatchedRule>,
    moved: Seq<MatchedRule>,
    to: spec_fn(int) -> int,
    from: spec_fn(int) -> int,
) -> bool {
    &&& rules.len() == moved.len()
    &&& forall|i: int|
        0 <= i < rules.len() ==> 0 <= #[trigger] to(i) < moved.len() && moved[to(i)] == rules[i]
            && from(to(i)) == i
    &&& forall|j: int|
        0 <= j < moved.len() ==> 0 <= #[trigger] from(j) < rules.len() && to(from(j)) == j
    &&& forall|i: int, j: int|
        0 <= i < j < rules.len() && rules[i].specificity == rules[j].specificity ==> #[trigger] to(
            i,
        ) < #[trigger] to(j)
}

/// The order of the rules counts only among rules of equal weight: rules
/// that come in another order, but so that those of equal weight still
/// follow each other as they did, give the same properties.
pub proof fn order_counts_only_at_equal_weight(
    rules: Seq<MatchedRule>,
    moved: Seq<MatchedRule>,
    to: spec_fn(int) -> int,
    from: spec_fn(int) -> int,
)
    requires
        reordered(rules, moved, to, from),
    ensures
        apply(Map::empty(), by_weight(rules)) == apply(Map::empty(), by_weight(moved)),
{
    let one = apply(Map::empty(), by_weight(rules));
    let other = apply(Map::empty(), by_weight(moved));
    assert forall|name: Seq<char>|
        #![trigger one.dom().contains(name)]
        #![trigger other.dom().contains(name)]
        one.dom().contains(name) == other.dom().contains(name) && (one.dom().contains(name)
            ==> one[name] == other[name]) by {
        if exists|i: int|
            0 <= i < rules.len() && declares((#[trigger] rules[i]).rule.declarations@, name) {
            let at = winner_exists(rules, name);
            let moved_at = to(at);
            assert forall|j: int|
                0 <= j < moved.len() && j != moved_at && declares(
                    (#[trigger] moved[j]).rule.declarations@,
                    name,
                ) implies if j < moved_at {
                specificity_le(moved[j].specificity, moved[moved_at].specificity)
            } else {
                !specificity_le(moved[moved_at].specificity, moved[j].specificity)
            } by {
                let i = from(j);
                assert(to(i) == j && moved[j] == rules[i] && i != at);
            }
            winning_rule_sets_the_property(rules, name, at);
            winning_rule_sets_the_property(moved, name, moved_at);
        } else {
            assert forall|j: int| 0 <= j < moved.len() implies !declares(
                (#[trigger] moved[j]).rule.declarations@,
                name,
            ) by {
                assert(moved[j] == rules[from(j)]);
            }
            property_without_rule_is_unset(rules, name);
            property_without_rule_is_unset(moved, name);
        }
    }
}

/// The rule that wins a property sets it.
pub proof fn winning_rule_sets_the_property(rules: Seq<MatchedRule>, name: Seq<char>, at: int)
    requires
        wins(rules, name, at),
    ensures
        apply(Map::empty(), by_weight(rules)).contains_key(name),
        apply(Map::empty(), by_weight(rules))[name] == last_declared(
            rules[at].rule.declarations@,
            name,
        ),
{
    let place = lemma_winner_is_last(rules, name, at, rules.len() as int);
    assert(rules.take(rules.len() as int) =~= rules);
    lemma_apply_last(Map::empty(), by_weight(rules), name, place);
}

/// A property that no rule names is not set.
pub proof fn property_without_rule_is_unset(rules: Seq<MatchedRule>, name: Seq<char>)
    requires
        forall|i: int|
            0 <= i < rules.len() ==> !declares((#[trigger] rules[i]).rule.declarations@, name),
    ensures
        !apply(Map::empty(), by_weight(rules)).contains_key(name),
{
    by_weight_orders_the_rules(rules);
    lemma_apply_none(Map::empty(), by_weight(rules), name);
}

} // verus!
