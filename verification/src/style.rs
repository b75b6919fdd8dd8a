//! The cascade: which declarations reach an element, and the tree of styled
//! nodes that results.

use crate::css::{at_most, specificity_le, str_eq, Declaration, Rule, Selector, SimpleSelector};
use crate::css::{Color, Specificity, StyleSheet, Value};
use crate::dom::{ElementData, Node, NodeType};
use vstd::hash_map::StringHashMap;
use vstd::prelude::*;

verus! {

/// The declarations that reached an element: one value for each property
/// name.
pub type PropertyMap = StringHashMap<Value>;

/// What a `PropertyMap` holds.
pub type Properties = Map<Seq<char>, Value>;

/// A rule that matches an element, with the weight of the first of its
/// selectors that does.
#[derive(Clone, Copy)]
pub struct MatchedRule<'a> {
    pub specificity: Specificity,
    pub rule: &'a Rule,
}

/// Whether the element has what the selector asks for: its tag name, its id
/// and each of its classes, as far as the selector names any.
pub open spec fn selector_matches(elem: &ElementData, selector: &SimpleSelector) -> bool {
    &&& selector.tag_name matches Some(name) ==> elem.tag_name@ == name@
    &&& selector.id matches Some(id) ==> (elem.id_value() matches Some(own) && own@ == id@)
    &&& forall|k: int|
        0 <= k < selector.class@.len() ==> elem.class_names().contains(
            #[trigger] selector.class@[k]@,
        )
}

/// The weight of the first selector at or after `from` that matches.
pub open spec fn first_match(elem: &ElementData, selectors: Seq<Selector>, from: int) -> Option<
    Specificity,
>
    decreases selectors.len() - from,
{
    if from < 0 || from >= selectors.len() {
        None
    } else if selectors[from] matches Selector::Simple(simple) && selector_matches(elem, &simple) {
        Some(selectors[from].weight())
    } else {
        first_match(elem, selectors, from + 1)
    }
}

/// The weight with which the rule matches the element, if it does.
pub open spec fn rule_weight(elem: &ElementData, rule: &Rule) -> Option<Specificity> {
    first_match(elem, rule.selectors@, 0)
}

/// The rules among `rules` that match the element, in their order.
pub open spec fn matching<'a>(elem: &ElementData, rules: Seq<Rule>) -> Seq<MatchedRule<'a>>
    decreases rules.len(),
{
    if rules.len() == 0 {
        Seq::empty()
    } else {
        let before = matching(elem, rules.drop_last());
        match rule_weight(elem, &rules.last()) {
            Some(weight) => before.push(MatchedRule { specificity: weight, rule: &rules.last() }),
            None => before,
        }
    }
}

/// The rules of all the sheets that match the element: sheet after sheet,
/// and within a sheet rule after rule.
pub open spec fn all_matching<'a>(elem: &ElementData, sheets: Seq<StyleSheet>) -> Seq<
    MatchedRule<'a>,
>
    decreases sheets.len(),
{
    if sheets.len() == 0 {
        Seq::empty()
    } else {
        all_matching(elem, sheets.drop_last()) + matching(elem, sheets.last().rules@)
    }
}

/// Where a rule of weight `weight` goes into `sorted`: behind the last rule
/// that weighs at most as much.
pub open spec fn slot(sorted: Seq<MatchedRule>, weight: Specificity) -> int
    decreases sorted.len(),
{
    if sorted.len() == 0 {
        0
    } else if specificity_le(sorted.last().specificity, weight) {
        sorted.len() as int
    } else {
        slot(sorted.drop_last(), weight)
    }
}

/// The rules in ascending order of weight; rules of equal weight keep their
/// order.
pub open spec fn by_weight<'a>(rules: Seq<MatchedRule<'a>>) -> Seq<MatchedRule<'a>>
    decreases rules.len(),
{
    if rules.len() == 0 {
        rules
    } else {
        let before = by_weight(rules.drop_last());
        before.insert(slot(before, rules.last().specificity), rules.last())
    }
}

/// The properties after each of the declarations was written into them, one
/// after the other.
pub open spec fn declare(props: Properties, declarations: Seq<Declaration>) -> Properties
    decreases declarations.len(),
{
    if declarations.len() == 0 {
        props
    } else {
        declare(props, declarations.drop_last()).insert(
            declarations.last().name@,
            declarations.last().value,
        )
    }
}

/// The properties after the declarations of each rule were written into
/// them, rule after rule.
pub open spec fn apply(props: Properties, rules: Seq<MatchedRule>) -> Properties
    decreases rules.len(),
{
    if rules.len() == 0 {
        props
    } else {
        declare(apply(props, rules.drop_last()), rules.last().rule.declarations@)
    }
}

/// The properties that the sheets give the element: the declarations of the
/// rules that match it, those of a heavier rule written over those of a
/// lighter one, and among rules of equal weight those of a later rule over
/// those of an earlier one.
pub open spec fn cascade(elem: &ElementData, sheets: Seq<StyleSheet>) -> Properties {
    apply(Map::empty(), by_weight(all_matching(elem, sheets)))
}

/// Whether the element has what the selector asks for.
pub fn matches_simple_selector(elem: &ElementData, selector: &SimpleSelector) -> (yes: bool)
    ensures
        yes == selector_matches(elem, selector),
{
    if let Some(name) = &selector.tag_name {
        if !str_eq(elem.tag_name.as_str(), name.as_str()) {
            return false;
        }
    }
    if let Some(id) = &selector.id {
        match elem.id() {
            Some(own) => {
                if !str_eq(own.as_str(), id.as_str()) {
                    return false;
                }
            },
            None => {
                return false;
            },
        }
    }
    let elem_classes = elem.classes();
    let mut k: usize = 0;
    while k < selector.class.len()
        invariant
            k <= selector.class@.len(),
            elem_classes@ == elem.class_names(),
            forall|j: int|
                0 <= j < k ==> elem.class_names().contains(#[trigger] selector.class@[j]@),
        decreases selector.class@.len() - k,
    {
        if !elem_classes.contains(selector.class[k].as_str()) {
            return false;
        }
        k = k + 1;
    }
    true
}

/// Whether the element has what the selector asks for.
pub fn matches(elem: &ElementData, selector: &Selector) -> (yes: bool)
    ensures
        yes == (selector matches Selector::Simple(simple) && selector_matches(elem, &simple)),
{
    match selector {
        Selector::Simple(simple) => matches_simple_selector(elem, simple),
    }
}

/// The weight with which `rule` matches `elem`: that of the first of its
/// selectors that matches.
pub fn match_rule(elem: &ElementData, rule: &Rule) -> (weight: Option<Specificity>)
    ensures
        weight == rule_weight(elem, rule),
{
    let mut k: usize = 0;
    while k < rule.selectors.len()
        invariant
            k <= rule.selectors@.len(),
            rule_weight(elem, rule) == first_match(elem, rule.selectors@, k as int),
        decreases rule.selectors@.len() - k,
    {
        if matches(elem, &rule.selectors[k]) {
            return Some(rule.selectors[k].specificity());
        }
        k = k + 1;
    }
    None
}

/// The rules of `stylesheet` that match `elem`, by a scan of all its rules.
pub fn matching_rules<'a>(elem: &ElementData, stylesheet: &'a StyleSheet) -> (matched: Vec<
    MatchedRule<'a>,
>)
    ensures
        matched@ == matching(elem, stylesheet.rules@),
{
    let mut matched: Vec<MatchedRule<'a>> = Vec::new();
    let mut k: usize = 0;
    while k < stylesheet.rules.len()
        invariant
            k <= stylesheet.rules@.len(),
            matched@ == matching(elem, stylesheet.rules@.take(k as int)),
        decreases stylesheet.rules@.len() - k,
    {
        let rule = &stylesheet.rules[k];
        assert(stylesheet.rules@.take(k + 1).drop_last() =~= stylesheet.rules@.take(k as int));
        if let Some(weight) = match_rule(elem, rule) {
            matched.push(MatchedRule { specificity: weight, rule });
        }
        k = k + 1;
    }
    assert(stylesheet.rules@.take(k as int) =~= stylesheet.rules@);
    matched
}

/// The rules in ascending order of weight, rules of equal weight in the
/// order in which they came.
pub fn sort_by_specificity<'a>(rules: &Vec<MatchedRule<'a>>) -> (sorted: Vec<MatchedRule<'a>>)
    ensures
        sorted@ == by_weight(rules@),
{
    let mut sorted: Vec<MatchedRule<'a>> = Vec::new();
    let mut k: usize = 0;
    while k < rules.len()
        invariant
            k <= rules@.len(),
            sorted@ == by_weight(rules@.take(k as int)),
        decreases rules@.len() - k,
    {
        let rule = rules[k];
        assert(rules@.take(k + 1).drop_last() =~= rules@.take(k as int));
        let mut at: usize = sorted.len();
        assert(sorted@.take(at as int) =~= sorted@);
        while at > 0 && !at_most(&sorted[at - 1].specificity, &rule.specificity)
            invariant
                at <= sorted@.len(),
                slot(sorted@, rule.specificity) == slot(sorted@.take(at as int), rule.specificity),
            decreases at,
        {
            assert(sorted@.take(at as int).drop_last() =~= sorted@.take(at - 1));
            at = at - 1;
        }
        sorted.insert(at, rule);
        k = k + 1;
    }
    assert(rules@.take(k as int) =~= rules@);
    sorted
}

/// Apply styles to a single element, returning the specified styles.
pub fn specified_values(elem: &ElementData, stylesheets: &Vec<StyleSheet>) -> (values:
    PropertyMap)
    ensures
        values@ == cascade(elem, stylesheets@),
{
    let mut rules: Vec<MatchedRule> = Vec::new();
    let mut k: usize = 0;
    while k < stylesheets.len()
        invariant
            k <= stylesheets@.len(),
            rules@ == all_matching(elem, stylesheets@.take(k as int)),
        decreases stylesheets@.len() - k,
    {
        let mut matched = matching_rules(elem, &stylesheets[k]);
        assert(stylesheets@.take(k + 1).drop_last() =~= stylesheets@.take(k as int));
        rules.append(&mut matched);
        k = k + 1;
    }
    assert(stylesheets@.take(k as int) =~= stylesheets@);
    let sorted = sort_by_specificity(&rules);
    let mut values = PropertyMap::new();
    let mut r: usize = 0;
    while r < sorted.len()
        invariant
            r <= sorted@.len(),
            values@ == apply(Map::empty(), sorted@.take(r as int)),
        decreases sorted@.len() - r,
    {
        let declarations = &sorted[r].rule.declarations;
        assert(sorted@.take(r + 1).drop_last() =~= sorted@.take(r as int));
        let ghost before = values@;
        let mut d: usize = 0;
        while d < declarations.len()
            invariant
                d <= declarations@.len(),
                values@ == declare(before, declarations@.take(d as int)),
            decreases declarations@.len() - d,
        {
            let declaration = &declarations[d];
            assert(declarations@.take(d + 1).drop_last() =~= declarations@.take(d as int));
            values.insert(declaration.name.clone(), declaration.value.clone());
            d = d + 1;
        }
        assert(declarations@.take(d as int) =~= declarations@);
        r = r + 1;
    }
    assert(sorted@.take(r as int) =~= sorted@);
    values
}

/// How a node takes part in layout.
#[derive(Clone, Copy, Debug, PartialEq, Eq, Structural)]
pub enum Display {
    Block,
    Inline,
    /// `display: none`: the node and all below it are left out.
    Hidden,
}

/// A node of the document with the properties that the cascade gave it.
pub struct StyleNode<'a> {
    pub node: &'a Node,
    pub specified_values: PropertyMap,
    pub children: Vec<StyleNode<'a>>,
}

/// The style tree of a document.
pub struct StyleTree<'a> {
    pub root: StyleNode<'a>,
}

/// The properties that the sheets give a node: those of the cascade for an
/// element, none for text.
pub open spec fn node_properties(node: &Node, sheets: Seq<StyleSheet>) -> Properties {
    match node.node_type {
        NodeType::Element(elem) => cascade(&elem, sheets),
        NodeType::Text(_) => Map::empty(),
    }
}

/// The value of `name` if the properties hold one, else that of `fallback`
/// if they hold one, else `default`.
pub open spec fn looked_up(
    props: Properties,
    name: Seq<char>,
    fallback: Seq<char>,
    default: Value,
) -> Value {
    if props.contains_key(name) {
        props[name]
    } else if props.contains_key(fallback) {
        props[fallback]
    } else {
        default
    }
}

/// The colour that the property `name` holds, if it holds one.
pub open spec fn color_of(props: Properties, name: Seq<char>) -> Option<Color> {
    if props.contains_key(name) {
        props[name].color()
    } else {
        None
    }
}

/// What the properties say of `display`: `block` and `none` are taken at
/// their word, all else is inline.
pub open spec fn display_of(props: Properties) -> Display {
    if props.contains_key("display"@) {
        match props["display"@] {
            Value::Keyword(word) => if word@ == "block"@ {
                Display::Block
            } else if word@ == "none"@ {
                Display::Hidden
            } else {
                Display::Inline
            },
            _ => Display::Inline,
        }
    } else {
        Display::Inline
    }
}

impl<'a> StyleNode<'a> {
    /// Whether this is the style tree of `self.node` under `sheets`: every
    /// node of the document has its style node, in the same place, with the
    /// properties that the sheets give it.
    pub open spec fn styled_by(&self, sheets: Seq<StyleSheet>) -> bool
        decreases self,
    {
        &&& self.specified_values@ == node_properties(self.node, sheets)
        &&& self.children@.len() == self.node.children@.len()
        &&& forall|i: int|
            0 <= i < self.children@.len() ==> {
                &&& (#[trigger] self.children@[i]).node == &self.node.children@[i]
                &&& self.children@[i].styled_by(sheets)
            }
    }

    /// The value of the property `name`, if there is one.
    pub open spec fn value(&self, name: Seq<char>) -> Option<Value> {
        if self.specified_values@.contains_key(name) {
            Some(self.specified_values@[name])
        } else {
            None
        }
    }

    /// How the node takes part in layout: text is inline, an element is what
    /// its `display` says.
    pub open spec fn shown_as(&self) -> Display {
        match self.node.node_type {
            NodeType::Text(_) => Display::Inline,
            NodeType::Element(_) => display_of(self.specified_values@),
        }
    }

    /// The style tree of the document below `node` under the sheets.
    pub fn new(node: &'a Node, stylesheets: &Vec<StyleSheet>) -> (styled: StyleNode<'a>)
        ensures
            styled.node == node,
            styled.styled_by(stylesheets@),
        decreases node,
    {
        let specified_values = match &node.node_type {
            NodeType::Element(elem) => specified_values(elem, stylesheets),
            NodeType::Text(_) => PropertyMap::new(),
        };
        let mut children: Vec<StyleNode<'a>> = Vec::new();
        let mut k: usize = 0;
        while k < node.children.len()
            invariant
                k <= node.children@.len(),
                children@.len() == k,
                forall|i: int|
                    0 <= i < k ==> {
                        &&& (#[trigger] children@[i]).node == &node.children@[i]
                        &&& children@[i].styled_by(stylesheets@)
                    },
            decreases node.children@.len() - k,
        {
            let child = StyleNode::new(&node.children[k], stylesheets);
            children.push(child);
            k = k + 1;
        }
        StyleNode { node, specified_values, children }
    }

    /// The value of the property `name`, if there is one.
    pub fn get_value(&self, name: &str) -> (value: Option<Value>)
        ensures
            value == self.value(name@),
    {
        match self.specified_values.get(name) {
            Some(value) => Some(value.clone()),
            None => None,
        }
    }

    /// The value of `name`, else that of `fallback_name`, else `default`.
    pub fn lookup(&self, name: &str, fallback_name: &str, default: &Value) -> (value: Value)
        ensures
            value == looked_up(self.specified_values@, name@, fallback_name@, *default),
    {
        match self.get_value(name) {
            Some(value) => value,
            None => match self.get_value(fallback_name) {
                Some(value) => value,
                None => default.clone(),
            },
        }
    }

    /// The colour that the property `name` holds, if it holds one.
    pub fn get_color(&self, name: &str) -> (color: Option<Color>)
        ensures
            color == color_of(self.specified_values@, name@),
    {
        match self.specified_values.get(name) {
            Some(value) => value.to_color(),
            None => None,
        }
    }

    /// How the node takes part in layout.
    pub fn display(&self) -> (display: Display)
        ensures
            display == self.shown_as(),
    {
        match &self.node.node_type {
            NodeType::Text(_) => Display::Inline,
            NodeType::Element(_) => match self.specified_values.get("display") {
                Some(Value::Keyword(word)) => {
                    if str_eq(word.as_str(), "block") {
                        Display::Block
                    } else if str_eq(word.as_str(), "none") {
                        Display::Hidden
                    } else {
                        Display::Inline
                    }
                },
                _ => Display::Inline,
            },
        }
    }
}

impl<'a> StyleTree<'a> {
    /// The style tree of the document below `node` under the sheets.
    pub fn new(node: &'a Node, stylesheets: &Vec<StyleSheet>) -> (tree: StyleTree<'a>)
        ensures
            tree.root.node == node,
            tree.root.styled_by(stylesheets@),
    {
        StyleTree { root: StyleNode::new(node, stylesheets) }
    }
}

} // verus!
