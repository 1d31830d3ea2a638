//! Cascade resolution: matching rules against elements and merging their
//! declarations into per-element property maps, producing a style tree that
//! mirrors the document tree's shape.
//!
//! Matching rules are ranked by the specificity of their first matching
//! selector, ties broken by stylesheet order; declarations are applied in
//! that order, so a later or more specific declaration for the same
//! property name wins.

use vstd::prelude::*;
use crate::css::{Value, Declaration, Selector, SimpleSelector, Rule, Stylesheet, Specificity,
    spec_specificity, spec_lt, clone_value};
use crate::dom::{Node, NodeType, ElementData, spec_attr, spec_classes, str_eq};

verus! {

/// A resolved property map: property name to value, later insertions
/// shadowing earlier ones.
#[derive(Debug)]
pub struct PropertyMap {
    entries: Vec<(String, Value)>,
}

/// The map denoted by an entry list: each entry inserted in order.
spec fn entries_map(s: Seq<(String, Value)>) -> Map<Seq<char>, Value>
    decreases s.len(),
{
    if s.len() == 0 {
        Map::empty()
    } else {
        entries_map(s.drop_last()).insert(s.last().0@, s.last().1)
    }
}

/// The value of the last entry named `key`, if any.
spec fn entries_get(s: Seq<(String, Value)>, key: Seq<char>) -> Option<Value>
    decreases s.len(),
{
    if s.len() == 0 {
        None
    } else if s.last().0@ == key {
        Some(s.last().1)
    } else {
        entries_get(s.drop_last(), key)
    }
}

proof fn lemma_entries_get_map(s: Seq<(String, Value)>, key: Seq<char>)
    ensures
        match entries_get(s, key) {
            Some(v) => entries_map(s).contains_key(key) && entries_map(s)[key] == v,
            None => !entries_map(s).contains_key(key),
        },
    decreases s.len(),
{
    if s.len() > 0 {
        lemma_entries_get_map(s.drop_last(), key);
    }
}

impl View for PropertyMap {
    type V = Map<Seq<char>, Value>;

    closed spec fn view(&self) -> Map<Seq<char>, Value> {
        entries_map(self.entries@)
    }
}

impl PropertyMap {
    /// An empty property map.
    pub fn new() -> (r: PropertyMap)
        ensures
            r@ == Map::<Seq<char>, Value>::empty(),
    {
        PropertyMap { entries: Vec::new() }
    }

    /// Bind `name` to `value`, shadowing any earlier binding.
    pub fn insert(&mut self, name: String, value: Value)
        ensures
            final(self)@ == old(self)@.insert(name@, value),
    {
        self.entries.push((name, value));
        proof {
            assert(self.entries@.drop_last() =~= old(self).entries@);
        }
    }

    /// A copy of this property map with the same bindings.
    pub fn duplicate(&self) -> (r: PropertyMap)
        ensures
            r@ == self@,
    {
        let mut entries: Vec<(String, Value)> = Vec::new();
        let mut i: usize = 0;
        while i < self.entries.len()
            invariant
                i <= self.entries@.len(),
                entries@ == self.entries@.take(i as int),
            decreases self.entries@.len() - i,
        {
            let name = self.entries[i].0.clone();
            let value = clone_value(&self.entries[i].1);
            entries.push((name, value));
            proof {
                assert(entries@ =~= self.entries@.take(i as int + 1));
            }
            i = i + 1;
        }
        proof {
            assert(self.entries@.take(i as int) =~= self.entries@);
        }
        PropertyMap { entries }
    }

    /// The value bound to `name`, if any.
    pub fn get<'a>(&'a self, name: &str) -> (r: Option<&'a Value>)
        ensures
            match r {
                Some(v) => self@.contains_key(name@) && *v == self@[name@],
                None => !self@.contains_key(name@),
            },
    {
        proof {
            lemma_entries_get_map(self.entries@, name@);
            assert(self.entries@.take(self.entries@.len() as int) =~= self.entries@);
        }
        let mut i: usize = self.entries.len();
        while i > 0
            invariant
                i <= self.entries@.len(),
                entries_get(self.entries@, name@) == entries_get(
                    self.entries@.take(i as int),
                    name@,
                ),
            decreases i,
        {
            i = i - 1;
            assert(self.entries@.take(i as int + 1).last() == self.entries@[i as int]);
            if str_eq(self.entries[i].0.as_str(), name) {
                proof {
                    lemma_entries_get_map(self.entries@, name@);
                }
                return Some(&self.entries[i].1);
            }
            assert(self.entries@.take(i as int + 1).drop_last() =~= self.entries@.take(i as int));
        }
        proof {
            lemma_entries_get_map(self.entries@, name@);
        }
        None
    }
}

/// How an element participates in layout.
#[derive(Clone, Copy, PartialEq, Eq, Structural, Debug)]
pub enum Display {
    Inline,
    Block,
    DisplayNone,
}

/// The display kind denoted by a property map: the `display` keyword when
/// present (`block`, `none`, anything else meaning inline), inline when
/// absent or not a keyword.
pub open spec fn spec_display(values: Map<Seq<char>, Value>) -> Display {
    if values.contains_key("display"@) {
        match values["display"@] {
            Value::Keyword(s) => if s@ == "block"@ {
                Display::Block
            } else if s@ == "none"@ {
                Display::DisplayNone
            } else {
                Display::Inline
            },
            _ => Display::Inline,
        }
    } else {
        Display::Inline
    }
}

/// One node of the style tree: the matching document node's resolved
/// properties and the styled children, in document order.
#[derive(Debug)]
pub struct StyleNode {
    pub specified_values: PropertyMap,
    pub children: Vec<StyleNode>,
}

/// The mathematical shape of a style node.
pub struct StyleNodeV {
    pub specified_values: Map<Seq<char>, Value>,
    pub children: Seq<StyleNodeV>,
}

/// The mathematical shape of a style node: its property map and the
/// shapes of its children.
pub open spec fn sn_view(s: StyleNode) -> StyleNodeV
    decreases s,
{
    StyleNodeV { specified_values: s.specified_values@, children: sn_views(s.children@) }
}

/// The shapes of a sequence of style nodes, in order.
pub open spec fn sn_views(cs: Seq<StyleNode>) -> Seq<StyleNodeV>
    decreases cs,
{
    if cs.len() == 0 {
        Seq::empty()
    } else {
        seq![sn_view(cs[0])] + sn_views(cs.drop_first())
    }
}

/// `sn_views` maps `sn_view` over the sequence, element by element.
pub proof fn lemma_sn_views_index(cs: Seq<StyleNode>)
    ensures
        sn_views(cs).len() == cs.len(),
        forall|i: int| 0 <= i < cs.len() ==> sn_views(cs)[i] == sn_view(cs[i]),
    decreases cs.len(),
{
    if cs.len() > 0 {
        lemma_sn_views_index(cs.drop_first());
    }
}

impl View for StyleNode {
    type V = StyleNodeV;

    open spec fn view(&self) -> StyleNodeV {
        sn_view(*self)
    }
}

/// The value a property resolves to: the specific property when set, else
/// the shorthand, else the given default.
pub open spec fn spec_lookup(
    m: Map<Seq<char>, Value>,
    name: Seq<char>,
    fallback: Seq<char>,
    default: Value,
) -> Value {
    if m.contains_key(name) {
        m[name]
    } else if m.contains_key(fallback) {
        m[fallback]
    } else {
        default
    }
}

impl StyleNode {
    /// The resolved value of the named property, if any.
    pub fn value<'a>(&'a self, name: &str) -> (r: Option<&'a Value>)
        ensures
            match r {
                Some(v) => self.specified_values@.contains_key(name@) && *v
                    == self.specified_values@[name@],
                None => !self.specified_values@.contains_key(name@),
            },
    {
        self.specified_values.get(name)
    }

    /// The resolved value of `name`, falling back to the shorthand
    /// `fallback_name`, then to `default`.
    pub fn lookup<'a>(&'a self, name: &str, fallback_name: &str, default: &'a Value) -> (r:
        &'a Value)
        ensures
            *r == spec_lookup(self.specified_values@, name@, fallback_name@, *default),
    {
        match self.value(name) {
            Some(v) => v,
            None => match self.value(fallback_name) {
                Some(v) => v,
                None => default,
            },
        }
    }

    /// The node's display kind, read from the `display` keyword.
    pub fn display(&self) -> (d: Display)
        ensures
            d == spec_display(self.specified_values@),
    {
        match self.value("display") {
            Some(v) => match v {
                Value::Keyword(s) => {
                    if str_eq(s.as_str(), "block") {
                        Display::Block
                    } else if str_eq(s.as_str(), "none") {
                        Display::DisplayNone
                    } else {
                        Display::Inline
                    }
                },
                _ => Display::Inline,
            },
            None => Display::Inline,
        }
    }
}

/// Whether a simple selector matches an element: the tag constraint is
/// absent or equal, the id constraint is absent or equal to the element's
/// `id` attribute, and every listed class name is among the element's
/// classes.
pub open spec fn spec_matches_simple(elem: ElementData, sel: SimpleSelector) -> bool {
    &&& match sel.tag_name {
        Some(t) => t@ == elem.tag_name@,
        None => true,
    }
    &&& match sel.id {
        Some(id) => spec_attr(elem.attributes@, "id"@) == Some(id@),
        None => true,
    }
    &&& forall|i: int|
        0 <= i < sel.class@.len() ==> spec_classes(elem).contains(#[trigger] sel.class@[i]@)
}

/// Whether a selector matches an element.
pub open spec fn spec_matches(elem: ElementData, sel: Selector) -> bool {
    match sel {
        Selector::Simple(s) => spec_matches_simple(elem, s),
    }
}

/// Whether any of the strings in `v` has the contents `s`.
fn contains_str(v: &Vec<String>, s: &str) -> (r: bool)
    ensures
        r == v@.map_values(|p: String| p@).contains(s@),
{
    let ghost mapped = v@.map_values(|p: String| p@);
    let mut i: usize = 0;
    while i < v.len()
        invariant
            i <= v@.len(),
            mapped == v@.map_values(|p: String| p@),
            forall|j: int| 0 <= j < i ==> mapped[j] != s@,
        decreases v@.len() - i,
    {
        if str_eq(v[i].as_str(), s) {
            assert(mapped[i as int] == s@);
            return true;
        }
        i = i + 1;
    }
    assert(!mapped.contains(s@)) by {
        if mapped.contains(s@) {
            let j = choose|j: int| 0 <= j < mapped.len() && mapped[j] == s@;
        }
    }
    false
}

/// Whether a simple selector matches an element.
pub fn matches_simple_selector(elem: &ElementData, selector: &SimpleSelector) -> (r: bool)
    ensures
        r == spec_matches_simple(*elem, *selector),
{
    if let Some(ref name) = selector.tag_name {
        if !str_eq(elem.tag_name.as_str(), name.as_str()) {
            return false;
        }
    }
    if let Some(ref id) = selector.id {
        match elem.id() {
            Some(v) => {
                if !str_eq(v.as_str(), id.as_str()) {
                    return false;
                }
            },
            None => {
                return false;
            },
        }
    }
    let classes = elem.classes();
    let mut i: usize = 0;
    while i < selector.class.len()
        invariant
            i <= selector.class@.len(),
            classes@.map_values(|p: String| p@) == spec_classes(*elem),
            forall|j: int|
                0 <= j < i ==> spec_classes(*elem).contains(#[trigger] selector.class@[j]@),
        decreases selector.class@.len() - i,
    {
        if !contains_str(&classes, selector.class[i].as_str()) {
            return false;
        }
        i = i + 1;
    }
    true
}

/// Whether a selector matches an element.
pub fn matches(elem: &ElementData, selector: &Selector) -> (r: bool)
    ensures
        r == spec_matches(*elem, *selector),
{
    match selector {
        Selector::Simple(ref simple_selector) => matches_simple_selector(elem, simple_selector),
    }
}

/// The first selector of the list that matches the element, if any.
pub open spec fn spec_first_match(elem: ElementData, sels: Seq<Selector>) -> Option<Selector>
    decreases sels.len(),
{
    if sels.len() == 0 {
        None
    } else if spec_matches(elem, sels[0]) {
        Some(sels[0])
    } else {
        spec_first_match(elem, sels.drop_first())
    }
}

/// The specificity a rule contributes against an element: that of its
/// first matching selector, or nothing when no selector matches.
pub open spec fn spec_match_rule(elem: ElementData, rule: Rule) -> Option<Specificity> {
    match spec_first_match(elem, rule.selectors@) {
        Some(sel) => Some(spec_specificity(sel)),
        None => None,
    }
}

/// The specificity of the rule's first selector matching the element.
fn match_rule(elem: &ElementData, rule: &Rule) -> (r: Option<Specificity>)
    ensures
        r == spec_match_rule(*elem, *rule),
{
    let ghost sels = rule.selectors@;
    let mut i: usize = 0;
    assert(sels.skip(0) =~= sels);
    while i < rule.selectors.len()
        invariant
            i <= sels.len(),
            sels == rule.selectors@,
            spec_first_match(*elem, sels) == spec_first_match(*elem, sels.skip(i as int)),
        decreases sels.len() - i,
    {
        assert(sels.skip(i as int)[0] == sels[i as int]);
        if matches(elem, &rule.selectors[i]) {
            return Some(rule.selectors[i].specificity());
        }
        assert(sels.skip(i as int).drop_first() =~= sels.skip(i + 1));
        i = i + 1;
    }
    assert(sels.skip(i as int).len() == 0);
    None
}

/// A matched rule: the specificity of its first matching selector, paired
/// with the rule's index in the stylesheet.
pub type MatchedRule = (Specificity, usize);

/// All rules of the list matching the element, each with its specificity
/// and index, in stylesheet order.
pub open spec fn spec_matched(elem: ElementData, rules: Seq<Rule>) -> Seq<MatchedRule>
    decreases rules.len(),
{
    if rules.len() == 0 {
        Seq::empty()
    } else {
        let rest = spec_matched(elem, rules.drop_last());
        match spec_match_rule(elem, rules.last()) {
            Some(sp) => rest.push((sp, (rules.len() - 1) as usize)),
            None => rest,
        }
    }
}

/// Every rule of the stylesheet that matches the element, with its
/// specificity and stylesheet position.
fn match_rules(elem: &ElementData, stylesheet: &Stylesheet) -> (r: Vec<MatchedRule>)
    ensures
        r@ == spec_matched(*elem, stylesheet.rules@),
{
    let ghost rules = stylesheet.rules@;
    let mut matched: Vec<MatchedRule> = Vec::new();
    let mut i: usize = 0;
    assert(rules.take(0) =~= Seq::<Rule>::empty());
    while i < stylesheet.rules.len()
        invariant
            i <= rules.len(),
            rules == stylesheet.rules@,
            matched@ == spec_matched(*elem, rules.take(i as int)),
        decreases rules.len() - i,
    {
        assert(rules.take(i as int + 1).drop_last() =~= rules.take(i as int));
        assert(rules.take(i as int + 1).last() == rules[i as int]);
        if let Some(sp) = match_rule(elem, &stylesheet.rules[i]) {
            matched.push((sp, i));
        }
        i = i + 1;
    }
    assert(rules.take(i as int) =~= rules);
    matched
}

/// Strict order on matched rules: lower specificity first, stylesheet
/// order breaking ties.
pub open spec fn key_lt(a: MatchedRule, b: MatchedRule) -> bool {
    spec_lt(a.0, b.0) || (a.0 == b.0 && a.1 < b.1)
}

/// Insert `x` into the sorted sequence `s`, after any element it does not
/// strictly precede.
pub open spec fn spec_insert_sorted(s: Seq<MatchedRule>, x: MatchedRule) -> Seq<MatchedRule>
    decreases s.len(),
{
    if s.len() == 0 {
        seq![x]
    } else if !key_lt(x, s.last()) {
        s.push(x)
    } else {
        spec_insert_sorted(s.drop_last(), x).push(s.last())
    }
}

/// Stable insertion sort of matched rules by specificity, then index.
pub open spec fn spec_sort(s: Seq<MatchedRule>) -> Seq<MatchedRule>
    decreases s.len(),
{
    if s.len() == 0 {
        Seq::empty()
    } else {
        spec_insert_sorted(spec_sort(s.drop_last()), s.last())
    }
}

/// Exec comparison matching `key_lt`.
fn key_lt_exec(a: &MatchedRule, b: &MatchedRule) -> (r: bool)
    ensures
        r == key_lt(*a, *b),
{
    let (a0, a1, a2) = a.0;
    let (b0, b1, b2) = b.0;
    if a0 < b0 {
        true
    } else if a0 == b0 && a1 < b1 {
        true
    } else if a0 == b0 && a1 == b1 && a2 < b2 {
        true
    } else if a0 == b0 && a1 == b1 && a2 == b2 && a.1 < b.1 {
        true
    } else {
        false
    }
}

/// Where `x` lands in sorted `s`: splitting at the first position from
/// which every element strictly follows `x`.
proof fn lemma_insert_sorted_at(s: Seq<MatchedRule>, x: MatchedRule, j: int)
    requires
        0 <= j <= s.len(),
        j > 0 ==> !key_lt(x, s[j - 1]),
        forall|k: int| j <= k < s.len() ==> key_lt(x, #[trigger] s[k]),
    ensures
        spec_insert_sorted(s, x) == s.take(j) + seq![x] + s.skip(j),
    decreases s.len(),
{
    if s.len() == 0 {
        assert(spec_insert_sorted(s, x) =~= s.take(j) + seq![x] + s.skip(j));
    } else if j == s.len() {
        assert(spec_insert_sorted(s, x) =~= s.take(j) + seq![x] + s.skip(j));
    } else {
        assert(key_lt(x, s.last())) by {
            assert(s[s.len() - 1] == s.last());
        }
        lemma_insert_sorted_at(s.drop_last(), x, j);
        assert(s.drop_last().take(j) =~= s.take(j));
        assert(s.drop_last().skip(j).push(s.last()) =~= s.skip(j));
        assert(spec_insert_sorted(s, x) =~= s.take(j) + seq![x] + s.skip(j));
    }
}

/// The position where `x` lands in the sorted vector: the first index from
/// which every element strictly follows `x`.
fn find_pos(result: &Vec<MatchedRule>, x: &MatchedRule) -> (j: usize)
    ensures
        j <= result@.len(),
        j > 0 ==> !key_lt(*x, result@[j as int - 1]),
        forall|k: int| j <= k < result@.len() ==> key_lt(*x, #[trigger] result@[k]),
{
    let mut j: usize = result.len();
    while j > 0
        invariant
            j <= result@.len(),
            forall|k: int| j <= k < result@.len() ==> key_lt(*x, #[trigger] result@[k]),
        decreases j,
    {
        if !key_lt_exec(x, &result[j - 1]) {
            return j;
        }
        j = j - 1;
    }
    j
}

/// Insert one matched rule into an already sorted vector, keeping it
/// sorted and placing it after any equal keys.
fn insert_sorted(result: &mut Vec<MatchedRule>, x: MatchedRule)
    ensures
        final(result)@ == spec_insert_sorted(old(result)@, x),
{
    let j = find_pos(result, &x);
    proof {
        lemma_insert_sorted_at(result@, x, j as int);
    }
    result.insert(j, x);
    proof {
        assert(result@ =~= old(result)@.take(j as int) + seq![x] + old(result)@.skip(j as int));
    }
}

/// Sort matched rules ascending by specificity, stylesheet order breaking
/// ties; with indices distinct this is the unique stable order.
fn sort_matched(ms: Vec<MatchedRule>) -> (r: Vec<MatchedRule>)
    ensures
        r@ == spec_sort(ms@),
{
    let mut result: Vec<MatchedRule> = Vec::new();
    let mut i: usize = 0;
    assert(ms@.take(0) =~= Seq::<MatchedRule>::empty());
    while i < ms.len()
        invariant
            i <= ms@.len(),
            result@ == spec_sort(ms@.take(i as int)),
        decreases ms@.len() - i,
    {
        assert(ms@.take(i as int + 1).drop_last() =~= ms@.take(i as int));
        assert(ms@.take(i as int + 1).last() == ms@[i as int]);
        insert_sorted(&mut result, ms[i]);
        i = i + 1;
    }
    assert(ms@.take(i as int) =~= ms@);
    result
}

/// The map after applying a rule's declarations in order, later
/// declarations for the same name overwriting earlier ones.
pub open spec fn spec_apply_decls(m: Map<Seq<char>, Value>, decls: Seq<Declaration>) -> Map<
    Seq<char>,
    Value,
>
    decreases decls.len(),
{
    if decls.len() == 0 {
        m
    } else {
        spec_apply_decls(m, decls.drop_last()).insert(decls.last().name@, decls.last().value)
    }
}

/// The map after applying the declarations of each matched rule, in the
/// order given.
pub open spec fn spec_apply_matches(
    m: Map<Seq<char>, Value>,
    rules: Seq<Rule>,
    ms: Seq<MatchedRule>,
) -> Map<Seq<char>, Value>
    decreases ms.len(),
{
    if ms.len() == 0 {
        m
    } else {
        let prev = spec_apply_matches(m, rules, ms.drop_last());
        if ms.last().1 < rules.len() {
            spec_apply_decls(prev, rules[ms.last().1 as int].declarations@)
        } else {
            prev
        }
    }
}

/// The resolved property map of an element under a stylesheet: every
/// matching rule's declarations applied in ascending specificity order,
/// stylesheet order breaking ties.
pub open spec fn spec_specified_values(elem: ElementData, sheet: Stylesheet) -> Map<
    Seq<char>,
    Value,
> {
    spec_apply_matches(
        Map::empty(),
        sheet.rules@,
        spec_sort(spec_matched(elem, sheet.rules@)),
    )
}

/// Resolve the property map of one element: collect matching rules, rank
/// them, and fold their declarations.
pub fn specified_values(elem: &ElementData, stylesheet: &Stylesheet) -> (r: PropertyMap)
    ensures
        r@ == spec_specified_values(*elem, *stylesheet),
{
    let mut values = PropertyMap::new();
    let matched = match_rules(elem, stylesheet);
    let sorted = sort_matched(matched);
    let ghost rules = stylesheet.rules@;
    let ghost ms = sorted@;
    let mut i: usize = 0;
    assert(ms.take(0) =~= Seq::<MatchedRule>::empty());
    while i < sorted.len()
        invariant
            i <= ms.len(),
            ms == sorted@,
            rules == stylesheet.rules@,
            values@ == spec_apply_matches(Map::empty(), rules, ms.take(i as int)),
        decreases ms.len() - i,
    {
        assert(ms.take(i as int + 1).drop_last() =~= ms.take(i as int));
        assert(ms.take(i as int + 1).last() == ms[i as int]);
        let (_, idx) = sorted[i];
        if idx < stylesheet.rules.len() {
            let ghost before = values@;
            let ghost decls = rules[idx as int].declarations@;
            let mut j: usize = 0;
            assert(decls.take(0) =~= Seq::<Declaration>::empty());
            while j < stylesheet.rules[idx].declarations.len()
                invariant
                    j <= decls.len(),
                    idx < rules.len(),
                    rules == stylesheet.rules@,
                    decls == rules[idx as int].declarations@,
                    values@ == spec_apply_decls(before, decls.take(j as int)),
                decreases decls.len() - j,
            {
                assert(decls.take(j as int + 1).drop_last() =~= decls.take(j as int));
                assert(decls.take(j as int + 1).last() == decls[j as int]);
                let decl = &stylesheet.rules[idx].declarations[j];
                values.insert(decl.name.clone(), clone_value(&decl.value));
                j = j + 1;
            }
            assert(decls.take(j as int) =~= decls);
        }
        i = i + 1;
    }
    assert(ms.take(i as int) =~= ms);
    values
}

/// The style tree of a document node: its resolved property map (empty
/// for text nodes) and the style trees of its children, in order.
pub open spec fn spec_style_tree(n: Node, sheet: Stylesheet) -> StyleNodeV
    decreases n,
{
    StyleNodeV {
        specified_values: match n.node_type {
            NodeType::Element(e) => spec_specified_values(e, sheet),
            NodeType::Text(_) => Map::empty(),
        },
        children: spec_style_trees(n.children@, sheet),
    }
}

/// The style trees of a sequence of document nodes, in order.
pub open spec fn spec_style_trees(ns: Seq<Node>, sheet: Stylesheet) -> Seq<StyleNodeV>
    decreases ns,
{
    if ns.len() == 0 {
        Seq::empty()
    } else {
        seq![spec_style_tree(ns[0], sheet)] + spec_style_trees(ns.drop_first(), sheet)
    }
}

/// `spec_style_trees` maps `spec_style_tree` over the sequence, element by
/// element.
pub proof fn lemma_style_trees_index(ns: Seq<Node>, sheet: Stylesheet)
    ensures
        spec_style_trees(ns, sheet).len() == ns.len(),
        forall|i: int|
            0 <= i < ns.len() ==> spec_style_trees(ns, sheet)[i] == spec_style_tree(ns[i], sheet),
    decreases ns.len(),
{
    if ns.len() > 0 {
        lemma_style_trees_index(ns.drop_first(), sheet);
    }
}

/// Build the style tree of a document under a stylesheet.  Pure: the
/// result is a function of the two inputs alone.
pub fn style_tree(root: &Node, stylesheet: &Stylesheet) -> (r: StyleNode)
    ensures
        r@ == spec_style_tree(*root, *stylesheet),
    decreases *root,
{
    let specified = match root.node_type {
        NodeType::Element(ref elem) => specified_values(elem, stylesheet),
        NodeType::Text(_) => PropertyMap::new(),
    };
    let mut children: Vec<StyleNode> = Vec::new();
    let mut i: usize = 0;
    while i < root.children.len()
        invariant
            i <= root.children@.len(),
            children@.len() == i,
            forall|j: int|
                0 <= j < i ==> (#[trigger] children@[j])@ == spec_style_tree(
                    root.children@[j],
                    *stylesheet,
                ),
        decreases root.children@.len() - i,
    {
        children.push(style_tree(&root.children[i], stylesheet));
        i = i + 1;
    }
    let r = StyleNode { specified_values: specified, children };
    proof {
        lemma_sn_views_index(r.children@);
        lemma_style_trees_index(root.children@, *stylesheet);
        assert(r@.children =~= spec_style_tree(*root, *stylesheet).children);
    }
    r
}

/// Cascade resolution is deterministic: resolving the same document and
/// stylesheet twice yields structurally identical style trees.
pub proof fn lemma_style_tree_idempotent(
    root: Node,
    sheet: Stylesheet,
    t1: StyleNodeV,
    t2: StyleNodeV,
)
    requires
        t1 == spec_style_tree(root, sheet),
        t2 == spec_style_tree(root, sheet),
    ensures
        t1 == t2,
{
}


/// Matched rules in weakly ascending key order: no later element strictly
/// precedes an earlier one.
pub open spec fn spec_sorted(s: Seq<MatchedRule>) -> bool {
    forall|i: int, j: int| 0 <= i < j < s.len() ==> !key_lt(#[trigger] s[j], #[trigger] s[i])
}

proof fn lemma_insert_sorted_props(s: Seq<MatchedRule>, x: MatchedRule)
    requires
        spec_sorted(s),
    ensures
        spec_sorted(spec_insert_sorted(s, x)),
        spec_insert_sorted(s, x).len() == s.len() + 1,
        spec_insert_sorted(s, x).to_multiset() == s.to_multiset().insert(x),
        forall|k: int|
            0 <= k < spec_insert_sorted(s, x).len() ==> (#[trigger] spec_insert_sorted(s, x)[k]
                == x || s.contains(spec_insert_sorted(s, x)[k])),
    decreases s.len(),
{
    broadcast use vstd::seq_lib::group_to_multiset_ensures;

    let r = spec_insert_sorted(s, x);
    if s.len() == 0 {
        assert(r =~= Seq::empty().push(x));
        assert(r.to_multiset() =~= s.to_multiset().insert(x));
    } else if !key_lt(x, s.last()) {
        assert(r == s.push(x));
        assert(s[s.len() - 1] == s.last());
        assert forall|k: int| 0 <= k < r.len() implies (#[trigger] r[k] == x || s.contains(
            r[k],
        )) by {
            if k < s.len() {
                assert(r[k] == s[k]);
                assert(s.contains(s[k]));
            }
        }
        assert(spec_sorted(r)) by {
            assert forall|i: int, j: int| 0 <= i < j < r.len() implies !key_lt(r[j], r[i]) by {
                if j == s.len() {
                    assert(!key_lt(x, s[i]));
                }
            }
        }
    } else {
        let dl = s.drop_last();
        assert(spec_sorted(dl)) by {
            assert(forall|i: int| 0 <= i < dl.len() ==> dl[i] == s[i]);
        }
        lemma_insert_sorted_props(dl, x);
        let rr = spec_insert_sorted(dl, x);
        assert(r == rr.push(s.last()));
        assert(s =~= dl.push(s.last()));
        assert(s.to_multiset() == dl.to_multiset().insert(s.last()));
        assert(r.to_multiset() == rr.to_multiset().insert(s.last()));
        assert(dl.to_multiset().insert(x).insert(s.last()) =~= dl.to_multiset().insert(
            s.last(),
        ).insert(x));
        assert forall|k: int| 0 <= k < r.len() implies (#[trigger] r[k] == x || s.contains(
            r[k],
        )) by {
            if k < rr.len() {
                assert(r[k] == rr[k]);
                if rr[k] != x {
                    let m = choose|m: int| 0 <= m < dl.len() && dl[m] == rr[k];
                    assert(s[m] == rr[k]);
                }
            } else {
                assert(r[k] == s.last());
                assert(s.contains(s.last()));
            }
        }
        assert(spec_sorted(r)) by {
            assert forall|i: int, j: int| 0 <= i < j < r.len() implies !key_lt(r[j], r[i]) by {
                if j == rr.len() {
                    assert(r[j] == s.last());
                    assert(r[i] == rr[i]);
                    if rr[i] != x {
                        let m = choose|m: int| 0 <= m < dl.len() && dl[m] == rr[i];
                        assert(!key_lt(s.last(), s[m]));
                    }
                }
            }
        }
    }
}

/// The stable insertion sort of the matched rules is a permutation of
/// them, in weakly ascending key order; with the stylesheet indices
/// distinct, that order is unique, so this is the one stable sort.
pub proof fn lemma_sort_sorted_permutation(s: Seq<MatchedRule>)
    ensures
        spec_sorted(spec_sort(s)),
        spec_sort(s).to_multiset() == s.to_multiset(),
        spec_sort(s).len() == s.len(),
    decreases s.len(),
{
    broadcast use vstd::seq_lib::group_to_multiset_ensures;

    if s.len() == 0 {
        assert(spec_sort(s).to_multiset() =~= s.to_multiset());
    } else {
        let dl = s.drop_last();
        lemma_sort_sorted_permutation(dl);
        lemma_insert_sorted_props(spec_sort(dl), s.last());
        assert(s =~= dl.push(s.last()));
        assert(s.to_multiset() == dl.to_multiset().insert(s.last()));
    }
}

} // verus!
