//! Style-rule data model: stylesheets, rules, selectors and values.
//!
//! A stylesheet is an ordered list of rules; a rule pairs a list of
//! selectors (a rule matches an element when any one of them does) with an
//! ordered list of declarations.  A selector's precedence weight is its
//! specificity, compared lexicographically as (id-count, class-count,
//! tag-count).

use vstd::prelude::*;

verus! {

/// The only length unit modeled: whole pixels.
#[derive(Clone, Copy, PartialEq, Eq, Structural, Debug)]
pub enum Unit {
    Px,
}

/// An RGBA color, one byte per channel.
#[derive(Clone, Copy, PartialEq, Eq, Structural, Debug)]
pub struct Color {
    pub r: u8,
    pub g: u8,
    pub b: u8,
    pub a: u8,
}

/// A declaration's value: a bare keyword, a pixel length, or a color.
#[derive(Clone, Debug)]
pub enum Value {
    Keyword(String),
    Length(i64, Unit),
    ColorValue(Color),
}

/// One `name: value` declaration inside a rule.
#[derive(Clone, Debug)]
pub struct Declaration {
    pub name: String,
    pub value: Value,
}

/// A simple selector: optional tag name, optional id, and class names,
/// all of which must hold of an element for the selector to match.
#[derive(Clone, Debug)]
pub struct SimpleSelector {
    pub tag_name: Option<String>,
    pub id: Option<String>,
    pub class: Vec<String>,
}

/// A selector; only simple selectors are supported.
#[derive(Clone, Debug)]
pub enum Selector {
    Simple(SimpleSelector),
}

/// One style rule: selectors paired with declarations.
#[derive(Clone, Debug)]
pub struct Rule {
    pub selectors: Vec<Selector>,
    pub declarations: Vec<Declaration>,
}

/// An ordered list of rules.
#[derive(Clone, Debug)]
pub struct Stylesheet {
    pub rules: Vec<Rule>,
}

/// A selector's precedence weight: (id-count, class-count, tag-count).
pub type Specificity = (usize, usize, usize);

/// The specificity of a selector: one for a present id, the class count,
/// one for a present tag name.
pub open spec fn spec_specificity(sel: Selector) -> Specificity {
    match sel {
        Selector::Simple(s) => (
            if s.id is Some { 1usize } else { 0usize },
            s.class@.len() as usize,
            if s.tag_name is Some { 1usize } else { 0usize },
        ),
    }
}

/// Strict lexicographic order on specificity triples: id count first,
/// then class count, then tag count.
pub open spec fn spec_lt(a: Specificity, b: Specificity) -> bool {
    a.0 < b.0 || (a.0 == b.0 && (a.1 < b.1 || (a.1 == b.1 && a.2 < b.2)))
}

/// A copy of a declaration value, equal to the original.
pub fn clone_value(v: &Value) -> (r: Value)
    ensures
        r == *v,
{
    match v {
        Value::Keyword(s) => Value::Keyword(s.clone()),
        Value::Length(n, u) => Value::Length(*n, *u),
        Value::ColorValue(c) => Value::ColorValue(*c),
    }
}

impl Selector {
    /// The specificity of this selector.
    pub fn specificity(&self) -> (r: Specificity)
        ensures
            r == spec_specificity(*self),
    {
        let Selector::Simple(ref simple) = *self;
        let a: usize = if simple.id.is_some() { 1 } else { 0 };
        let b: usize = simple.class.len();
        let c: usize = if simple.tag_name.is_some() { 1 } else { 0 };
        (a, b, c)
    }
}

/// Specificity ordering is monotonic: a selector with more id matches always
/// outranks one with fewer; among equal id counts the class count decides;
/// among equal id and class counts the tag count decides.
pub proof fn lemma_specificity_monotonic(a: Specificity, b: Specificity)
    ensures
        a.0 > b.0 ==> spec_lt(b, a),
        a.0 == b.0 && a.1 > b.1 ==> spec_lt(b, a),
        a.0 == b.0 && a.1 == b.1 && a.2 > b.2 ==> spec_lt(b, a),
{
}

/// The specificity order is total: of two triples, either one is strictly
/// smaller or they are equal.
pub proof fn lemma_specificity_total(a: Specificity, b: Specificity)
    ensures
        spec_lt(a, b) || spec_lt(b, a) || a == b,
{
}

} // verus!
