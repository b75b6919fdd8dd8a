//! Parsed style rules: values, selectors, declarations and stylesheets.

use crate::error::Error;
use vstd::prelude::*;
use vstd::string::StringSliceAdditionalSpecFns;
use vstd::utf8::{encode_utf8, encode_utf8_decode_utf8};

verus! {

/// The largest magnitude that a length or a coordinate may have.
///
/// Sums of up to nine such values fit in an `i64`, which is what keeps the
/// arithmetic of layout free of overflow.
pub const MAX_LENGTH: i64 = 1_000_000_000_000_000;

/// Whether `v` lies within `-MAX_LENGTH ..= MAX_LENGTH`.
pub open spec fn in_range(v: int) -> bool {
    -MAX_LENGTH <= v <= MAX_LENGTH
}

/// An RGBA colour.
#[derive(Clone, Copy, Debug, PartialEq, Eq, Structural)]
pub struct Color {
    pub r: u8,
    pub g: u8,
    pub b: u8,
    pub a: u8,
}

/// The unit of a length.
#[derive(Clone, Copy, Debug, PartialEq, Eq, Structural)]
pub enum Unit {
    /// Device pixels, the only unit that layout resolves.
    Px,
    /// Any other unit.
    Unrecognized,
}

/// The value of a declaration.
#[derive(Debug, PartialEq, Eq)]
pub enum Value {
    Keyword(String),
    Length(i64, Unit),
    Color(Color),
}

impl Clone for Value {
    fn clone(&self) -> (copy: Self)
        ensures
            copy == *self,
    {
        match self {
            Value::Keyword(word) => Value::Keyword(word.clone()),
            Value::Length(amount, unit) => Value::Length(*amount, *unit),
            Value::Color(color) => Value::Color(*color),
        }
    }
}

/// Whether two string slices hold the same characters: whether they hold
/// the same bytes, since no two strings are written with the same bytes.
pub fn str_eq(a: &str, b: &str) -> (same: bool)
    ensures
        same == (a@ == b@),
{
    let left = a.as_bytes();
    let right = b.as_bytes();
    proof {
        encode_utf8_decode_utf8(a@);
        encode_utf8_decode_utf8(b@);
    }
    if left.len() != right.len() {
        return false;
    }
    let mut k: usize = 0;
    while k < left.len()
        invariant
            k <= left@.len(),
            left@.len() == right@.len(),
            left@ == encode_utf8(a@),
            right@ == encode_utf8(b@),
            forall|i: int| 0 <= i < k ==> left@[i] == right@[i],
        decreases left@.len() - k,
    {
        if left[k] != right[k] {
            return false;
        }
        k = k + 1;
    }
    assert(left@ =~= right@);
    true
}

impl Value {
    /// Whether this is the keyword `auto`.
    pub open spec fn auto(self) -> bool {
        self matches Value::Keyword(word) && word@ == "auto"@
    }

    /// The pixels that this value stands for as a length: `auto` counts as
    /// zero, a colour or another keyword is no length, and only pixel lengths
    /// are resolved.
    pub open spec fn px(self) -> Result<i64, Error> {
        match self {
            Value::Length(amount, Unit::Px) => Ok(amount),
            Value::Length(_, Unit::Unrecognized) => Err(Error::InvalidUnit),
            Value::Keyword(word) => if word@ == "auto"@ {
                Ok(0i64)
            } else {
                Err(Error::InvalidLength)
            },
            Value::Color(_) => Err(Error::InvalidLength),
        }
    }

    /// The colour that this value holds, if it holds one.
    pub open spec fn color(self) -> Option<Color> {
        match self {
            Value::Color(color) => Some(color),
            _ => None,
        }
    }

    /// Whether this is the keyword `auto`.
    pub fn is_auto(&self) -> (yes: bool)
        ensures
            yes == self.auto(),
    {
        match self {
            Value::Keyword(word) => str_eq(word.as_str(), "auto"),
            _ => false,
        }
    }

    /// The length in pixels, or the reason why the value is no such length.
    pub fn to_px(&self) -> (px: Result<i64, Error>)
        ensures
            px == self.px(),
    {
        match self {
            Value::Length(amount, Unit::Px) => Ok(*amount),
            Value::Length(_, Unit::Unrecognized) => Err(Error::InvalidUnit),
            Value::Keyword(word) => {
                if str_eq(word.as_str(), "auto") {
                    Ok(0)
                } else {
                    Err(Error::InvalidLength)
                }
            },
            Value::Color(_) => Err(Error::InvalidLength),
        }
    }

    /// The colour that this value holds, if it holds one.
    pub fn to_color(&self) -> (color: Option<Color>)
        ensures
            color == self.color(),
    {
        match self {
            Value::Color(color) => Some(*color),
            _ => None,
        }
    }
}

/// The weight of a selector: how many ids, classes and tag names it holds,
/// in that order.  A greater weight wins; weights compare field by field,
/// the first field counting most.
pub type Specificity = (usize, usize, usize);

/// Whether `a` weighs at most as much as `b`.
pub open spec fn specificity_le(a: Specificity, b: Specificity) -> bool {
    a.0 < b.0 || (a.0 == b.0 && (a.1 < b.1 || (a.1 == b.1 && a.2 <= b.2)))
}

/// Whether `a` weighs at most as much as `b`.
pub fn at_most(a: &Specificity, b: &Specificity) -> (le: bool)
    ensures
        le == specificity_le(*a, *b),
{
    a.0 < b.0 || (a.0 == b.0 && (a.1 < b.1 || (a.1 == b.1 && a.2 <= b.2)))
}

/// A selector without combinators: an optional tag name, an optional id and
/// any number of class names, all of which an element must have.
#[derive(Debug, PartialEq, Eq)]
pub struct SimpleSelector {
    pub tag_name: Option<String>,
    pub id: Option<String>,
    pub class: Vec<String>,
}

/// What an element must have for a rule to apply to it.
#[derive(Debug, PartialEq, Eq)]
pub enum Selector {
    Simple(SimpleSelector),
}

/// One `name: value` pair of a rule.
#[derive(Debug, PartialEq, Eq)]
pub struct Declaration {
    pub name: String,
    pub value: Value,
}

/// Selectors and the declarations that they bring to the elements they match.
#[derive(Debug, PartialEq, Eq)]
pub struct Rule {
    pub selectors: Vec<Selector>,
    pub declarations: Vec<Declaration>,
}

/// Rules in the order in which they were written.
#[derive(Debug, PartialEq, Eq)]
pub struct StyleSheet {
    pub rules: Vec<Rule>,
}

impl SimpleSelector {
    /// How many ids, classes and tag names the selector holds.
    pub open spec fn weight(self) -> Specificity {
        (
            if self.id is Some { 1usize } else { 0usize },
            self.class@.len() as usize,
            if self.tag_name is Some { 1usize } else { 0usize },
        )
    }

    /// How many ids, classes and tag names the selector holds.
    pub fn specificity(&self) -> (weight: Specificity)
        ensures
            weight == self.weight(),
    {
        let ids: usize = if self.id.is_some() { 1 } else { 0 };
        let tags: usize = if self.tag_name.is_some() { 1 } else { 0 };
        (ids, self.class.len(), tags)
    }
}

impl Selector {
    /// The weight of the selector.
    pub open spec fn weight(self) -> Specificity {
        match self {
            Selector::Simple(simple) => simple.weight(),
        }
    }

    /// The weight of the selector.
    pub fn specificity(&self) -> (weight: Specificity)
        ensures
            weight == self.weight(),
    {
        match self {
            Selector::Simple(simple) => simple.specificity(),
        }
    }
}

} // verus!
