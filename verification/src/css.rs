//! The string and name types of the selector implementation, and specificity.

use core::cmp::Ordering;
use vstd::prelude::*;

verus! {

/// An attribute value in a selector.
#[derive(Clone, Debug, Ord, PartialOrd, Eq, PartialEq, Hash, Default)]
pub struct CssString(pub String);

/// A local name, identifier or namespace prefix in a selector.
#[derive(Clone, Debug, Ord, PartialOrd, Eq, PartialEq, Hash, Default)]
pub struct CssLocalName(pub String);

/// The selector implementation: its attribute values are `CssString`s, its
/// identifiers, local names and prefixes `CssLocalName`s, its namespace URLs
/// strings, its pseudo-classes `PseudoClass` and its pseudo-elements
/// `PseudoElement`.
#[derive(Debug, Clone)]
pub struct KuchikiSelectors;

impl CssString {
    /// A value holding a copy of `value`.
    pub fn from(value: &str) -> (r: CssString)
        ensures
            r.0@ == value@,
    {
        CssString(value.to_owned())
    }

    /// The CSS text of the value: the string itself.
    pub fn to_css(&self) -> (r: &str)
        ensures
            r@ == self.0@,
    {
        self.0.as_str()
    }

    /// The value as a string slice.
    pub fn as_ref(&self) -> (r: &str)
        ensures
            r@ == self.0@,
    {
        self.0.as_str()
    }

    /// The value as a `String`.
    pub fn deref(&self) -> (r: &String)
        ensures
            *r == self.0,
    {
        &self.0
    }
}

impl CssLocalName {
    /// A name holding a copy of `value`.
    pub fn from(value: &str) -> (r: CssLocalName)
        ensures
            r.0@ == value@,
    {
        CssLocalName(value.to_owned())
    }

    /// The CSS text of the name: the name itself.
    pub fn to_css(&self) -> (r: &str)
        ensures
            r@ == self.0@,
    {
        self.0.as_str()
    }

    /// The name as a `String`.
    pub fn deref(&self) -> (r: &String)
        ensures
            *r == self.0,
    {
        &self.0
    }
}

/// The specificity of a selector. Opaque, but ordered: it determines
/// precedence in the cascade, and when two are equal a rule later in source
/// order takes precedence.
#[derive(Copy, Clone, Hash, Eq, PartialEq, Structural, Ord)]
pub struct Specificity(u32);

impl View for Specificity {
    type V = u32;

    closed spec fn view(&self) -> u32 {
        self.0
    }
}

impl Specificity {
    /// The specificity with the packed value `value`, as the selector
    /// engine computes it.
    pub fn new(value: u32) -> (r: Specificity)
        ensures
            r@ == value,
    {
        Specificity(value)
    }
}

/// How specificities compare: by their packed values.
pub open spec fn specificity_order(a: Specificity, b: Specificity) -> Option<Ordering> {
    if a@ < b@ {
        Some(Ordering::Less)
    } else if a@ == b@ {
        Some(Ordering::Equal)
    } else {
        Some(Ordering::Greater)
    }
}

impl PartialOrd for Specificity {
    fn partial_cmp(&self, other: &Specificity) -> (r: Option<Ordering>) {
        if self.0 < other.0 {
            Some(Ordering::Less)
        } else if self.0 == other.0 {
            Some(Ordering::Equal)
        } else {
            Some(Ordering::Greater)
        }
    }
}

impl vstd::std_specs::cmp::PartialOrdSpecImpl for Specificity {
    open spec fn obeys_partial_cmp_spec() -> bool {
        true
    }

    open spec fn partial_cmp_spec(&self, other: &Specificity) -> Option<Ordering> {
        specificity_order(*self, *other)
    }
}


/// Specificities are totally ordered by their values: the comparison always
/// answers, answers `Equal` exactly for equal specificities, is antisymmetric
/// and is transitive.
pub proof fn lemma_specificity_total_order(a: Specificity, b: Specificity, c: Specificity)
    ensures
        specificity_order(a, b) is Some,
        (specificity_order(a, b) == Some(Ordering::Equal)) == (a == b),
        (specificity_order(a, b) == Some(Ordering::Less)) == (specificity_order(b, a) == Some(
            Ordering::Greater,
        )),
        specificity_order(a, b) == Some(Ordering::Less) && specificity_order(b, c) == Some(
            Ordering::Less,
        ) ==> specificity_order(a, c) == Some(Ordering::Less),
{
}

} // verus!
