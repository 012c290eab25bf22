//! Attribute selector operations and case sensitivity, and the calls into
//! the `selectors` crate that evaluate them on byte strings.

use crate::bytes::{ascii_ci_eq, is_token};
use crate::css::CssString;
use selectors::attr;
use vstd::prelude::*;
use vstd::string::*;
use vstd::utf8::*;

verus! {

/// Whether comparisons distinguish ASCII letter case.
#[derive(Clone, Copy, Debug, PartialEq, Eq, Structural)]
pub enum CaseSensitivity {
    CaseSensitive,
    AsciiCaseInsensitive,
}

/// The operator of an attribute selector with a value: `=`, `~=`, `|=`, `^=`, `*=`, `$=`.
#[derive(Clone, Copy, Debug, PartialEq, Eq, Structural)]
pub enum AttrSelectorOperator {
    Equal,
    Includes,
    DashMatch,
    Prefix,
    Substring,
    Suffix,
}

/// What an attribute selector asks of an attribute it names.
#[derive(Clone, Debug)]
pub enum AttrSelectorOperation {
    /// `[attr]`: the attribute is present.
    Exists,
    /// `[attr <operator> value]`, compared with the given case sensitivity.
    WithValue { operator: AttrSelectorOperator, case_sensitivity: CaseSensitivity, value: CssString },
}

/// Which namespace an attribute selector accepts.
#[derive(Clone, Debug)]
pub enum NamespaceConstraint {
    /// `[*|attr]`: any namespace.
    Any,
    /// One namespace; the empty string stands for no namespace.
    Specific(String),
}

/// Equality of two byte strings under a case sensitivity.
pub open spec fn case_sensitive_eq(case: CaseSensitivity, a: Seq<u8>, b: Seq<u8>) -> bool {
    match case {
        CaseSensitivity::CaseSensitive => a == b,
        CaseSensitivity::AsciiCaseInsensitive => ascii_ci_eq(a, b),
    }
}

/// Whether the attribute value `e` satisfies `operator` against the selector's value `s`.
pub open spec fn attr_operator_holds(
    operator: AttrSelectorOperator,
    case: CaseSensitivity,
    e: Seq<u8>,
    s: Seq<u8>,
) -> bool {
    match operator {
        AttrSelectorOperator::Equal => case_sensitive_eq(case, e, s),
        AttrSelectorOperator::Prefix => e.len() >= s.len() && case_sensitive_eq(
            case,
            e.subrange(0, s.len() as int),
            s,
        ),
        AttrSelectorOperator::Suffix => e.len() >= s.len() && case_sensitive_eq(
            case,
            e.subrange(e.len() - s.len(), e.len() as int),
            s,
        ),
        AttrSelectorOperator::Substring => exists|i: int|
            0 <= i && i + s.len() <= e.len() && #[trigger] case_sensitive_eq(
                case,
                e.subrange(i, i + s.len()),
                s,
            ),
        AttrSelectorOperator::Includes => exists|i: int, j: int|
            is_token(e, i, j) && #[trigger] case_sensitive_eq(case, e.subrange(i, j), s),
        AttrSelectorOperator::DashMatch => case_sensitive_eq(case, e, s) || (e.len() > s.len()
            && e[s.len() as int] == 45 && case_sensitive_eq(case, e.subrange(0, s.len() as int), s)),
    }
}

/// Whether an attribute whose value has the UTF-8 bytes `e` satisfies `operation`.
pub open spec fn attr_operation_holds(operation: AttrSelectorOperation, e: Seq<u8>) -> bool {
    match operation {
        AttrSelectorOperation::Exists => true,
        AttrSelectorOperation::WithValue { operator, case_sensitivity, value } => attr_operator_holds(
            operator,
            case_sensitivity,
            e,
            encode_utf8(value.0@),
        ),
    }
}

/// Calls `selectors::attr::AttrSelectorOperator::eval_str`, which compares
/// the UTF-8 bytes of an element's attribute value with those of the
/// selector's value: whole value for `=`, leading and trailing part for `^=`
/// and `$=`, any run of bytes for `*=`, any whitespace-separated piece for
/// `~=`, and the whole value or the part before a `-` for `|=`.
#[verifier::external_body]
fn operator_eval_str(
    operator: AttrSelectorOperator,
    element_attr_value: &str,
    attr_selector_value: &str,
    case: CaseSensitivity,
) -> (r: bool)
    ensures
        r == attr_operator_holds(
            operator,
            case,
            element_attr_value.spec_bytes(),
            attr_selector_value.spec_bytes(),
        ),
{
    let operator = match operator {
        AttrSelectorOperator::Equal => attr::AttrSelectorOperator::Equal,
        AttrSelectorOperator::Includes => attr::AttrSelectorOperator::Includes,
        AttrSelectorOperator::DashMatch => attr::AttrSelectorOperator::DashMatch,
        AttrSelectorOperator::Prefix => attr::AttrSelectorOperator::Prefix,
        AttrSelectorOperator::Substring => attr::AttrSelectorOperator::Substring,
        AttrSelectorOperator::Suffix => attr::AttrSelectorOperator::Suffix,
    };
    let case = match case {
        CaseSensitivity::CaseSensitive => attr::CaseSensitivity::CaseSensitive,
        CaseSensitivity::AsciiCaseInsensitive => attr::CaseSensitivity::AsciiCaseInsensitive,
    };
    operator.eval_str(element_attr_value, attr_selector_value, case)
}

impl AttrSelectorOperation {
    /// Whether an attribute with value `element_attr_value` satisfies this operation.
    pub fn eval_str(&self, element_attr_value: &str) -> (r: bool)
        ensures
            r == attr_operation_holds(*self, element_attr_value.spec_bytes()),
    {
        match self {
            AttrSelectorOperation::Exists => true,
            AttrSelectorOperation::WithValue { operator, case_sensitivity, value } => {
                operator_eval_str(*operator, element_attr_value, value.0.as_str(), *case_sensitivity)
            },
        }
    }
}

impl CaseSensitivity {
    /// Compares two byte strings under this case sensitivity.
    pub fn eq(self, a: &[u8], b: &[u8]) -> (r: bool)
        ensures
            r == case_sensitive_eq(self, a@, b@),
    {
        match self {
            CaseSensitivity::CaseSensitive => crate::bytes::bytes_equal(a, b),
            CaseSensitivity::AsciiCaseInsensitive => crate::bytes::eq_ignore_ascii_case(a, b),
        }
    }
}

} // verus!
