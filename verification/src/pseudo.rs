//! The pseudo-classes that the selector implementation supports, their
//! names, and the parser hooks that recognise them.

use crate::bytes;
use vstd::prelude::*;
use vstd::string::*;
use vstd::utf8::*;

verus! {

/// A non-tree-structural pseudo-class.
#[derive(PartialEq, Eq, Clone, Debug, Hash, Structural)]
pub enum PseudoClass {
    AnyLink,
    Link,
    Visited,
    Active,
    Focus,
    Hover,
    Enabled,
    Disabled,
    Checked,
    Indeterminate,
}

/// Pseudo-elements: none are supported, so no value of this type exists.
#[derive(PartialEq, Eq, Debug, Hash)]
pub struct PseudoElement(pub core::convert::Infallible);

impl Clone for PseudoElement {
    fn clone(&self) -> (r: Self)
        ensures
            r == *self,
    {
        PseudoElement(self.0)
    }
}

/// The name of a pseudo-class, as written after the `:` in a selector.
pub open spec fn pseudo_class_name(p: PseudoClass) -> Seq<char> {
    match p {
        PseudoClass::AnyLink => "any-link"@,
        PseudoClass::Link => "link"@,
        PseudoClass::Visited => "visited"@,
        PseudoClass::Active => "active"@,
        PseudoClass::Focus => "focus"@,
        PseudoClass::Hover => "hover"@,
        PseudoClass::Enabled => "enabled"@,
        PseudoClass::Disabled => "disabled"@,
        PseudoClass::Checked => "checked"@,
        PseudoClass::Indeterminate => "indeterminate"@,
    }
}

/// Whether the UTF-8 bytes `name` spell the name of `p` up to ASCII case.
pub open spec fn names_pseudo_class(name: Seq<u8>, p: PseudoClass) -> bool {
    bytes::ascii_ci_eq(name, encode_utf8(pseudo_class_name(p)))
}

/// The pseudo-class that a name denotes, if any; names are compared up to
/// ASCII case, and tried in the order of the enum's variants.
pub open spec fn pseudo_class_from_name(name: Seq<u8>) -> Option<PseudoClass> {
    if names_pseudo_class(name, PseudoClass::AnyLink) {
        Some(PseudoClass::AnyLink)
    } else if names_pseudo_class(name, PseudoClass::Link) {
        Some(PseudoClass::Link)
    } else if names_pseudo_class(name, PseudoClass::Visited) {
        Some(PseudoClass::Visited)
    } else if names_pseudo_class(name, PseudoClass::Active) {
        Some(PseudoClass::Active)
    } else if names_pseudo_class(name, PseudoClass::Focus) {
        Some(PseudoClass::Focus)
    } else if names_pseudo_class(name, PseudoClass::Hover) {
        Some(PseudoClass::Hover)
    } else if names_pseudo_class(name, PseudoClass::Enabled) {
        Some(PseudoClass::Enabled)
    } else if names_pseudo_class(name, PseudoClass::Disabled) {
        Some(PseudoClass::Disabled)
    } else if names_pseudo_class(name, PseudoClass::Checked) {
        Some(PseudoClass::Checked)
    } else if names_pseudo_class(name, PseudoClass::Indeterminate) {
        Some(PseudoClass::Indeterminate)
    } else {
        None
    }
}

/// The serialization of a pseudo-class: `:` followed by its name.
pub open spec fn pseudo_class_css(p: PseudoClass) -> Seq<char> {
    ":"@ + pseudo_class_name(p)
}

/// `:active` or `:hover`.
pub open spec fn active_or_hover(p: PseudoClass) -> bool {
    p == PseudoClass::Active || p == PseudoClass::Hover
}

/// A pseudo-class that reflects a user action: `:active`, `:hover` or `:focus`.
pub open spec fn user_action_state(p: PseudoClass) -> bool {
    p == PseudoClass::Active || p == PseudoClass::Hover || p == PseudoClass::Focus
}

/// The error returned for a pseudo-class name that is not supported; it
/// carries the name as written.
#[derive(Clone, Debug)]
pub enum SelectorParseErrorKind {
    UnsupportedPseudoClassOrElement(String),
}

/// The parser configuration of the selector implementation.
#[derive(Clone, Copy, Debug)]
pub struct KuchikiParser;

impl KuchikiParser {
    /// `:nth-child(An+B of S)` is parsed.
    pub fn parse_nth_child_of(&self) -> (r: bool)
        ensures
            r,
    {
        true
    }

    /// `:is()` and `:where()` are parsed.
    pub fn parse_is_and_where(&self) -> (r: bool)
        ensures
            r,
    {
        true
    }

    /// `:has()` is parsed.
    pub fn parse_has(&self) -> (r: bool)
        ensures
            r,
    {
        true
    }

    /// The nesting selector `&` is parsed.
    pub fn parse_parent_selector(&self) -> (r: bool)
        ensures
            r,
    {
        true
    }

    /// Recognises the name of a non-tree-structural pseudo-class, ignoring
    /// ASCII case; any other name is an unsupported pseudo-class.
    pub fn parse_non_ts_pseudo_class(&self, name: &str) -> (r: Result<
        PseudoClass,
        SelectorParseErrorKind,
    >)
        ensures
            r is Ok <==> pseudo_class_from_name(name.spec_bytes()) is Some,
            r matches Ok(p) ==> pseudo_class_from_name(name.spec_bytes()) == Some(p),
            r matches Err(SelectorParseErrorKind::UnsupportedPseudoClassOrElement(s)) ==> s@
                == name@,
    {
        let n = name.as_bytes();
        if bytes::eq_ignore_ascii_case(n, "any-link".as_bytes()) {
            Ok(PseudoClass::AnyLink)
        } else if bytes::eq_ignore_ascii_case(n, "link".as_bytes()) {
            Ok(PseudoClass::Link)
        } else if bytes::eq_ignore_ascii_case(n, "visited".as_bytes()) {
            Ok(PseudoClass::Visited)
        } else if bytes::eq_ignore_ascii_case(n, "active".as_bytes()) {
            Ok(PseudoClass::Active)
        } else if bytes::eq_ignore_ascii_case(n, "focus".as_bytes()) {
            Ok(PseudoClass::Focus)
        } else if bytes::eq_ignore_ascii_case(n, "hover".as_bytes()) {
            Ok(PseudoClass::Hover)
        } else if bytes::eq_ignore_ascii_case(n, "enabled".as_bytes()) {
            Ok(PseudoClass::Enabled)
        } else if bytes::eq_ignore_ascii_case(n, "disabled".as_bytes()) {
            Ok(PseudoClass::Disabled)
        } else if bytes::eq_ignore_ascii_case(n, "checked".as_bytes()) {
            Ok(PseudoClass::Checked)
        } else if bytes::eq_ignore_ascii_case(n, "indeterminate".as_bytes()) {
            Ok(PseudoClass::Indeterminate)
        } else {
            Err(SelectorParseErrorKind::UnsupportedPseudoClassOrElement(name.to_owned()))
        }
    }
}

impl PseudoClass {
    /// `:active` and `:hover`.
    pub fn is_active_or_hover(&self) -> (r: bool)
        ensures
            r == active_or_hover(*self),
    {
        match self {
            PseudoClass::Active | PseudoClass::Hover => true,
            _ => false,
        }
    }

    /// The pseudo-classes that reflect a user action: `:active`, `:hover` and `:focus`.
    pub fn is_user_action_state(&self) -> (r: bool)
        ensures
            r == user_action_state(*self),
    {
        match self {
            PseudoClass::Active | PseudoClass::Hover | PseudoClass::Focus => true,
            _ => false,
        }
    }

    /// The CSS text of the pseudo-class, such as `:hover`.
    pub fn to_css(&self) -> (r: &'static str)
        ensures
            r@ == pseudo_class_css(*self),
    {
        match self {
            PseudoClass::AnyLink => {
                proof {
                    reveal_strlit(":any-link");
                    reveal_strlit(":");
                    reveal_strlit("any-link");
                }
                assert(":any-link"@ =~= ":"@ + "any-link"@);
                ":any-link"
            },
            PseudoClass::Link => {
                proof {
                    reveal_strlit(":link");
                    reveal_strlit(":");
                    reveal_strlit("link");
                }
                assert(":link"@ =~= ":"@ + "link"@);
                ":link"
            },
            PseudoClass::Visited => {
                proof {
                    reveal_strlit(":visited");
                    reveal_strlit(":");
                    reveal_strlit("visited");
                }
                assert(":visited"@ =~= ":"@ + "visited"@);
                ":visited"
            },
            PseudoClass::Active => {
                proof {
                    reveal_strlit(":active");
                    reveal_strlit(":");
                    reveal_strlit("active");
                }
                assert(":active"@ =~= ":"@ + "active"@);
                ":active"
            },
            PseudoClass::Focus => {
                proof {
                    reveal_strlit(":focus");
                    reveal_strlit(":");
                    reveal_strlit("focus");
                }
                assert(":focus"@ =~= ":"@ + "focus"@);
                ":focus"
            },
            PseudoClass::Hover => {
                proof {
                    reveal_strlit(":hover");
                    reveal_strlit(":");
                    reveal_strlit("hover");
                }
                assert(":hover"@ =~= ":"@ + "hover"@);
                ":hover"
            },
            PseudoClass::Enabled => {
                proof {
                    reveal_strlit(":enabled");
                    reveal_strlit(":");
                    reveal_strlit("enabled");
                }
                assert(":enabled"@ =~= ":"@ + "enabled"@);
                ":enabled"
            },
            PseudoClass::Disabled => {
                proof {
                    reveal_strlit(":disabled");
                    reveal_strlit(":");
                    reveal_strlit("disabled");
                }
                assert(":disabled"@ =~= ":"@ + "disabled"@);
                ":disabled"
            },
            PseudoClass::Checked => {
                proof {
                    reveal_strlit(":checked");
                    reveal_strlit(":");
                    reveal_strlit("checked");
                }
                assert(":checked"@ =~= ":"@ + "checked"@);
                ":checked"
            },
            PseudoClass::Indeterminate => {
                proof {
                    reveal_strlit(":indeterminate");
                    reveal_strlit(":");
                    reveal_strlit("indeterminate");
                }
                assert(":indeterminate"@ =~= ":"@ + "indeterminate"@);
                ":indeterminate"
            },
        }
    }
}


/// The length of the name of a pseudo-class.
spec fn name_len(p: PseudoClass) -> nat {
    match p {
        PseudoClass::AnyLink => 8,
        PseudoClass::Link => 4,
        PseudoClass::Visited => 7,
        PseudoClass::Active => 6,
        PseudoClass::Focus => 5,
        PseudoClass::Hover => 5,
        PseudoClass::Enabled => 7,
        PseudoClass::Disabled => 8,
        PseudoClass::Checked => 7,
        PseudoClass::Indeterminate => 13,
    }
}

/// The first byte of the name of a pseudo-class, a lowercase letter.
spec fn name_initial(p: PseudoClass) -> u8 {
    match p {
        PseudoClass::AnyLink => 97,
        PseudoClass::Link => 108,
        PseudoClass::Visited => 118,
        PseudoClass::Active => 97,
        PseudoClass::Focus => 102,
        PseudoClass::Hover => 104,
        PseudoClass::Enabled => 101,
        PseudoClass::Disabled => 100,
        PseudoClass::Checked => 99,
        PseudoClass::Indeterminate => 105,
    }
}

/// The names are ASCII, so their UTF-8 encoding has one byte per letter.
proof fn lemma_name_shape(p: PseudoClass)
    ensures
        encode_utf8(pseudo_class_name(p)).len() == name_len(p),
        encode_utf8(pseudo_class_name(p))[0] == name_initial(p),
        97 <= name_initial(p) <= 122,
{
    match p {
        PseudoClass::AnyLink => {
            reveal_strlit("any-link");
            assert("any-link"@ =~= seq!['a', 'n', 'y', '-', 'l', 'i', 'n', 'k']);
            is_ascii_chars_encode_utf8("any-link"@);
        },
        PseudoClass::Link => {
            reveal_strlit("link");
            assert("link"@ =~= seq!['l', 'i', 'n', 'k']);
            is_ascii_chars_encode_utf8("link"@);
        },
        PseudoClass::Visited => {
            reveal_strlit("visited");
            assert("visited"@ =~= seq!['v', 'i', 's', 'i', 't', 'e', 'd']);
            is_ascii_chars_encode_utf8("visited"@);
        },
        PseudoClass::Active => {
            reveal_strlit("active");
            assert("active"@ =~= seq!['a', 'c', 't', 'i', 'v', 'e']);
            is_ascii_chars_encode_utf8("active"@);
        },
        PseudoClass::Focus => {
            reveal_strlit("focus");
            assert("focus"@ =~= seq!['f', 'o', 'c', 'u', 's']);
            is_ascii_chars_encode_utf8("focus"@);
        },
        PseudoClass::Hover => {
            reveal_strlit("hover");
            assert("hover"@ =~= seq!['h', 'o', 'v', 'e', 'r']);
            is_ascii_chars_encode_utf8("hover"@);
        },
        PseudoClass::Enabled => {
            reveal_strlit("enabled");
            assert("enabled"@ =~= seq!['e', 'n', 'a', 'b', 'l', 'e', 'd']);
            is_ascii_chars_encode_utf8("enabled"@);
        },
        PseudoClass::Disabled => {
            reveal_strlit("disabled");
            assert("disabled"@ =~= seq!['d', 'i', 's', 'a', 'b', 'l', 'e', 'd']);
            is_ascii_chars_encode_utf8("disabled"@);
        },
        PseudoClass::Checked => {
            reveal_strlit("checked");
            assert("checked"@ =~= seq!['c', 'h', 'e', 'c', 'k', 'e', 'd']);
            is_ascii_chars_encode_utf8("checked"@);
        },
        PseudoClass::Indeterminate => {
            reveal_strlit("indeterminate");
            assert("indeterminate"@ =~= seq!['i', 'n', 'd', 'e', 't', 'e', 'r', 'm', 'i', 'n', 'a', 't', 'e']);
            is_ascii_chars_encode_utf8("indeterminate"@);
        },
    }
}

/// No two pseudo-classes have names that are equal up to ASCII case.
proof fn lemma_names_distinct(p: PseudoClass, q: PseudoClass)
    requires
        bytes::ascii_ci_eq(encode_utf8(pseudo_class_name(p)), encode_utf8(pseudo_class_name(q))),
    ensures
        p == q,
{
    lemma_name_shape(p);
    lemma_name_shape(q);
}

/// A name denotes at most one pseudo-class.
proof fn lemma_names_pseudo_class_unique(name: Seq<u8>, p: PseudoClass, q: PseudoClass)
    requires
        names_pseudo_class(name, p),
        names_pseudo_class(name, q),
    ensures
        p == q,
{
    bytes::lemma_ascii_ci_eq_equivalence(name, encode_utf8(pseudo_class_name(p)), encode_utf8(pseudo_class_name(q)));
    bytes::lemma_ascii_ci_eq_equivalence(encode_utf8(pseudo_class_name(p)), name, encode_utf8(pseudo_class_name(q)));
    lemma_names_distinct(p, q);
}

/// A name is recognised exactly when it spells the name of some pseudo-class
/// up to ASCII case, and then it gives that pseudo-class: any spelling of
/// `p`'s name, in any ASCII case, parses to `p`.
pub proof fn lemma_parse_pseudo_class_name(name: Seq<u8>, p: PseudoClass)
    requires
        names_pseudo_class(name, p),
    ensures
        pseudo_class_from_name(name) == Some(p),
{
    if let Some(q) = pseudo_class_from_name(name) {
        lemma_names_pseudo_class_unique(name, p, q);
    }
}

/// Recognising a pseudo-class name does not depend on ASCII case: names
/// that are equal up to ASCII case give the same result.
pub proof fn lemma_parse_pseudo_class_ignores_case(a: Seq<u8>, b: Seq<u8>)
    requires
        bytes::ascii_ci_eq(a, b),
    ensures
        pseudo_class_from_name(a) == pseudo_class_from_name(b),
{
    assert forall|p: PseudoClass| names_pseudo_class(a, p) == names_pseudo_class(b, p) by {
        let k = encode_utf8(pseudo_class_name(p));
        bytes::lemma_ascii_ci_eq_equivalence(a, b, k);
        bytes::lemma_ascii_ci_eq_equivalence(b, a, k);
    }
}

/// Serializing a pseudo-class gives `:` and then a name that parses back to it.
pub proof fn lemma_pseudo_class_css_roundtrip(p: PseudoClass)
    ensures
        pseudo_class_css(p)[0] == ':',
        pseudo_class_from_name(encode_utf8(pseudo_class_css(p).drop_first())) == Some(p),
{
    reveal_strlit(":");
    assert(pseudo_class_css(p).drop_first() =~= pseudo_class_name(p));
    lemma_parse_pseudo_class_name(encode_utf8(pseudo_class_name(p)), p);
}

/// `:active` and `:hover` are user-action states.
pub proof fn lemma_active_or_hover_is_user_action(p: PseudoClass)
    requires
        active_or_hover(p),
    ensures
        user_action_state(p),
{
}

} // verus!
