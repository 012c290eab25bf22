//! The questions a selector engine asks of an element, answered on the
//! document tree.

use crate::attr::{
    attr_operation_holds, case_sensitive_eq, AttrSelectorOperation, CaseSensitivity,
    NamespaceConstraint,
};
use crate::bytes;
use crate::css::CssLocalName;
use crate::dom::{
    attribute_has_name, attribute_value, is_first_attribute, Attribute, find_attribute, has_attribute, position_of, Document, ElementData, Node,
    NodeData, QualName,
};
use crate::pseudo::PseudoClass;
use vstd::prelude::*;
use vstd::string::*;
use vstd::utf8::*;

verus! {

/// The namespace URL of HTML elements.
pub open spec fn html_namespace() -> Seq<char> {
    "http://www.w3.org/1999/xhtml"@
}

/// The element data of node `i` of `doc`.
pub open spec fn element_of(doc: Document, i: int) -> ElementData {
    doc.nodes@[i].data->Element_0
}

/// An HTML element `a`, `area` or `link` with an `href` attribute.
pub open spec fn is_link_element(e: ElementData) -> bool {
    &&& e.name.ns@ == html_namespace()
    &&& (e.name.local@ == "a"@ || e.name.local@ == "area"@ || e.name.local@ == "link"@)
    &&& has_attribute(e.attributes@, ""@, "href"@)
}

/// Two qualified names are equal: prefix, namespace and local name.
pub open spec fn same_qual_name(a: QualName, b: QualName) -> bool {
    &&& match (a.prefix, b.prefix) {
        (Some(x), Some(y)) => x@ == y@,
        (None, None) => true,
        _ => false,
    }
    &&& a.ns@ == b.ns@
    &&& a.local@ == b.local@
}

/// The `id` attribute (no namespace) equals `id` under `case`.
pub open spec fn element_has_id(e: ElementData, id: Seq<char>, case: CaseSensitivity) -> bool {
    match attribute_value(e.attributes@, ""@, "id"@) {
        Some(v) => case_sensitive_eq(case, encode_utf8(id), encode_utf8(v)),
        None => false,
    }
}

/// A whitespace-separated piece of the UTF-8 bytes of `class_attr` equals
/// `name` under `case`.
pub open spec fn class_list_contains(class_attr: Seq<u8>, name: Seq<u8>, case: CaseSensitivity) -> bool {
    exists|i: int, j: int|
        #![trigger bytes::is_token(class_attr, i, j)]
        bytes::is_token(class_attr, i, j) && case_sensitive_eq(case, class_attr.subrange(i, j), name)
}

/// `name` is not empty and the `class` attribute (no namespace) lists it under `case`.
pub open spec fn element_has_class(e: ElementData, name: Seq<char>, case: CaseSensitivity) -> bool {
    &&& encode_utf8(name).len() > 0
    &&& match attribute_value(e.attributes@, ""@, "class"@) {
        Some(v) => class_list_contains(encode_utf8(v), encode_utf8(name), case),
        None => false,
    }
}

/// An attribute named `local` in a namespace that `ns` accepts satisfies
/// `operation`; with a specific namespace, only the attribute with that
/// expanded name is considered.
pub open spec fn element_attr_matches(
    e: ElementData,
    ns: NamespaceConstraint,
    local: Seq<char>,
    operation: AttrSelectorOperation,
) -> bool {
    match ns {
        NamespaceConstraint::Any => exists|i: int|
            0 <= i < e.attributes@.len() && (#[trigger] e.attributes@[i]).local@ == local
                && attr_operation_holds(operation, encode_utf8(e.attributes@[i].value@)),
        NamespaceConstraint::Specific(url) => match attribute_value(e.attributes@, url@, local) {
            Some(v) => attr_operation_holds(operation, encode_utf8(v)),
            None => false,
        },
    }
}

/// Whether element `e` matches pseudo-class `p`: `:any-link` and `:link`
/// match links, the others match nothing.
pub open spec fn element_matches_pseudo_class(e: ElementData, p: PseudoClass) -> bool {
    match p {
        PseudoClass::AnyLink | PseudoClass::Link => is_link_element(e),
        _ => false,
    }
}

/// An element of a well-formed document.
#[derive(Clone, Copy, Debug)]
pub struct ElementRef<'a> {
    document: &'a Document,
    node: usize,
}

impl<'a> ElementRef<'a> {
    #[verifier::type_invariant]
    spec fn inv(self) -> bool {
        self.document.wf() && self.document.is_element(self.node as int)
    }

    /// The document the element belongs to.
    pub closed spec fn doc(self) -> Document {
        *self.document
    }

    /// The index of the element's node in its document.
    pub closed spec fn id(self) -> usize {
        self.node
    }

    /// The element's data.
    pub open spec fn data_view(self) -> ElementData {
        element_of(self.doc(), self.id() as int)
    }

    /// Refers to node `node` of `document`, when the document is well formed
    /// and that node is an element.
    pub fn new(document: &'a Document, node: usize) -> (r: Option<Self>)
        ensures
            r is Some <==> document.wf() && document.is_element(node as int),
            r matches Some(e) ==> e.doc() == *document && e.id() == node,
    {
        if document.is_well_formed() && node < document.nodes.len() && document.node_is_element(node) {
            Some(ElementRef { document, node })
        } else {
            None
        }
    }

    /// The element's document, well formed, in which its node is an element.
    pub fn document(&self) -> (r: &'a Document)
        ensures
            *r == self.doc(),
            r.wf(),
            r.is_element(self.id() as int),
    {
        proof {
            use_type_invariant(self);
        }
        self.document
    }

    /// The index of the element's node.
    pub fn index(&self) -> (r: usize)
        ensures
            r == self.id(),
    {
        self.node
    }

    /// The element's node.
    pub fn as_node(&self) -> (r: &'a Node)
        ensures
            *r == self.doc().nodes@[self.id() as int],
    {
        proof {
            use_type_invariant(self);
        }
        &self.document.nodes[self.node]
    }

    /// The element's name and attributes.
    pub fn data(&self) -> (r: &'a ElementData)
        ensures
            *r == self.data_view(),
    {
        proof {
            use_type_invariant(self);
        }
        match &self.document.nodes[self.node].data {
            NodeData::Element(e) => e,
            _ => vstd::pervasive::unreached(),
        }
    }
}


/// `r` refers to node `node` of `doc`, or is `None` when `node` is.
pub open spec fn refers_to<'a>(r: Option<ElementRef<'a>>, doc: Document, node: Option<usize>) -> bool {
    match r {
        Some(e) => e.doc() == doc && node == Some(e.id()),
        None => node is None,
    }
}

impl<'a> ElementRef<'a> {
    /// Elements are never `<slot>` elements here.
    pub fn is_html_slot_element(&self) -> (r: bool)
        ensures
            !r,
    {
        false
    }

    /// There are no shadow roots.
    pub fn parent_node_is_shadow_root(&self) -> (r: bool)
        ensures
            !r,
    {
        false
    }

    /// There are no shadow hosts.
    pub fn containing_shadow_host(&self) -> (r: Option<Self>)
        ensures
            r is None,
    {
        None
    }

    /// Elements are never pseudo-elements.
    pub fn is_pseudo_element(&self) -> (r: bool)
        ensures
            !r,
    {
        false
    }

    /// No element is a shadow part.
    pub fn is_part(&self, _name: &CssLocalName) -> (r: bool)
        ensures
            !r,
    {
        false
    }

    /// No element exports parts.
    pub fn imported_part(&self, _name: &CssLocalName) -> (r: Option<CssLocalName>)
        ensures
            r is None,
    {
        None
    }

    /// The parent, when it is an element.
    pub fn parent_element(&self) -> (r: Option<Self>)
        ensures
            refers_to(r, self.doc(), self.doc().parent_element(self.id() as int)),
    {
        proof {
            use_type_invariant(self);
        }
        let doc = self.document;
        match doc.nodes[self.node].parent {
            Some(p) => {
                if doc.node_is_element(p) {
                    Some(ElementRef { document: doc, node: p })
                } else {
                    None
                }
            },
            None => None,
        }
    }

    /// The nearest preceding sibling that is an element.
    pub fn prev_sibling_element(&self) -> (r: Option<Self>)
        ensures
            refers_to(r, self.doc(), self.doc().prev_sibling_element(self.id() as int)),
    {
        proof {
            use_type_invariant(self);
        }
        let doc = self.document;
        match doc.nodes[self.node].parent {
            Some(p) => {
                let siblings = &doc.nodes[p].children;
                let k = position_of(siblings, self.node);
                match doc.find_last_element_before(siblings, k) {
                    Some(q) => Some(ElementRef { document: doc, node: q }),
                    None => None,
                }
            },
            None => None,
        }
    }

    /// The nearest following sibling that is an element.
    pub fn next_sibling_element(&self) -> (r: Option<Self>)
        ensures
            refers_to(r, self.doc(), self.doc().next_sibling_element(self.id() as int)),
    {
        proof {
            use_type_invariant(self);
        }
        let doc = self.document;
        match doc.nodes[self.node].parent {
            Some(p) => {
                let siblings = &doc.nodes[p].children;
                let n = siblings.len();
                let k = position_of(siblings, self.node);
                match doc.find_first_element_from(siblings, k + 1) {
                    Some(q) => Some(ElementRef { document: doc, node: q }),
                    None => None,
                }
            },
            None => None,
        }
    }

    /// The first child that is an element.
    pub fn first_element_child(&self) -> (r: Option<Self>)
        ensures
            refers_to(r, self.doc(), self.doc().first_element_child(self.id() as int)),
    {
        proof {
            use_type_invariant(self);
        }
        let doc = self.document;
        match doc.find_first_element_from(&doc.nodes[self.node].children, 0) {
            Some(q) => Some(ElementRef { document: doc, node: q }),
            None => None,
        }
    }

    /// `:empty`: no child is an element or a non-empty text.
    pub fn is_empty(&self) -> (r: bool)
        ensures
            r == self.doc().is_empty(self.id() as int),
    {
        proof {
            use_type_invariant(self);
        }
        let doc = self.document;
        let children = &doc.nodes[self.node].children;
        let mut k: usize = 0;
        while k < children.len()
            invariant
                doc.wf(),
                self.node < doc.nodes@.len(),
                children == &doc.nodes@[self.node as int].children,
                *doc == self.doc(),
                self.node == self.id(),
                k <= children@.len(),
                forall|j: int| 0 <= j < k ==> !doc.is_content(#[trigger] children@[j] as int),
            decreases children@.len() - k,
        {
            let c = children[k];
            assert(c == doc.children_of(self.node as int)[k as int]);
            match &doc.nodes[c].data {
                NodeData::Element(_) => {
                    assert(doc.is_content(c as int));
                    return false;
                },
                NodeData::Text(t) => {
                    if !t.as_str().is_empty() {
                        assert(doc.is_content(c as int));
                        return false;
                    }
                },
                _ => {},
            }
            k = k + 1;
        }
        true
    }

    /// `:root`: the parent is the document node.
    pub fn is_root(&self) -> (r: bool)
        ensures
            r == self.doc().is_root(self.id() as int),
    {
        proof {
            use_type_invariant(self);
        }
        let doc = self.document;
        match doc.nodes[self.node].parent {
            None => false,
            Some(p) => match doc.nodes[p].data {
                NodeData::Document => true,
                _ => false,
            },
        }
    }

    /// The element is in the HTML namespace.
    pub fn is_html_element_in_html_document(&self) -> (r: bool)
        ensures
            r == (self.data_view().name.ns@ == html_namespace()),
    {
        bytes::str_equal(self.data().name.ns.as_str(), "http://www.w3.org/1999/xhtml")
    }

    /// The element's local name is `name`.
    pub fn has_local_name(&self, name: &CssLocalName) -> (r: bool)
        ensures
            r == (self.data_view().name.local@ == name.0@),
    {
        bytes::str_equal(self.data().name.local.as_str(), name.0.as_str())
    }

    /// The element's namespace is `namespace`.
    pub fn has_namespace(&self, namespace: &str) -> (r: bool)
        ensures
            r == (self.data_view().name.ns@ == namespace@),
    {
        bytes::str_equal(self.data().name.ns.as_str(), namespace)
    }

    /// The two elements have the same qualified name.
    pub fn is_same_type(&self, other: &Self) -> (r: bool)
        ensures
            r == same_qual_name(self.data_view().name, other.data_view().name),
    {
        let a = &self.data().name;
        let b = &other.data().name;
        let same_prefix = match (&a.prefix, &b.prefix) {
            (Some(x), Some(y)) => bytes::str_equal(x.as_str(), y.as_str()),
            (None, None) => true,
            _ => false,
        };
        same_prefix && bytes::str_equal(a.ns.as_str(), b.ns.as_str()) && bytes::str_equal(
            a.local.as_str(),
            b.local.as_str(),
        )
    }

    /// The element is an HTML `a`, `area` or `link` with an `href` attribute.
    pub fn is_link(&self) -> (r: bool)
        ensures
            r == is_link_element(self.data_view()),
    {
        let e = self.data();
        bytes::str_equal(e.name.ns.as_str(), "http://www.w3.org/1999/xhtml") && (bytes::str_equal(
            e.name.local.as_str(),
            "a",
        ) || bytes::str_equal(e.name.local.as_str(), "area") || bytes::str_equal(
            e.name.local.as_str(),
            "link",
        )) && find_attribute(&e.attributes, "", "href").is_some()
    }

    /// The `id` attribute equals `id` under `case_sensitivity`.
    pub fn has_id(&self, id: &CssLocalName, case_sensitivity: CaseSensitivity) -> (r: bool)
        ensures
            r == element_has_id(self.data_view(), id.0@, case_sensitivity),
    {
        match self.data().get("id") {
            Some(id_attr) => case_sensitivity.eq(id.0.as_str().as_bytes(), id_attr.as_bytes()),
            None => false,
        }
    }
}


/// A piece of a split ends at its first whitespace, so the piece that ends
/// at `j` starts right after the last whitespace before `j`.
proof fn lemma_token_start(s: Seq<u8>, i: int, j: int, start: int)
    requires
        bytes::is_token(s, i, j),
        0 <= start <= j,
        start == 0 || bytes::is_selector_whitespace(s[start - 1]),
        forall|k: int| start <= k < j ==> !bytes::is_selector_whitespace(#[trigger] s[k]),
    ensures
        i == start,
{
    if i < start {
        assert(!bytes::is_selector_whitespace(s[start - 1]));
    } else if i > start {
        assert(!bytes::is_selector_whitespace(s[i - 1]));
    }
}

/// Whether a whitespace-separated piece of `class_attr` equals `name` under `case`.
fn class_list_contains_bytes(class_attr: &[u8], name: &[u8], case: CaseSensitivity) -> (r: bool)
    ensures
        r == class_list_contains(class_attr@, name@, case),
{
    let s = class_attr;
    let len = s.len();
    let mut start: usize = 0;
    let mut j: usize = 0;
    while j < len
        invariant
            s == class_attr,
            len == s@.len(),
            start <= j <= len,
            start == 0 || bytes::is_selector_whitespace(s@[start - 1]),
            forall|k: int| start <= k < j ==> !bytes::is_selector_whitespace(#[trigger] s@[k]),
            forall|i0: int, j0: int|
                #![trigger bytes::is_token(s@, i0, j0)]
                bytes::is_token(s@, i0, j0) && j0 < j ==> !case_sensitive_eq(
                    case,
                    s@.subrange(i0, j0),
                    name@,
                ),
        decreases len - j,
    {
        if bytes::is_whitespace_byte(s[j]) {
            assert(bytes::is_token(s@, start as int, j as int));
            let piece = &s[start..j];
            if case.eq(piece, name) {
                assert(piece@ =~= s@.subrange(start as int, j as int));
                return true;
            }
            proof {
                assert forall|i0: int, j0: int|
                    bytes::is_token(s@, i0, j0) && j0 < j + 1 implies !case_sensitive_eq(
                    case,
                    s@.subrange(i0, j0),
                    name@,
                ) by {
                    if j0 == j {
                        lemma_token_start(s@, i0, j0, start as int);
                    }
                }
            }
            start = j + 1;
        }
        j = j + 1;
    }
    assert(bytes::is_token(s@, start as int, len as int));
    if case.eq(&s[start..len], name) {
        return true;
    }
    proof {
        assert forall|i0: int, j0: int| bytes::is_token(s@, i0, j0) implies !case_sensitive_eq(
            case,
            s@.subrange(i0, j0),
            name@,
        ) by {
            if j0 == len {
                lemma_token_start(s@, i0, j0, start as int);
            }
        }
    }
    false
}

impl<'a> ElementRef<'a> {
    /// `name` is not empty and is one of the whitespace-separated classes
    /// of the `class` attribute, compared under `case_sensitivity`.
    pub fn has_class(&self, name: &CssLocalName, case_sensitivity: CaseSensitivity) -> (r: bool)
        ensures
            r == element_has_class(self.data_view(), name.0@, case_sensitivity),
    {
        let name = name.0.as_str().as_bytes();
        if name.len() == 0 {
            return false;
        }
        match self.data().get("class") {
            Some(class_attr) => class_list_contains_bytes(class_attr.as_bytes(), name, case_sensitivity),
            None => false,
        }
    }

    /// An attribute named `local_name`, in a namespace that `ns` accepts,
    /// satisfies `operation`.
    pub fn attr_matches(
        &self,
        ns: &NamespaceConstraint,
        local_name: &CssLocalName,
        operation: &AttrSelectorOperation,
    ) -> (r: bool)
        ensures
            r == element_attr_matches(self.data_view(), *ns, local_name.0@, *operation),
    {
        let attrs = &self.data().attributes;
        match ns {
            NamespaceConstraint::Any => {
                let mut i: usize = 0;
                while i < attrs.len()
                    invariant
                        i <= attrs@.len(),
                        attrs@ == self.data_view().attributes@,
                        *ns is Any,
                        forall|k: int|
                            0 <= k < i ==> !((#[trigger] attrs@[k]).local@ == local_name.0@
                                && attr_operation_holds(*operation, encode_utf8(attrs@[k].value@))),
                    decreases attrs@.len() - i,
                {
                    let a = &attrs[i];
                    if bytes::str_equal(a.local.as_str(), local_name.0.as_str()) && operation.eval_str(
                        a.value.as_str(),
                    ) {
                        return true;
                    }
                    i = i + 1;
                }
                false
            },
            NamespaceConstraint::Specific(url) => {
                match find_attribute(attrs, url.as_str(), local_name.0.as_str()) {
                    Some(i) => operation.eval_str(attrs[i].value.as_str()),
                    None => false,
                }
            },
        }
    }

    /// Matches a pseudo-class: `:any-link` and `:link` match links (HTML
    /// `a`, `area` and `link` elements with an `href`), the others never match.
    pub fn match_non_ts_pseudo_class(&self, pseudo: &PseudoClass) -> (r: bool)
        ensures
            r == element_matches_pseudo_class(self.data_view(), *pseudo),
    {
        match pseudo {
            PseudoClass::Active | PseudoClass::Focus | PseudoClass::Hover | PseudoClass::Enabled
            | PseudoClass::Disabled | PseudoClass::Checked | PseudoClass::Indeterminate
            | PseudoClass::Visited => false,
            PseudoClass::AnyLink | PseudoClass::Link => {
                let e = self.data();
                bytes::str_equal(e.name.ns.as_str(), "http://www.w3.org/1999/xhtml")
                    && (bytes::str_equal(e.name.local.as_str(), "a") || bytes::str_equal(
                    e.name.local.as_str(),
                    "area",
                ) || bytes::str_equal(e.name.local.as_str(), "link")) && e.contains("href")
            },
        }
    }
}


/// If some attribute has an expanded name, a first one has it.
pub proof fn lemma_first_attribute_exists(attrs: Seq<Attribute>, ns: Seq<char>, local: Seq<char>, i: int)
    requires
        0 <= i < attrs.len(),
        attribute_has_name(attrs[i], ns, local),
    ensures
        attribute_value(attrs, ns, local) is Some,
    decreases i,
{
    if exists|j: int| 0 <= j < i && attribute_has_name(#[trigger] attrs[j], ns, local) {
        let j = choose|j: int| 0 <= j < i && attribute_has_name(#[trigger] attrs[j], ns, local);
        lemma_first_attribute_exists(attrs, ns, local, j);
    } else {
        assert(is_first_attribute(attrs, ns, local, i));
    }
}

/// An attribute has a value exactly when some entry has its name.
pub proof fn lemma_attribute_value_iff_has(attrs: Seq<Attribute>, ns: Seq<char>, local: Seq<char>)
    ensures
        attribute_value(attrs, ns, local) is Some <==> has_attribute(attrs, ns, local),
{
    if has_attribute(attrs, ns, local) {
        let i = choose|i: int| 0 <= i < attrs.len() && attribute_has_name(#[trigger] attrs[i], ns, local);
        lemma_first_attribute_exists(attrs, ns, local, i);
    }
    if attribute_value(attrs, ns, local) is Some {
        let i = choose|i: int| is_first_attribute(attrs, ns, local, i);
        assert(attribute_has_name(attrs[i], ns, local));
    }
}

/// `[attr]` with a namespace matches exactly when the element has that attribute.
pub proof fn lemma_exists_matches_present_attribute(e: ElementData, url: String, local: Seq<char>)
    ensures
        element_attr_matches(e, NamespaceConstraint::Specific(url), local, AttrSelectorOperation::Exists)
            == has_attribute(e.attributes@, url@, local),
{
    lemma_attribute_value_iff_has(e.attributes@, url@, local);
}

/// `:link` and `:any-link` match the same elements: the links.
pub proof fn lemma_link_pseudo_classes_match_links(e: ElementData)
    ensures
        element_matches_pseudo_class(e, PseudoClass::Link) == is_link_element(e),
        element_matches_pseudo_class(e, PseudoClass::AnyLink) == is_link_element(e),
{
}

/// A case-sensitive match is also an ASCII case-insensitive match.
pub proof fn lemma_case_sensitive_implies_insensitive(a: Seq<u8>, b: Seq<u8>)
    requires
        case_sensitive_eq(CaseSensitivity::CaseSensitive, a, b),
    ensures
        case_sensitive_eq(CaseSensitivity::AsciiCaseInsensitive, a, b),
{
}

/// An element that has a class case-sensitively has it ASCII
/// case-insensitively too, and likewise for its id.
pub proof fn lemma_class_and_id_case_insensitive_weaker(e: ElementData, name: Seq<char>)
    ensures
        element_has_class(e, name, CaseSensitivity::CaseSensitive) ==> element_has_class(
            e,
            name,
            CaseSensitivity::AsciiCaseInsensitive,
        ),
        element_has_id(e, name, CaseSensitivity::CaseSensitive) ==> element_has_id(
            e,
            name,
            CaseSensitivity::AsciiCaseInsensitive,
        ),
{
    if element_has_class(e, name, CaseSensitivity::CaseSensitive) {
        let v = attribute_value(e.attributes@, ""@, "class"@)->0;
        let s = encode_utf8(v);
        let n = encode_utf8(name);
        let (i, j) = choose|i: int, j: int|
            #![trigger bytes::is_token(s, i, j)]
            bytes::is_token(s, i, j) && case_sensitive_eq(CaseSensitivity::CaseSensitive, s.subrange(i, j), n);
        assert(bytes::is_token(s, i, j) && case_sensitive_eq(CaseSensitivity::AsciiCaseInsensitive, s.subrange(i, j), n));
    }
}

/// Matching a class ASCII case-insensitively does not depend on the case
/// of the class name.
pub proof fn lemma_has_class_ignores_name_case(e: ElementData, a: Seq<char>, b: Seq<char>)
    requires
        bytes::ascii_ci_eq(encode_utf8(a), encode_utf8(b)),
    ensures
        element_has_class(e, a, CaseSensitivity::AsciiCaseInsensitive) == element_has_class(
            e,
            b,
            CaseSensitivity::AsciiCaseInsensitive,
        ),
{
    let na = encode_utf8(a);
    let nb = encode_utf8(b);
    if let Some(v) = attribute_value(e.attributes@, ""@, "class"@) {
        let s = encode_utf8(v);
        assert forall|i: int, j: int| #![trigger bytes::is_token(s, i, j)] bytes::is_token(s, i, j) implies
            bytes::ascii_ci_eq(s.subrange(i, j), na) == bytes::ascii_ci_eq(s.subrange(i, j), nb) by {
            bytes::lemma_ascii_ci_eq_equivalence(s.subrange(i, j), na, nb);
            bytes::lemma_ascii_ci_eq_equivalence(s.subrange(i, j), nb, na);
            bytes::lemma_ascii_ci_eq_equivalence(na, nb, na);
        }
        if class_list_contains(s, na, CaseSensitivity::AsciiCaseInsensitive) {
            let (i, j) = choose|i: int, j: int|
                #![trigger bytes::is_token(s, i, j)]
                bytes::is_token(s, i, j) && case_sensitive_eq(CaseSensitivity::AsciiCaseInsensitive, s.subrange(i, j), na);
            assert(bytes::is_token(s, i, j));
        }
        if class_list_contains(s, nb, CaseSensitivity::AsciiCaseInsensitive) {
            let (i, j) = choose|i: int, j: int|
                #![trigger bytes::is_token(s, i, j)]
                bytes::is_token(s, i, j) && case_sensitive_eq(CaseSensitivity::AsciiCaseInsensitive, s.subrange(i, j), nb);
            assert(bytes::is_token(s, i, j));
        }
    }
}


/// With no expanded name given twice, every attribute is the one its
/// name looks up.
pub proof fn lemma_unique_attribute_lookup(attrs: Seq<Attribute>, i: int)
    requires
        crate::dom::attributes_unique(attrs),
        0 <= i < attrs.len(),
    ensures
        attribute_value(attrs, attrs[i].ns@, attrs[i].local@) == Some(attrs[i].value@),
{
    let ns = attrs[i].ns@;
    let local = attrs[i].local@;
    assert forall|j: int| 0 <= j < i implies !attribute_has_name(#[trigger] attrs[j], ns, local) by {
        assert(!attribute_has_name(attrs[j], attrs[i].ns@, attrs[i].local@));
    }
    assert(is_first_attribute(attrs, ns, local, i));
    let c = choose|c: int| is_first_attribute(attrs, ns, local, c);
    if c > i {
        assert(!attribute_has_name(attrs[i], ns, local));
    } else if c < i {
        assert(!attribute_has_name(attrs[c], attrs[i].ns@, attrs[i].local@));
    }
}


/// A byte that CSS Selectors Level 3 counts as whitespace: space, tab, line
/// feed, carriage return or form feed.
pub open spec fn is_css_space(b: u8) -> bool {
    b == 0x20 || b == 0x09 || b == 0x0A || b == 0x0D || b == 0x0C
}

/// `#id`, case-sensitively, matches exactly when the element's `id`
/// attribute (no namespace) is the same string as `id`: a longer or shorter
/// id, or one that differs in any character, does not match.
pub proof fn lemma_has_id_case_sensitive_is_equality(e: ElementData, id: Seq<char>)
    ensures
        element_has_id(e, id, CaseSensitivity::CaseSensitive) == (attribute_value(
            e.attributes@,
            ""@,
            "id"@,
        ) == Some(id)),
{
    if let Some(v) = attribute_value(e.attributes@, ""@, "id"@) {
        bytes::lemma_encode_utf8_injective(id, v);
    }
}

/// `#id`, ASCII case-insensitively, matches only an `id` attribute of the
/// same byte length that agrees with `id` byte for byte up to ASCII case;
/// an element without an `id` attribute never matches.
pub proof fn lemma_has_id_case_insensitive(e: ElementData, id: Seq<char>)
    ensures
        element_has_id(e, id, CaseSensitivity::AsciiCaseInsensitive) == (match attribute_value(
            e.attributes@,
            ""@,
            "id"@,
        ) {
            Some(v) => encode_utf8(id).len() == encode_utf8(v).len() && forall|k: int|
                0 <= k < encode_utf8(id).len() ==> bytes::ascii_lower(#[trigger] encode_utf8(id)[k])
                    == bytes::ascii_lower(encode_utf8(v)[k]),
            None => false,
        }),
{
}

/// The links are exactly the HTML elements `a`, `area` and `link` that have
/// an `href` attribute in no namespace; these, and only these, match
/// `:link` and `:any-link`.
pub proof fn lemma_links_are_html_a_area_link_with_href(e: ElementData)
    ensures
        is_link_element(e) == (e.name.ns@ == "http://www.w3.org/1999/xhtml"@ && (e.name.local@
            == "a"@ || e.name.local@ == "area"@ || e.name.local@ == "link"@) && exists|i: int|
            0 <= i < e.attributes@.len() && (#[trigger] e.attributes@[i]).ns@ == ""@
                && e.attributes@[i].local@ == "href"@),
        element_matches_pseudo_class(e, PseudoClass::Link) == is_link_element(e),
        element_matches_pseudo_class(e, PseudoClass::AnyLink) == is_link_element(e),
{
}

/// An HTML `link` element with an `href` is a link, and matches `:link` and `:any-link`.
pub proof fn lemma_html_link_element_is_link(e: ElementData, i: int)
    requires
        e.name.ns@ == "http://www.w3.org/1999/xhtml"@,
        e.name.local@ == "link"@,
        0 <= i < e.attributes@.len(),
        e.attributes@[i].ns@ == ""@,
        e.attributes@[i].local@ == "href"@,
    ensures
        is_link_element(e),
        element_matches_pseudo_class(e, PseudoClass::Link),
        element_matches_pseudo_class(e, PseudoClass::AnyLink),
{
    assert(attribute_has_name(e.attributes@[i], ""@, "href"@));
}

/// In a class attribute `x w y`, where `w` is one whitespace byte (space,
/// tab, line feed, carriage return or form feed) and neither `x` nor `y`
/// holds whitespace, both `x` and `y` are classes of the attribute.
pub proof fn lemma_whitespace_separates_classes(
    x: Seq<u8>,
    w: u8,
    y: Seq<u8>,
    case: CaseSensitivity,
)
    requires
        is_css_space(w),
        forall|k: int| 0 <= k < x.len() ==> !is_css_space(#[trigger] x[k]),
        forall|k: int| 0 <= k < y.len() ==> !is_css_space(#[trigger] y[k]),
    ensures
        class_list_contains(x + seq![w] + y, x, CaseSensitivity::CaseSensitive),
        class_list_contains(x + seq![w] + y, y, CaseSensitivity::CaseSensitive),
{
    let s = x + seq![w] + y;
    let n = x.len() as int;
    assert(s.subrange(0, n) =~= x);
    assert(s.subrange(n + 1, s.len() as int) =~= y);
    assert forall|k: int| 0 <= k < n implies !bytes::is_selector_whitespace(#[trigger] s[k]) by {
        assert(s[k] == x[k]);
    }
    assert forall|k: int| n + 1 <= k < s.len() implies !bytes::is_selector_whitespace(#[trigger] s[k]) by {
        assert(s[k] == y[k - n - 1]);
    }
    assert(bytes::is_token(s, 0, n));
    assert(bytes::is_token(s, n + 1, s.len() as int));
}

/// A class attribute without whitespace has exactly one class: itself.
/// Case-sensitively, it lists `name` exactly when it is `name`.
pub proof fn lemma_single_class(s: Seq<u8>, name: Seq<u8>)
    requires
        forall|k: int| 0 <= k < s.len() ==> !is_css_space(#[trigger] s[k]),
    ensures
        class_list_contains(s, name, CaseSensitivity::CaseSensitive) == (s == name),
{
    assert(s.subrange(0, s.len() as int) =~= s);
    assert(bytes::is_token(s, 0, s.len() as int));
    if class_list_contains(s, name, CaseSensitivity::CaseSensitive) {
        let (i, j) = choose|i: int, j: int|
            #![trigger bytes::is_token(s, i, j)]
            bytes::is_token(s, i, j) && case_sensitive_eq(CaseSensitivity::CaseSensitive, s.subrange(i, j), name);
        if i > 0 {
            assert(!is_css_space(s[i - 1]));
        }
        if j < s.len() {
            assert(!is_css_space(s[j]));
        }
    }
}

/// An element whose `class` attribute (no namespace) reads `x w y`, with
/// `w` one whitespace byte and no whitespace in `x` or `y`, has both
/// classes `x` and `y`, case-sensitively.
pub proof fn lemma_element_classes_split_on_whitespace(
    e: ElementData,
    x: Seq<char>,
    w: u8,
    y: Seq<char>,
)
    requires
        attribute_value(e.attributes@, ""@, "class"@) matches Some(v) && encode_utf8(v)
            == encode_utf8(x) + seq![w] + encode_utf8(y),
        is_css_space(w),
        encode_utf8(x).len() > 0,
        encode_utf8(y).len() > 0,
        forall|k: int| 0 <= k < encode_utf8(x).len() ==> !is_css_space(#[trigger] encode_utf8(x)[k]),
        forall|k: int| 0 <= k < encode_utf8(y).len() ==> !is_css_space(#[trigger] encode_utf8(y)[k]),
    ensures
        element_has_class(e, x, CaseSensitivity::CaseSensitive),
        element_has_class(e, y, CaseSensitivity::CaseSensitive),
{
    lemma_whitespace_separates_classes(encode_utf8(x), w, encode_utf8(y), CaseSensitivity::CaseSensitive);
}

} // verus!
