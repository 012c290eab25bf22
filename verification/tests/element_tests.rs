use kuchikiki::attr::{
    AttrSelectorOperation, AttrSelectorOperator, CaseSensitivity, NamespaceConstraint,
};
use kuchikiki::css::{CssLocalName, CssString};
use kuchikiki::dom::{find_attribute, Attribute, Document, ElementData, Node, NodeData, QualName};
use kuchikiki::element::ElementRef;
use kuchikiki::pseudo::PseudoClass;

const HTML: &str = "http://www.w3.org/1999/xhtml";
const SVG: &str = "http://www.w3.org/2000/svg";

fn element(ns: &str, local: &str, attrs: &[(&str, &str)]) -> NodeData {
    NodeData::Element(ElementData {
        name: QualName { prefix: None, ns: ns.to_string(), local: local.to_string() },
        attributes: attrs
            .iter()
            .map(|(n, v)| Attribute { ns: String::new(), local: n.to_string(), value: v.to_string() })
            .collect(),
    })
}

fn node(parent: Option<usize>, children: &[usize], data: NodeData) -> Node {
    Node { parent, children: children.to_vec(), data }
}

/// ```text
/// 0 document
///   9 doctype
///   1 <html>
///     2 <body>
///       3 "\n  "
///       4 <a href id=Main class="big  red\tbox" data-lang title>
///       5 <!-- c -->
///       6 <p class=""> 10 "hi"
///       7 ""
///       8 <div> 12 "" 13 <!-- -->
///       11 <svg:a href>
/// ```
fn sample() -> Document {
    Document {
        nodes: vec![
            node(None, &[9, 1], NodeData::Document),
            node(Some(0), &[2], element(HTML, "html", &[])),
            node(Some(1), &[3, 4, 5, 6, 7, 8, 11], element(HTML, "body", &[])),
            node(Some(2), &[], NodeData::Text("\n  ".to_string())),
            node(
                Some(2),
                &[],
                element(
                    HTML,
                    "a",
                    &[
                        ("href", "x"),
                        ("id", "Main"),
                        ("class", "big  red\tbox"),
                        ("data-lang", "en-US"),
                        ("title", "Hello World"),
                    ],
                ),
            ),
            node(Some(2), &[], NodeData::Comment("c".to_string())),
            node(Some(2), &[10], element(HTML, "p", &[("class", "")])),
            node(Some(2), &[], NodeData::Text(String::new())),
            node(Some(2), &[12, 13], element(HTML, "div", &[])),
            node(Some(0), &[], NodeData::Doctype("html".to_string())),
            node(Some(6), &[], NodeData::Text("hi".to_string())),
            node(Some(2), &[], element(SVG, "a", &[("href", "y")])),
            node(Some(8), &[], NodeData::Text(String::new())),
            node(Some(8), &[], NodeData::Comment(String::new())),
        ],
    }
}

fn ids(r: Option<ElementRef>) -> Option<usize> {
    r.map(|e| e.index())
}

fn with_value(op: AttrSelectorOperator, case: CaseSensitivity, v: &str) -> AttrSelectorOperation {
    AttrSelectorOperation::WithValue { operator: op, case_sensitivity: case, value: CssString::from(v) }
}

#[test]
fn sample_document_is_well_formed() {
    assert!(sample().is_well_formed());
}

#[test]
fn malformed_documents_are_detected() {
    let mut d = sample();
    d.nodes[4].parent = Some(1);
    assert!(!d.is_well_formed());

    let mut d = sample();
    d.nodes[2].children.push(99);
    assert!(!d.is_well_formed());

    let mut d = sample();
    d.nodes[2].children.push(4);
    assert!(!d.is_well_formed());

    let mut d = sample();
    d.nodes[2].children.retain(|&c| c != 8);
    assert!(!d.is_well_formed());

    let mut d = sample();
    d.nodes[10].parent = Some(50);
    assert!(!d.is_well_formed());

    let mut d = sample();
    d.nodes[10].parent = None;
    assert!(!d.is_well_formed());
}

#[test]
fn cycles_are_rejected() {
    let own_parent = Document { nodes: vec![node(Some(0), &[0], element(HTML, "p", &[]))] };
    assert!(!own_parent.is_well_formed());
    assert!(ElementRef::new(&own_parent, 0).is_none());

    let two_cycle = Document {
        nodes: vec![
            node(Some(1), &[1], element(HTML, "p", &[])),
            node(Some(0), &[0], element(HTML, "q", &[])),
        ],
    };
    assert!(!two_cycle.is_well_formed());
}

#[test]
fn parents_come_before_children() {
    let d = Document {
        nodes: vec![
            node(Some(1), &[], element(HTML, "p", &[])),
            node(None, &[0], element(HTML, "div", &[])),
        ],
    };
    assert!(!d.is_well_formed());
    let d = Document {
        nodes: vec![
            node(None, &[1], element(HTML, "div", &[])),
            node(Some(0), &[], element(HTML, "p", &[])),
        ],
    };
    assert!(d.is_well_formed());
}

#[test]
fn repeated_attribute_names_are_rejected() {
    let mut d = sample();
    if let NodeData::Element(ref mut data) = d.nodes[4].data {
        data.attributes.push(Attribute {
            ns: String::new(),
            local: "href".to_string(),
            value: "z".to_string(),
        });
    }
    assert!(!d.is_well_formed());
    let mut d = sample();
    if let NodeData::Element(ref mut data) = d.nodes[4].data {
        data.attributes.push(Attribute {
            ns: SVG.to_string(),
            local: "href".to_string(),
            value: "z".to_string(),
        });
    }
    assert!(d.is_well_formed());
    let a = ElementRef::new(&d, 4).unwrap();
    assert!(a.attr_matches(
        &NamespaceConstraint::Any,
        &CssLocalName::from("href"),
        &with_value(AttrSelectorOperator::Equal, CaseSensitivity::CaseSensitive, "z")
    ));
    assert!(!a.attr_matches(
        &NamespaceConstraint::Specific(String::new()),
        &CssLocalName::from("href"),
        &with_value(AttrSelectorOperator::Equal, CaseSensitivity::CaseSensitive, "z")
    ));
}

#[test]
fn element_refs_only_for_elements_of_well_formed_documents() {
    let d = sample();
    assert!(ElementRef::new(&d, 4).is_some());
    assert!(ElementRef::new(&d, 0).is_none());
    assert!(ElementRef::new(&d, 3).is_none());
    assert!(ElementRef::new(&d, 14).is_none());
    let mut bad = sample();
    bad.nodes[4].parent = Some(1);
    assert!(ElementRef::new(&bad, 4).is_none());
}

#[test]
fn element_ref_accessors() {
    let d = sample();
    let a = ElementRef::new(&d, 4).unwrap();
    assert_eq!(a.index(), 4);
    assert_eq!(a.data().name.local, "a");
    assert_eq!(a.as_node().parent, Some(2));
    assert_eq!(a.document().nodes.len(), d.nodes.len());
    assert!(!a.is_html_slot_element());
    assert!(!a.parent_node_is_shadow_root());
    assert!(a.containing_shadow_host().is_none());
    assert!(!a.is_pseudo_element());
    assert!(!a.is_part(&CssLocalName::from("a")));
    assert!(a.imported_part(&CssLocalName::from("a")).is_none());
}

#[test]
fn parent_elements() {
    let d = sample();
    let e = |i| ElementRef::new(&d, i).unwrap();
    assert_eq!(ids(e(4).parent_element()), Some(2));
    assert_eq!(ids(e(2).parent_element()), Some(1));
    assert_eq!(ids(e(1).parent_element()), None);
}

#[test]
fn sibling_elements_skip_other_nodes() {
    let d = sample();
    let e = |i| ElementRef::new(&d, i).unwrap();
    assert_eq!(ids(e(4).next_sibling_element()), Some(6));
    assert_eq!(ids(e(6).next_sibling_element()), Some(8));
    assert_eq!(ids(e(8).next_sibling_element()), Some(11));
    assert_eq!(ids(e(11).next_sibling_element()), None);
    assert_eq!(ids(e(11).prev_sibling_element()), Some(8));
    assert_eq!(ids(e(8).prev_sibling_element()), Some(6));
    assert_eq!(ids(e(6).prev_sibling_element()), Some(4));
    assert_eq!(ids(e(4).prev_sibling_element()), None);
    assert_eq!(ids(e(1).prev_sibling_element()), None);
    assert_eq!(ids(e(1).next_sibling_element()), None);
}

#[test]
fn next_and_previous_sibling_undo_each_other() {
    let d = sample();
    for i in [4, 6, 8, 11] {
        let e = ElementRef::new(&d, i).unwrap();
        if let Some(n) = e.next_sibling_element() {
            assert_eq!(ids(n.prev_sibling_element()), Some(i));
        }
        if let Some(p) = e.prev_sibling_element() {
            assert_eq!(ids(p.next_sibling_element()), Some(i));
        }
    }
}

#[test]
fn first_element_children() {
    let d = sample();
    let e = |i| ElementRef::new(&d, i).unwrap();
    assert_eq!(ids(e(2).first_element_child()), Some(4));
    assert_eq!(ids(e(1).first_element_child()), Some(2));
    assert_eq!(ids(e(4).first_element_child()), None);
    assert_eq!(ids(e(6).first_element_child()), None);
    let child = e(2).first_element_child().unwrap();
    assert_eq!(ids(child.parent_element()), Some(2));
}

#[test]
fn empty_elements() {
    let d = sample();
    let e = |i| ElementRef::new(&d, i).unwrap();
    assert!(e(4).is_empty());
    assert!(e(8).is_empty());
    assert!(!e(6).is_empty());
    assert!(!e(2).is_empty());
    assert!(!e(1).is_empty());
    for i in [4, 8] {
        assert!(e(i).first_element_child().is_none());
    }
}

#[test]
fn root_element() {
    let d = sample();
    let e = |i| ElementRef::new(&d, i).unwrap();
    assert!(e(1).is_root());
    assert!(e(1).parent_element().is_none());
    assert!(!e(2).is_root());
    assert!(!e(4).is_root());
}

#[test]
fn names_and_namespaces() {
    let d = sample();
    let e = |i| ElementRef::new(&d, i).unwrap();
    assert!(e(4).is_html_element_in_html_document());
    assert!(!e(11).is_html_element_in_html_document());
    assert!(e(4).has_local_name(&CssLocalName::from("a")));
    assert!(!e(4).has_local_name(&CssLocalName::from("A")));
    assert!(e(11).has_namespace(SVG));
    assert!(!e(11).has_namespace(HTML));
    assert!(!e(4).is_same_type(&e(11)));
    assert!(!e(4).is_same_type(&e(6)));
    assert!(e(4).is_same_type(&e(4)));
}

#[test]
fn same_type_compares_prefix() {
    let mut d = sample();
    d.nodes.push(node(Some(2), &[], element(SVG, "a", &[])));
    d.nodes[2].children.push(14);
    if let NodeData::Element(ref mut data) = d.nodes[14].data {
        data.name.prefix = Some("svg".to_string());
    }
    let other = sample();
    let plain = ElementRef::new(&other, 11).unwrap();
    let prefixed = ElementRef::new(&d, 14).unwrap();
    let unprefixed = ElementRef::new(&d, 11).unwrap();
    assert!(!prefixed.is_same_type(&unprefixed));
    assert!(unprefixed.is_same_type(&plain));
}

#[test]
fn links() {
    let d = sample();
    let e = |i| ElementRef::new(&d, i).unwrap();
    assert!(e(4).is_link());
    assert!(!e(11).is_link());
    assert!(!e(6).is_link());
    assert!(e(4).match_non_ts_pseudo_class(&PseudoClass::Link));
    assert!(e(4).match_non_ts_pseudo_class(&PseudoClass::AnyLink));
    assert!(!e(11).match_non_ts_pseudo_class(&PseudoClass::AnyLink));
    for p in [
        PseudoClass::Visited,
        PseudoClass::Active,
        PseudoClass::Focus,
        PseudoClass::Hover,
        PseudoClass::Enabled,
        PseudoClass::Disabled,
        PseudoClass::Checked,
        PseudoClass::Indeterminate,
    ] {
        assert!(!e(4).match_non_ts_pseudo_class(&p));
    }
}

#[test]
fn ids_compare_under_case_sensitivity() {
    let d = sample();
    let e = |i| ElementRef::new(&d, i).unwrap();
    assert!(e(4).has_id(&CssLocalName::from("Main"), CaseSensitivity::CaseSensitive));
    assert!(!e(4).has_id(&CssLocalName::from("main"), CaseSensitivity::CaseSensitive));
    assert!(e(4).has_id(&CssLocalName::from("MAIN"), CaseSensitivity::AsciiCaseInsensitive));
    assert!(!e(4).has_id(&CssLocalName::from("Mai"), CaseSensitivity::AsciiCaseInsensitive));
    assert!(!e(6).has_id(&CssLocalName::from(""), CaseSensitivity::CaseSensitive));
}

#[test]
fn classes_are_whitespace_separated() {
    let d = sample();
    let e = |i| ElementRef::new(&d, i).unwrap();
    let cs = CaseSensitivity::CaseSensitive;
    let ci = CaseSensitivity::AsciiCaseInsensitive;
    assert!(e(4).has_class(&CssLocalName::from("big"), cs));
    assert!(e(4).has_class(&CssLocalName::from("red"), cs));
    assert!(e(4).has_class(&CssLocalName::from("box"), cs));
    assert!(!e(4).has_class(&CssLocalName::from("BIG"), cs));
    assert!(e(4).has_class(&CssLocalName::from("BIG"), ci));
    assert!(!e(4).has_class(&CssLocalName::from("bi"), ci));
    assert!(!e(4).has_class(&CssLocalName::from("big  red"), cs));
    assert!(!e(4).has_class(&CssLocalName::from(""), cs));
    assert!(!e(6).has_class(&CssLocalName::from(""), cs));
    assert!(!e(2).has_class(&CssLocalName::from("big"), cs));
}

#[test]
fn attribute_presence() {
    let d = sample();
    let a = ElementRef::new(&d, 4).unwrap();
    let href = CssLocalName::from("href");
    let none = CssLocalName::from("nope");
    assert!(a.attr_matches(&NamespaceConstraint::Any, &href, &AttrSelectorOperation::Exists));
    assert!(!a.attr_matches(&NamespaceConstraint::Any, &none, &AttrSelectorOperation::Exists));
    assert!(a.attr_matches(
        &NamespaceConstraint::Specific(String::new()),
        &href,
        &AttrSelectorOperation::Exists
    ));
    assert!(!a.attr_matches(
        &NamespaceConstraint::Specific(SVG.to_string()),
        &href,
        &AttrSelectorOperation::Exists
    ));
}

#[test]
fn attribute_operators() {
    let d = sample();
    let a = ElementRef::new(&d, 4).unwrap();
    let ns = NamespaceConstraint::Specific(String::new());
    let lang = CssLocalName::from("data-lang");
    let title = CssLocalName::from("title");
    let cs = CaseSensitivity::CaseSensitive;
    let ci = CaseSensitivity::AsciiCaseInsensitive;
    let m = |n: &CssLocalName, op, case, v| a.attr_matches(&ns, n, &with_value(op, case, v));
    assert!(m(&lang, AttrSelectorOperator::Equal, cs, "en-US"));
    assert!(!m(&lang, AttrSelectorOperator::Equal, cs, "en-us"));
    assert!(m(&lang, AttrSelectorOperator::Equal, ci, "en-us"));
    assert!(m(&lang, AttrSelectorOperator::DashMatch, cs, "en"));
    assert!(m(&lang, AttrSelectorOperator::DashMatch, cs, "en-US"));
    assert!(!m(&lang, AttrSelectorOperator::DashMatch, cs, "e"));
    assert!(m(&lang, AttrSelectorOperator::Prefix, cs, "en-"));
    assert!(!m(&lang, AttrSelectorOperator::Prefix, cs, "US"));
    assert!(m(&lang, AttrSelectorOperator::Suffix, cs, "US"));
    assert!(!m(&lang, AttrSelectorOperator::Suffix, cs, "us"));
    assert!(m(&lang, AttrSelectorOperator::Suffix, ci, "us"));
    assert!(m(&lang, AttrSelectorOperator::Substring, cs, "n-U"));
    assert!(!m(&lang, AttrSelectorOperator::Substring, cs, "n-u"));
    assert!(m(&lang, AttrSelectorOperator::Substring, ci, "N-u"));
    assert!(m(&title, AttrSelectorOperator::Includes, cs, "World"));
    assert!(!m(&title, AttrSelectorOperator::Includes, cs, "Wor"));
    assert!(m(&title, AttrSelectorOperator::Includes, ci, "world"));
    assert!(a.attr_matches(&NamespaceConstraint::Any, &title, &with_value(AttrSelectorOperator::Includes, cs, "Hello")));
    assert!(!a.attr_matches(&NamespaceConstraint::Any, &title, &with_value(AttrSelectorOperator::Equal, cs, "Hello")));
}

#[test]
fn operation_eval_str_directly() {
    let cs = CaseSensitivity::CaseSensitive;
    assert!(AttrSelectorOperation::Exists.eval_str("anything"));
    assert!(with_value(AttrSelectorOperator::Equal, cs, "x").eval_str("x"));
    assert!(!with_value(AttrSelectorOperator::Equal, cs, "x").eval_str("y"));
    assert!(!with_value(AttrSelectorOperator::Prefix, cs, "abc").eval_str("ab"));
    assert!(CaseSensitivity::AsciiCaseInsensitive.eq("aB".as_bytes(), "Ab".as_bytes()));
    assert!(!CaseSensitivity::CaseSensitive.eq("aB".as_bytes(), "Ab".as_bytes()));
}

#[test]
fn first_attribute_entry_counts() {
    let data = ElementData {
        name: QualName { prefix: None, ns: HTML.to_string(), local: "x".to_string() },
        attributes: vec![
            Attribute { ns: String::new(), local: "id".to_string(), value: "one".to_string() },
            Attribute { ns: String::new(), local: "id".to_string(), value: "two".to_string() },
            Attribute { ns: SVG.to_string(), local: "id".to_string(), value: "three".to_string() },
        ],
    };
    assert_eq!(data.get("id"), Some("one"));
    assert!(data.contains("id"));
    assert!(!data.contains("class"));
    assert_eq!(data.get("class"), None);
    assert_eq!(find_attribute(&data.attributes, SVG, "id"), Some(2));
    assert_eq!(find_attribute(&data.attributes, "", "id"), Some(0));
    assert_eq!(find_attribute(&data.attributes, HTML, "id"), None);
}
