use kuchikiki::css::{CssLocalName, CssString, KuchikiSelectors, Specificity};
use kuchikiki::selector_list::selector_list_to_css;

#[test]
fn css_string_holds_its_text() {
    let s = CssString::from("a b");
    assert_eq!(s.to_css(), "a b");
    assert_eq!(s.as_ref(), "a b");
    assert_eq!(s.deref(), &String::from("a b"));
    assert_eq!(s, CssString(String::from("a b")));
    assert_eq!(CssString::default(), CssString::from(""));
}

#[test]
fn css_local_name_holds_its_text() {
    let n = CssLocalName::from("div");
    assert_eq!(n.to_css(), "div");
    assert_eq!(n.deref(), &String::from("div"));
    assert!(CssLocalName::from("a") < CssLocalName::from("b"));
    let _ = KuchikiSelectors.clone();
}

#[test]
fn specificity_orders_by_value() {
    let low = Specificity::new(1);
    let mid = Specificity::new(1 << 10);
    let high = Specificity::new(1 << 20);
    assert!(low < mid);
    assert!(mid < high);
    assert!(high > low);
    assert!(low == Specificity::new(1));
    assert_eq!(low.partial_cmp(&mid), Some(std::cmp::Ordering::Less));
    assert_eq!(mid.partial_cmp(&mid), Some(std::cmp::Ordering::Equal));
    assert_eq!(high.cmp(&mid), std::cmp::Ordering::Greater);
    let mut v = vec![high, low, mid];
    v.sort();
    assert!(v == vec![low, mid, high]);
}

#[test]
fn selector_list_is_joined_with_commas() {
    assert_eq!(selector_list_to_css(&vec![String::from("a")]), "a");
    assert_eq!(
        selector_list_to_css(&vec![String::from("a > b"), String::from(".c"), String::from("#d")]),
        "a > b, .c, #d"
    );
}
