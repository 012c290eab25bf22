use kuchikiki::bytes::{eq_ignore_ascii_case, str_equal};
use kuchikiki::pseudo::{KuchikiParser, PseudoClass, SelectorParseErrorKind};

const ALL: [(PseudoClass, &str); 10] = [
    (PseudoClass::AnyLink, "any-link"),
    (PseudoClass::Link, "link"),
    (PseudoClass::Visited, "visited"),
    (PseudoClass::Active, "active"),
    (PseudoClass::Focus, "focus"),
    (PseudoClass::Hover, "hover"),
    (PseudoClass::Enabled, "enabled"),
    (PseudoClass::Disabled, "disabled"),
    (PseudoClass::Checked, "checked"),
    (PseudoClass::Indeterminate, "indeterminate"),
];

#[test]
fn ascii_case_folding_compares_letters_only() {
    assert!(eq_ignore_ascii_case("HoVeR".as_bytes(), "hover".as_bytes()));
    assert!(!eq_ignore_ascii_case("hover".as_bytes(), "hove".as_bytes()));
    assert!(!eq_ignore_ascii_case("a-b".as_bytes(), "a_b".as_bytes()));
    assert!(str_equal("a", "a"));
    assert!(!str_equal("a", "b"));
    assert!(!str_equal("é", "É"));
}

#[test]
fn every_pseudo_class_name_parses() {
    let parser = KuchikiParser;
    for (p, name) in ALL.iter() {
        assert_eq!(parser.parse_non_ts_pseudo_class(name).unwrap(), *p);
    }
}

#[test]
fn pseudo_class_names_ignore_ascii_case() {
    let parser = KuchikiParser;
    assert_eq!(parser.parse_non_ts_pseudo_class("HOVER").unwrap(), PseudoClass::Hover);
    assert_eq!(parser.parse_non_ts_pseudo_class("Any-Link").unwrap(), PseudoClass::AnyLink);
    assert_eq!(
        parser.parse_non_ts_pseudo_class("InDeTeRmInAtE").unwrap(),
        PseudoClass::Indeterminate
    );
}

#[test]
fn unknown_pseudo_class_is_unsupported() {
    let parser = KuchikiParser;
    for name in ["first-child", "", "hovers", "hove", "any_link", "lınk"] {
        match parser.parse_non_ts_pseudo_class(name) {
            Err(SelectorParseErrorKind::UnsupportedPseudoClassOrElement(s)) => assert_eq!(s, name),
            Ok(p) => panic!("{} parsed as {:?}", name, p),
        }
    }
}

#[test]
fn parser_options_are_enabled() {
    let parser = KuchikiParser;
    assert!(parser.parse_nth_child_of());
    assert!(parser.parse_is_and_where());
    assert!(parser.parse_has());
    assert!(parser.parse_parent_selector());
}

#[test]
fn pseudo_class_css_round_trips() {
    let parser = KuchikiParser;
    for (p, name) in ALL.iter() {
        let css = p.to_css();
        assert_eq!(css, format!(":{}", name));
        assert_eq!(parser.parse_non_ts_pseudo_class(&css[1..]).unwrap(), *p);
    }
}

#[test]
fn user_action_states() {
    for (p, _) in ALL.iter() {
        let hover_or_active = matches!(p, PseudoClass::Active | PseudoClass::Hover);
        assert_eq!(p.is_active_or_hover(), hover_or_active);
        assert_eq!(
            p.is_user_action_state(),
            hover_or_active || matches!(p, PseudoClass::Focus)
        );
        if p.is_active_or_hover() {
            assert!(p.is_user_action_state());
        }
    }
}
