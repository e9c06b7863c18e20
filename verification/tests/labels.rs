use domain_search::models::{Domain, Extension, Selectable};

fn label_ext(selected: bool) -> Extension {
    Extension { tld: "com".to_string(), name: "Commercial".to_string(), selected }
}

fn label_dom(selected: bool) -> Domain {
    Domain {
        domain: "x".to_string(),
        tld: "com".to_string(),
        status: "True".to_string(),
        selected,
    }
}

#[test]
fn extension_labels_follow_the_flag() {
    assert_eq!(label_ext(true).is_selected(), "Selected");
    assert_eq!(label_ext(false).is_selected(), "Not selected");
    assert_eq!(label_ext(true).selected(), "Selected");
    assert_eq!(label_ext(false).selected(), "Not selected");
}

#[test]
fn domain_labels_follow_the_flag() {
    assert_eq!(label_dom(true).is_selected(), "Wishlisted");
    assert_eq!(label_dom(false).is_selected(), "Not wishlisted");
    assert_eq!(label_dom(true).selected(), "Wishlisted");
    assert_eq!(label_dom(false).selected(), "Not wishlisted");
}

#[test]
fn toggle_status_flips_only_the_flag() {
    let mut e = label_ext(false);
    e.toggle_status();
    assert!(e.selected);
    assert_eq!(e.tld, "com");
    assert_eq!(e.name, "Commercial");
    e.toggle_status();
    assert!(!e.selected);

    let mut d = label_dom(true);
    d.toggle_status();
    assert!(!d.selected);
    assert_eq!(d.status, "True");
}

#[test]
fn getters_expose_the_fields() {
    let e = label_ext(false);
    assert_eq!(e.tld(), "com");
    assert_eq!(e.name(), "Commercial");
    let d = label_dom(false);
    assert_eq!(d.domain(), "x");
    assert_eq!(d.tld(), "com");
}
