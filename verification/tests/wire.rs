use domain_search::models::{Domain, Extension};
use domain_search::search::{
    extension_filter_of, frame_search_response, get_extensions, get_selected_extensions,
};
use domain_search::store::Store;
use domain_search::text::{str_eq, str_le};

fn wire_ext(tld: &str, selected: bool) -> Extension {
    Extension { tld: tld.to_string(), name: String::new(), selected }
}

#[test]
fn default_filter_lists_the_six_fallback_extensions() {
    assert_eq!(get_extensions(), "[\"com\",\"net\",\"org\",\"co\",\"io\",\"ai\"]");
}

#[test]
fn selected_filter_quotes_and_joins_in_catalog_order() {
    let mut s = Store::new();
    s.create_extension(wire_ext("com", true)).unwrap();
    s.create_extension(wire_ext("org", false)).unwrap();
    s.create_extension(wire_ext("net", true)).unwrap();
    assert_eq!(get_selected_extensions(&s), "[\"com\",\"net\"]");
}

#[test]
fn selected_filter_of_an_empty_selection_is_empty_brackets() {
    let mut s = Store::new();
    s.create_extension(wire_ext("com", false)).unwrap();
    assert_eq!(get_selected_extensions(&s), "[]");
}

#[test]
fn filter_of_one_code_has_no_comma() {
    let tlds = vec!["io".to_string()];
    assert_eq!(extension_filter_of(&tlds), "[\"io\"]");
}

#[test]
fn framing_separates_back_to_back_records() {
    let raw = "{\"a\":1}{\"b\":2}{\"c\":3}";
    assert_eq!(frame_search_response(raw), "[{\"a\":1},{\"b\":2},{\"c\":3}]");
}

#[test]
fn framing_of_a_single_record_only_adds_brackets() {
    assert_eq!(frame_search_response("{\"a\":1}"), "[{\"a\":1}]");
}

#[test]
fn framing_of_an_empty_answer_is_an_empty_array() {
    assert_eq!(frame_search_response(""), "[]");
}

#[test]
fn framing_leaves_nested_braces_alone() {
    // A '}' followed by anything but '{' stays as it is.
    assert_eq!(frame_search_response("{\"a\":{}}"), "[{\"a\":{}}]");
}

#[test]
fn domain_name_joins_with_a_dot() {
    let d = Domain {
        domain: "example".to_string(),
        tld: "com".to_string(),
        status: "True".to_string(),
        selected: false,
    };
    assert_eq!(d.domain_name(), "example.com");
}

#[test]
fn availability_label_follows_the_status_signal() {
    let mut d = Domain {
        domain: "x".to_string(),
        tld: "com".to_string(),
        status: "True".to_string(),
        selected: false,
    };
    assert_eq!(d.available(), "Available");
    assert_eq!(d.is_available(), "Available");
    d.status = "False".to_string();
    assert_eq!(d.available(), "Not available");
    assert_eq!(d.is_available(), "Not available");
}

#[test]
fn string_helpers_compare_as_expected() {
    assert!(str_eq("com", "com"));
    assert!(!str_eq("com", "co"));
    assert!(str_le("co", "com"));
    assert!(str_le("com", "com"));
    assert!(str_le("com", "net"));
    assert!(!str_le("net", "com"));
}
