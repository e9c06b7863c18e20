use domain_search::models::Domain;
use domain_search::reconcile::{reconcile, set_wishlisted_domain, sort_by_tld};

fn dom(name: &str, tld: &str) -> Domain {
    Domain {
        domain: name.to_string(),
        tld: tld.to_string(),
        status: "True".to_string(),
        selected: false,
    }
}

#[test]
fn reconciliation_marks_and_sorts() {
    // Fetched x.com and x.net, with only x.net wishlisted: the result is
    // sorted by tld and only x.net comes out selected.
    let mut fetched = vec![dom("x", "net"), dom("x", "com")];
    let wishlist = vec![dom("x", "net")];
    reconcile(&mut fetched, wishlist);
    assert_eq!(fetched.len(), 2);
    assert_eq!(fetched[0].tld, "com");
    assert!(!fetched[0].selected);
    assert_eq!(fetched[1].tld, "net");
    assert!(fetched[1].selected);
}

#[test]
fn reconciliation_is_idempotent() {
    let mut fetched = vec![dom("x", "net"), dom("x", "com"), dom("y", "org")];
    let wishlist = vec![dom("x", "net"), dom("y", "org")];
    reconcile(&mut fetched, wishlist.clone());
    let once = fetched.clone();
    reconcile(&mut fetched, wishlist);
    assert_eq!(fetched, once);
}

#[test]
fn marking_matches_by_identity_not_by_full_equality() {
    let mut fetched = vec![dom("x", "com")];
    let mut entry = dom("x", "com");
    entry.status = "False".to_string();
    entry.selected = true;
    set_wishlisted_domain(&mut fetched, vec![entry]);
    assert!(fetched[0].selected);
}

#[test]
fn marking_clears_a_stale_flag() {
    // A row that arrives flagged but matches no wishlist entry comes out
    // cleared: selected holds iff the identity is wishlisted.
    let mut fetched = vec![dom("x", "com")];
    fetched[0].selected = true;
    set_wishlisted_domain(&mut fetched, vec![]);
    assert!(!fetched[0].selected);
}

#[test]
fn marking_keeps_the_flag_of_a_matching_row() {
    let mut fetched = vec![dom("x", "com")];
    fetched[0].selected = true;
    set_wishlisted_domain(&mut fetched, vec![dom("x", "com")]);
    assert!(fetched[0].selected);
}

#[test]
fn marking_leaves_unmatched_rows_alone() {
    let mut fetched = vec![dom("x", "com"), dom("x", "net")];
    set_wishlisted_domain(&mut fetched, vec![dom("y", "com")]);
    assert!(!fetched[0].selected);
    assert!(!fetched[1].selected);
}

#[test]
fn sort_orders_ascending_by_tld() {
    let mut v = vec![dom("a", "org"), dom("a", "com"), dom("a", "net"), dom("a", "ai")];
    sort_by_tld(&mut v);
    let tlds: Vec<&str> = v.iter().map(|d| d.tld.as_str()).collect();
    assert_eq!(tlds, vec!["ai", "com", "net", "org"]);
}

#[test]
fn sort_is_stable_for_equal_tlds() {
    let mut v = vec![dom("b", "com"), dom("a", "com"), dom("c", "com")];
    sort_by_tld(&mut v);
    let names: Vec<&str> = v.iter().map(|d| d.domain.as_str()).collect();
    assert_eq!(names, vec!["b", "a", "c"]);
}

#[test]
fn sort_of_empty_list_is_empty() {
    let mut v: Vec<Domain> = Vec::new();
    sort_by_tld(&mut v);
    assert!(v.is_empty());
}

#[test]
fn reconciliation_of_empty_fetch_is_empty() {
    let mut fetched: Vec<Domain> = Vec::new();
    reconcile(&mut fetched, vec![dom("x", "com")]);
    assert!(fetched.is_empty());
}
