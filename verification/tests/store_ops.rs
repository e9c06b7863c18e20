use domain_search::models::{Domain, Extension};
use domain_search::session::PersistCall;
use domain_search::store::Store;
use domain_search::table::BaseTable;
use domain_search::views::{handle_extensions, handle_wishlist};

fn catalog_ext(tld: &str, name: &str, selected: bool) -> Extension {
    Extension { tld: tld.to_string(), name: name.to_string(), selected }
}

fn wl_dom(name: &str, tld: &str) -> Domain {
    Domain {
        domain: name.to_string(),
        tld: tld.to_string(),
        status: "True".to_string(),
        selected: false,
    }
}

fn seeded_store() -> Store {
    let mut s = Store::new();
    s.create_extension(catalog_ext("com", "Commercial", true)).unwrap();
    s.create_extension(catalog_ext("org", "Organization", false)).unwrap();
    s.create_extension(catalog_ext("net", "Network", true)).unwrap();
    s
}

#[test]
fn find_selected_returns_exactly_the_selected_in_catalog_order() {
    // Three catalog entries, two selected: find_selected_extensions must
    // return exactly those two, in catalog order.
    let s = seeded_store();
    let sel = s.find_selected_extensions();
    assert_eq!(sel.len(), 2);
    assert_eq!(sel[0].tld, "com");
    assert_eq!(sel[1].tld, "net");
    let all = s.find_all_extensions();
    assert_eq!(all.len(), 3);
    assert_eq!(all[1].tld, "org");
}

#[test]
fn create_extension_rejects_a_duplicate_key() {
    let mut s = seeded_store();
    assert_eq!(s.create_extension(catalog_ext("com", "Commercial", false)), None);
    assert_eq!(s.find_all_extensions().len(), 3);
    assert_eq!(s.create_extension(catalog_ext("io", "Indian Ocean", false)), Some(()));
    assert_eq!(s.find_all_extensions().len(), 4);
}

#[test]
fn update_extension_changes_only_the_matching_flag() {
    let mut s = seeded_store();
    let mut e = catalog_ext("org", "ignored name", true);
    e.name = "something else".to_string();
    assert_eq!(s.update_extension(&e), Some(()));
    let all = s.find_all_extensions();
    assert!(all[1].selected);
    // only the flag is persisted; the stored name stays
    assert_eq!(all[1].name, "Organization");
    assert!(all[0].selected);
    assert!(all[2].selected);
}

#[test]
fn update_extension_with_unknown_key_changes_nothing() {
    let mut s = seeded_store();
    let before = s.find_all_extensions();
    s.update_extension(&catalog_ext("zz", "Nowhere", true)).unwrap();
    assert_eq!(s.find_all_extensions(), before);
}

#[test]
fn add_to_wishlist_skips_a_duplicate_identity() {
    let mut s = Store::new();
    s.add_to_wishlist(&wl_dom("x", "com")).unwrap();
    let mut other = wl_dom("x", "com");
    other.status = "False".to_string();
    s.add_to_wishlist(&other).unwrap();
    assert_eq!(s.find_wishlist().len(), 1);
}

#[test]
fn remove_from_wishlist_matches_by_identity() {
    let mut s = Store::new();
    s.add_to_wishlist(&wl_dom("x", "com")).unwrap();
    s.add_to_wishlist(&wl_dom("x", "net")).unwrap();
    let mut probe = wl_dom("x", "com");
    probe.status = "whatever".to_string();
    probe.selected = true;
    s.remove_from_wishlist(&probe).unwrap();
    let left = s.find_wishlist();
    assert_eq!(left.len(), 1);
    assert_eq!(left[0].tld, "net");
}

#[test]
fn remove_of_an_absent_identity_changes_nothing() {
    let mut s = Store::new();
    s.add_to_wishlist(&wl_dom("x", "com")).unwrap();
    s.remove_from_wishlist(&wl_dom("y", "com")).unwrap();
    assert_eq!(s.find_wishlist().len(), 1);
}

#[test]
fn toggle_round_trip_restores_the_wishlist() {
    // Toggling a fresh row makes exactly one add call; toggling it again
    // makes exactly one remove call; the wishlist ends where it began.
    let mut store = Store::new();
    store.add_to_wishlist(&wl_dom("other", "org")).unwrap();
    let before = store.find_wishlist();

    let mut table = BaseTable::new(vec![wl_dom("x", "com")]);
    let call1 = table.update_row_status(&mut store);
    assert!(matches!(call1, PersistCall::AddToWishlist(_)));
    assert!(table.items[0].selected);
    assert_eq!(store.find_wishlist().len(), 2);

    let call2 = table.update_row_status(&mut store);
    assert!(matches!(call2, PersistCall::RemoveFromWishlist(_)));
    assert!(!table.items[0].selected);
    assert_eq!(store.find_wishlist(), before);
}

#[test]
fn extension_toggle_persists_exactly_one_update() {
    // One keypress, one update call, and its payload carries the same flag
    // the row holds in memory after the flip.
    let mut store = seeded_store();
    let mut table = BaseTable::new(store.find_all_extensions());
    table.next_row();
    let call = table.update_row_status(&mut store);
    match call {
        PersistCall::UpdateExtension(e) => {
            assert_eq!(e.tld, "org");
            assert!(e.selected);
            assert_eq!(e.selected, table.items[1].selected);
        }
        other => panic!("expected an update call, got {:?}", other),
    }
    assert!(store.find_all_extensions()[1].selected);
}

#[test]
fn toggle_with_no_cursor_is_a_noop() {
    let mut store = seeded_store();
    let before = store.find_all_extensions();
    let mut table: BaseTable<Extension> = BaseTable::new(Vec::new());
    let call = table.update_row_status(&mut store);
    assert_eq!(call, PersistCall::Nothing);
    assert_eq!(store.find_all_extensions(), before);
}

#[test]
fn from_parts_drops_duplicate_rows() {
    let exts = vec![
        catalog_ext("com", "Commercial", true),
        catalog_ext("com", "Duplicate", false),
        catalog_ext("net", "Network", false),
    ];
    let wl = vec![wl_dom("x", "com"), wl_dom("x", "com"), wl_dom("x", "net")];
    let s = Store::from_parts(exts, wl);
    let all = s.find_all_extensions();
    assert_eq!(all.len(), 2);
    assert_eq!(all[0].name, "Commercial");
    assert_eq!(s.find_wishlist().len(), 2);
}

#[test]
fn extensions_view_shows_the_whole_catalog() {
    let s = seeded_store();
    let rows = handle_extensions(&s);
    assert_eq!(rows, s.find_all_extensions());
}

#[test]
fn wishlist_view_hands_entries_over_unchanged() {
    let mut s = Store::new();
    s.add_to_wishlist(&wl_dom("x", "com")).unwrap();
    s.add_to_wishlist(&wl_dom("y", "net")).unwrap();
    let rows = handle_wishlist(&s);
    assert_eq!(rows, s.find_wishlist());
    assert_eq!(rows[0].domain, "x");
    assert_eq!(rows[1].domain, "y");
}

#[test]
fn formatting_sets_every_flag_without_touching_the_rest() {
    let mut rows = vec![wl_dom("x", "com"), wl_dom("y", "net")];
    domain_search::views::format_wishlisted_domain(&mut rows);
    assert!(rows.iter().all(|d| d.selected));
    assert_eq!(rows[0].domain, "x");
    assert_eq!(rows[1].tld, "net");
}
