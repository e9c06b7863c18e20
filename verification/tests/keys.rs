use domain_search::input::{dispatch, Action, Key};
use domain_search::models::{Domain, Extension};
use domain_search::session::{PersistCall, SessionStatus};
use domain_search::store::Store;
use domain_search::table::BaseTable;

#[test]
fn shared_bindings_map_as_documented() {
    assert_eq!(dispatch(Key::Char('q'), true, 's'), Action::Quit);
    assert_eq!(dispatch(Key::Esc, true, 's'), Action::Quit);
    assert_eq!(dispatch(Key::Char('j'), true, 's'), Action::MoveDown);
    assert_eq!(dispatch(Key::Down, true, 's'), Action::MoveDown);
    assert_eq!(dispatch(Key::Char('k'), true, 's'), Action::MoveUp);
    assert_eq!(dispatch(Key::Up, true, 's'), Action::MoveUp);
}

#[test]
fn toggle_key_is_per_list_configuration() {
    assert_eq!(dispatch(Key::Char('s'), true, 's'), Action::ToggleRow);
    assert_eq!(dispatch(Key::Char('w'), true, 'w'), Action::ToggleRow);
    assert_eq!(dispatch(Key::Char('a'), true, 'a'), Action::ToggleRow);
    assert_eq!(dispatch(Key::Char('w'), true, 's'), Action::Ignore);
}

#[test]
fn unrecognized_keys_are_ignored() {
    assert_eq!(dispatch(Key::Char('z'), true, 's'), Action::Ignore);
    assert_eq!(dispatch(Key::Other, true, 's'), Action::Ignore);
}

#[test]
fn releases_and_repeats_are_ignored() {
    assert_eq!(dispatch(Key::Char('q'), false, 's'), Action::Ignore);
    assert_eq!(dispatch(Key::Down, false, 's'), Action::Ignore);
}

fn key_ext(tld: &str, selected: bool) -> Extension {
    Extension { tld: tld.to_string(), name: String::new(), selected }
}

fn key_dom(name: &str, tld: &str) -> Domain {
    Domain {
        domain: name.to_string(),
        tld: tld.to_string(),
        status: "True".to_string(),
        selected: false,
    }
}

#[test]
fn quit_terminates_without_side_effects() {
    let mut store = Store::new();
    store.create_extension(key_ext("com", false)).unwrap();
    let mut table = BaseTable::new(store.find_all_extensions());
    let (st, call) = table.handle_key(&mut store, Key::Char('q'), true);
    assert_eq!(st, SessionStatus::Terminated);
    assert_eq!(call, PersistCall::Nothing);
    assert!(!store.find_all_extensions()[0].selected);
    assert_eq!(table.cursor, Some(0));
}

#[test]
fn movement_keys_only_move_the_cursor() {
    let mut store = Store::new();
    store.create_extension(key_ext("com", false)).unwrap();
    store.create_extension(key_ext("net", false)).unwrap();
    let mut table = BaseTable::new(store.find_all_extensions());
    let (st, call) = table.handle_key(&mut store, Key::Down, true);
    assert_eq!(st, SessionStatus::Running);
    assert_eq!(call, PersistCall::Nothing);
    assert_eq!(table.cursor, Some(1));
    let (st2, _) = table.handle_key(&mut store, Key::Char('k'), true);
    assert_eq!(st2, SessionStatus::Running);
    assert_eq!(table.cursor, Some(0));
}

#[test]
fn extensions_session_toggles_on_a() {
    let mut store = Store::new();
    store.create_extension(key_ext("com", false)).unwrap();
    let mut table = BaseTable::new(store.find_all_extensions());
    let (st, call) = table.handle_key(&mut store, Key::Char('a'), true);
    assert_eq!(st, SessionStatus::Running);
    assert!(matches!(call, PersistCall::UpdateExtension(_)));
    assert!(store.find_all_extensions()[0].selected);
}

#[test]
fn extensions_session_ignores_the_domain_toggle_key() {
    let mut store = Store::new();
    store.create_extension(key_ext("com", false)).unwrap();
    let mut table = BaseTable::new(store.find_all_extensions());
    let (st, call) = table.handle_key(&mut store, Key::Char('w'), true);
    assert_eq!(st, SessionStatus::Running);
    assert_eq!(call, PersistCall::Nothing);
    assert!(!store.find_all_extensions()[0].selected);
}

#[test]
fn search_session_toggles_on_w() {
    let mut store = Store::new();
    let mut table = BaseTable::new(vec![key_dom("x", "com")]);
    let (st, call) = table.handle_key(&mut store, Key::Char('w'), true);
    assert_eq!(st, SessionStatus::Running);
    assert!(matches!(call, PersistCall::AddToWishlist(_)));
    assert_eq!(store.find_wishlist().len(), 1);
}

#[test]
fn wishlist_session_toggle_stays_local() {
    let mut table = BaseTable::new(vec![key_dom("x", "com")]);
    let st = table.handle_key_local(Key::Char('w'), true);
    assert_eq!(st, SessionStatus::Running);
    assert!(table.items[0].selected);
    let st2 = table.handle_key_local(Key::Esc, true);
    assert_eq!(st2, SessionStatus::Terminated);
}

#[test]
fn ignored_keys_change_nothing_in_a_session() {
    let mut store = Store::new();
    let mut table = BaseTable::new(vec![key_dom("x", "com")]);
    let (st, call) = table.handle_key(&mut store, Key::Char('z'), true);
    assert_eq!(st, SessionStatus::Running);
    assert_eq!(call, PersistCall::Nothing);
    assert_eq!(table.cursor, Some(0));
    assert!(!table.items[0].selected);
    assert_eq!(store.find_wishlist().len(), 0);
}
