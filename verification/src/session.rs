//! The interactive session around one table: dispatch a key event, move the
//! cursor or toggle the row under it, and pair every toggle with exactly one
//! persistence call. The surrounding program runs the actual loop: it
//! renders, reads one key event, hands it in here, replays the echoed
//! persistence call against its durable backend, and stops once the session
//! is terminated.

use vstd::prelude::*;
use crate::input::{dispatch, spec_dispatch, Action, Key};
use crate::models::{Domain, Extension, Selectable};
use crate::store::{add_one_spec, remove_id_spec, update_ext_spec, Store};
use crate::table::BaseTable;

verus! {

/// Whether the session goes on after a step.
#[derive(Clone, Copy, PartialEq, Eq, Structural, Debug)]
pub enum SessionStatus {
    Running,
    Terminated,
}

/// The one persistence call a toggle made, echoed to the caller so a durable
/// backend can replay it. A step makes at most one such call, never two.
#[derive(Clone, PartialEq, Eq, Debug)]
pub enum PersistCall {
    Nothing,
    UpdateExtension(Extension),
    AddToWishlist(Domain),
    RemoveFromWishlist(Domain),
}

/// What toggling the current row of an extensions table does: with no cursor
/// nothing happens; otherwise the row's flag flips in place and the store
/// sees exactly one update keyed by the row's tld, carrying the new flag.
pub open spec fn ext_toggle_effect(
    t0: BaseTable<Extension>,
    s0: Store,
    t1: BaseTable<Extension>,
    s1: Store,
    call: PersistCall,
) -> bool {
    match t0.cursor {
        None => t1 == t0 && s1 == s0 && call == PersistCall::Nothing,
        Some(i) => {
            let item = t0.items@[i as int].toggled();
            &&& t1.items@ == t0.items@.update(i as int, item)
            &&& t1.cursor == t0.cursor
            &&& t1.scroll_offset == t0.scroll_offset
            &&& s1.extensions@ == update_ext_spec(s0.extensions@, item.tld@, item.selected)
            &&& s1.wishlist@ == s0.wishlist@
            &&& call == PersistCall::UpdateExtension(item)
        },
    }
}

/// What toggling the current row of a search-results table does: the row's
/// flag flips in place, and the store sees exactly one wishlist call - an
/// add when the new flag is set, a removal by identity when it is cleared.
pub open spec fn domain_toggle_effect(
    t0: BaseTable<Domain>,
    s0: Store,
    t1: BaseTable<Domain>,
    s1: Store,
    call: PersistCall,
) -> bool {
    match t0.cursor {
        None => t1 == t0 && s1 == s0 && call == PersistCall::Nothing,
        Some(i) => {
            let item = t0.items@[i as int].toggled();
            &&& t1.items@ == t0.items@.update(i as int, item)
            &&& t1.cursor == t0.cursor
            &&& t1.scroll_offset == t0.scroll_offset
            &&& s1.extensions@ == s0.extensions@
            &&& if item.selected {
                s1.wishlist@ == add_one_spec(s0.wishlist@, item) && call
                    == PersistCall::AddToWishlist(item)
            } else {
                s1.wishlist@ == remove_id_spec(s0.wishlist@, item.spec_domain_name()) && call
                    == PersistCall::RemoveFromWishlist(item)
            }
        },
    }
}

/// What toggling the current row of the wishlist view does: the row's flag
/// flips in place and nothing is persisted. This view deliberately differs
/// from the search view, whose toggle does write through.
pub open spec fn local_toggle_effect(
    t0: BaseTable<Domain>,
    t1: BaseTable<Domain>,
) -> bool {
    match t0.cursor {
        None => t1 == t0,
        Some(i) => {
            &&& t1.items@ == t0.items@.update(i as int, t0.items@[i as int].toggled())
            &&& t1.cursor == t0.cursor
            &&& t1.scroll_offset == t0.scroll_offset
        },
    }
}

impl BaseTable<Extension> {
    /// Toggle the extension under the cursor and persist the new flag with
    /// exactly one update call. With no cursor this is a no-op.
    pub fn update_row_status(&mut self, store: &mut Store) -> (call: PersistCall)
        requires
            old(self).wf(),
            old(store).wf(),
        ensures
            final(self).wf(),
            final(store).wf(),
            ext_toggle_effect(*old(self), *old(store), *final(self), *final(store), call),
    {
        match self.cursor {
            Some(i) => {
                let mut item = self.items[i].clone();
                item.toggle_status();
                self.items.set(i, item.clone());
                let _ = store.update_extension(&item);
                PersistCall::UpdateExtension(item)
            },
            None => PersistCall::Nothing,
        }
    }

    /// One step of the extensions session: 'a' toggles, 'q'/Esc terminates,
    /// 'j'/'k' and the arrows move the cursor, anything else is ignored.
    pub fn handle_key(&mut self, store: &mut Store, key: Key, pressed: bool) -> (r: (
        SessionStatus,
        PersistCall,
    ))
        requires
            old(self).wf(),
            old(store).wf(),
        ensures
            final(self).wf(),
            final(store).wf(),
            ({
                let a = spec_dispatch(key, pressed, 'a');
                &&& a == Action::Quit ==> *final(self) == *old(self) && *final(store) == *old(store) && r == (SessionStatus::Terminated, PersistCall::Nothing)
                &&& a == Action::MoveDown ==> *final(self) == old(self).spec_next() && *final(store) == *old(store) && r == (SessionStatus::Running, PersistCall::Nothing)
                &&& a == Action::MoveUp ==> *final(self) == old(self).spec_prev() && *final(store)
                    == *old(store) && r == (SessionStatus::Running, PersistCall::Nothing)
                &&& a == Action::ToggleRow ==> ext_toggle_effect(
                    *old(self),
                    *old(store),
                    *final(self),
                    *final(store),
                    r.1,
                ) && r.0 == SessionStatus::Running
                &&& a == Action::Ignore ==> *final(self) == *old(self) && *final(store) == *old(store) && r == (SessionStatus::Running, PersistCall::Nothing)
            }),
    {
        let a = dispatch(key, pressed, 'a');
        match a {
            Action::Quit => (SessionStatus::Terminated, PersistCall::Nothing),
            Action::MoveDown => {
                self.next_row();
                (SessionStatus::Running, PersistCall::Nothing)
            },
            Action::MoveUp => {
                self.previous_row();
                (SessionStatus::Running, PersistCall::Nothing)
            },
            Action::ToggleRow => {
                let call = self.update_row_status(store);
                (SessionStatus::Running, call)
            },
            Action::Ignore => (SessionStatus::Running, PersistCall::Nothing),
        }
    }
}

impl BaseTable<Domain> {
    /// Toggle the domain under the cursor and write the change through to
    /// the wishlist: one add when the row became selected, one removal by
    /// identity when it ceased to be. With no cursor this is a no-op.
    pub fn update_row_status(&mut self, store: &mut Store) -> (call: PersistCall)
        requires
            old(self).wf(),
            old(store).wf(),
        ensures
            final(self).wf(),
            final(store).wf(),
            domain_toggle_effect(*old(self), *old(store), *final(self), *final(store), call),
    {
        match self.cursor {
            Some(i) => {
                let mut item = self.items[i].clone();
                item.toggle_status();
                self.items.set(i, item.clone());
                if item.selected {
                    let _ = store.add_to_wishlist(&item);
                    PersistCall::AddToWishlist(item)
                } else {
                    let _ = store.remove_from_wishlist(&item);
                    PersistCall::RemoveFromWishlist(item)
                }
            },
            None => PersistCall::Nothing,
        }
    }

    /// Toggle the domain under the cursor in memory only, persisting
    /// nothing: the wishlist view's own behaviour, kept apart from the
    /// search view's write-through toggle on purpose.
    pub fn toggle_row_local(&mut self)
        requires
            old(self).wf(),
        ensures
            final(self).wf(),
            local_toggle_effect(*old(self), *final(self)),
    {
        match self.cursor {
            Some(i) => {
                let mut item = self.items[i].clone();
                item.toggle_status();
                self.items.set(i, item);
            },
            None => {},
        }
    }

    /// One step of the search-results session: 'w' toggles and writes
    /// through to the wishlist, 'q'/Esc terminates, 'j'/'k' and the arrows
    /// move the cursor, anything else is ignored.
    pub fn handle_key(&mut self, store: &mut Store, key: Key, pressed: bool) -> (r: (
        SessionStatus,
        PersistCall,
    ))
        requires
            old(self).wf(),
            old(store).wf(),
        ensures
            final(self).wf(),
            final(store).wf(),
            ({
                let a = spec_dispatch(key, pressed, 'w');
                &&& a == Action::Quit ==> *final(self) == *old(self) && *final(store) == *old(store) && r == (SessionStatus::Terminated, PersistCall::Nothing)
                &&& a == Action::MoveDown ==> *final(self) == old(self).spec_next() && *final(store) == *old(store) && r == (SessionStatus::Running, PersistCall::Nothing)
                &&& a == Action::MoveUp ==> *final(self) == old(self).spec_prev() && *final(store)
                    == *old(store) && r == (SessionStatus::Running, PersistCall::Nothing)
                &&& a == Action::ToggleRow ==> domain_toggle_effect(
                    *old(self),
                    *old(store),
                    *final(self),
                    *final(store),
                    r.1,
                ) && r.0 == SessionStatus::Running
                &&& a == Action::Ignore ==> *final(self) == *old(self) && *final(store) == *old(store) && r == (SessionStatus::Running, PersistCall::Nothing)
            }),
    {
        let a = dispatch(key, pressed, 'w');
        match a {
            Action::Quit => (SessionStatus::Terminated, PersistCall::Nothing),
            Action::MoveDown => {
                self.next_row();
                (SessionStatus::Running, PersistCall::Nothing)
            },
            Action::MoveUp => {
                self.previous_row();
                (SessionStatus::Running, PersistCall::Nothing)
            },
            Action::ToggleRow => {
                let call = self.update_row_status(store);
                (SessionStatus::Running, call)
            },
            Action::Ignore => (SessionStatus::Running, PersistCall::Nothing),
        }
    }

    /// One step of the wishlist session: 'w' toggles the row in memory only,
    /// the rest of the bindings are the shared ones. Nothing is persisted
    /// from this view.
    pub fn handle_key_local(&mut self, key: Key, pressed: bool) -> (st: SessionStatus)
        requires
            old(self).wf(),
        ensures
            final(self).wf(),
            ({
                let a = spec_dispatch(key, pressed, 'w');
                &&& a == Action::Quit ==> *final(self) == *old(self) && st
                    == SessionStatus::Terminated
                &&& a == Action::MoveDown ==> *final(self) == old(self).spec_next() && st
                    == SessionStatus::Running
                &&& a == Action::MoveUp ==> *final(self) == old(self).spec_prev() && st
                    == SessionStatus::Running
                &&& a == Action::ToggleRow ==> local_toggle_effect(*old(self), *final(self)) && st
                    == SessionStatus::Running
                &&& a == Action::Ignore ==> *final(self) == *old(self) && st
                    == SessionStatus::Running
            }),
    {
        let a = dispatch(key, pressed, 'w');
        match a {
            Action::Quit => SessionStatus::Terminated,
            Action::MoveDown => {
                self.next_row();
                SessionStatus::Running
            },
            Action::MoveUp => {
                self.previous_row();
                SessionStatus::Running
            },
            Action::ToggleRow => {
                self.toggle_row_local();
                SessionStatus::Running
            },
            Action::Ignore => SessionStatus::Running,
        }
    }
}

} // verus!
