//! The laws the library promises, each proved from the public contracts:
//! cursor movement wraps around and inverts, reconciliation is idempotent,
//! and a toggle pairs with exactly one persistence call that a second
//! toggle fully reverses.

use vstd::prelude::*;
use crate::models::{Domain, Extension, Selectable};
use crate::reconcile::{
    lemma_sort_multiset, lemma_sort_of_sorted, lemma_sort_sorted, mark_one, marked,
    reconcile_spec, sort_by_tld_spec,
};
use crate::session::{domain_toggle_effect, ext_toggle_effect, PersistCall};
use crate::store::{
    add_one_spec, has_identity, lemma_add_then_remove_roundtrip, update_ext_spec,
};
use crate::table::BaseTable;

verus! {

/// The table after `k` steps down.
pub open spec fn iter_next<T>(t: BaseTable<T>, k: nat) -> BaseTable<T>
    decreases k,
{
    if k == 0 {
        t
    } else {
        iter_next(t, (k - 1) as nat).spec_next()
    }
}

/// Where the cursor stands after `k` steps down, for `k` at most one full
/// turn: it advances by `k` rows, wrapping past the end at most once.
proof fn lemma_iter_next_position<T>(t: BaseTable<T>, k: nat, i: int)
    requires
        t.wf(),
        0 <= i < t.items@.len(),
        t.cursor == Some(i as usize),
        k <= t.items@.len(),
    ensures
        iter_next(t, k).items == t.items,
        iter_next(t, k).wf(),
        iter_next(t, k).cursor == Some(
            (if i + k < t.items@.len() {
                i + k
            } else {
                i + k - t.items@.len()
            }) as usize,
        ),
    decreases k,
{
    let n = t.items@.len() as int;
    if k > 0 {
        lemma_iter_next_position(t, (k - 1) as nat, i);
        let prev = iter_next(t, (k - 1) as nat);
        assert(iter_next(t, k) == prev.spec_next());
    }
}

/// Stepping down as many times as the table has rows brings the whole
/// selection state back to where it started: the cursor wraps around the
/// list in one full turn (wrap-around closure). A cursor of `None` is left
/// out: from there the first step lands on row zero, not back on `None`.
pub proof fn lemma_move_next_cycle<T>(t: BaseTable<T>)
    requires
        t.wf(),
        t.items@.len() >= 1,
        t.cursor is Some,
    ensures
        iter_next(t, t.items@.len() as nat) == t,
{
    let n = t.items@.len() as int;
    match t.cursor {
        Some(c) => {
            lemma_iter_next_position(t, t.items@.len() as nat, c as int);
            let out = iter_next(t, t.items@.len() as nat);
            assert(out.cursor == t.cursor);
            assert(out.scroll_offset == t.scroll_offset);
        },
        None => {},
    }
}

/// One step up exactly undoes one step down, and one step down exactly
/// undoes one step up, whenever a row is selected. From a cursor of `None`
/// both steps land on row zero, so that case is left out.
pub proof fn lemma_previous_inverts_next<T>(t: BaseTable<T>)
    requires
        t.wf(),
        t.items@.len() >= 1,
        t.cursor is Some,
    ensures
        t.spec_next().spec_prev() == t,
        t.spec_prev().spec_next() == t,
{
    match t.cursor {
        Some(c) => {
            assert(t.spec_next().spec_prev().scroll_offset == t.scroll_offset);
            assert(t.spec_prev().spec_next().scroll_offset == t.scroll_offset);
        },
        None => {},
    }
}

/// On an empty table a step in either direction changes nothing: the
/// cursor stays at `None` and the scroll offset stays at zero.
pub proof fn lemma_empty_table_noop<T>(t: BaseTable<T>)
    requires
        t.wf(),
        t.items@.len() == 0,
    ensures
        t.spec_next() == t,
        t.spec_prev() == t,
{
}

/// Reconciling an already reconciled list against the same wishlist gives
/// the identical result: marking marked rows changes none of them, and
/// sorting a sorted list leaves it in place.
pub proof fn lemma_reconcile_idempotent(fetched: Seq<Domain>, w: Seq<Domain>)
    ensures
        reconcile_spec(reconcile_spec(fetched, w), w) == reconcile_spec(fetched, w),
{
    broadcast use vstd::seq_lib::group_to_multiset_ensures;

    let m = marked(fetched, w);
    let sorted = sort_by_tld_spec(m);
    lemma_sort_multiset(m);
    assert(marked(sorted, w) =~= sorted) by {
        assert forall|k: int| 0 <= k < sorted.len() implies marked(sorted, w)[k] == sorted[k] by {
            assert(sorted.contains(sorted[k]));
            assert(m.to_multiset().count(sorted[k]) > 0);
            assert(m.contains(sorted[k]));
            let idx = choose|idx: int| 0 <= idx < m.len() && m[idx] == sorted[k];
            assert(m[idx] == mark_one(fetched[idx], w));
            assert(mark_one(mark_one(fetched[idx], w), w) == mark_one(fetched[idx], w));
        }
    }
    lemma_sort_sorted(m);
    lemma_sort_of_sorted(sorted);
}

/// Toggling a fresh search row into the wishlist and then toggling it back
/// makes exactly one add call and then exactly one remove call, and leaves
/// the wishlist store exactly as it was before the first toggle.
pub proof fn lemma_toggle_round_trip(
    t0: BaseTable<Domain>,
    s0: crate::store::Store,
    t1: BaseTable<Domain>,
    s1: crate::store::Store,
    c1: PersistCall,
    t2: BaseTable<Domain>,
    s2: crate::store::Store,
    c2: PersistCall,
    i: int,
)
    requires
        t0.wf(),
        0 <= i < t0.items@.len(),
        t0.cursor == Some(i as usize),
        !t0.items@[i].selected,
        !has_identity(s0.wishlist@, t0.items@[i].spec_domain_name()),
        domain_toggle_effect(t0, s0, t1, s1, c1),
        domain_toggle_effect(t1, s1, t2, s2, c2),
    ensures
        c1 == PersistCall::AddToWishlist(t0.items@[i].with_selected(true)),
        c2 == PersistCall::RemoveFromWishlist(t0.items@[i].with_selected(false)),
        s2.wishlist@ == s0.wishlist@,
        s2.extensions@ == s0.extensions@,
        t2.items@ == t0.items@,
{
    let d = t0.items@[i];
    let up = d.toggled();
    assert(up.selected);
    assert(t1.items@[i] == up);
    assert(t1.cursor == Some(i as usize));
    let down = up.toggled();
    assert(down == d.with_selected(false));
    assert(down.spec_domain_name() == up.spec_domain_name());
    assert(s1.wishlist@ == add_one_spec(s0.wishlist@, up));
    assert(up.spec_domain_name() == d.spec_domain_name());
    lemma_add_then_remove_roundtrip(s0.wishlist@, up);
    assert(t2.items@ =~= t0.items@);
}

/// Each keypress that toggles an extension persists exactly one update
/// call, whose payload carries the very flag the row holds in memory after
/// the flip.
pub proof fn lemma_extension_toggle_persists_once(
    t0: BaseTable<Extension>,
    s0: crate::store::Store,
    t1: BaseTable<Extension>,
    s1: crate::store::Store,
    call: PersistCall,
    i: int,
)
    requires
        t0.wf(),
        0 <= i < t0.items@.len(),
        t0.cursor == Some(i as usize),
        ext_toggle_effect(t0, s0, t1, s1, call),
    ensures
        call == PersistCall::UpdateExtension(t1.items@[i]),
        t1.items@[i].selected == !t0.items@[i].selected,
        s1.extensions@ == update_ext_spec(s0.extensions@, t1.items@[i].tld@, t1.items@[i].selected),
        s1.wishlist@ == s0.wishlist@,
{
}

} // verus!
