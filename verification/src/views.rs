//! Assembling the rows each command shows. The commands themselves render
//! through a terminal collaborator; what stands here is the part that
//! computes which rows it gets.

use vstd::prelude::*;
use crate::models::{Domain, Extension};
use crate::store::Store;

verus! {

/// Every entry with its `selected` flag set: how the wishlist view shows
/// its rows, since every entry of the wishlist is by definition wishlisted.
pub open spec fn all_selected(s: Seq<Domain>) -> Seq<Domain> {
    Seq::new(s.len(), |i: int| s[i].with_selected(true))
}

/// Set the `selected` flag on every wishlisted domain before it is shown.
pub fn format_wishlisted_domain(wishlist: &mut Vec<Domain>)
    ensures
        final(wishlist)@ == all_selected(old(wishlist)@),
{
    let n = wishlist.len();
    let mut i: usize = 0;
    while i < n
        invariant
            n == wishlist@.len(),
            n == old(wishlist)@.len(),
            i <= n,
            forall|j: int| 0 <= j < i ==> wishlist@[j] == old(wishlist)@[j].with_selected(true),
            forall|j: int| i <= j < n ==> wishlist@[j] == old(wishlist)@[j],
        decreases n - i,
    {
        let cur = wishlist[i].clone();
        wishlist.set(
            i,
            Domain { domain: cur.domain, tld: cur.tld, status: cur.status, selected: true },
        );
        i += 1;
    }
    proof {
        assert(wishlist@ =~= all_selected(old(wishlist)@));
    }
}

/// The rows of the extensions view: the whole catalog, in order.
pub fn handle_extensions(store: &Store) -> (r: Vec<Extension>)
    ensures
        r@ == store.extensions@,
{
    store.find_all_extensions()
}

/// The rows of the wishlist view: every persisted entry, handed over
/// unchanged - no reordering, filtering or flag rewriting.
pub fn handle_wishlist(store: &Store) -> (r: Vec<Domain>)
    ensures
        r@ == store.wishlist@,
{
    store.find_wishlist()
}

} // verus!
