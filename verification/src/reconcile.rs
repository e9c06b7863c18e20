//! Domain reconciliation: mark freshly fetched domains that are already in
//! the wishlist, and sort results by extension so repeated renders of the
//! same data look the same. Pure data transformation, no persistence.

use vstd::prelude::*;
use crate::models::Domain;
use crate::store::has_identity;
use crate::text::{lemma_lex_le_total, lemma_lex_le_trans, lex_le, str_eq, str_le};

verus! {

/// `d` with its flag set exactly when some wishlist entry shares its
/// identity: a row that matches nothing comes out cleared, whatever flag it
/// arrived with.
pub open spec fn mark_one(d: Domain, w: Seq<Domain>) -> Domain {
    d.with_selected(has_identity(w, d.spec_domain_name()))
}

/// Every fetched domain marked against the wishlist, in place.
pub open spec fn marked(s: Seq<Domain>, w: Seq<Domain>) -> Seq<Domain> {
    Seq::new(s.len(), |i: int| mark_one(s[i], w))
}

/// The rows are in ascending extension order.
pub open spec fn sorted_by_tld(s: Seq<Domain>) -> bool {
    forall|i: int, j: int| 0 <= i < j < s.len() ==> lex_le(s[i].tld@, s[j].tld@)
}

/// `d` placed into `s` after every row whose extension is not above its own.
/// Placing it after equal extensions keeps the sort stable.
pub open spec fn insert_sorted(d: Domain, s: Seq<Domain>) -> Seq<Domain>
    decreases s.len(),
{
    if s.len() == 0 {
        seq![d]
    } else if lex_le(s[0].tld@, d.tld@) {
        seq![s[0]] + insert_sorted(d, s.drop_first())
    } else {
        seq![d] + s
    }
}

/// The unique stable ascending-by-extension ordering of `s`: each row is
/// inserted, in order, after the rows that do not come above it.
pub open spec fn sort_by_tld_spec(s: Seq<Domain>) -> Seq<Domain>
    decreases s.len(),
{
    if s.len() == 0 {
        Seq::empty()
    } else {
        insert_sorted(s.last(), sort_by_tld_spec(s.drop_last()))
    }
}

/// The whole reconciliation: mark against the wishlist, then sort.
pub open spec fn reconcile_spec(fetched: Seq<Domain>, w: Seq<Domain>) -> Seq<Domain> {
    sort_by_tld_spec(marked(fetched, w))
}

/// Inserting puts `d` at the first position whose row sits above it.
proof fn lemma_insert_sorted_at(s: Seq<Domain>, d: Domain, j: int)
    requires
        0 <= j <= s.len(),
        forall|k: int| 0 <= k < j ==> lex_le(#[trigger] s[k].tld@, d.tld@),
        j < s.len() ==> !lex_le(s[j].tld@, d.tld@),
    ensures
        insert_sorted(d, s) == s.insert(j, d),
    decreases j,
{
    if j == 0 {
        if s.len() == 0 {
            assert(insert_sorted(d, s) =~= s.insert(0, d));
        } else {
            assert(insert_sorted(d, s) =~= s.insert(0, d));
        }
    } else {
        assert(lex_le(s[0].tld@, d.tld@));
        let rest = s.drop_first();
        assert forall|k: int| 0 <= k < j - 1 implies lex_le(#[trigger] rest[k].tld@, d.tld@) by {
            assert(rest[k] == s[k + 1]);
        }
        assert(j - 1 < rest.len() ==> !lex_le(rest[j - 1].tld@, d.tld@));
        lemma_insert_sorted_at(rest, d, j - 1);
        assert(seq![s[0]] + rest.insert(j - 1, d) =~= s.insert(j, d));
    }
}

/// Inserting into a sorted sequence keeps it sorted.
proof fn lemma_insert_sorted_keeps_sorted(d: Domain, s: Seq<Domain>)
    requires
        sorted_by_tld(s),
    ensures
        sorted_by_tld(insert_sorted(d, s)),
    decreases s.len(),
{
    if s.len() == 0 {
    } else if lex_le(s[0].tld@, d.tld@) {
        let rest = s.drop_first();
        assert(sorted_by_tld(rest)) by {
            assert(forall|k: int| 0 <= k < rest.len() ==> rest[k] == s[k + 1]);
        }
        lemma_insert_sorted_keeps_sorted(d, rest);
        let out = seq![s[0]] + insert_sorted(d, rest);
        // The head stays below everything inserted behind it.
        assert forall|i: int, j: int| 0 <= i < j < out.len() implies lex_le(
            out[i].tld@,
            out[j].tld@,
        ) by {
            if i == 0 {
                lemma_insert_tld_bound(d, rest, s[0], j - 1);
            } else {
                assert(insert_sorted(d, rest)[i - 1] == out[i]);
                assert(insert_sorted(d, rest)[j - 1] == out[j]);
            }
        }
    } else {
        lemma_lex_le_total(s[0].tld@, d.tld@);
        let out = seq![d] + s;
        assert forall|i: int, j: int| 0 <= i < j < out.len() implies lex_le(
            out[i].tld@,
            out[j].tld@,
        ) by {
            if i == 0 {
                assert(out[j] == s[j - 1]);
                if j > 1 {
                    assert(lex_le(s[0].tld@, s[j - 1].tld@));
                    lemma_lex_le_trans(d.tld@, s[0].tld@, s[j - 1].tld@);
                }
            } else {
                assert(out[i] == s[i - 1]);
                assert(out[j] == s[j - 1]);
            }
        }
    }
}

/// Every row of an insertion result is either `d` or was below some bound
/// that `d` and the rows of `s` all respect.
proof fn lemma_insert_tld_bound(d: Domain, s: Seq<Domain>, bound: Domain, j: int)
    requires
        lex_le(bound.tld@, d.tld@),
        forall|k: int| 0 <= k < s.len() ==> lex_le(bound.tld@, #[trigger] s[k].tld@),
        0 <= j < insert_sorted(d, s).len(),
    ensures
        lex_le(bound.tld@, insert_sorted(d, s)[j].tld@),
    decreases s.len(),
{
    if s.len() == 0 {
    } else if lex_le(s[0].tld@, d.tld@) {
        if j > 0 {
            let rest = s.drop_first();
            assert forall|k: int| 0 <= k < rest.len() implies lex_le(
                bound.tld@,
                #[trigger] rest[k].tld@,
            ) by {
                assert(rest[k] == s[k + 1]);
            }
            lemma_insert_tld_bound(d, rest, bound, j - 1);
            assert(insert_sorted(d, s)[j] == insert_sorted(d, rest)[j - 1]);
        }
    } else {
        if j > 0 {
            assert(insert_sorted(d, s)[j] == s[j - 1]);
        }
    }
}

/// The sort leaves the rows in ascending extension order.
pub proof fn lemma_sort_sorted(s: Seq<Domain>)
    ensures
        sorted_by_tld(sort_by_tld_spec(s)),
    decreases s.len(),
{
    if s.len() > 0 {
        lemma_sort_sorted(s.drop_last());
        lemma_insert_sorted_keeps_sorted(s.last(), sort_by_tld_spec(s.drop_last()));
    }
}

/// Inserting adds exactly one row to the bag of rows.
proof fn lemma_insert_sorted_multiset(d: Domain, s: Seq<Domain>)
    ensures
        insert_sorted(d, s).to_multiset() == s.to_multiset().insert(d),
    decreases s.len(),
{
    broadcast use vstd::seq_lib::group_to_multiset_ensures;

    if s.len() == 0 {
        assert(insert_sorted(d, s) =~= Seq::empty().push(d));
        assert(Seq::<Domain>::empty().push(d).to_multiset() =~= s.to_multiset().insert(d));
    } else if lex_le(s[0].tld@, d.tld@) {
        let rest = s.drop_first();
        lemma_insert_sorted_multiset(d, rest);
        assert(seq![s[0]] + insert_sorted(d, rest) =~= insert_sorted(d, rest).insert(0, s[0]));
        lemma_multiset_insert_any(insert_sorted(d, rest), 0, s[0]);
        assert(rest.insert(0, s[0]) =~= s);
        lemma_multiset_insert_any(rest, 0, s[0]);
        assert(insert_sorted(d, s).to_multiset() =~= s.to_multiset().insert(d));
    } else {
        assert(seq![d] + s =~= s.insert(0, d));
        lemma_multiset_insert_any(s, 0, d);
    }
}

/// Inserting a row anywhere in a sequence adds it to the bag of rows.
proof fn lemma_multiset_insert_any(s: Seq<Domain>, i: int, d: Domain)
    requires
        0 <= i <= s.len(),
    ensures
        s.insert(i, d).to_multiset() == s.to_multiset().insert(d),
{
    broadcast use vstd::seq_lib::group_to_multiset_ensures;

    let pre = s.subrange(0, i);
    let post = s.subrange(i, s.len() as int);
    assert(s.insert(i, d) =~= pre.push(d) + post);
    assert(s =~= pre + post);
    vstd::seq_lib::lemma_multiset_commutative(pre.push(d), post);
    vstd::seq_lib::lemma_multiset_commutative(pre, post);
    assert(pre.push(d).to_multiset() =~= pre.to_multiset().insert(d));
    assert((pre.push(d) + post).to_multiset() =~= (pre + post).to_multiset().insert(d));
}

/// Sorting does not lose, duplicate or invent rows.
pub proof fn lemma_sort_multiset(s: Seq<Domain>)
    ensures
        sort_by_tld_spec(s).to_multiset() == s.to_multiset(),
    decreases s.len(),
{
    broadcast use vstd::seq_lib::group_to_multiset_ensures;

    if s.len() > 0 {
        lemma_sort_multiset(s.drop_last());
        lemma_insert_sorted_multiset(s.last(), sort_by_tld_spec(s.drop_last()));
        assert(s.drop_last().push(s.last()) =~= s);
        assert(s.drop_last().to_multiset().insert(s.last()) =~= s.to_multiset());
    }
}

/// Inserting a row that no row of `s` sits above appends it.
proof fn lemma_insert_sorted_all_le(d: Domain, s: Seq<Domain>)
    requires
        forall|k: int| 0 <= k < s.len() ==> lex_le(#[trigger] s[k].tld@, d.tld@),
    ensures
        insert_sorted(d, s) == s.push(d),
    decreases s.len(),
{
    if s.len() == 0 {
        assert(insert_sorted(d, s) =~= s.push(d));
    } else {
        let rest = s.drop_first();
        assert forall|k: int| 0 <= k < rest.len() implies lex_le(
            #[trigger] rest[k].tld@,
            d.tld@,
        ) by {
            assert(rest[k] == s[k + 1]);
        }
        lemma_insert_sorted_all_le(d, rest);
        assert(seq![s[0]] + rest.push(d) =~= s.push(d));
    }
}

/// Sorting an already sorted sequence gives it back unchanged: together
/// with `lemma_sort_sorted` this makes the sort idempotent.
pub proof fn lemma_sort_of_sorted(s: Seq<Domain>)
    requires
        sorted_by_tld(s),
    ensures
        sort_by_tld_spec(s) == s,
    decreases s.len(),
{
    if s.len() > 0 {
        let rest = s.drop_last();
        assert(sorted_by_tld(rest)) by {
            assert(forall|k: int| 0 <= k < rest.len() ==> rest[k] == s[k]);
        }
        lemma_sort_of_sorted(rest);
        assert forall|k: int| 0 <= k < rest.len() implies lex_le(
            #[trigger] rest[k].tld@,
            s.last().tld@,
        ) by {
            assert(rest[k] == s[k]);
            assert(lex_le(s[k].tld@, s[s.len() - 1].tld@));
        }
        lemma_insert_sorted_all_le(s.last(), rest);
        assert(rest.push(s.last()) =~= s);
    } else {
        assert(sort_by_tld_spec(s) =~= s);
    }
}

/// Whether some entry of `w` has the identity `id`.
fn contains_identity(w: &Vec<Domain>, id: &String) -> (r: bool)
    ensures
        r == has_identity(w@, id@),
{
    let n = w.len();
    let mut i: usize = 0;
    while i < n
        invariant
            n == w@.len(),
            i <= n,
            forall|j: int| 0 <= j < i ==> w@[j].spec_domain_name() != id@,
        decreases n - i,
    {
        let other = w[i].domain_name();
        if str_eq(other.as_str(), id.as_str()) {
            return true;
        }
        i += 1;
    }
    false
}

/// Mark each fetched domain as selected exactly when its identity appears
/// in the wishlist; a stale flag on a row that matches nothing is cleared.
pub fn set_wishlisted_domain(result: &mut Vec<Domain>, wishlist: Vec<Domain>)
    ensures
        final(result)@ == marked(old(result)@, wishlist@),
{
    let n = result.len();
    let mut i: usize = 0;
    while i < n
        invariant
            n == result@.len(),
            n == old(result)@.len(),
            i <= n,
            forall|j: int| 0 <= j < i ==> result@[j] == mark_one(old(result)@[j], wishlist@),
            forall|j: int| i <= j < n ==> result@[j] == old(result)@[j],
        decreases n - i,
    {
        let id = result[i].domain_name();
        let saved = contains_identity(&wishlist, &id);
        if saved != result[i].selected {
            let cur = result[i].clone();
            result.set(
                i,
                Domain { domain: cur.domain, tld: cur.tld, status: cur.status, selected: saved },
            );
        }
        proof {
            assert(result@[i as int] == mark_one(old(result)@[i as int], wishlist@));
        }
        i += 1;
    }
    proof {
        assert(result@ =~= marked(old(result)@, wishlist@));
    }
}

/// Place `d` behind every row of the sorted vector whose extension does not
/// come above its own.
fn insert_into_sorted(out: &mut Vec<Domain>, d: Domain)
    ensures
        final(out)@ == insert_sorted(d, old(out)@),
{
    let n = out.len();
    let mut j: usize = 0;
    while j < n
        invariant
            n == out@.len(),
            *out == *old(out),
            j <= n,
            forall|k: int| 0 <= k < j ==> lex_le(#[trigger] out@[k].tld@, d.tld@),
        ensures
            n == out@.len(),
            *out == *old(out),
            j <= n,
            forall|k: int| 0 <= k < j ==> lex_le(#[trigger] out@[k].tld@, d.tld@),
            j < n ==> !lex_le(out@[j as int].tld@, d.tld@),
        decreases n - j,
    {
        if !str_le(out[j].tld.as_str(), d.tld.as_str()) {
            break;
        }
        j += 1;
    }
    proof {
        lemma_insert_sorted_at(out@, d, j as int);
    }
    out.insert(j, d);
}

/// Sort the fetched domains ascending by extension with a stable insertion
/// sort, so that repeated renders of the same data are identical.
pub fn sort_by_tld(v: &mut Vec<Domain>)
    ensures
        final(v)@ == sort_by_tld_spec(old(v)@),
{
    let n = v.len();
    let mut out: Vec<Domain> = Vec::new();
    let mut i: usize = 0;
    while i < n
        invariant
            n == v@.len(),
            *v == *old(v),
            i <= n,
            out@ == sort_by_tld_spec(v@.take(i as int)),
        decreases n - i,
    {
        let d = v[i].clone();
        insert_into_sorted(&mut out, d);
        proof {
            let prefix = v@.take(i as int);
            let prefix1 = v@.take(i + 1 as int);
            assert(prefix1.drop_last() =~= prefix);
            assert(prefix1.last() == v@[i as int]);
        }
        i += 1;
    }
    proof {
        assert(v@.take(n as int) =~= v@);
    }
    *v = out;
}

/// The whole reconciliation pass that runs once before the search-results
/// session starts: mark fetched domains against the wishlist, then sort
/// them ascending by extension.
pub fn reconcile(result: &mut Vec<Domain>, wishlist: Vec<Domain>)
    ensures
        final(result)@ == reconcile_spec(old(result)@, wishlist@),
{
    set_wishlisted_domain(result, wishlist);
    sort_by_tld(result);
}

} // verus!
