//! In-memory store of extensions and wishlisted domains: the verified model
//! of the persistence collaborator. It offers exactly the operations the
//! tool needs - find-all, find-selected, create, update, add, remove - with
//! contracts over the stored sequences. Durable backends (a database, a
//! file) live outside this crate and mirror these operations.

use vstd::prelude::*;
use crate::models::{Domain, Extension};
use crate::text::str_eq;

verus! {

/// No two extensions share a business key.
pub open spec fn unique_tlds(s: Seq<Extension>) -> bool {
    forall|i: int, j: int| 0 <= i < j < s.len() ==> s[i].tld@ != s[j].tld@
}

/// No two wishlist entries name the same real-world domain.
pub open spec fn unique_identities(s: Seq<Domain>) -> bool {
    forall|i: int, j: int|
        0 <= i < j < s.len() ==> s[i].spec_domain_name() != s[j].spec_domain_name()
}

/// Some extension in `s` carries the business key `tld`.
pub open spec fn ext_has_tld(s: Seq<Extension>, tld: Seq<char>) -> bool {
    exists|i: int| 0 <= i < s.len() && s[i].tld@ == tld
}

/// Some domain in `s` has the identity `id`.
pub open spec fn has_identity(s: Seq<Domain>, id: Seq<char>) -> bool {
    exists|i: int| 0 <= i < s.len() && s[i].spec_domain_name() == id
}

/// The extensions kept for searches, in catalog order.
pub open spec fn selected_only(s: Seq<Extension>) -> Seq<Extension> {
    s.filter(|e: Extension| e.selected)
}

/// `s` with the `selected` flag of the extension keyed `tld` replaced by
/// `sel`; every other field and every other extension stay as they were.
pub open spec fn update_ext_spec(s: Seq<Extension>, tld: Seq<char>, sel: bool) -> Seq<Extension> {
    Seq::new(
        s.len(),
        |i: int|
            if s[i].tld@ == tld {
                s[i].with_selected(sel)
            } else {
                s[i]
            },
    )
}

/// `s` without every entry whose identity is `id`.
pub open spec fn remove_id_spec(s: Seq<Domain>, id: Seq<char>) -> Seq<Domain> {
    s.filter(|d: Domain| d.spec_domain_name() != id)
}

/// `s` extended by `e` unless its key is already present.
pub open spec fn seed_one_spec(s: Seq<Extension>, e: Extension) -> Seq<Extension> {
    if ext_has_tld(s, e.tld@) {
        s
    } else {
        s.push(e)
    }
}

/// `s` extended by every entry of `input` in order, skipping keys already
/// seen.
pub open spec fn seed_spec(s: Seq<Extension>, input: Seq<Extension>) -> Seq<Extension>
    decreases input.len(),
{
    if input.len() == 0 {
        s
    } else {
        seed_spec(seed_one_spec(s, input[0]), input.drop_first())
    }
}

/// `s` extended by `d` unless its identity is already present.
pub open spec fn add_one_spec(s: Seq<Domain>, d: Domain) -> Seq<Domain> {
    if has_identity(s, d.spec_domain_name()) {
        s
    } else {
        s.push(d)
    }
}

/// `s` extended by every entry of `input` in order, skipping identities
/// already seen.
pub open spec fn add_all_spec(s: Seq<Domain>, input: Seq<Domain>) -> Seq<Domain>
    decreases input.len(),
{
    if input.len() == 0 {
        s
    } else {
        add_all_spec(add_one_spec(s, input[0]), input.drop_first())
    }
}

/// Every element the removal keeps comes from `s`, and removal keeps the
/// identities pairwise distinct.
proof fn lemma_remove_id_unique(s: Seq<Domain>, id: Seq<char>)
    requires
        unique_identities(s),
    ensures
        unique_identities(remove_id_spec(s, id)),
        forall|k: int|
            0 <= k < remove_id_spec(s, id).len() ==> s.contains(#[trigger] remove_id_spec(s, id)[k]),
    decreases s.len(),
{
    reveal(Seq::filter);
    if s.len() > 0 {
        let rest = s.drop_last();
        assert(unique_identities(rest)) by {
            assert(forall|i: int| 0 <= i < rest.len() ==> rest[i] == s[i]);
        }
        lemma_remove_id_unique(rest, id);
        let out_rest = remove_id_spec(rest, id);
        let out = remove_id_spec(s, id);
        assert(forall|k: int| 0 <= k < rest.len() ==> rest[k] == s[k]);
        assert forall|k: int| 0 <= k < out.len() implies s.contains(#[trigger] out[k]) by {
            if s.last().spec_domain_name() != id && k == out.len() - 1 {
                assert(out[k] == s.last());
                assert(s[s.len() - 1] == s.last());
            } else {
                assert(out[k] == out_rest[k]);
                assert(rest.contains(out_rest[k]));
                let w = choose|w: int| 0 <= w < rest.len() && rest[w] == out_rest[k];
                assert(s[w] == out_rest[k]);
            }
        }
        if s.last().spec_domain_name() != id {
            assert(out == out_rest.push(s.last()));
            assert forall|i: int, j: int| 0 <= i < j < out.len() implies out[i].spec_domain_name()
                != out[j].spec_domain_name() by {
                if j == out.len() - 1 {
                    // `out[i]` comes from `rest`, whose identities all differ
                    // from the last element's.
                    assert(rest.contains(out_rest[i]));
                    let w = choose|w: int| 0 <= w < rest.len() && rest[w] == out_rest[i];
                    assert(s[w] == out[i]);
                    assert(s[w].spec_domain_name() != s[s.len() - 1].spec_domain_name());
                }
            }
        }
    }
}

/// Removing an identity that no entry of `s` carries keeps `s` unchanged.
proof fn lemma_remove_id_absent(s: Seq<Domain>, id: Seq<char>)
    requires
        !has_identity(s, id),
    ensures
        remove_id_spec(s, id) == s,
    decreases s.len(),
{
    reveal(Seq::filter);
    if s.len() > 0 {
        let rest = s.drop_last();
        assert(!has_identity(rest, id)) by {
            assert(forall|i: int| 0 <= i < rest.len() ==> rest[i] == s[i]);
        }
        lemma_remove_id_absent(rest, id);
        assert(s[s.len() - 1] == s.last());
        assert(s.last().spec_domain_name() != id);
        assert(remove_id_spec(s, id) =~= s);
    } else {
        assert(remove_id_spec(s, id) =~= s);
    }
}

/// The store a session works against: the full extension catalog and the
/// persisted wishlist, both in insertion order.
pub struct Store {
    pub extensions: Vec<Extension>,
    pub wishlist: Vec<Domain>,
}

impl Store {
    /// Well-formedness: extension keys and wishlist identities are unique.
    pub open spec fn wf(&self) -> bool {
        unique_tlds(self.extensions@) && unique_identities(self.wishlist@)
    }

    /// An empty store.
    pub fn new() -> (s: Store)
        ensures
            s.wf(),
            s.extensions@.len() == 0,
            s.wishlist@.len() == 0,
    {
        Store { extensions: Vec::new(), wishlist: Vec::new() }
    }

    /// Whether an extension with the given key exists.
    pub fn has_extension_tld(&self, tld: &str) -> (r: bool)
        ensures
            r == ext_has_tld(self.extensions@, tld@),
    {
        let n = self.extensions.len();
        let mut i: usize = 0;
        while i < n
            invariant
                n == self.extensions@.len(),
                i <= n,
                forall|j: int| 0 <= j < i ==> self.extensions@[j].tld@ != tld@,
            decreases n - i,
        {
            if str_eq(self.extensions[i].tld.as_str(), tld) {
                return true;
            }
            i += 1;
        }
        false
    }

    /// Whether some wishlist entry has the same identity as `d`.
    pub fn wishlist_has_domain(&self, d: &Domain) -> (r: bool)
        ensures
            r == has_identity(self.wishlist@, d.spec_domain_name()),
    {
        let id = d.domain_name();
        let n = self.wishlist.len();
        let mut i: usize = 0;
        while i < n
            invariant
                n == self.wishlist@.len(),
                id@ == d.spec_domain_name(),
                i <= n,
                forall|j: int|
                    0 <= j < i ==> self.wishlist@[j].spec_domain_name() != d.spec_domain_name(),
            decreases n - i,
        {
            let other = self.wishlist[i].domain_name();
            if str_eq(id.as_str(), other.as_str()) {
                return true;
            }
            i += 1;
        }
        false
    }

    /// All extensions of the catalog, in order.
    pub fn find_all_extensions(&self) -> (r: Vec<Extension>)
        ensures
            r@ == self.extensions@,
    {
        let r = self.extensions.clone();
        proof {
            assert(r@ =~= self.extensions@);
        }
        r
    }

    /// Exactly the extensions whose `selected` flag is set, in catalog order.
    pub fn find_selected_extensions(&self) -> (r: Vec<Extension>)
        ensures
            r@ == selected_only(self.extensions@),
    {
        let n = self.extensions.len();
        let mut out: Vec<Extension> = Vec::new();
        let mut i: usize = 0;
        while i < n
            invariant
                n == self.extensions@.len(),
                i <= n,
                out@ == selected_only(self.extensions@.take(i as int)),
            decreases n - i,
        {
            proof {
                reveal(Seq::filter);
                assert(self.extensions@.take(i + 1 as int).drop_last() =~= self.extensions@.take(
                    i as int,
                ));
                assert(self.extensions@.take(i + 1 as int).last() == self.extensions@[i as int]);
            }
            if self.extensions[i].selected {
                out.push(self.extensions[i].clone());
            }
            i += 1;
        }
        proof {
            assert(self.extensions@.take(n as int) =~= self.extensions@);
        }
        out
    }

    /// The persisted wishlist, in order.
    pub fn find_wishlist(&self) -> (r: Vec<Domain>)
        ensures
            r@ == self.wishlist@,
    {
        let r = self.wishlist.clone();
        proof {
            assert(r@ =~= self.wishlist@);
        }
        r
    }

    /// Add a new extension to the catalog. An extension whose key is already
    /// present is rejected, so that keys stay unique.
    pub fn create_extension(&mut self, e: Extension) -> (r: Option<()>)
        requires
            old(self).wf(),
        ensures
            final(self).wf(),
            final(self).wishlist@ == old(self).wishlist@,
            r is Some <==> !ext_has_tld(old(self).extensions@, e.tld@),
            final(self).extensions@ == seed_one_spec(old(self).extensions@, e),
    {
        if self.has_extension_tld(e.tld.as_str()) {
            None
        } else {
            self.extensions.push(e);
            Some(())
        }
    }

    /// Persist a new `selected` value for the extension keyed like `e`,
    /// leaving its other fields and every other extension unchanged. An
    /// unknown key changes nothing.
    pub fn update_extension(&mut self, e: &Extension) -> (r: Option<()>)
        requires
            old(self).wf(),
        ensures
            final(self).wf(),
            final(self).wishlist@ == old(self).wishlist@,
            r is Some,
            final(self).extensions@ == update_ext_spec(old(self).extensions@, e.tld@, e.selected),
    {
        let ghost target = update_ext_spec(self.extensions@, e.tld@, e.selected);
        let n = self.extensions.len();
        let mut i: usize = 0;
        while i < n
            invariant
                n == self.extensions@.len(),
                n == old(self).extensions@.len(),
                target.len() == n,
                i <= n,
                target == update_ext_spec(old(self).extensions@, e.tld@, e.selected),
                old(self).wf(),
                self.wishlist@ == old(self).wishlist@,
                forall|j: int| 0 <= j < i ==> self.extensions@[j] == target[j],
                forall|j: int| i <= j < n ==> self.extensions@[j] == old(self).extensions@[j],
            decreases n - i,
        {
            if str_eq(self.extensions[i].tld.as_str(), e.tld.as_str()) {
                let cur = self.extensions[i].clone();
                proof {
                    assert(cur == old(self).extensions@[i as int]);
                }
                self.extensions.set(
                    i,
                    Extension { tld: cur.tld, name: cur.name, selected: e.selected },
                );
                proof {
                    assert(self.extensions@[i as int] == old(self).extensions@[
                        i as int
                    ].with_selected(e.selected));
                    assert(self.extensions@[i as int] == target[i as int]);
                }
            } else {
                proof {
                    assert(self.extensions@[i as int] == target[i as int]);
                }
            }
            i += 1;
        }
        proof {
            assert(self.extensions@ =~= target);
            assert forall|a: int, b: int|
                0 <= a < b < self.extensions@.len() implies self.extensions@[a].tld@
                != self.extensions@[b].tld@ by {
                assert(self.extensions@[a].tld@ == old(self).extensions@[a].tld@);
                assert(self.extensions@[b].tld@ == old(self).extensions@[b].tld@);
            }
        }
        Some(())
    }

    /// Add a domain to the wishlist. A domain whose identity is already
    /// present counts as already saved and changes nothing.
    pub fn add_to_wishlist(&mut self, d: &Domain) -> (r: Option<()>)
        requires
            old(self).wf(),
        ensures
            final(self).wf(),
            final(self).extensions@ == old(self).extensions@,
            r is Some,
            final(self).wishlist@ == add_one_spec(old(self).wishlist@, *d),
    {
        if !self.wishlist_has_domain(d) {
            self.wishlist.push(d.clone());
        }
        Some(())
    }

    /// Remove every wishlist entry that names the same real-world domain as
    /// `d`; matching goes by identity, not by full equality.
    pub fn remove_from_wishlist(&mut self, d: &Domain) -> (r: Option<()>)
        requires
            old(self).wf(),
        ensures
            final(self).wf(),
            final(self).extensions@ == old(self).extensions@,
            r is Some,
            final(self).wishlist@ == remove_id_spec(old(self).wishlist@, d.spec_domain_name()),
    {
        let ghost target = remove_id_spec(self.wishlist@, d.spec_domain_name());
        let id = d.domain_name();
        let n = self.wishlist.len();
        let mut out: Vec<Domain> = Vec::new();
        let mut i: usize = 0;
        while i < n
            invariant
                n == self.wishlist@.len(),
                i <= n,
                id@ == d.spec_domain_name(),
                out@ == remove_id_spec(self.wishlist@.take(i as int), d.spec_domain_name()),
            decreases n - i,
        {
            proof {
                reveal(Seq::filter);
                assert(self.wishlist@.take(i + 1 as int).drop_last() =~= self.wishlist@.take(
                    i as int,
                ));
                assert(self.wishlist@.take(i + 1 as int).last() == self.wishlist@[i as int]);
            }
            let other = self.wishlist[i].domain_name();
            if !str_eq(other.as_str(), id.as_str()) {
                out.push(self.wishlist[i].clone());
            }
            i += 1;
        }
        proof {
            assert(self.wishlist@.take(n as int) =~= self.wishlist@);
            lemma_remove_id_unique(self.wishlist@, d.spec_domain_name());
        }
        self.wishlist = out;
        Some(())
    }

    /// Feed a batch of extensions into the catalog in order, skipping every
    /// key that is already present. Used to seed the default catalog and to
    /// load rows handed over by a durable backend.
    pub fn seed_extensions(&mut self, exts: Vec<Extension>)
        requires
            old(self).wf(),
        ensures
            final(self).wf(),
            final(self).wishlist@ == old(self).wishlist@,
            final(self).extensions@ == seed_spec(old(self).extensions@, exts@),
    {
        let n = exts.len();
        let mut i: usize = 0;
        while i < n
            invariant
                n == exts@.len(),
                i <= n,
                self.wf(),
                self.wishlist@ == old(self).wishlist@,
                self.extensions@ == seed_spec(old(self).extensions@, exts@.take(i as int)),
            decreases n - i,
        {
            proof {
                lemma_seed_spec_snoc(old(self).extensions@, exts@.take(i as int), exts@[i as int]);
                assert(exts@.take(i as int).push(exts@[i as int]) =~= exts@.take(i + 1 as int));
            }
            let e = exts[i].clone();
            if !self.has_extension_tld(e.tld.as_str()) {
                self.extensions.push(e);
            }
            i += 1;
        }
        proof {
            assert(exts@.take(n as int) =~= exts@);
        }
    }

    /// Feed a batch of domains into the wishlist in order, skipping every
    /// identity that is already present.
    pub fn seed_wishlist(&mut self, domains: Vec<Domain>)
        requires
            old(self).wf(),
        ensures
            final(self).wf(),
            final(self).extensions@ == old(self).extensions@,
            final(self).wishlist@ == add_all_spec(old(self).wishlist@, domains@),
    {
        let n = domains.len();
        let mut i: usize = 0;
        while i < n
            invariant
                n == domains@.len(),
                i <= n,
                self.wf(),
                self.extensions@ == old(self).extensions@,
                self.wishlist@ == add_all_spec(old(self).wishlist@, domains@.take(i as int)),
            decreases n - i,
        {
            proof {
                lemma_add_all_spec_snoc(
                    old(self).wishlist@,
                    domains@.take(i as int),
                    domains@[i as int],
                );
                assert(domains@.take(i as int).push(domains@[i as int]) =~= domains@.take(
                    i + 1 as int,
                ));
            }
            let d = domains[i].clone();
            if !self.wishlist_has_domain(&d) {
                self.wishlist.push(d);
            }
            i += 1;
        }
        proof {
            assert(domains@.take(n as int) =~= domains@);
        }
    }

    /// Build a store from rows a durable backend handed over, dropping
    /// duplicate keys and identities so that the invariants hold whatever
    /// the backend contained.
    pub fn from_parts(extensions: Vec<Extension>, wishlist: Vec<Domain>) -> (s: Store)
        ensures
            s.wf(),
            s.extensions@ == seed_spec(Seq::<Extension>::empty(), extensions@),
            s.wishlist@ == add_all_spec(Seq::<Domain>::empty(), wishlist@),
    {
        let mut s = Store::new();
        proof {
            assert(s.extensions@ =~= Seq::<Extension>::empty());
            assert(s.wishlist@ =~= Seq::<Domain>::empty());
        }
        s.seed_extensions(extensions);
        s.seed_wishlist(wishlist);
        s
    }
}

/// Seeding a batch and then one more entry is seeding the batch extended by
/// that entry.
proof fn lemma_seed_spec_snoc(s: Seq<Extension>, input: Seq<Extension>, e: Extension)
    ensures
        seed_spec(s, input.push(e)) == seed_one_spec(seed_spec(s, input), e),
    decreases input.len(),
{
    let pushed = input.push(e);
    if input.len() == 0 {
        assert(pushed[0] == e);
        assert(pushed.drop_first() =~= input);
        assert(seed_spec(s, pushed) == seed_spec(seed_one_spec(s, e), input));
        assert(seed_spec(seed_one_spec(s, e), input) == seed_one_spec(s, e));
        assert(seed_spec(s, input) == s);
    } else {
        assert(pushed[0] == input[0]);
        assert(pushed.drop_first() =~= input.drop_first().push(e));
        assert(seed_spec(s, pushed) == seed_spec(
            seed_one_spec(s, input[0]),
            input.drop_first().push(e),
        ));
        lemma_seed_spec_snoc(seed_one_spec(s, input[0]), input.drop_first(), e);
        assert(seed_spec(s, input) == seed_spec(seed_one_spec(s, input[0]), input.drop_first()));
    }
}

/// Adding a batch and then one more entry is adding the batch extended by
/// that entry.
proof fn lemma_add_all_spec_snoc(s: Seq<Domain>, input: Seq<Domain>, d: Domain)
    ensures
        add_all_spec(s, input.push(d)) == add_one_spec(add_all_spec(s, input), d),
    decreases input.len(),
{
    let pushed = input.push(d);
    if input.len() == 0 {
        assert(pushed[0] == d);
        assert(pushed.drop_first() =~= input);
        assert(add_all_spec(s, pushed) == add_all_spec(add_one_spec(s, d), input));
        assert(add_all_spec(add_one_spec(s, d), input) == add_one_spec(s, d));
        assert(add_all_spec(s, input) == s);
    } else {
        assert(pushed[0] == input[0]);
        assert(pushed.drop_first() =~= input.drop_first().push(d));
        assert(add_all_spec(s, pushed) == add_all_spec(
            add_one_spec(s, input[0]),
            input.drop_first().push(d),
        ));
        lemma_add_all_spec_snoc(add_one_spec(s, input[0]), input.drop_first(), d);
        assert(add_all_spec(s, input) == add_all_spec(add_one_spec(s, input[0]), input.drop_first()));
    }
}

/// Adding a fresh domain and then removing its identity restores the
/// wishlist exactly: the remove fully reverses the add.
pub proof fn lemma_add_then_remove_roundtrip(s: Seq<Domain>, d: Domain)
    requires
        !has_identity(s, d.spec_domain_name()),
    ensures
        remove_id_spec(add_one_spec(s, d), d.spec_domain_name()) == s,
{
    reveal(Seq::filter);
    let pushed = s.push(d);
    assert(pushed.drop_last() =~= s);
    assert(pushed.last() == d);
    lemma_remove_id_absent(s, d.spec_domain_name());
}

} // verus!
