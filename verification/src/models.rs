//! Entity model: top-level-domain extensions and domain names, each with a
//! `selected` flag whose meaning depends on the list it is shown in.

use vstd::prelude::*;

verus! {

/// Rows whose `selected` flag a keypress can flip.
pub trait Selectable: Sized {
    /// The current value of the row's `selected` flag.
    spec fn sel(&self) -> bool;

    /// The row as it looks after one toggle: the flag flipped, every other
    /// field as it was.
    spec fn toggled(&self) -> Self;

    /// Human-readable label for the flag.
    fn is_selected(&self) -> String;

    /// Flip the `selected` flag, leaving every other field as it was.
    fn toggle_status(&mut self)
        ensures
            *final(self) == old(self).toggled(),
            final(self).sel() == !old(self).sel(),
    ;
}

/// A top-level domain extension such as "com" or "net".
///
/// `tld` is the unique business key; `selected` says whether the extension
/// takes part in future searches.
#[derive(Debug, PartialEq, Eq)]
pub struct Extension {
    pub tld: String,
    pub name: String,
    pub selected: bool,
}

impl Extension {
    /// `self` with its `selected` flag replaced.
    pub open spec fn with_selected(self, b: bool) -> Extension {
        Extension { tld: self.tld, name: self.name, selected: b }
    }

    /// The extension's business key.
    pub fn tld(&self) -> (r: &str)
        ensures
            r@ == self.tld@,
    {
        self.tld.as_str()
    }

    /// The extension's human-readable name.
    pub fn name(&self) -> (r: &str)
        ensures
            r@ == self.name@,
    {
        self.name.as_str()
    }

    /// Short label for the `selected` flag.
    pub fn selected(&self) -> (r: &str)
        ensures
            self.selected ==> r@ == "Selected"@,
            !self.selected ==> r@ == "Not selected"@,
    {
        if self.selected {
            "Selected"
        } else {
            "Not selected"
        }
    }
}

impl Clone for Extension {
    fn clone(&self) -> (r: Self)
        ensures
            r == *self,
    {
        Extension { tld: self.tld.clone(), name: self.name.clone(), selected: self.selected }
    }
}

impl Selectable for Extension {
    open spec fn sel(&self) -> bool {
        self.selected
    }

    open spec fn toggled(&self) -> Extension {
        self.with_selected(!self.selected)
    }

    fn is_selected(&self) -> (r: String)
        ensures
            self.selected ==> r@ == "Selected"@,
            !self.selected ==> r@ == "Not selected"@,
    {
        if self.selected {
            String::from_str("Selected")
        } else {
            String::from_str("Not selected")
        }
    }

    fn toggle_status(&mut self) {
        self.selected = !self.selected;
    }
}

/// A domain name such as "example.com", split into the part the user
/// searched for (`domain`) and the extension it was checked against (`tld`).
///
/// `status` carries the raw availability signal of the external lookup
/// ("True" means available). `selected` means "in the wishlist" when the row
/// is shown among search results and "active" when it is shown in the
/// wishlist itself.
#[derive(Debug, PartialEq, Eq)]
pub struct Domain {
    pub domain: String,
    pub tld: String,
    pub status: String,
    pub selected: bool,
}

impl Domain {
    /// `self` with its `selected` flag replaced.
    pub open spec fn with_selected(self, b: bool) -> Domain {
        Domain { domain: self.domain, tld: self.tld, status: self.status, selected: b }
    }

    /// The identity string "domain.tld": two `Domain` values name the same
    /// real-world entity exactly when their identities are equal.
    pub open spec fn spec_domain_name(self) -> Seq<char> {
        self.domain@ + seq!['.'] + self.tld@
    }

    /// The part of the name the user searched for.
    pub fn domain(&self) -> (r: &str)
        ensures
            r@ == self.domain@,
    {
        self.domain.as_str()
    }

    /// The extension this row was checked against.
    pub fn tld(&self) -> (r: &str)
        ensures
            r@ == self.tld@,
    {
        self.tld.as_str()
    }

    /// The complete domain name, e.g. "example.com".
    pub fn domain_name(&self) -> (r: String)
        ensures
            r@ == self.spec_domain_name(),
    {
        let mut s = self.domain.clone();
        s.append(".");
        s.append(self.tld.as_str());
        proof {
            reveal_strlit(".");
            assert(s@ =~= self.spec_domain_name());
        }
        s
    }

    /// Whether the external lookup reported the domain as available.
    pub open spec fn spec_available(self) -> bool {
        self.status@ == "True"@
    }

    /// Short label for the availability signal.
    pub fn available(&self) -> (r: &str)
        ensures
            self.spec_available() ==> r@ == "Available"@,
            !self.spec_available() ==> r@ == "Not available"@,
    {
        if crate::text::str_eq(self.status.as_str(), "True") {
            "Available"
        } else {
            "Not available"
        }
    }

    /// Label for the availability signal, as an owned string.
    pub fn is_available(&self) -> (r: String)
        ensures
            self.spec_available() ==> r@ == "Available"@,
            !self.spec_available() ==> r@ == "Not available"@,
    {
        String::from_str(self.available())
    }

    /// Short label for the `selected` flag.
    pub fn selected(&self) -> (r: &str)
        ensures
            self.selected ==> r@ == "Wishlisted"@,
            !self.selected ==> r@ == "Not wishlisted"@,
    {
        if self.selected {
            "Wishlisted"
        } else {
            "Not wishlisted"
        }
    }
}

impl Clone for Domain {
    fn clone(&self) -> (r: Self)
        ensures
            r == *self,
    {
        Domain {
            domain: self.domain.clone(),
            tld: self.tld.clone(),
            status: self.status.clone(),
            selected: self.selected,
        }
    }
}

impl Selectable for Domain {
    open spec fn sel(&self) -> bool {
        self.selected
    }

    open spec fn toggled(&self) -> Domain {
        self.with_selected(!self.selected)
    }

    fn is_selected(&self) -> (r: String)
        ensures
            self.selected ==> r@ == "Wishlisted"@,
            !self.selected ==> r@ == "Not wishlisted"@,
    {
        if self.selected {
            String::from_str("Wishlisted")
        } else {
            String::from_str("Not wishlisted")
        }
    }

    fn toggle_status(&mut self) {
        self.selected = !self.selected;
    }
}

} // verus!
