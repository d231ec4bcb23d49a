//! Vendors: the retailers under the name the store pipeline gives them.

use vstd::prelude::*;
use crate::retailer::Retailer;

verus! {

/// A vendor of groceries.
#[derive(Clone, Copy, Debug, PartialEq, Eq, Structural, PartialOrd, Ord, Hash)]
pub enum Vendor {
    Coles,
    Woolworths,
}

impl Vendor {
    /// The retailer that this vendor is.
    pub open spec fn as_retailer(self) -> Retailer {
        match self {
            Vendor::Coles => Retailer::Coles,
            Vendor::Woolworths => Retailer::Woolworths,
        }
    }

    /// The retailer that this vendor is.
    pub fn retailer(&self) -> (r: Retailer)
        ensures
            r == self.as_retailer(),
    {
        match self {
            Vendor::Coles => Retailer::Coles,
            Vendor::Woolworths => Retailer::Woolworths,
        }
    }

    /// Every vendor, in order.
    pub fn all() -> (r: Vec<Vendor>)
        ensures
            r@ == seq![Vendor::Coles, Vendor::Woolworths],
    {
        let mut v: Vec<Vendor> = Vec::new();
        v.push(Vendor::Coles);
        v.push(Vendor::Woolworths);
        assert(v@ =~= seq![Vendor::Coles, Vendor::Woolworths]);
        v
    }

    /// The name shown to readers.
    pub fn name(&self) -> (r: &'static str)
        ensures
            r@ == self.as_retailer().name_text(),
    {
        match self {
            Vendor::Coles => "Coles",
            Vendor::Woolworths => "Woolworths",
        }
    }

    /// The name used in file names and queries.
    pub fn slug(&self) -> (r: &'static str)
        ensures
            r@ == self.as_retailer().slug_text(),
    {
        match self {
            Vendor::Coles => "coles",
            Vendor::Woolworths => "woolworths",
        }
    }

    /// The vendor that a slug names.
    pub open spec fn named(slug: Seq<char>) -> Option<Vendor> {
        if slug == "coles"@ {
            Some(Vendor::Coles)
        } else if slug == "woolworths"@ {
            Some(Vendor::Woolworths)
        } else {
            None
        }
    }

    /// Reads a vendor from its slug.
    pub fn from_slug(s: &str) -> (r: Option<Vendor>)
        ensures
            r == Vendor::named(s@),
    {
        if crate::text::same_text(s, "coles") {
            Some(Vendor::Coles)
        } else if crate::text::same_text(s, "woolworths") {
            Some(Vendor::Woolworths)
        } else {
            None
        }
    }
}

} // verus!
