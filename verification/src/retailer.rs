//! The retailers whose feeds are read.

use vstd::prelude::*;

verus! {

/// A retailer.
#[derive(Clone, Copy, Debug, PartialEq, Eq, Structural, PartialOrd, Ord, Hash)]
pub enum Retailer {
    Coles,
    Woolworths,
}

impl Retailer {
    /// The name used in file names and queries.
    pub open spec fn slug_text(self) -> Seq<char> {
        match self {
            Retailer::Coles => "coles"@,
            Retailer::Woolworths => "woolworths"@,
        }
    }

    /// The name shown to readers.
    pub open spec fn name_text(self) -> Seq<char> {
        match self {
            Retailer::Coles => "Coles"@,
            Retailer::Woolworths => "Woolworths"@,
        }
    }

    /// The identifier of the retailer's brand in Wikidata.
    pub open spec fn wikidata_text(self) -> Seq<char> {
        match self {
            Retailer::Coles => "Q1108172"@,
            Retailer::Woolworths => "Q3249145"@,
        }
    }

    /// The retailer's web domain.
    pub open spec fn domain_text(self) -> Seq<char> {
        match self {
            Retailer::Coles => "coles.com.au"@,
            Retailer::Woolworths => "woolworths.com.au"@,
        }
    }

    /// Every retailer, in order.
    pub fn all() -> (r: Vec<Retailer>)
        ensures
            r@ == seq![Retailer::Coles, Retailer::Woolworths],
    {
        let mut v: Vec<Retailer> = Vec::new();
        v.push(Retailer::Coles);
        v.push(Retailer::Woolworths);
        assert(v@ =~= seq![Retailer::Coles, Retailer::Woolworths]);
        v
    }

    /// The name used in file names and queries.
    pub fn slug(&self) -> (r: &'static str)
        ensures
            r@ == self.slug_text(),
    {
        match self {
            Retailer::Coles => "coles",
            Retailer::Woolworths => "woolworths",
        }
    }

    /// The name shown to readers.
    pub fn name(&self) -> (r: &'static str)
        ensures
            r@ == self.name_text(),
    {
        match self {
            Retailer::Coles => "Coles",
            Retailer::Woolworths => "Woolworths",
        }
    }

    /// The identifier of the retailer's brand in Wikidata.
    pub fn wikidata(&self) -> (r: &'static str)
        ensures
            r@ == self.wikidata_text(),
    {
        match self {
            Retailer::Coles => "Q1108172",
            Retailer::Woolworths => "Q3249145",
        }
    }

    /// The retailer's web domain.
    pub fn domain(&self) -> (r: &'static str)
        ensures
            r@ == self.domain_text(),
    {
        match self {
            Retailer::Coles => "coles.com.au",
            Retailer::Woolworths => "woolworths.com.au",
        }
    }
}

} // verus!
