//! Products as the retailers' feeds list them.

use vstd::prelude::*;
use crate::vendors::Vendor;

verus! {

/// A product of a vendor's feed, in the shape that all feeds share.
#[derive(Clone, Debug, PartialEq, Eq)]
pub struct UpstreamProduct {
    pub vendor: Vendor,
    pub id: u32,
    pub brand: String,
    pub name: String,
    pub description: String,
    pub size: Option<String>,
}

/// A product as the feed of Woolworths lists it.
#[derive(Clone, Debug, PartialEq, Eq)]
pub struct RawProduct {
    pub brand: Option<String>,
    pub name: String,
    pub package_size: String,
    pub rich_description: Option<String>,
    pub stockcode: u32,
}

/// A product as the feed of Coles lists it.
#[derive(Clone, Debug, PartialEq, Eq)]
pub struct ColesProduct {
    pub brand: String,
    pub id: u32,
    pub long_description: Option<String>,
    pub name: String,
    pub size: String,
}

impl RawProduct {
    /// The product in the shape that all feeds share. A product without a
    /// brand or without a description is passed over.
    pub fn upstream(self) -> (r: Option<UpstreamProduct>)
        ensures
            r == (if self.brand is Some && self.rich_description is Some {
                Some(
                    UpstreamProduct {
                        vendor: Vendor::Woolworths,
                        id: self.stockcode,
                        brand: self.brand->0,
                        name: self.name,
                        description: self.rich_description->0,
                        size: None,
                    },
                )
            } else {
                None
            }),
    {
        let brand = match self.brand {
            Some(x) => x,
            None => { return None; },
        };
        let description = match self.rich_description {
            Some(x) => x,
            None => { return None; },
        };
        Some(
            UpstreamProduct {
                vendor: Vendor::Woolworths,
                id: self.stockcode,
                brand,
                name: self.name,
                description,
                size: None,
            },
        )
    }
}

impl ColesProduct {
    /// The product in the shape that all feeds share. A product without a
    /// description has an empty one.
    pub fn upstream(self) -> (r: UpstreamProduct)
        ensures
            r.vendor == Vendor::Coles,
            r.id == self.id,
            r.brand == self.brand,
            r.name == self.name,
            r.size is None,
            r.description@ == (match self.long_description {
                Some(x) => x@,
                None => Seq::<char>::empty(),
            }),
    {
        let description = match self.long_description {
            Some(x) => x,
            None => String::new(),
        };
        UpstreamProduct {
            vendor: Vendor::Coles,
            id: self.id,
            brand: self.brand,
            name: self.name,
            description,
            size: None,
        }
    }
}

} // verus!
