//! Product identifiers and the grammar of the retailers' product pages.

use vstd::prelude::*;
use crate::retailer::Retailer;
use crate::text::{
    chars_of, parse_u32, parsed_u32, split_at_first, split_at_last, split_first, split_last,
    strip_prefix,
};

verus! {

/// The number a retailer gives one of its products, with the retailer.
#[derive(Clone, Copy, Debug, PartialEq, Eq, Structural, PartialOrd, Ord, Hash)]
pub enum ProductId {
    Coles(u32),
    Woolworths(u32),
}

/// A product identifier as the link tables hold it.
#[derive(Clone, Copy, Debug, PartialEq, Eq, Structural, PartialOrd, Ord, Hash)]
pub enum ProductID {
    Coles(u32),
    Woolworths(u32),
}

impl ProductId {
    /// The retailer whose product this is.
    pub open spec fn owner(self) -> Retailer {
        match self {
            ProductId::Coles(_) => Retailer::Coles,
            ProductId::Woolworths(_) => Retailer::Woolworths,
        }
    }

    /// The retailer's own number of the product.
    pub open spec fn number(self) -> u32 {
        match self {
            ProductId::Coles(x) => x,
            ProductId::Woolworths(x) => x,
        }
    }

    /// The product of `retailer` with the number `n`.
    pub open spec fn of(retailer: Retailer, n: u32) -> ProductId {
        match retailer {
            Retailer::Coles => ProductId::Coles(n),
            Retailer::Woolworths => ProductId::Woolworths(n),
        }
    }

    /// Builds the identifier of a retailer's product.
    pub fn new(retailer: &Retailer, n: u32) -> (r: ProductId)
        ensures
            r == ProductId::of(*retailer, n),
    {
        match retailer {
            Retailer::Coles => ProductId::Coles(n),
            Retailer::Woolworths => ProductId::Woolworths(n),
        }
    }

    /// The retailer whose product this is.
    pub fn retailer(&self) -> (r: Retailer)
        ensures
            r == self.owner(),
    {
        match self {
            ProductId::Coles(_) => Retailer::Coles,
            ProductId::Woolworths(_) => Retailer::Woolworths,
        }
    }

    /// The product's number, if it is a product of Coles.
    pub fn coles(&self) -> (r: Option<u32>)
        ensures
            r == (if self is Coles {
                Some(self.number())
            } else {
                None
            }),
    {
        match self {
            ProductId::Coles(x) => Some(*x),
            _ => None,
        }
    }

    /// The product's number, if it is a product of Woolworths.
    pub fn woolworths(&self) -> (r: Option<u32>)
        ensures
            r == (if self is Woolworths {
                Some(self.number())
            } else {
                None
            }),
    {
        match self {
            ProductId::Woolworths(x) => Some(*x),
            _ => None,
        }
    }
}

impl ProductID {
    /// The retailer whose product this is.
    pub open spec fn owner(self) -> Retailer {
        match self {
            ProductID::Coles(_) => Retailer::Coles,
            ProductID::Woolworths(_) => Retailer::Woolworths,
        }
    }

    /// The retailer's own number of the product.
    pub open spec fn number(self) -> u32 {
        match self {
            ProductID::Coles(x) => x,
            ProductID::Woolworths(x) => x,
        }
    }

    /// The same product as the parsers name it.
    pub open spec fn as_product_id(self) -> ProductId {
        ProductId::of(self.owner(), self.number())
    }

    /// The retailer whose product this is.
    pub fn retailer(&self) -> (r: Retailer)
        ensures
            r == self.owner(),
    {
        match self {
            ProductID::Coles(_) => Retailer::Coles,
            ProductID::Woolworths(_) => Retailer::Woolworths,
        }
    }

    /// The product's number, if it is a product of Coles.
    pub fn coles(&self) -> (r: Option<u32>)
        ensures
            r == (if self is Coles {
                Some(self.number())
            } else {
                None
            }),
    {
        match self {
            ProductID::Coles(x) => Some(*x),
            _ => None,
        }
    }

    /// The product's number, if it is a product of Woolworths.
    pub fn woolworths(&self) -> (r: Option<u32>)
        ensures
            r == (if self is Woolworths {
                Some(self.number())
            } else {
                None
            }),
    {
        match self {
            ProductID::Woolworths(x) => Some(*x),
            _ => None,
        }
    }

    /// The product's number, whichever retailer gave it.
    pub fn tmp(self) -> (r: u32)
        ensures
            r == self.number(),
    {
        match self {
            ProductID::Coles(x) => x,
            ProductID::Woolworths(x) => x,
        }
    }

    /// The product that a parser named, as the link tables hold it.
    pub fn of_product(id: ProductId) -> (r: ProductID)
        ensures
            r.as_product_id() == id,
    {
        match id {
            ProductId::Coles(x) => ProductID::Coles(x),
            ProductId::Woolworths(x) => ProductID::Woolworths(x),
        }
    }
}

impl Retailer {
    /// The address under which the retailer's product pages stand.
    pub open spec fn product_link_prefix(self) -> Seq<char> {
        match self {
            Retailer::Coles => "https://www.coles.com.au/product/"@,
            Retailer::Woolworths => "https://www.woolworths.com.au/shop/productdetails/"@,
        }
    }

    /// The part of a product page's path that writes the product's number:
    /// at Coles what follows the last hyphen, at Woolworths what stands
    /// before the first slash.
    pub open spec fn product_number_text(self, path: Seq<char>) -> Option<Seq<char>> {
        match self {
            Retailer::Coles => match split_at_last(path, '-') {
                Some((_, number)) => Some(number),
                None => None,
            },
            Retailer::Woolworths => match split_at_first(path, '/') {
                Some((number, _)) => Some(number),
                None => None,
            },
        }
    }

    /// The product that a number written in decimal names.
    pub open spec fn parsed_product_id(self, id: Seq<char>) -> Option<ProductId> {
        match parsed_u32(id) {
            Some(n) => Some(ProductId::of(self, n)),
            None => None,
        }
    }

    /// The product whose page `url` is.
    pub open spec fn parsed_product_link(self, url: Seq<char>) -> Option<ProductId> {
        let prefix = self.product_link_prefix();
        if prefix.is_prefix_of(url) {
            match self.product_number_text(url.skip(prefix.len() as int)) {
                Some(number) => self.parsed_product_id(number),
                None => None,
            }
        } else {
            None
        }
    }

    /// Reads the number of one of the retailer's products.
    pub fn parse_product_id(&self, id: &str) -> (r: Option<ProductId>)
        ensures
            r == self.parsed_product_id(id@),
    {
        let chars = chars_of(id);
        match parse_u32(chars.as_slice()) {
            Some(n) => Some(ProductId::new(self, n)),
            None => None,
        }
    }

    /// Reads the product from the address of its page at the retailer.
    pub fn parse_product_link(&self, url: &str) -> (r: Option<ProductId>)
        ensures
            r == self.parsed_product_link(url@),
    {
        let chars = chars_of(url);
        let prefix = match self {
            Retailer::Coles => "https://www.coles.com.au/product/",
            Retailer::Woolworths => "https://www.woolworths.com.au/shop/productdetails/",
        };
        let path = match strip_prefix(chars.as_slice(), prefix) {
            Some(path) => path,
            None => { return None; },
        };
        let number = match self {
            Retailer::Coles => match split_last(path, '-') {
                Some((_, number)) => number,
                None => { return None; },
            },
            Retailer::Woolworths => match split_first(path, '/') {
                Some((number, _)) => number,
                None => { return None; },
            },
        };
        match parse_u32(number) {
            Some(n) => Some(ProductId::new(self, n)),
            None => None,
        }
    }
}

} // verus!
