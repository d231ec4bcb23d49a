//! Store identifiers and the grammar of the retailers' store pages.

use vstd::prelude::*;
use crate::retailer::Retailer;
use crate::text::{
    chars_of, decimal_text, parse_u32, parsed_u32, push_decimal, push_text, split_at_last,
    split_last, strip_prefix,
};
use crate::vendors::Vendor;

verus! {

/// The number a retailer gives one of its stores, with the retailer.
#[derive(Clone, Copy, Debug, PartialEq, Eq, Structural, PartialOrd, Ord, Hash)]
pub enum StoreId {
    Coles(u32),
    Woolworths(u32),
}

impl StoreId {
    /// The retailer whose store this is.
    pub open spec fn owner(self) -> Retailer {
        match self {
            StoreId::Coles(_) => Retailer::Coles,
            StoreId::Woolworths(_) => Retailer::Woolworths,
        }
    }

    /// The retailer's own number of the store.
    pub open spec fn number(self) -> u32 {
        match self {
            StoreId::Coles(x) => x,
            StoreId::Woolworths(x) => x,
        }
    }

    /// The store of `retailer` with the number `n`.
    pub open spec fn of(retailer: Retailer, n: u32) -> StoreId {
        match retailer {
            Retailer::Coles => StoreId::Coles(n),
            Retailer::Woolworths => StoreId::Woolworths(n),
        }
    }

    /// The place of an identifier in the order of identifiers: those of Coles
    /// come first, and one retailer's stores are ordered by number.
    pub open spec fn rank(self) -> int {
        match self {
            StoreId::Coles(x) => x as int,
            StoreId::Woolworths(x) => 0x1_0000_0000 + x as int,
        }
    }

    /// How the identifier is shown in a report: a link to the store's page.
    pub open spec fn markdown_text(self) -> Seq<char> {
        match self {
            StoreId::Coles(x) => "[Coles Store "@ + decimal_text(x as nat)
                + "](https://www.coles.com.au/find-stores/coles/-/-"@ + decimal_text(x as nat)
                + ")"@,
            StoreId::Woolworths(x) => "[Woolworths Store "@ + decimal_text(x as nat)
                + "](https://www.woolworths.com.au/shop/storelocator/"@ + decimal_text(x as nat)
                + ")"@,
        }
    }

    /// Builds the identifier of a retailer's store.
    pub fn new(retailer: &Retailer, n: u32) -> (r: StoreId)
        ensures
            r == StoreId::of(*retailer, n),
    {
        match retailer {
            Retailer::Coles => StoreId::Coles(n),
            Retailer::Woolworths => StoreId::Woolworths(n),
        }
    }

    /// The retailer whose store this is.
    pub fn retailer(&self) -> (r: Retailer)
        ensures
            r == self.owner(),
    {
        match self {
            StoreId::Coles(_) => Retailer::Coles,
            StoreId::Woolworths(_) => Retailer::Woolworths,
        }
    }

    /// The vendor whose store this is.
    pub fn vendor(&self) -> (r: Vendor)
        ensures
            r.as_retailer() == self.owner(),
    {
        match self {
            StoreId::Coles(_) => Vendor::Coles,
            StoreId::Woolworths(_) => Vendor::Woolworths,
        }
    }

    /// The store's number, if it is a store of Coles.
    pub fn coles(&self) -> (r: Option<u32>)
        ensures
            r == (if self is Coles {
                Some(self.number())
            } else {
                None
            }),
    {
        match self {
            StoreId::Coles(x) => Some(*x),
            _ => None,
        }
    }

    /// The store's number, if it is a store of Woolworths.
    pub fn woolworths(&self) -> (r: Option<u32>)
        ensures
            r == (if self is Woolworths {
                Some(self.number())
            } else {
                None
            }),
    {
        match self {
            StoreId::Woolworths(x) => Some(*x),
            _ => None,
        }
    }

    /// The identifier's place in the order of identifiers.
    pub fn position(&self) -> (r: u64)
        ensures
            r == self.rank(),
    {
        match self {
            StoreId::Coles(x) => *x as u64,
            StoreId::Woolworths(x) => 0x1_0000_0000u64 + *x as u64,
        }
    }

    /// Whether this identifier comes before `other`.
    pub fn precedes(&self, other: &StoreId) -> (r: bool)
        ensures
            r == (self.rank() < other.rank()),
    {
        self.position() < other.position()
    }

    /// The identifier as a report shows it.
    pub fn markdown(&self) -> (r: String)
        ensures
            r@ == self.markdown_text(),
    {
        let mut out = String::new();
        match self {
            StoreId::Coles(x) => {
                push_text(&mut out, "[Coles Store ");
                push_decimal(&mut out, *x as u128);
                push_text(&mut out, "](https://www.coles.com.au/find-stores/coles/-/-");
                push_decimal(&mut out, *x as u128);
                push_text(&mut out, ")");
            },
            StoreId::Woolworths(x) => {
                push_text(&mut out, "[Woolworths Store ");
                push_decimal(&mut out, *x as u128);
                push_text(&mut out, "](https://www.woolworths.com.au/shop/storelocator/");
                push_decimal(&mut out, *x as u128);
                push_text(&mut out, ")");
            },
        }
        assert(out@ =~= self.markdown_text());
        out
    }
}

/// Identifiers with the same rank are the same identifier.
pub proof fn lemma_rank_names_store(a: StoreId, b: StoreId)
    requires
        a.rank() == b.rank(),
    ensures
        a == b,
{
}

impl Retailer {
    /// The address under which the retailer's store pages stand.
    pub open spec fn store_link_prefix(self) -> Seq<char> {
        match self {
            Retailer::Coles => "https://www.coles.com.au/find-stores/coles/"@,
            Retailer::Woolworths => "https://www.woolworths.com.au/shop/storelocator/"@,
        }
    }

    /// The store that a number written in decimal names.
    pub open spec fn parsed_store_id(self, id: Seq<char>) -> Option<StoreId> {
        match parsed_u32(id) {
            Some(n) => Some(StoreId::of(self, n)),
            None => None,
        }
    }

    /// The store whose page `url` is: the address starts with the retailer's
    /// prefix, and the store's number follows the last hyphen of the rest.
    pub open spec fn parsed_store_link(self, url: Seq<char>) -> Option<StoreId> {
        let prefix = self.store_link_prefix();
        if prefix.is_prefix_of(url) {
            match split_at_last(url.skip(prefix.len() as int), '-') {
                Some((_, number)) => self.parsed_store_id(number),
                None => None,
            }
        } else {
            None
        }
    }

    /// Reads the number of one of the stores.
    pub fn parse_store_id(&self, id: &str) -> (r: Option<StoreId>)
        ensures
            r == self.parsed_store_id(id@),
    {
        let chars = chars_of(id);
        match parse_u32(chars.as_slice()) {
            Some(n) => Some(StoreId::new(self, n)),
            None => None,
        }
    }

    /// Reads the store from the address of its page.
    pub fn parse_store_link(&self, url: &str) -> (r: Option<StoreId>)
        ensures
            r == self.parsed_store_link(url@),
    {
        let chars = chars_of(url);
        let prefix = match self {
            Retailer::Coles => "https://www.coles.com.au/find-stores/coles/",
            Retailer::Woolworths => "https://www.woolworths.com.au/shop/storelocator/",
        };
        let rest = match strip_prefix(chars.as_slice(), prefix) {
            Some(rest) => rest,
            None => { return None; },
        };
        match split_last(rest, '-') {
            Some((_, number)) => match parse_u32(number) {
                Some(n) => Some(StoreId::new(self, n)),
                None => None,
            },
            None => None,
        }
    }
}

/// The page of a store names the store: whatever stands between the
/// retailer's prefix and the last hyphen, the number after the hyphen is the
/// number of the store.
pub proof fn lemma_store_page_names_store(retailer: Retailer, path: Seq<char>, n: u32)
    ensures
        retailer.parsed_store_link(
            retailer.store_link_prefix() + path.push('-') + decimal_text(n as nat),
        ) == Some(StoreId::of(retailer, n)),
{
    let prefix = retailer.store_link_prefix();
    let digits = decimal_text(n as nat);
    let url = prefix + path.push('-') + digits;
    crate::text::lemma_decimal_round_trip(n as nat);
    crate::text::lemma_parse_what_was_written(n as nat, u32::MAX as nat);
    assert(url.subrange(0, prefix.len() as int) =~= prefix);
    assert(url.skip(prefix.len() as int) =~= path.push('-') + digits);
    crate::text::lemma_split_before_digits(path, '-', digits);
}

impl Vendor {
    /// Reads the number of one of the stores.
    pub fn parse_store_id(&self, id: &str) -> (r: Option<StoreId>)
        ensures
            r == self.as_retailer().parsed_store_id(id@),
    {
        self.retailer().parse_store_id(id)
    }

    /// Reads the store from the address of its page.
    pub fn parse_store_link(&self, url: &str) -> (r: Option<StoreId>)
        ensures
            r == self.as_retailer().parsed_store_link(url@),
    {
        self.retailer().parse_store_link(url)
    }
}

} // verus!
