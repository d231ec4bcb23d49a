//! Ranks of products and of stores: how often and at how many stores a
//! product has a price, and how many prices a store has.

use std::collections::BTreeMap;
use vstd::prelude::*;

verus! {

broadcast use {vstd::std_specs::btree::group_btree_axioms, vstd::laws_cmp::group_laws_cmp};

/// The points of products and of stores.
#[derive(Debug)]
pub struct Ranking {
    pub products: BTreeMap<u32, usize>,
    pub stores: BTreeMap<u32, usize>,
}

/// The number `n`, or the greatest number where `n` is greater.
pub open spec fn capped(n: int) -> usize {
    if n > usize::MAX {
        usize::MAX
    } else {
        n as usize
    }
}

/// The points that a price with `discounts` discounts gives: one, and two
/// for each discount.
pub open spec fn points_for(discounts: usize) -> usize {
    capped(1 + capped(discounts * 2))
}

/// The points of the products once a price of `product` that holds at
/// `stores` stores was counted: a product that has points gets the points of
/// the price for each store; a product without points gets one point for
/// each store.
pub open spec fn products_after(
    before: Map<u32, usize>,
    product: u32,
    stores: nat,
    points: usize,
) -> Map<u32, usize> {
    if before.contains_key(product) {
        before.insert(product, capped(before[product] + capped(stores * points)))
    } else {
        before.insert(product, capped(stores as int))
    }
}

/// The points of the stores once `points` were given for each of the first
/// `n` stores: a store that has points gets the points; one without gets one
/// point.
pub open spec fn stores_after(before: Map<u32, usize>, stores: Seq<u32>, n: int, points: usize)
    -> Map<u32, usize>
    decreases n,
{
    if n <= 0 {
        before
    } else {
        let so_far = stores_after(before, stores, n - 1, points);
        let store = stores[n - 1];
        if so_far.contains_key(store) {
            so_far.insert(store, capped(so_far[store] + points))
        } else {
            so_far.insert(store, 1)
        }
    }
}

/// The sum of two counts, or the greatest number where the sum is greater.
fn plus(a: usize, b: usize) -> (r: usize)
    ensures
        r == capped(a + b),
{
    if a > usize::MAX - b {
        usize::MAX
    } else {
        a + b
    }
}

/// The product of two counts, or the greatest number where the product is
/// greater.
fn times(a: usize, b: usize) -> (r: usize)
    ensures
        r == capped(a * b),
{
    if a != 0 && b > usize::MAX / a {
        proof {
            assert(a * b > usize::MAX) by (nonlinear_arith)
                requires
                    a > 0,
                    b > usize::MAX / a,
            ;
        }
        usize::MAX
    } else {
        proof {
            assert(a * b <= usize::MAX) by (nonlinear_arith)
                requires
                    a == 0 || b <= usize::MAX / a,
            ;
        }
        a * b
    }
}

impl Ranking {
    /// No points.
    pub fn new() -> (r: Ranking)
        ensures
            r.products@ == Map::<u32, usize>::empty(),
            r.stores@ == Map::<u32, usize>::empty(),
    {
        Ranking { products: BTreeMap::new(), stores: BTreeMap::new() }
    }

    /// Counts one price of a product: the price holds at `stores` and comes
    /// with `discounts` discounts.
    pub fn tally(&mut self, product: u32, stores: &Vec<u32>, discounts: usize)
        ensures
            final(self).products@ == products_after(
                old(self).products@,
                product,
                stores@.len(),
                points_for(discounts),
            ),
            final(self).stores@ == stores_after(
                old(self).stores@,
                stores@,
                stores@.len() as int,
                points_for(discounts),
            ),
    {
        let points = plus(1, times(discounts, 2));
        let held = match self.products.get(&product) {
            Some(x) => Some(*x),
            None => None,
        };
        match held {
            Some(x) => {
                let gain = times(stores.len(), points);
                self.products.insert(product, plus(x, gain));
            },
            None => {
                self.products.insert(product, stores.len());
            },
        }
        let ghost products = self.products@;
        let ghost before = self.stores@;
        let mut i: usize = 0;
        while i < stores.len()
            invariant
                i <= stores@.len(),
                self.products@ == products,
                self.stores@ == stores_after(before, stores@, i as int, points),
            decreases stores@.len() - i,
        {
            let store = stores[i];
            let seen = match self.stores.get(&store) {
                Some(x) => Some(*x),
                None => None,
            };
            match seen {
                Some(x) => {
                    self.stores.insert(store, plus(x, points));
                },
                None => {
                    self.stores.insert(store, 1);
                },
            }
            i += 1;
        }
    }
}

/// The least number of points above which a product is worth listing.
pub const WORTH_LISTING: usize = 1000;

/// What to do with a product of a feed.
#[derive(Clone, Copy, Debug, PartialEq, Eq, Structural)]
pub enum Listing {
    /// The product has enough points: it is listed.
    Listed,
    /// The product has too few points: it is passed over and counted.
    Skipped,
    /// The product has no points at all: it is passed over without a word.
    Unranked,
}

/// What to do with a product that has the given points, if it has any.
pub fn listing(rank: Option<usize>) -> (r: Listing)
    ensures
        r == match rank {
            Some(points) => if points > WORTH_LISTING {
                Listing::Listed
            } else {
                Listing::Skipped
            },
            None => Listing::Unranked,
        },
{
    match rank {
        Some(points) => if points > WORTH_LISTING {
            Listing::Listed
        } else {
            Listing::Skipped
        },
        None => Listing::Unranked,
    }
}

} // verus!
