//! Which products carry a barcode: the products of all retailers under
//! their barcodes, in the order of the barcodes.

use vstd::prelude::*;
use crate::product::{ProductID, ProductId};
use crate::retailer::Retailer;
use crate::sorted::{
    has_key, keys_before, lemma_keys_before, lemma_with_entry_rising, slugs_rising, with_entry,
};
use crate::text::{chars_of, comes_before, same_chars};

verus! {

/// The products under their barcodes.
#[derive(Clone, Debug, PartialEq, Eq)]
pub struct Barcodes {
    pub entries: Vec<(String, Vec<ProductID>)>,
}

/// The number from which on a product of Woolworths is not a product of its
/// own range.
pub const FOREIGN_RANGE: u32 = 1_000_000_000;

impl ProductID {
    /// The place of a product in the order of products: those of Coles come
    /// first, and one retailer's products are ordered by number.
    pub open spec fn rank(self) -> int {
        match self {
            ProductID::Coles(x) => x as int,
            ProductID::Woolworths(x) => 0x1_0000_0000 + x as int,
        }
    }

    /// The product's place in the order of products.
    pub fn position(&self) -> (r: u64)
        ensures
            r == self.rank(),
    {
        match self {
            ProductID::Coles(x) => *x as u64,
            ProductID::Woolworths(x) => 0x1_0000_0000u64 + *x as u64,
        }
    }
}

/// The products under their barcodes, as texts and sequences.
pub open spec fn barcodes_text(entries: Seq<(String, Vec<ProductID>)>) -> Seq<
    (Seq<char>, Seq<ProductID>),
> {
    Seq::new(entries.len(), |i: int| (entries[i].0@, entries[i].1@))
}

/// The products under a barcode.
pub open spec fn listed_under(entries: Seq<(Seq<char>, Seq<ProductID>)>, ean: Seq<char>) -> Seq<
    ProductID,
> {
    if has_key(entries, ean) {
        entries[keys_before(entries, ean)].1
    } else {
        Seq::empty()
    }
}

/// The entries with one more product under a barcode.
pub open spec fn with_product(
    entries: Seq<(Seq<char>, Seq<ProductID>)>,
    ean: Seq<char>,
    id: ProductID,
) -> Seq<(Seq<char>, Seq<ProductID>)> {
    with_entry(entries, ean, listed_under(entries, ean).push(id))
}

/// Whether the feeds' product `id` of `retailer` takes part: it is a number,
/// and at Woolworths one of the retailer's own range.
pub open spec fn listed_product(retailer: Retailer, id: Seq<char>) -> Option<ProductID> {
    match retailer.parsed_product_id(id) {
        Some(ProductId::Coles(x)) => Some(ProductID::Coles(x)),
        Some(ProductId::Woolworths(x)) => if x >= FOREIGN_RANGE {
            None
        } else {
            Some(ProductID::Woolworths(x))
        },
        None => None,
    }
}

/// The entries with `id` under the first `n` of some barcodes.
pub open spec fn with_products(
    entries: Seq<(Seq<char>, Seq<ProductID>)>,
    eans: Seq<String>,
    id: ProductID,
    n: int,
) -> Seq<(Seq<char>, Seq<ProductID>)>
    decreases n,
{
    if n <= 0 {
        entries
    } else {
        with_product(with_products(entries, eans, id, n - 1), eans[n - 1]@, id)
    }
}

/// How many products at the beginning come before `id` or are `id`.
pub open spec fn not_after(sorted: Seq<ProductID>, id: ProductID) -> int
    decreases sorted.len(),
{
    if sorted.len() == 0 || sorted[0].rank() > id.rank() {
        0
    } else {
        1 + not_after(sorted.skip(1), id)
    }
}

/// The first `n` products in rising order.
pub open spec fn in_order(products: Seq<ProductID>, n: int) -> Seq<ProductID>
    decreases n,
{
    if n <= 0 {
        Seq::empty()
    } else {
        let sorted = in_order(products, n - 1);
        sorted.insert(not_after(sorted, products[n - 1]), products[n - 1])
    }
}

/// Whether products stand in rising order.
pub open spec fn products_rising(products: Seq<ProductID>) -> bool {
    forall|a: int, b: int|
        0 <= a < b < products.len() ==> (#[trigger] products[a]).rank() <= (
        #[trigger] products[b]).rank()
}

/// Where a product goes among products in rising order.
pub proof fn lemma_not_after(sorted: Seq<ProductID>, id: ProductID)
    requires
        products_rising(sorted),
    ensures
        0 <= not_after(sorted, id) <= sorted.len(),
        forall|a: int| 0 <= a < not_after(sorted, id) ==> (#[trigger] sorted[a]).rank() <= id.rank(),
        forall|a: int|
            not_after(sorted, id) <= a < sorted.len() ==> (#[trigger] sorted[a]).rank() > id.rank(),
    decreases sorted.len(),
{
    if sorted.len() == 0 {
    } else if sorted[0].rank() > id.rank() {
        assert forall|a: int| 0 <= a < sorted.len() implies (#[trigger] sorted[a]).rank()
            > id.rank() by {
            if a > 0 {
                assert(sorted[0].rank() <= sorted[a].rank());
            }
        }
    } else {
        let rest = sorted.skip(1);
        assert forall|a: int, b: int| 0 <= a < b < rest.len() implies (
        #[trigger] rest[a]).rank() <= (#[trigger] rest[b]).rank() by {
            assert(rest[a] == sorted[a + 1]);
            assert(rest[b] == sorted[b + 1]);
        }
        lemma_not_after(rest, id);
        let k = not_after(rest, id);
        assert forall|a: int| 0 <= a < k + 1 implies (#[trigger] sorted[a]).rank()
            <= id.rank() by {
            if a > 0 {
                assert(sorted[a] == rest[a - 1]);
            }
        }
        assert forall|a: int| k + 1 <= a < sorted.len() implies (#[trigger] sorted[a]).rank()
            > id.rank() by {
            assert(sorted[a] == rest[a - 1]);
        }
    }
}

/// Products put in order stand in rising order, and they are the same
/// products as before.
pub proof fn lemma_in_order(products: Seq<ProductID>, n: int)
    requires
        0 <= n <= products.len(),
    ensures
        products_rising(in_order(products, n)),
        in_order(products, n).to_multiset() == products.take(n).to_multiset(),
    decreases n,
{
    broadcast use vstd::seq_lib::group_to_multiset_ensures;

    if n > 0 {
        lemma_in_order(products, n - 1);
        let sorted = in_order(products, n - 1);
        let id = products[n - 1];
        lemma_not_after(sorted, id);
        let pos = not_after(sorted, id);
        let after = sorted.insert(pos, id);
        assert forall|a: int, b: int| 0 <= a < b < after.len() implies (
        #[trigger] after[a]).rank() <= (#[trigger] after[b]).rank() by {
            let oa = if a < pos { a } else { a - 1 };
            let ob = if b < pos { b } else { b - 1 };
            if a != pos {
                assert(after[a] == sorted[oa]);
            }
            if b != pos {
                assert(after[b] == sorted[ob]);
            }
        }
        assert(products.take(n) =~= products.take(n - 1).push(id));
        assert(after.to_multiset() =~= sorted.to_multiset().insert(id));
    } else {
        assert(products.take(0) =~= Seq::<ProductID>::empty());
    }
}

/// The entries with the products under every barcode in rising order.
pub open spec fn all_in_order(entries: Seq<(Seq<char>, Seq<ProductID>)>) -> Seq<
    (Seq<char>, Seq<ProductID>),
> {
    Seq::new(
        entries.len(),
        |i: int| (entries[i].0, in_order(entries[i].1, entries[i].1.len() as int)),
    )
}

/// The products in rising order.
pub fn sort_products(products: &Vec<ProductID>) -> (r: Vec<ProductID>)
    ensures
        r@ == in_order(products@, products@.len() as int),
{
    let mut sorted: Vec<ProductID> = Vec::new();
    let mut n: usize = 0;
    while n < products.len()
        invariant
            n <= products@.len(),
            sorted@ == in_order(products@, n as int),
        decreases products@.len() - n,
    {
        let id = products[n];
        let mut pos: usize = 0;
        assert(sorted@.skip(0) == sorted@);
        while pos < sorted.len() && sorted[pos].position() <= id.position()
            invariant
                pos <= sorted@.len(),
                not_after(sorted@, id) == pos + not_after(sorted@.skip(pos as int), id),
            decreases sorted@.len() - pos,
        {
            assert(sorted@.skip(pos as int)[0] == sorted@[pos as int]);
            assert(sorted@.skip(pos as int).skip(1) == sorted@.skip(pos + 1));
            pos += 1;
        }
        proof {
            if pos < sorted@.len() {
                assert(sorted@.skip(pos as int)[0] == sorted@[pos as int]);
            }
        }
        sorted.insert(pos, id);
        n += 1;
    }
    sorted
}

/// Where the products under `key` stand or would stand.
fn place(entries: &Vec<(String, Vec<ProductID>)>, key: &[char]) -> (pos: usize)
    ensures
        pos == keys_before(barcodes_text(entries@), key@),
        pos <= entries@.len(),
{
    let ghost all = barcodes_text(entries@);
    let mut pos: usize = 0;
    assert(all.skip(0) == all);
    loop
        invariant
            pos <= entries@.len(),
            all == barcodes_text(entries@),
            keys_before(all, key@) == pos + keys_before(all.skip(pos as int), key@),
        decreases entries@.len() - pos,
    {
        if pos >= entries.len() {
            return pos;
        }
        let held = chars_of(entries[pos].0.as_str());
        assert(all.skip(pos as int)[0] == all[pos as int]);
        if !comes_before(held.as_slice(), key) {
            return pos;
        }
        assert(all.skip(pos as int).skip(1) == all.skip(pos + 1));
        pos += 1;
    }
}

impl Barcodes {
    /// The barcodes stand in rising order, each once.
    pub open spec fn wf(self) -> bool {
        slugs_rising(barcodes_text(self.entries@))
    }

    /// No barcodes.
    pub fn new() -> (r: Barcodes)
        ensures
            r.wf(),
            r.entries@.len() == 0,
    {
        Barcodes { entries: Vec::new() }
    }

    /// Puts one more product under a barcode.
    pub fn add(&mut self, ean: &str, id: ProductID)
        requires
            old(self).wf(),
        ensures
            final(self).wf(),
            barcodes_text(final(self).entries@) == with_product(
                barcodes_text(old(self).entries@),
                ean@,
                id,
            ),
    {
        let ghost before = barcodes_text(self.entries@);
        let key = chars_of(ean);
        let pos = place(&self.entries, key.as_slice());
        proof {
            lemma_keys_before(before, ean@);
            lemma_with_entry_rising(before, ean@, listed_under(before, ean@).push(id));
        }
        let there = if pos < self.entries.len() {
            let held = chars_of(self.entries[pos].0.as_str());
            assert(before[pos as int].0 == held@);
            same_chars(held.as_slice(), key.as_slice())
        } else {
            false
        };
        if there {
            let mut products = Vec::new();
            let mut k: usize = 0;
            while k < self.entries[pos].1.len()
                invariant
                    pos < self.entries@.len(),
                    k <= self.entries@[pos as int].1@.len(),
                    products@ == self.entries@[pos as int].1@.take(k as int),
                decreases self.entries@[pos as int].1@.len() - k,
            {
                products.push(self.entries[pos].1[k]);
                k += 1;
            }
            assert(self.entries@[pos as int].1@.take(k as int) == self.entries@[pos as int].1@);
            products.push(id);
            self.entries[pos] = (crate::text::string_of(key.as_slice()), products);
            assert(barcodes_text(self.entries@) =~= before.update(
                pos as int,
                (ean@, listed_under(before, ean@).push(id)),
            ));
        } else {
            let mut products = Vec::new();
            products.push(id);
            self.entries.insert(pos, (crate::text::string_of(key.as_slice()), products));
            assert(products@ =~= listed_under(before, ean@).push(id));
            assert(barcodes_text(self.entries@) =~= before.insert(
                pos as int,
                (ean@, listed_under(before, ean@).push(id)),
            ));
        }
    }

    /// Puts a product of a retailer's feed under each of its barcodes, if
    /// the product takes part.
    pub fn record(&mut self, retailer: &Retailer, id: &str, eans: &Vec<String>)
        requires
            old(self).wf(),
        ensures
            final(self).wf(),
            barcodes_text(final(self).entries@) == (match listed_product(*retailer, id@) {
                Some(p) => with_products(
                    barcodes_text(old(self).entries@),
                    eans@,
                    p,
                    eans@.len() as int,
                ),
                None => barcodes_text(old(self).entries@),
            }),
    {
        let product = match retailer.parse_product_id(id) {
            Some(ProductId::Coles(x)) => ProductID::Coles(x),
            Some(ProductId::Woolworths(x)) => {
                if x >= FOREIGN_RANGE {
                    return ;
                }
                ProductID::Woolworths(x)
            },
            None => { return ; },
        };
        let mut i: usize = 0;
        while i < eans.len()
            invariant
                i <= eans@.len(),
                self.wf(),
                barcodes_text(self.entries@) == with_products(
                    barcodes_text(old(self).entries@),
                    eans@,
                    product,
                    i as int,
                ),
            decreases eans@.len() - i,
        {
            self.add(eans[i].as_str(), product);
            i += 1;
        }
    }

    /// The products under their barcodes, each barcode's products in rising
    /// order.
    pub fn sorted(&self) -> (r: Vec<(String, Vec<ProductID>)>)
        ensures
            barcodes_text(r@) == all_in_order(barcodes_text(self.entries@)),
    {
        let mut out: Vec<(String, Vec<ProductID>)> = Vec::new();
        let mut i: usize = 0;
        while i < self.entries.len()
            invariant
                i <= self.entries@.len(),
                barcodes_text(out@) == all_in_order(barcodes_text(self.entries@)).take(i as int),
            decreases self.entries@.len() - i,
        {
            let ghost was = out@;
            let ghost all = barcodes_text(self.entries@);
            let products = sort_products(&self.entries[i].1);
            let ean = self.entries[i].0.clone();
            assert(all[i as int] == (self.entries@[i as int].0@, self.entries@[i as int].1@));
            assert((ean@, products@) == all_in_order(all)[i as int]);
            out.push((ean, products));
            assert(barcodes_text(out@) =~= barcodes_text(was).push(all_in_order(all)[i as int]));
            assert(all_in_order(all).take(i + 1) =~= all_in_order(all).take(i as int).push(
                all_in_order(all)[i as int],
            ));
            i += 1;
        }
        assert(all_in_order(barcodes_text(self.entries@)).take(i as int) =~= all_in_order(
            barcodes_text(self.entries@),
        ));
        out
    }
}

} // verus!
