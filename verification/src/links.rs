//! Links to the retailers' product pages.

use vstd::prelude::*;
use crate::product::ProductID;
use crate::retailer::Retailer;
use crate::text::{
    chars_of, comes_before, decimal_text, is_text, parse_u32, parsed_u32, push_decimal, push_text,
    split_at_first, split_at_last, split_first, split_last, string_of, strip_prefix, text_before,
};

verus! {

/// A link: the page of a product at one of the retailers, or any other
/// address.
#[derive(Clone, Debug, PartialEq, Eq)]
pub enum Link {
    ColesProduct { slug: String, id: u32 },
    WoolworthsProduct { slug: String, id: u32 },
    Unknown(String),
}

/// A link with its texts as sequences of characters.
pub enum LinkText {
    ColesProduct { slug: Seq<char>, id: u32 },
    WoolworthsProduct { slug: Seq<char>, id: u32 },
    Unknown(Seq<char>),
}

/// Why a link could not be read.
#[derive(Clone, Copy, Debug, PartialEq, Eq, Structural)]
pub enum LinkError {
    /// The address of a product page lacks the mark that sets the number
    /// apart.
    InvalidLink,
    /// What should be the product's number is no number.
    InvalidNumber,
}

impl View for Link {
    type V = LinkText;

    open spec fn view(&self) -> LinkText {
        match self {
            Link::ColesProduct { slug, id } => LinkText::ColesProduct { slug: slug@, id: *id },
            Link::WoolworthsProduct { slug, id } => LinkText::WoolworthsProduct {
                slug: slug@,
                id: *id,
            },
            Link::Unknown(url) => LinkText::Unknown(url@),
        }
    }
}

impl LinkText {
    /// The address that the link stands for.
    pub open spec fn url_text(self) -> Seq<char> {
        match self {
            LinkText::ColesProduct { slug, id } => "https://www.coles.com.au/product/"@ + slug
                + "-"@ + decimal_text(id as nat),
            LinkText::WoolworthsProduct { slug, id } =>
                "https://www.woolworths.com.au/shop/productdetails/"@ + decimal_text(id as nat)
                    + "/"@ + slug,
            LinkText::Unknown(url) => url,
        }
    }

    /// The product that the link leads to.
    pub open spec fn product(self) -> Option<ProductID> {
        match self {
            LinkText::ColesProduct { slug, id } => Some(ProductID::Coles(id)),
            LinkText::WoolworthsProduct { slug, id } => Some(ProductID::Woolworths(id)),
            LinkText::Unknown(_) => None,
        }
    }

    /// The name of the product in the address.
    pub open spec fn slug_text(self) -> Option<Seq<char>> {
        match self {
            LinkText::ColesProduct { slug, id } => Some(slug),
            LinkText::WoolworthsProduct { slug, id } => Some(slug),
            LinkText::Unknown(_) => None,
        }
    }
}

/// The link that an address is. Under the product pages of Coles the number
/// follows the last hyphen; under those of Woolworths it stands before the
/// first slash, and the address that ends with the bare prefix and a slash is
/// no product page.
pub open spec fn parsed_link(url: Seq<char>) -> Result<LinkText, LinkError> {
    let coles = Retailer::Coles.product_link_prefix();
    let woolworths = Retailer::Woolworths.product_link_prefix();
    if coles.is_prefix_of(url) {
        match split_at_last(url.skip(coles.len() as int), '-') {
            Some((slug, number)) => match parsed_u32(number) {
                Some(id) => Ok(LinkText::ColesProduct { slug, id }),
                None => Err(LinkError::InvalidNumber),
            },
            None => Err(LinkError::InvalidLink),
        }
    } else if woolworths.is_prefix_of(url) && url.skip(woolworths.len() as int) != "/"@ {
        match split_at_first(url.skip(woolworths.len() as int), '/') {
            Some((number, slug)) => match parsed_u32(number) {
                Some(id) => Ok(LinkText::WoolworthsProduct { slug, id }),
                None => Err(LinkError::InvalidNumber),
            },
            None => Err(LinkError::InvalidLink),
        }
    } else {
        Ok(LinkText::Unknown(url))
    }
}

impl Link {
    /// The address that the link stands for.
    pub fn url(&self) -> (r: String)
        ensures
            r@ == self@.url_text(),
    {
        let mut out = String::new();
        match self {
            Link::ColesProduct { slug, id } => {
                push_text(&mut out, "https://www.coles.com.au/product/");
                push_text(&mut out, slug.as_str());
                push_text(&mut out, "-");
                push_decimal(&mut out, *id as u128);
            },
            Link::WoolworthsProduct { slug, id } => {
                push_text(&mut out, "https://www.woolworths.com.au/shop/productdetails/");
                push_decimal(&mut out, *id as u128);
                push_text(&mut out, "/");
                push_text(&mut out, slug.as_str());
            },
            Link::Unknown(url) => {
                push_text(&mut out, url.as_str());
            },
        }
        assert(out@ =~= self@.url_text());
        out
    }

    /// The name of the product in the address, for a link to a product.
    pub fn slug(&self) -> (r: Option<&str>)
        ensures
            match r {
                Some(s) => self@.slug_text() == Some(s@),
                None => self@.slug_text() is None,
            },
    {
        match self {
            Link::ColesProduct { slug, .. } => Some(slug.as_str()),
            Link::WoolworthsProduct { slug, .. } => Some(slug.as_str()),
            _ => None,
        }
    }

    /// The product that the link leads to, if it leads to one.
    pub fn product_id(&self) -> (r: Option<ProductID>)
        ensures
            r == self@.product(),
    {
        match self {
            Link::ColesProduct { id, .. } => Some(ProductID::Coles(*id)),
            Link::WoolworthsProduct { id, .. } => Some(ProductID::Woolworths(*id)),
            _ => None,
        }
    }

    /// Reads a link from an address.
    pub fn parse(url: &str) -> (r: Result<Link, LinkError>)
        ensures
            match r {
                Ok(link) => parsed_link(url@) == Ok::<LinkText, LinkError>(link@),
                Err(e) => parsed_link(url@) == Err::<LinkText, LinkError>(e),
            },
    {
        let chars = chars_of(url);
        match strip_prefix(chars.as_slice(), "https://www.coles.com.au/product/") {
            Some(page) => {
                return match split_last(page, '-') {
                    Some((slug, number)) => match parse_u32(number) {
                        Some(id) => Ok(Link::ColesProduct { slug: string_of(slug), id }),
                        None => Err(LinkError::InvalidNumber),
                    },
                    None => Err(LinkError::InvalidLink),
                };
            },
            None => {},
        }
        match strip_prefix(chars.as_slice(), "https://www.woolworths.com.au/shop/productdetails/") {
            Some(page) => {
                if !is_text(page, "/") {
                    return match split_first(page, '/') {
                        Some((number, slug)) => match parse_u32(number) {
                            Some(id) => Ok(Link::WoolworthsProduct { slug: string_of(slug), id }),
                            None => Err(LinkError::InvalidNumber),
                        },
                        None => Err(LinkError::InvalidLink),
                    };
                }
            },
            None => {},
        }
        Ok(Link::Unknown(string_of(chars.as_slice())))
    }
}

impl core::str::FromStr for Link {
    type Err = LinkError;

    /// Reads a link from an address, as `Link::parse` does.
    fn from_str(url: &str) -> (r: Result<Link, LinkError>)
        ensures
            match r {
                Ok(link) => parsed_link(url@) == Ok::<LinkText, LinkError>(link@),
                Err(e) => parsed_link(url@) == Err::<LinkText, LinkError>(e),
            },
    {
        Link::parse(url)
    }
}

/// Some links with their texts as sequences of characters.
pub open spec fn links_text(links: Seq<Link>) -> Seq<LinkText> {
    Seq::new(links.len(), |i: int| links[i]@)
}

/// Whether link `j` leads to a product that an earlier link leads to.
pub open spec fn repeats(links: Seq<LinkText>, j: int) -> bool {
    &&& 0 <= j < links.len()
    &&& links[j].product() is Some
    &&& exists|i: int| 0 <= i < j && (#[trigger] links[i]).product() == links[j].product()
}

/// Whether one of the links leads to `product`.
pub open spec fn known(links: Seq<LinkText>, product: ProductID) -> bool {
    exists|i: int| 0 <= i < links.len() && (#[trigger] links[i]).product() == Some(product)
}

/// Whether a link is missing among the known links: it leads to a product
/// that none of them leads to.
pub open spec fn is_missing(known_links: Seq<LinkText>, link: LinkText) -> bool {
    link.product() is Some && !known(known_links, link.product()->0)
}

/// The name of the product in a link to a product, and nothing for another.
pub open spec fn slug_or_nothing(link: LinkText) -> Seq<char> {
    match link.slug_text() {
        Some(s) => s,
        None => Seq::empty(),
    }
}

/// How many links at the beginning have a name before that of `link`.
pub open spec fn named_before(sorted: Seq<LinkText>, link: LinkText) -> int
    decreases sorted.len(),
{
    if sorted.len() == 0 || !text_before(slug_or_nothing(sorted[0]), slug_or_nothing(link)) {
        0
    } else {
        1 + named_before(sorted.skip(1), link)
    }
}

/// The missing links among those from position `k` on, in the order of their
/// names; links of one name stay in the order in which they come.
pub open spec fn missing_from(known_links: Seq<LinkText>, all: Seq<LinkText>, k: int) -> Seq<
    LinkText,
>
    decreases all.len() - k,
{
    if k >= all.len() || k < 0 {
        Seq::empty()
    } else {
        let later = missing_from(known_links, all, k + 1);
        if is_missing(known_links, all[k]) {
            later.insert(named_before(later, all[k]), all[k])
        } else {
            later
        }
    }
}

/// The number of a product among all products of both retailers.
fn product_number(id: &ProductID) -> (r: u64)
    ensures
        r == (match id {
            ProductID::Coles(x) => *x as int,
            ProductID::Woolworths(x) => 0x1_0000_0000 + *x as int,
        }),
{
    match id {
        ProductID::Coles(x) => *x as u64,
        ProductID::Woolworths(x) => 0x1_0000_0000u64 + *x as u64,
    }
}

/// Whether two products are the same product.
fn same_product(a: &ProductID, b: &ProductID) -> (r: bool)
    ensures
        r == (*a == *b),
{
    product_number(a) == product_number(b)
}

/// Whether one of the links leads to `product`.
fn is_known(links: &Vec<Link>, product: &ProductID) -> (r: bool)
    ensures
        r == known(links_text(links@), *product),
{
    let mut i: usize = 0;
    while i < links.len()
        invariant
            i <= links@.len(),
            forall|k: int| 0 <= k < i ==> (#[trigger] links_text(links@)[k]).product() != Some(
                *product,
            ),
        decreases links@.len() - i,
    {
        assert(links_text(links@)[i as int] == links@[i as int]@);
        match links[i].product_id() {
            Some(p) => {
                if same_product(&p, product) {
                    return true;
                }
            },
            None => {},
        }
        i += 1;
    }
    false
}

/// The first link that leads to a product that an earlier link leads to.
pub fn first_repeated(links: &Vec<Link>) -> (r: Option<usize>)
    ensures
        match r {
            Some(j) => repeats(links_text(links@), j as int) && forall|k: int|
                0 <= k < j ==> !repeats(links_text(links@), k),
            None => forall|k: int| 0 <= k < links@.len() ==> !repeats(links_text(links@), k),
        },
{
    let ghost all = links_text(links@);
    let mut j: usize = 0;
    while j < links.len()
        invariant
            j <= links@.len(),
            all == links_text(links@),
            forall|k: int| 0 <= k < j ==> !repeats(all, k),
        decreases links@.len() - j,
    {
        assert(all[j as int] == links@[j as int]@);
        match links[j].product_id() {
            Some(p) => {
                let mut i: usize = 0;
                while i < j
                    invariant
                        i <= j < links@.len(),
                        all == links_text(links@),
                        all[j as int].product() == Some(p),
                        forall|k: int| 0 <= k < j ==> !repeats(all, k),
                        forall|k: int| 0 <= k < i ==> (#[trigger] all[k]).product() != Some(p),
                    decreases j - i,
                {
                    assert(all[i as int] == links@[i as int]@);
                    match links[i].product_id() {
                        Some(q) => {
                            if same_product(&q, &p) {
                                assert(all[i as int].product() == all[j as int].product());
                                return Some(j);
                            }
                        },
                        None => {},
                    }
                    i += 1;
                }
            },
            None => {},
        }
        j += 1;
    }
    None
}

/// The links of `all` that lead to products to which none of the known links
/// leads, in the order of the products' names.
pub fn missing_links(known_links: &Vec<Link>, all: Vec<Link>) -> (r: Vec<Link>)
    ensures
        links_text(r@) == missing_from(links_text(known_links@), links_text(all@), 0),
{
    let ghost wanted = links_text(known_links@);
    let ghost every = links_text(all@);
    let mut all = all;
    let mut missing: Vec<Link> = Vec::new();
    assert(links_text(missing@) =~= missing_from(wanted, every, every.len() as int));
    while all.len() > 0
        invariant
            wanted == links_text(known_links@),
            all@.len() <= every.len(),
            links_text(all@) == every.take(all@.len() as int),
            links_text(missing@) == missing_from(wanted, every, all@.len() as int),
        decreases all@.len(),
    {
        let ghost k = all@.len() - 1;
        let ghost later = links_text(missing@);
        let ghost before = all@;
        let link = all.pop().unwrap();
        assert(link@ == every[k]) by {
            assert(links_text(before)[k] == before[k]@);
        }
        assert(links_text(all@) =~= every.take(k));
        let wanted_here = match link.product_id() {
            Some(p) => !is_known(known_links, &p),
            None => false,
        };
        assert(wanted_here == is_missing(wanted, link@));
        if wanted_here {
            let name = match link.slug() {
                Some(s) => chars_of(s),
                None => Vec::new(),
            };
            assert(name@ == slug_or_nothing(link@));
            let mut pos: usize = 0;
            assert(later.skip(0) == later);
            loop
                invariant_except_break
                    pos <= missing@.len(),
                    later == links_text(missing@),
                    name@ == slug_or_nothing(link@),
                    named_before(later, link@) == pos + named_before(later.skip(pos as int), link@),
                ensures
                    pos <= missing@.len(),
                    later == links_text(missing@),
                    pos == named_before(later, link@),
                decreases missing@.len() - pos,
            {
                if pos >= missing.len() {
                    break;
                }
                let held = match missing[pos].slug() {
                    Some(s) => chars_of(s),
                    None => Vec::new(),
                };
                assert(later.skip(pos as int)[0] == later[pos as int]);
                assert(later[pos as int] == missing@[pos as int]@);
                if !comes_before(held.as_slice(), name.as_slice()) {
                    break;
                }
                assert(later.skip(pos as int).skip(1) == later.skip(pos + 1));
                pos += 1;
            }
            missing.insert(pos, link);
            assert(links_text(missing@) =~= later.insert(pos as int, every[k]));
        }
    }
    missing
}

} // verus!
