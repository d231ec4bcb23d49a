use priceshark::address::State;
use priceshark::helper::{
    common_prefix, has_bytes, size_completion, split_last_token, starting_with, token_completion,
    token_suggestions,
};
use priceshark::links::{Link, LinkError};
use priceshark::prices::PromotionType;
use priceshark::size::{Container, Unit};
use priceshark::{slug, title_case, OsmId, ParseOsmIdError, ProductID, ProductId, Retailer, StoreId, Vendor};

#[test]
fn retailer_names() {
    assert_eq!(Retailer::all(), vec![Retailer::Coles, Retailer::Woolworths]);
    assert_eq!(Retailer::Coles.slug(), "coles");
    assert_eq!(Retailer::Woolworths.slug(), "woolworths");
    assert_eq!(Retailer::Coles.wikidata(), "Q1108172");
    assert_eq!(Retailer::Woolworths.wikidata(), "Q3249145");
    assert_eq!(Retailer::Coles.domain(), "coles.com.au");
    assert_eq!(Retailer::Woolworths.domain(), "woolworths.com.au");
    assert_eq!(Retailer::Woolworths.name(), "Woolworths");
}

#[test]
fn vendor_names() {
    assert_eq!(Vendor::all(), vec![Vendor::Coles, Vendor::Woolworths]);
    assert_eq!(Vendor::Coles.name(), "Coles");
    assert_eq!(Vendor::Woolworths.slug(), "woolworths");
    assert_eq!(Vendor::from_slug("coles"), Some(Vendor::Coles));
    assert_eq!(Vendor::from_slug("woolworths"), Some(Vendor::Woolworths));
    assert_eq!(Vendor::from_slug("aldi"), None);
    assert_eq!(Vendor::Coles.retailer(), Retailer::Coles);
}

#[test]
fn store_ids() {
    let c = StoreId::Coles(12);
    let w = StoreId::Woolworths(3);
    assert_eq!(c.retailer(), Retailer::Coles);
    assert_eq!(w.vendor(), Vendor::Woolworths);
    assert_eq!(c.coles(), Some(12));
    assert_eq!(c.woolworths(), None);
    assert_eq!(w.woolworths(), Some(3));
    assert_eq!(w.coles(), None);
    assert!(c.precedes(&w));
    assert!(!w.precedes(&c));
    assert!(StoreId::Coles(u32::MAX).precedes(&StoreId::Woolworths(0)));
    assert_eq!(c < w, c.precedes(&w));
    assert_eq!(
        c.markdown(),
        "[Coles Store 12](https://www.coles.com.au/find-stores/coles/-/-12)"
    );
    assert_eq!(
        w.markdown(),
        "[Woolworths Store 3](https://www.woolworths.com.au/shop/storelocator/3)"
    );
    assert_eq!(Retailer::Coles.parse_store_id("0042"), Some(StoreId::Coles(42)));
    assert_eq!(Retailer::Woolworths.parse_store_id("+7"), Some(StoreId::Woolworths(7)));
    assert_eq!(Retailer::Coles.parse_store_id("-7"), None);
    assert_eq!(Retailer::Coles.parse_store_id(""), None);
    assert_eq!(Retailer::Coles.parse_store_id("+"), None);
    assert_eq!(Retailer::Coles.parse_store_id("4294967295"), Some(StoreId::Coles(u32::MAX)));
    assert_eq!(Retailer::Coles.parse_store_id("4294967296"), None);
    assert_eq!(Retailer::Coles.parse_store_id("12a"), None);
    assert_eq!(Vendor::Woolworths.parse_store_id("15"), Some(StoreId::Woolworths(15)));
}

#[test]
fn store_links_that_name_no_store() {
    assert_eq!(
        Retailer::Coles.parse_store_link("https://www.woolworths.com.au/shop/storelocator/slug-1234"),
        None
    );
    assert_eq!(
        Retailer::Coles.parse_store_link("https://www.coles.com.au/find-stores/coles/state/slug"),
        None
    );
    assert_eq!(
        Retailer::Coles.parse_store_link("https://www.coles.com.au/find-stores/coles/state/slug-"),
        None
    );
    assert_eq!(
        Retailer::Coles.parse_store_link("https://www.coles.com.au/find-stores/coles/a-1-b-22"),
        Some(StoreId::Coles(22))
    );
    assert_eq!(Retailer::Coles.parse_store_link(""), None);
}

#[test]
fn product_ids() {
    assert_eq!(ProductId::Coles(5).retailer(), Retailer::Coles);
    assert_eq!(ProductId::Woolworths(5).retailer(), Retailer::Woolworths);
    assert_eq!(ProductId::Coles(5).coles(), Some(5));
    assert_eq!(ProductId::Coles(5).woolworths(), None);
    assert_eq!(ProductId::Woolworths(6).woolworths(), Some(6));
    assert_eq!(ProductID::Woolworths(6).retailer(), Retailer::Woolworths);
    assert_eq!(ProductID::Coles(6).coles(), Some(6));
    assert_eq!(ProductID::Coles(6).woolworths(), None);
    assert_eq!(ProductID::Coles(6).tmp(), 6);
    assert_eq!(ProductID::Woolworths(9).tmp(), 9);
    assert_eq!(ProductID::of_product(ProductId::Woolworths(4)), ProductID::Woolworths(4));
    assert_eq!(Retailer::Coles.parse_product_id("77"), Some(ProductId::Coles(77)));
    assert_eq!(Retailer::Woolworths.parse_product_id("x"), None);
}

#[test]
fn osm_ids() {
    assert_eq!(OsmId::Node(123).to_text(), "n123");
    assert_eq!(OsmId::Relation(0).to_text(), "r0");
    assert_eq!(OsmId::Way(18446744073709551615).to_text(), "w18446744073709551615");
    assert_eq!(OsmId::Node(7).overpass(), "node(7)");
    assert_eq!(OsmId::Relation(70).overpass(), "relation(70)");
    assert_eq!(OsmId::Way(700).overpass(), "way(700)");
    assert_eq!(
        OsmId::Way(45).markdown(),
        "[w45](https://www.openstreetmap.org/way/45)"
    );
    assert_eq!(OsmId::parse("n123"), Ok(OsmId::Node(123)));
    assert_eq!(OsmId::parse("w10"), Ok(OsmId::Way(10)));
    assert_eq!(OsmId::parse("r99"), Ok(OsmId::Relation(99)));
    assert_eq!(OsmId::parse("n1"), Err(ParseOsmIdError));
    assert_eq!(OsmId::parse("x123"), Err(ParseOsmIdError));
    assert_eq!(OsmId::parse("n12x"), Err(ParseOsmIdError));
    assert_eq!(OsmId::parse(""), Err(ParseOsmIdError));
    assert_eq!(OsmId::parse("n18446744073709551616"), Err(ParseOsmIdError));
    assert_eq!("w18446744073709551615".parse::<OsmId>(), Ok(OsmId::Way(u64::MAX)));
    assert_eq!(ParseOsmIdError.message(), "Failed to parse OSM ID");
    assert!(OsmId::Node(9).precedes(&OsmId::Relation(1)));
    assert!(OsmId::Relation(9).precedes(&OsmId::Way(1)));
    assert!(OsmId::Way(1).precedes(&OsmId::Way(2)));
    assert!(!OsmId::Way(2).precedes(&OsmId::Way(2)));
    assert_eq!(OsmId::Node(9) < OsmId::Relation(1), true);
    assert_eq!(OsmId::Relation(9) < OsmId::Way(1), true);
}

#[test]
fn links() {
    let coles = Link::parse("https://www.coles.com.au/product/some-slug-1234").unwrap();
    assert_eq!(coles, Link::ColesProduct { slug: "some-slug".to_string(), id: 1234 });
    assert_eq!(coles.url(), "https://www.coles.com.au/product/some-slug-1234");
    assert_eq!(coles.slug(), Some("some-slug"));
    assert_eq!(coles.product_id(), Some(ProductID::Coles(1234)));
    let woolworths =
        Link::parse("https://www.woolworths.com.au/shop/productdetails/1234/a/slug").unwrap();
    assert_eq!(woolworths, Link::WoolworthsProduct { slug: "a/slug".to_string(), id: 1234 });
    assert_eq!(
        woolworths.url(),
        "https://www.woolworths.com.au/shop/productdetails/1234/a/slug"
    );
    assert_eq!(woolworths.product_id(), Some(ProductID::Woolworths(1234)));
    let bare = Link::parse("https://www.woolworths.com.au/shop/productdetails//").unwrap();
    assert_eq!(
        bare,
        Link::Unknown("https://www.woolworths.com.au/shop/productdetails//".to_string())
    );
    assert_eq!(bare.slug(), None);
    assert_eq!(bare.product_id(), None);
    assert_eq!(bare.url(), "https://www.woolworths.com.au/shop/productdetails//");
    assert_eq!(
        Link::parse("https://www.coles.com.au/product/slug"),
        Err(LinkError::InvalidLink)
    );
    assert_eq!(
        Link::parse("https://www.coles.com.au/product/slug-x"),
        Err(LinkError::InvalidNumber)
    );
    assert_eq!(
        Link::parse("https://www.woolworths.com.au/shop/productdetails/1234"),
        Err(LinkError::InvalidLink)
    );
    assert_eq!(
        Link::parse("https://www.woolworths.com.au/shop/productdetails/x/slug"),
        Err(LinkError::InvalidNumber)
    );
    assert_eq!(
        "https://example.com/".parse::<Link>(),
        Ok(Link::Unknown("https://example.com/".to_string()))
    );
}

#[test]
fn names() {
    assert_eq!(title_case("HELLO WORLD"), "Hello World");
    assert_eq!(title_case("hELLO  wORLD"), "hello  world");
    assert_eq!(title_case("mount ISA"), "mount Isa");
    assert_eq!(title_case(""), "");
    assert_eq!(title_case("ÉCOLE A"), "École A");
    assert_eq!(title_case("aÉB"), "aÉb");
    assert_eq!(slug("Hello World"), "hello-world");
    assert_eq!(slug("A  b-C"), "a--b-c");
    assert_eq!(slug(""), "");
}

#[test]
fn states_units_containers() {
    assert_eq!(State::NSW.name(), "NSW");
    assert_eq!(State::ACT.name(), "ACT");
    assert_eq!(State::from_code("AU-QLD"), Some(State::QLD));
    assert_eq!(State::from_code("AU-WA"), Some(State::WA));
    assert_eq!(State::from_code("AU-XX"), None);
    assert_eq!(Unit::Liters.multiplier(), 1000);
    assert_eq!(Unit::Milliliters.multiplier(), 1);
    assert_eq!(Unit::Kilograms.multiplier(), 1000);
    assert_eq!(Unit::Grams.multiplier(), 1);
    assert_eq!(Unit::parse("ml"), Some(Unit::Milliliters));
    assert_eq!(Unit::parse("L"), None);
    assert_eq!(Unit::Liters.symbol(), "L");
    assert_eq!(Unit::Milliliters.symbol(), "mL");
    assert_eq!(Container::Glass.display(1), "Glass Bottle");
    assert_eq!(Container::Glass.display(6), "Glass Bottles");
    assert_eq!(Container::Can.display(0), "Cans");
    assert_eq!(Container::parse("can"), Some(Container::Can));
    assert_eq!(Container::parse("jar"), None);
    assert_eq!(PromotionType::NoPromotion.code(), 0);
    assert_eq!(PromotionType::WoolworthsPriceDropped.code(), 12);
    assert_eq!(PromotionType::from_code(2), Some(PromotionType::Special));
    assert_eq!(PromotionType::from_code(13), None);
}

#[test]
fn prompts() {
    assert_eq!(
        split_last_token("cola >drin"),
        Some(("cola >".to_string(), "drin"))
    );
    assert_eq!(split_last_token(".so"), Some((".".to_string(), "so")));
    assert_eq!(split_last_token("a b =x"), Some(("a b =".to_string(), "x")));
    assert_eq!(split_last_token("cola drink"), None);
    assert_eq!(split_last_token(""), None);
    assert_eq!(split_last_token(">a "), None);
    assert_eq!(
        common_prefix(vec!["drink".to_string(), "drip".to_string(), "dried".to_string()]),
        Some("dri".to_string())
    );
    assert_eq!(common_prefix(vec!["one".to_string()]), Some("one".to_string()));
    assert_eq!(
        common_prefix(vec!["ab".to_string(), "abc".to_string()]),
        Some("ab".to_string())
    );
    assert_eq!(
        common_prefix(vec!["x".to_string(), "y".to_string()]),
        Some("".to_string())
    );
    assert_eq!(common_prefix(Vec::new()), None);
    let tokens = vec!["drink".to_string(), "soft".to_string(), "dried".to_string()];
    assert_eq!(starting_with(&tokens, "dr"), vec!["drink".to_string(), "dried".to_string()]);
    assert_eq!(token_suggestions(&tokens, "cola >dri"), vec!["drink".to_string(), "dried".to_string()]);
    assert_eq!(token_suggestions(&tokens, "cola >dr"), Vec::<String>::new());
    assert_eq!(token_suggestions(&tokens, "cola dri"), Vec::<String>::new());
    assert_eq!(
        token_completion(&tokens, "cola >dri", None),
        Some("cola >dri".to_string())
    );
    assert_eq!(
        token_completion(&tokens, "cola >drin", None),
        Some("cola >drink".to_string())
    );
    assert_eq!(
        token_completion(&tokens, "cola >drin", Some("dried".to_string())),
        Some("cola >dried".to_string())
    );
    assert_eq!(token_completion(&tokens, "cola >dr", None), None);
    assert_eq!(token_completion(&tokens, "cola >xyz", None), None);
    assert_eq!(token_completion(&tokens, "cola drin", Some("drink".to_string())), None);
    assert_eq!(size_completion(&tokens, "dr", None), Some("dri".to_string()));
    assert_eq!(size_completion(&tokens, "x", None), None);
    assert_eq!(size_completion(&tokens, "x", Some("soft".to_string())), Some("soft".to_string()));
    assert!(has_bytes("abc", 3));
    assert!(!has_bytes("ab", 3));
    assert!(has_bytes("aé", 3));
    assert!(has_bytes("", 0));
}
