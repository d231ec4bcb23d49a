use priceshark::{Retailer, StoreId, Vendor};

#[test]
fn store_parse_store_link() {
    assert_eq!(
        Retailer::Coles
            .parse_store_link("https://www.coles.com.au/find-stores/coles/state/slug-1234"),
        Some(StoreId::Coles(1234))
    );
    assert_eq!(
        Retailer::Woolworths
            .parse_store_link("https://www.woolworths.com.au/shop/storelocator/slug-1234"),
        Some(StoreId::Woolworths(1234))
    );
}

#[test]
fn models_parse_store_link() {
    assert_eq!(
        Vendor::Coles
            .parse_store_link("https://www.coles.com.au/find-stores/coles/state/slug-1234"),
        Some(StoreId::Coles(1234))
    );
    assert_eq!(
        Vendor::Woolworths
            .parse_store_link("https://www.woolworths.com.au/shop/storelocator/slug-1234"),
        Some(StoreId::Woolworths(1234))
    );
}
