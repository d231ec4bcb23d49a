use priceshark::{ProductID, ProductId, Retailer};

#[test]
fn product_parse_product_link() {
    assert_eq!(
        Retailer::Coles.parse_product_link("https://www.coles.com.au/product/slug-1234"),
        Some(ProductId::Coles(1234))
    );
    assert_eq!(
        Retailer::Coles.parse_product_link("https://www.coles.com.au/product/slug"),
        None
    );

    assert_eq!(
        Retailer::Woolworths
            .parse_product_link("https://www.woolworths.com.au/shop/productdetails/1234/slug"),
        Some(ProductId::Woolworths(1234))
    );
    assert_eq!(
        Retailer::Woolworths
            .parse_product_link("https://www.woolworths.com.au/shop/productdetails//"),
        None
    );
}

#[test]
fn id_parse_product_link() {
    assert_eq!(
        Retailer::Coles
            .parse_product_link("https://www.coles.com.au/product/slug-1234")
            .map(ProductID::of_product),
        Some(ProductID::Coles(1234))
    );
    assert_eq!(
        Retailer::Coles
            .parse_product_link("https://www.coles.com.au/product/slug")
            .map(ProductID::of_product),
        None
    );

    assert_eq!(
        Retailer::Woolworths
            .parse_product_link("https://www.woolworths.com.au/shop/productdetails/1234/slug")
            .map(ProductID::of_product),
        Some(ProductID::Woolworths(1234))
    );
    assert_eq!(
        Retailer::Woolworths
            .parse_product_link("https://www.woolworths.com.au/shop/productdetails//")
            .map(ProductID::of_product),
        None
    );
}
