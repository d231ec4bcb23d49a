use priceshark::prices::{parse_price, parse_quantity_price, PriceError};

#[test]
fn woolworths_test_price() {
    assert_eq!(parse_price("$1.23").unwrap(), 123);
    assert_eq!(parse_price("$4.50").unwrap(), 450);
    assert_eq!(parse_price("$5.06").unwrap(), 506);
    assert_eq!(parse_price("$7").unwrap(), 700);
    assert_eq!(parse_price("$89.00").unwrap(), 8900);
}

#[test]
fn woolworths_test_quantity_price() {
    assert_eq!(parse_quantity_price("1 for $2").unwrap(), (1, 200));
    assert_eq!(parse_quantity_price("3 for $4.50").unwrap(), (3, 450));
    assert_eq!(parse_quantity_price("67 for $8.99").unwrap(), (67, 899));
    assert_eq!(parse_quantity_price("$1.23").unwrap(), (1, 123));
    assert_eq!(parse_quantity_price("$4").unwrap(), (1, 400));
}

#[test]
fn woolworths_prices_test_price() {
    assert_eq!(parse_price("$1.23").unwrap(), 123);
    assert_eq!(parse_price("$4.50").unwrap(), 450);
    assert_eq!(parse_price("$5.06").unwrap(), 506);
    assert_eq!(parse_price("$7").unwrap(), 700);
    assert_eq!(parse_price("$89.00").unwrap(), 8900);
}

#[test]
fn woolworths_prices_test_quantity_price() {
    assert_eq!(parse_quantity_price("1 for $2").unwrap(), (1, 200));
    assert_eq!(parse_quantity_price("3 for $4.50").unwrap(), (3, 450));
    assert_eq!(parse_quantity_price("67 for $8.99").unwrap(), (67, 899));
    assert_eq!(parse_quantity_price("$1.23").unwrap(), (1, 123));
    assert_eq!(parse_quantity_price("$4").unwrap(), (1, 400));
}

#[test]
fn price_errors() {
    assert_eq!(parse_price("1.23"), Err(PriceError::InvalidPrice));
    assert_eq!(parse_price("$"), Err(PriceError::InvalidNumber));
    assert_eq!(parse_price("$1.x"), Err(PriceError::InvalidNumber));
    assert_eq!(parse_price("$42949672.96"), Err(PriceError::TooLarge));
    assert_eq!(parse_price("$42949672.95"), Ok(4294967295));
    assert_eq!(parse_price("$1.5"), Ok(105));
    assert_eq!(parse_quantity_price("2 for"), Err(PriceError::InvalidPrice));
    assert_eq!(parse_quantity_price("2 of $1"), Err(PriceError::InvalidPrice));
    assert_eq!(parse_quantity_price("2 for $1 each"), Err(PriceError::InvalidPrice));
    assert_eq!(parse_quantity_price("x for $1"), Err(PriceError::InvalidNumber));
    assert_eq!(parse_quantity_price("2 for 1"), Err(PriceError::InvalidPrice));
}
