use priceshark::barcodes::{sort_products, Barcodes};
use priceshark::localities::{lookup_address, store_context, store_description, store_name, store_title, trim};
use priceshark::address::{Address, State};
use priceshark::parents::{parentage, Parentage};
use priceshark::prices::{
    coles_promotion, coles_record, woolworths_promotion, woolworths_record, Amount, ColesPricing,
    ColesPromotion, Discount, PriceError, PromotionError, PromotionType, RawPriceRecord, Source,
    WoolworthsItem, WoolworthsPromotion,
};
use priceshark::products::{ColesProduct, RawProduct, UpstreamProduct};
use priceshark::{OsmElement, OsmId, Point, ProductID, Retailer, StoreId, Vendor};

fn strings(raw: &[&str]) -> Vec<String> {
    raw.iter().map(|x| x.to_string()).collect()
}

#[test]
fn products_are_listed_under_their_barcodes() {
    let mut barcodes = Barcodes::new();
    barcodes.record(&Retailer::Woolworths, "77", &strings(&["930", "100"]));
    barcodes.record(&Retailer::Coles, "5", &strings(&["930"]));
    barcodes.record(&Retailer::Coles, "3", &strings(&["930", "500"]));
    barcodes.record(&Retailer::Woolworths, "1000000000", &strings(&["930"]));
    barcodes.record(&Retailer::Woolworths, "999999999", &strings(&["100"]));
    barcodes.record(&Retailer::Coles, "1000000000", &strings(&["100"]));
    barcodes.record(&Retailer::Coles, "x", &strings(&["100"]));
    barcodes.record(&Retailer::Coles, "9", &Vec::new());
    assert_eq!(
        barcodes.entries,
        vec![
            (
                "100".to_string(),
                vec![
                    ProductID::Woolworths(77),
                    ProductID::Woolworths(999999999),
                    ProductID::Coles(1000000000)
                ]
            ),
            ("500".to_string(), vec![ProductID::Coles(3)]),
            (
                "930".to_string(),
                vec![ProductID::Woolworths(77), ProductID::Coles(5), ProductID::Coles(3)]
            ),
        ]
    );
    assert_eq!(
        barcodes.sorted(),
        vec![
            (
                "100".to_string(),
                vec![
                    ProductID::Coles(1000000000),
                    ProductID::Woolworths(77),
                    ProductID::Woolworths(999999999)
                ]
            ),
            ("500".to_string(), vec![ProductID::Coles(3)]),
            (
                "930".to_string(),
                vec![ProductID::Coles(3), ProductID::Coles(5), ProductID::Woolworths(77)]
            ),
        ]
    );
    let mut unsorted =
        vec![ProductID::Woolworths(1), ProductID::Coles(9), ProductID::Coles(9), ProductID::Coles(2)];
    let sorted = sort_products(&unsorted);
    unsorted.sort();
    assert_eq!(sorted, unsorted);
}

fn element(id: u64, tags: &[(&str, &str)]) -> OsmElement {
    OsmElement {
        id: OsmId::Way(id),
        point: Point { lat: 0, lon: 0 },
        tags: tags.iter().map(|(k, v)| (k.to_string(), v.to_string())).collect(),
    }
}

#[test]
fn surroundings_give_a_store_its_name() {
    let store = StoreId::Coles(4);
    let osm = OsmId::Node(8);
    let none = parentage(&vec![element(1, &[("shop", "supermarket"), ("name", "Coles")])]);
    assert_eq!(none, Parentage { parents: 0, names: Vec::new() });
    assert_eq!(none.name(), None);
    assert_eq!(
        none.note(&store, &osm),
        Some("- [Coles Store 4](https://www.coles.com.au/find-stores/coles/-/-4) [n8](https://www.openstreetmap.org/node/8) has no parents".to_string())
    );
    let one = parentage(&vec![
        element(1, &[("shop", "supermarket"), ("name", "Coles")]),
        element(2, &[("shop", "mall"), ("name", "Westfield")]),
        element(3, &[("building", "retail"), ("name", "Westfield")]),
        element(4, &[("building", "yes")]),
    ]);
    assert_eq!(one, Parentage { parents: 3, names: strings(&["Westfield"]) });
    assert_eq!(one.name(), Some(&"Westfield".to_string()));
    assert_eq!(one.note(&store, &osm), None);
    let two = parentage(&vec![
        element(2, &[("name", "Westfield \"East\"")]),
        element(3, &[("name", "Plaza")]),
        element(5, &[("name", "Westfield \"East\"")]),
    ]);
    assert_eq!(two.parents, 3);
    assert_eq!(two.names, strings(&["Plaza", "Westfield \"East\""]));
    assert_eq!(two.name(), None);
    assert_eq!(
        two.note(&store, &osm),
        Some("- [Coles Store 4](https://www.coles.com.au/find-stores/coles/-/-4) [n8](https://www.openstreetmap.org/node/8) has conflicting parent names: {\"Plaza\", \"Westfield \\\"East\\\"\"}".to_string())
    );
    let unnamed = parentage(&vec![element(4, &[("building", "yes")])]);
    assert_eq!(unnamed.name(), None);
    assert_eq!(unnamed.note(&store, &osm), None);
}

#[test]
fn stores_are_named_and_described() {
    let pairs = |raw: &[(&str, &str)]| -> Vec<(String, String)> {
        raw.iter().map(|(k, v)| (k.to_string(), v.to_string())).collect()
    };
    assert_eq!(
        store_name(&pairs(&[("brand", "Coles"), ("branch", "Bondi"), ("full_name", "x")]), "Sydney"),
        Some("Coles Bondi".to_string())
    );
    assert_eq!(
        store_name(&pairs(&[("brand", "Coles"), ("full_name", "ColesColes  Express\u{a0}")]), "Sydney"),
        Some("Coles Express".to_string())
    );
    assert_eq!(store_name(&pairs(&[("brand", "Coles")]), "Sydney"), Some("Coles Sydney".to_string()));
    assert_eq!(store_name(&pairs(&[("name", "Coles")]), "Sydney"), None);
    assert_eq!(
        store_description(Some("Westfield"), "Bondi, Sydney", "Bondi Junction", "NSW", "2022"),
        "Westfield, Bondi, Sydney NSW 2022"
    );
    assert_eq!(store_description(None, "", "Bondi Junction", "NSW", "2022"), "Bondi Junction NSW 2022");
    let chars: Vec<char> = " \t a b \n".chars().collect();
    assert_eq!(trim(&chars), &['a', ' ', 'b']);
    let all: Vec<char> = " \u{3000}".chars().collect();
    assert_eq!(trim(&all), &[] as &[char]);
    let address =
        Address { places: strings(&["Haymarket", "Sydney"]), postcode: Some("2000".to_string()), state: State::NSW };
    assert_eq!(store_title("Coles", &address), "Coles Haymarket");
    assert_eq!(store_context(Some("Market City"), &address), "Market City, Haymarket, Sydney NSW 2000");
    assert_eq!(store_context(None, &address), "Haymarket, Sydney NSW 2000");
    let bare = Address { places: Vec::new(), postcode: None, state: State::NT };
    assert_eq!(store_title("Woolworths", &bare), "Woolworths");
    assert_eq!(store_context(None, &bare), " NT ");
    assert_eq!(
        lookup_address(&[OsmId::Node(1), OsmId::Way(22), OsmId::Relation(333)], None),
        "https://nominatim.openstreetmap.org/lookup?osm_ids=n1,w22,r333&format=json"
    );
    assert_eq!(
        lookup_address(&[OsmId::Node(1)], Some("a@b.c")),
        "https://nominatim.openstreetmap.org/lookup?osm_ids=n1&format=json&email=a@b.c"
    );
    assert_eq!(
        lookup_address(&[], None),
        "https://nominatim.openstreetmap.org/lookup?osm_ids=&format=json"
    );
}

#[test]
fn promotions_are_told() {
    assert_eq!(coles_promotion(None, None), Ok(PromotionType::NoPromotion));
    assert_eq!(coles_promotion(Some(ColesPromotion::Downdown), None), Ok(PromotionType::ColesDownDown));
    assert_eq!(
        coles_promotion(Some(ColesPromotion::Continuityredeemable), Some("x")),
        Ok(PromotionType::NoPromotion)
    );
    assert_eq!(
        coles_promotion(Some(ColesPromotion::Flybuys), Some("Triple points")),
        Ok(PromotionType::ColesFlybuysTriplePoints)
    );
    assert_eq!(
        coles_promotion(Some(ColesPromotion::Flybuys), Some("100 Bonus Points")),
        Ok(PromotionType::ColesFlybuys100Points)
    );
    assert_eq!(
        coles_promotion(Some(ColesPromotion::Flybuys), Some("Double points")),
        Err(PromotionError::UnknownFlybuys)
    );
    assert_eq!(
        coles_promotion(Some(ColesPromotion::Flybuys), None),
        Err(PromotionError::FlybuysWithoutDescription)
    );
    assert_eq!(woolworths_promotion(WoolworthsPromotion::LowPrice), PromotionType::WoolworthsLowPrice);
    assert_eq!(woolworths_promotion(WoolworthsPromotion::Unpromoted), PromotionType::NoPromotion);
    assert_eq!(Source::ColesPrices.retailer(), Retailer::Coles);
    assert_eq!(Source::WoolworthsPrices.retailer(), Retailer::Woolworths);
    assert_eq!(Source::ColesPrices.suggested_len(), 17_600_000);
    assert_eq!(Source::WoolworthsPrices.suggested_len(), 51_400_000);
}

#[test]
fn records_of_coles() {
    let pricing = ColesPricing {
        now: 2.5f32.to_bits(),
        was: 3.0f32.to_bits(),
        promotion_type: Some(ColesPromotion::Special),
        offer_description: None,
        multi_buy: Some((2, 2.0f32.to_bits())),
    };
    let record = coles_record(7, 9, Some(&pricing)).unwrap();
    assert_eq!(record.store, 7);
    assert_eq!(record.product, 9);
    assert_eq!(record.info.price, Amount::Bits(3.0f32.to_bits()));
    assert_eq!(
        record.info.discounts,
        vec![
            Discount { price: Amount::Bits(2.5f32.to_bits()), quantity: 1, members_only: false },
            Discount { price: Amount::Bits(2.0f32.to_bits()), quantity: 2, members_only: false },
        ]
    );
    assert_eq!(record.info.promotion, PromotionType::Special);
    let plain = ColesPricing { was: (-0.0f32).to_bits(), multi_buy: None, promotion_type: None, ..pricing.clone() };
    let record = coles_record(7, 9, Some(&plain)).unwrap();
    assert_eq!(record.info.price, Amount::Bits(2.5f32.to_bits()));
    assert!(record.info.discounts.is_empty());
    assert_eq!(coles_record(0, 9, Some(&pricing)).unwrap(), RawPriceRecord::new(0, 9));
    assert_eq!(coles_record(7, 9, None).unwrap(), RawPriceRecord::new(7, 9));
    let points = ColesPricing { promotion_type: Some(ColesPromotion::Flybuys), ..pricing };
    assert_eq!(coles_record(7, 9, Some(&points)), Err(PromotionError::FlybuysWithoutDescription));
    assert!(Amount::Bits(0).is_zero());
    assert!(Amount::Bits(0x8000_0000).is_zero());
    assert!(!Amount::Bits(1).is_zero());
    assert!(Amount::Cents { cents: 0, shared_by: 3 }.is_zero());
    assert!(!Amount::Cents { cents: 1, shared_by: 3 }.is_zero());
}

#[test]
fn records_of_woolworths() {
    let item = WoolworthsItem {
        product_id: "123".to_string(),
        store: 5,
        price: Some(350),
        was_price: Some("Was $4.00".to_string()),
        promotion: WoolworthsPromotion::Special,
        multi_buy_price: Some("2 for $6".to_string()),
        member_price: Some("3 for $9.30".to_string()),
    };
    let record = woolworths_record(&item).unwrap();
    assert_eq!(record.store, 5);
    assert_eq!(record.product, 123);
    assert_eq!(record.info.price, Amount::Cents { cents: 400, shared_by: 1 });
    assert_eq!(
        record.info.discounts,
        vec![
            Discount { price: Amount::Cents { cents: 350, shared_by: 1 }, quantity: 1, members_only: false },
            Discount { price: Amount::Cents { cents: 600, shared_by: 1 }, quantity: 2, members_only: true },
            Discount { price: Amount::Cents { cents: 930, shared_by: 3 }, quantity: 3, members_only: true },
        ]
    );
    assert_eq!(record.info.promotion, PromotionType::Special);
    let low = WoolworthsItem {
        promotion: WoolworthsPromotion::LowPrice,
        multi_buy_price: None,
        member_price: None,
        ..item.clone()
    };
    let record = woolworths_record(&low).unwrap();
    assert_eq!(record.info.price, Amount::Cents { cents: 350, shared_by: 1 });
    assert!(record.info.discounts.is_empty());
    assert_eq!(record.info.promotion, PromotionType::WoolworthsLowPrice);
    let nowhere = WoolworthsItem { store: 0, ..item.clone() };
    assert_eq!(woolworths_record(&nowhere).unwrap(), RawPriceRecord::new(0, 123));
    let unknown = WoolworthsItem { product_id: "abc".to_string(), ..item.clone() };
    assert_eq!(woolworths_record(&unknown), Err(PriceError::InvalidNumber));
    let was = WoolworthsItem { was_price: Some("$4.00".to_string()), ..item.clone() };
    assert_eq!(woolworths_record(&was), Err(PriceError::InvalidPrice));
    let several = WoolworthsItem { multi_buy_price: Some("2 for 6".to_string()), ..item.clone() };
    assert_eq!(woolworths_record(&several), Err(PriceError::InvalidPrice));
    let unpriced = WoolworthsItem { price: None, was_price: None, ..low };
    assert_eq!(
        woolworths_record(&unpriced).unwrap().info.price,
        Amount::Cents { cents: 0, shared_by: 1 }
    );
}

#[test]
fn products_of_the_feeds_take_one_shape() {
    let woolworths = RawProduct {
        brand: Some("Brand".to_string()),
        name: "Cola".to_string(),
        package_size: "2L".to_string(),
        rich_description: Some("Fizzy".to_string()),
        stockcode: 12,
    };
    assert_eq!(
        woolworths.clone().upstream(),
        Some(UpstreamProduct {
            vendor: Vendor::Woolworths,
            id: 12,
            brand: "Brand".to_string(),
            name: "Cola".to_string(),
            description: "Fizzy".to_string(),
            size: None,
        })
    );
    assert_eq!(RawProduct { brand: None, ..woolworths.clone() }.upstream(), None);
    assert_eq!(RawProduct { rich_description: None, ..woolworths }.upstream(), None);
    let coles = ColesProduct {
        brand: "Brand".to_string(),
        id: 7,
        long_description: None,
        name: "Water".to_string(),
        size: "1L".to_string(),
    };
    assert_eq!(
        coles.upstream(),
        UpstreamProduct {
            vendor: Vendor::Coles,
            id: 7,
            brand: "Brand".to_string(),
            name: "Water".to_string(),
            description: "".to_string(),
            size: None,
        }
    );
}
