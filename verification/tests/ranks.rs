use priceshark::ranks::{listing, Listing, Ranking};
use std::collections::BTreeMap;

#[test]
fn points_are_counted() {
    let mut ranking = Ranking::new();
    ranking.tally(7, &vec![1, 2, 1], 0);
    assert_eq!(ranking.products, BTreeMap::from([(7, 3)]));
    // the first price of a store gives one point, every further one its points
    assert_eq!(ranking.stores, BTreeMap::from([(1, 2), (2, 1)]));
    ranking.tally(7, &vec![2, 3], 2);
    assert_eq!(ranking.products, BTreeMap::from([(7, 3 + 2 * 5)]));
    assert_eq!(ranking.stores, BTreeMap::from([(1, 2), (2, 6), (3, 1)]));
    ranking.tally(8, &Vec::new(), 9);
    assert_eq!(ranking.products, BTreeMap::from([(7, 13), (8, 0)]));
    ranking.tally(8, &vec![3], usize::MAX);
    assert_eq!(ranking.products[&8], usize::MAX);
    assert_eq!(ranking.stores[&3], usize::MAX);
    ranking.tally(8, &vec![3], 1);
    assert_eq!(ranking.products[&8], usize::MAX);
    assert_eq!(ranking.stores[&3], usize::MAX);
}

#[test]
fn products_are_listed_above_a_thousand_points() {
    assert_eq!(listing(Some(1001)), Listing::Listed);
    assert_eq!(listing(Some(1000)), Listing::Skipped);
    assert_eq!(listing(Some(0)), Listing::Skipped);
    assert_eq!(listing(None), Listing::Unranked);
}
