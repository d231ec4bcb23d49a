use priceshark::conflation::pipeline::{conflate, conflate_claims};
use priceshark::conflation::registry::{OsmElement, Point, RawStore, Registry, Store};
use priceshark::conflation::resolver::Note;
use priceshark::{OsmId, Retailer, StoreId};

fn metres(m: f64) -> u64 {
    m.to_bits()
}

fn point(lat: f64, lon: f64) -> Point {
    Point { lat: lat.to_bits(), lon: lon.to_bits() }
}

fn entity(id: u64, lat: f64, lon: f64) -> OsmElement {
    OsmElement { id: OsmId::Node(id), point: point(lat, lon), tags: Vec::new() }
}

#[test]
fn nearer_store_wins_and_the_other_takes_its_second() {
    let mut registry = Registry::new();
    registry.add_store(RawStore { id: 1, point: point(0.0, 0.0) });
    registry.add_store(RawStore { id: 2, point: point(0.0, 0.001) });
    registry.add_entity(entity(1, 0.0, 0.0009));
    registry.add_entity(entity(2, 0.0, -0.0027));
    let distances = vec![
        vec![metres(100.0), metres(300.0)],
        vec![metres(50.0), metres(1000.0)],
    ];
    let out = conflate(&Retailer::Coles, &registry, &distances).unwrap();
    assert_eq!(
        out.stores,
        vec![
            Store { id: StoreId::Coles(1), osm: OsmId::Node(2), point: point(0.0, -0.0027) },
            Store { id: StoreId::Coles(2), osm: OsmId::Node(1), point: point(0.0, 0.0009) },
        ]
    );
    assert_eq!(
        out.report.notes,
        vec![Note::LaterPass {
            store: StoreId::Coles(1),
            entity: OsmId::Node(2),
            pass: 2,
            metres: 300,
        }]
    );
    assert_eq!(out.report.forced, 0);
    assert_eq!(out.report.on_distance, 2);
    assert_eq!(
        out.report.render(),
        "## Statistics\n\n- 2 raw, 2 osm\n- 0 sourced from url\n- 2 matched on distance\n- 100.0% conflated\n\n## Todo\n\n- [n2](https://www.openstreetmap.org/node/2) is #2 closest to [Coles Store 1](https://www.coles.com.au/find-stores/coles/-/-1) (300m)\n\n"
    );
}

#[test]
fn claims_are_taken_as_given() {
    let mut registry = Registry::new();
    registry.add_store(RawStore { id: 7, point: point(1.0, 1.0) });
    registry.add_entity(entity(5, 1.0, 1.0));
    let distances = vec![vec![metres(10.0)]];
    let claims = vec![Some(StoreId::Woolworths(9))];
    let out = conflate_claims(&Retailer::Woolworths, &registry, &claims, &distances).unwrap();
    assert_eq!(
        out.stores,
        vec![Store { id: StoreId::Woolworths(9), osm: OsmId::Node(5), point: point(1.0, 1.0) }]
    );
    assert_eq!(out.report.unmatched_stores, vec![StoreId::Woolworths(7)]);
}

use priceshark::conflation::distance::{whole_metres, MATCH_RADIUS, WARNING_RADIUS};
use priceshark::conflation::forced::{force_matches, website_claims, ConflictError};
use priceshark::conflation::report::Report;

fn tagged(id: OsmId, website: &str) -> OsmElement {
    OsmElement {
        id,
        point: point(0.0, 0.0),
        tags: vec![
            ("brand".to_string(), "Coles".to_string()),
            ("website".to_string(), website.to_string()),
        ],
    }
}

#[test]
fn radii_are_five_and_four_hundred_metres() {
    assert_eq!(MATCH_RADIUS, 500.0f64.to_bits());
    assert_eq!(WARNING_RADIUS, 400.0f64.to_bits());
}

#[test]
fn whole_metres_round_as_formatting_does() {
    let samples = [
        0.0, 0.49, 0.5, 0.5000001, 0.51, 1.0, 1.5, 2.5, 3.5, 99.5, 100.4999, 100.5, 101.5,
        299.99999, 300.0, 399.5, 400.5, 499.4999, 499.5, 499.99999, 1e-300, 5e-324, 0.25, 0.75,
        123.456, 255.5, 256.5, 0.9999999999999999,
    ];
    for d in samples {
        let d: f64 = d;
        assert_eq!(whole_metres(d.to_bits()).to_string(), format!("{:.0}", d));
    }
    let mut d: f64 = 0.001;
    while d < 500.0 {
        assert_eq!(whole_metres(d.to_bits()).to_string(), format!("{:.0}", d));
        d *= 1.0173;
    }
}

#[test]
fn entity_at_the_radius_is_out_and_just_below_it_is_in() {
    let mut registry = Registry::new();
    registry.add_store(RawStore { id: 1, point: point(0.0, 0.0) });
    registry.add_store(RawStore { id: 2, point: point(0.0, 0.0) });
    registry.add_entity(entity(1, 0.0, 0.0));
    registry.add_entity(entity(2, 0.0, 0.0));
    let below = f64::from_bits(500.0f64.to_bits() - 1);
    assert!(below < 500.0);
    let far = metres(9000.0);
    let distances = vec![vec![metres(500.0), far], vec![far, metres(below)]];
    let out = conflate(&Retailer::Woolworths, &registry, &distances).unwrap();
    assert_eq!(
        out.stores,
        vec![Store { id: StoreId::Woolworths(2), osm: OsmId::Node(2), point: point(0.0, 0.0) }]
    );
    assert_eq!(out.report.unmatched_stores, vec![StoreId::Woolworths(1)]);
    assert_eq!(out.report.unmatched_entities, vec![OsmId::Node(1)]);
    assert_eq!(
        out.report.notes,
        vec![Note::Distant { store: StoreId::Woolworths(2), entity: OsmId::Node(2), metres: 500 }]
    );
}

#[test]
fn what_is_no_length_is_no_candidate() {
    let mut registry = Registry::new();
    registry.add_store(RawStore { id: 1, point: point(0.0, 0.0) });
    for id in 1..=4 {
        registry.add_entity(entity(id, 0.0, 0.0));
    }
    let distances =
        vec![vec![f64::NAN.to_bits(), f64::INFINITY.to_bits(), (-1.0f64).to_bits(), u64::MAX]];
    let out = conflate(&Retailer::Coles, &registry, &distances).unwrap();
    assert!(out.stores.is_empty());
    assert_eq!(out.report.unmatched_stores, vec![StoreId::Coles(1)]);
    assert_eq!(out.report.unmatched_entities.len(), 4);
}

#[test]
fn two_entities_that_name_one_store_are_an_error() {
    let mut registry = Registry::new();
    registry.add_entity(tagged(
        OsmId::Way(8),
        "https://www.coles.com.au/find-stores/coles/nsw/sydney-77",
    ));
    registry.add_entity(tagged(
        OsmId::Node(3),
        "https://www.coles.com.au/find-stores/coles/nsw/other-77",
    ));
    registry.add_entity(tagged(
        OsmId::Node(5),
        "https://www.coles.com.au/find-stores/coles/nsw/third-12",
    ));
    let distances: Vec<Vec<u64>> = Vec::new();
    let err = conflate(&Retailer::Coles, &registry, &distances).unwrap_err();
    assert_eq!(
        err,
        ConflictError { store: StoreId::Coles(77), entity: OsmId::Way(8), earlier: OsmId::Node(3) }
    );
    assert_eq!(
        err.message(),
        "Two elements reference store [Coles Store 77](https://www.coles.com.au/find-stores/coles/-/-77): [w8](https://www.openstreetmap.org/way/8) [n3](https://www.openstreetmap.org/node/3)"
    );
    let claims = website_claims(&Retailer::Coles, &registry);
    assert_eq!(
        claims,
        vec![Some(StoreId::Coles(77)), Some(StoreId::Coles(12)), Some(StoreId::Coles(77))]
    );
    assert!(force_matches(&registry, &claims).is_err());
    // under the other retailer's grammar the same websites name nothing
    let out = conflate(&Retailer::Woolworths, &registry, &distances).unwrap();
    assert!(out.stores.is_empty());
    assert_eq!(out.report.unmatched_entities.len(), 3);
}

#[test]
fn forced_matches_stand_whatever_the_distance() {
    let mut registry = Registry::new();
    registry.add_store(RawStore { id: 77, point: point(1.0, 2.0) });
    registry.add_store(RawStore { id: 78, point: point(1.0, 2.0) });
    registry.add_entity(tagged(
        OsmId::Node(3),
        "https://www.coles.com.au/find-stores/coles/nsw/sydney-77",
    ));
    registry.add_entity(entity(4, 5.0, 6.0));
    // store 77 is far from its forced entity and near the other one; store 78 is
    // nearest to the forced entity
    let distances = vec![
        vec![metres(100000.0), metres(1.0)],
        vec![metres(2.0), metres(30.0)],
    ];
    let out = conflate(&Retailer::Coles, &registry, &distances).unwrap();
    assert_eq!(
        out.stores,
        vec![
            Store { id: StoreId::Coles(77), osm: OsmId::Node(3), point: point(0.0, 0.0) },
            Store { id: StoreId::Coles(78), osm: OsmId::Node(4), point: point(5.0, 6.0) },
        ]
    );
    assert_eq!(out.report.forced, 1);
    assert_eq!(out.report.on_distance, 1);
    assert!(out.report.notes.is_empty());
    assert!(out.report.unmatched_stores.is_empty());
    assert!(out.report.unmatched_entities.is_empty());
    assert_eq!(
        out.report.render(),
        "## Statistics\n\n- 2 raw, 2 osm\n- 1 sourced from url\n- 1 matched on distance\n- 100.0% conflated\n\n"
    );
}

#[test]
fn a_store_named_by_a_website_need_not_be_in_the_feed() {
    let mut registry = Registry::new();
    registry.add_entity(tagged(
        OsmId::Node(3),
        "https://www.coles.com.au/find-stores/coles/nsw/sydney-77",
    ));
    let distances: Vec<Vec<u64>> = Vec::new();
    let out = conflate(&Retailer::Coles, &registry, &distances).unwrap();
    assert_eq!(out.stores.len(), 1);
    assert_eq!(out.stores[0].id, StoreId::Coles(77));
    assert_eq!(
        out.report.render(),
        "## Statistics\n\n- 0 raw, 1 osm\n- 1 sourced from url\n- 0 matched on distance\n- inf% conflated\n\n"
    );
}

#[test]
fn nothing_in_gives_nothing_out() {
    let registry = Registry::new();
    let distances: Vec<Vec<u64>> = Vec::new();
    let out = conflate(&Retailer::Coles, &registry, &distances).unwrap();
    assert!(out.stores.is_empty());
    assert_eq!(
        out.report.render(),
        "## Statistics\n\n- 0 raw, 0 osm\n- 0 sourced from url\n- 0 matched on distance\n- NaN% conflated\n\n"
    );
    let mut stores_only = Registry::new();
    stores_only.add_store(RawStore { id: 4, point: point(0.0, 0.0) });
    let out = conflate(&Retailer::Coles, &stores_only, &vec![Vec::new()]).unwrap();
    assert!(out.stores.is_empty());
    assert_eq!(
        out.report.render(),
        "## Statistics\n\n- 1 raw, 0 osm\n- 0 sourced from url\n- 0 matched on distance\n- 0.0% conflated\n\n## Todo\n\n- didn't match with osm:\n  - [Coles Store 4](https://www.coles.com.au/find-stores/coles/-/-4)\n\n"
    );
}

#[test]
fn stores_tied_for_an_entity_both_take_it() {
    let mut registry = Registry::new();
    registry.add_store(RawStore { id: 1, point: point(0.0, 0.0) });
    registry.add_store(RawStore { id: 2, point: point(0.0, 0.0) });
    registry.add_entity(entity(9, 0.0, 0.0));
    let distances = vec![vec![metres(40.0)], vec![metres(40.0)]];
    let out = conflate(&Retailer::Coles, &registry, &distances).unwrap();
    assert_eq!(
        out.stores,
        vec![
            Store { id: StoreId::Coles(1), osm: OsmId::Node(9), point: point(0.0, 0.0) },
            Store { id: StoreId::Coles(2), osm: OsmId::Node(9), point: point(0.0, 0.0) },
        ]
    );
    assert!(out.report.notes.is_empty());
}

#[test]
fn a_matched_store_that_wins_again_is_noted_as_conflicted() {
    let mut registry = Registry::new();
    registry.add_store(RawStore { id: 1, point: point(0.0, 0.0) });
    registry.add_entity(entity(1, 0.0, 0.0));
    registry.add_entity(entity(2, 0.0, 0.0));
    registry.add_entity(entity(3, 0.0, 0.0));
    let distances = vec![vec![metres(450.0), metres(20.0), metres(20.0)]];
    let out = conflate(&Retailer::Coles, &registry, &distances).unwrap();
    // equal distances leave the stack in the order of the registry
    assert_eq!(
        out.stores,
        vec![Store { id: StoreId::Coles(1), osm: OsmId::Node(2), point: point(0.0, 0.0) }]
    );
    assert_eq!(
        out.report.notes,
        vec![
            Note::Conflict { store: StoreId::Coles(1), held: OsmId::Node(2), contested: OsmId::Node(3) },
            Note::Conflict { store: StoreId::Coles(1), held: OsmId::Node(2), contested: OsmId::Node(1) },
        ]
    );
    assert_eq!(out.report.unmatched_entities, vec![OsmId::Node(1), OsmId::Node(3)]);
    assert_eq!(
        out.report.todo(),
        "- [Coles Store 1](https://www.coles.com.au/find-stores/coles/-/-1) is conflicted with [n2](https://www.openstreetmap.org/node/2) and [n3](https://www.openstreetmap.org/node/3)\n- [Coles Store 1](https://www.coles.com.au/find-stores/coles/-/-1) is conflicted with [n2](https://www.openstreetmap.org/node/2) and [n1](https://www.openstreetmap.org/node/1)\n- didn't match with raw:\n  - [n1](https://www.openstreetmap.org/node/1)\n  - [n3](https://www.openstreetmap.org/node/3)\n"
    );
}

#[test]
fn a_distant_first_pass_match_is_noted() {
    let mut registry = Registry::new();
    registry.add_store(RawStore { id: 1, point: point(0.0, 0.0) });
    registry.add_store(RawStore { id: 2, point: point(0.0, 0.0) });
    registry.add_entity(entity(1, 0.0, 0.0));
    registry.add_entity(entity(2, 0.0, 0.0));
    let distances = vec![
        vec![metres(400.0), metres(9999.0)],
        vec![metres(9999.0), metres(400.6)],
    ];
    let out = conflate(&Retailer::Coles, &registry, &distances).unwrap();
    assert_eq!(out.stores.len(), 2);
    assert_eq!(
        out.report.notes,
        vec![Note::Distant { store: StoreId::Coles(2), entity: OsmId::Node(2), metres: 401 }]
    );
    assert_eq!(
        out.report.todo(),
        "- [Coles Store 2](https://www.coles.com.au/find-stores/coles/-/-2): [n2](https://www.openstreetmap.org/node/2) is 401m away from raw location\n"
    );
}

#[test]
fn the_same_input_gives_the_same_output() {
    let mut registry = Registry::new();
    for id in [5u32, 3, 9, 1] {
        registry.add_store(RawStore { id, point: point(id as f64, 0.0) });
    }
    for id in [4u64, 2, 8] {
        registry.add_entity(entity(id, id as f64, 0.0));
    }
    let distances = vec![
        vec![metres(10.0), metres(20.0), metres(30.0)],
        vec![metres(10.0), metres(25.0), metres(35.0)],
        vec![metres(450.0), metres(20.0), metres(31.0)],
        vec![metres(600.0), metres(700.0), metres(800.0)],
    ];
    let a = conflate(&Retailer::Coles, &registry, &distances).unwrap();
    let b = conflate(&Retailer::Coles, &registry, &distances).unwrap();
    assert_eq!(a.stores, b.stores);
    assert_eq!(a.report.render(), b.report.render());
    assert_eq!(a.report.notes, b.report.notes);
}

#[test]
fn registry_keeps_its_sets_in_order() {
    let mut registry = Registry::new();
    registry.add_store(RawStore { id: 5, point: point(5.0, 0.0) });
    registry.add_store(RawStore { id: 2, point: point(2.0, 0.0) });
    registry.add_store(RawStore { id: 9, point: point(9.0, 0.0) });
    registry.add_store(RawStore { id: 5, point: point(5.5, 0.0) });
    assert_eq!(
        registry.stores,
        vec![
            RawStore { id: 2, point: point(2.0, 0.0) },
            RawStore { id: 5, point: point(5.5, 0.0) },
            RawStore { id: 9, point: point(9.0, 0.0) },
        ]
    );
    registry.add_entity(entity(7, 0.0, 0.0));
    registry.add_entity(OsmElement { id: OsmId::Way(1), point: point(0.0, 0.0), tags: Vec::new() });
    registry.add_entity(OsmElement { id: OsmId::Relation(4), point: point(0.0, 0.0), tags: Vec::new() });
    registry.add_entity(entity(7, 1.0, 0.0));
    registry.add_entity(entity(6, 0.0, 0.0));
    let ids: Vec<OsmId> = registry.entities.iter().map(|e| e.id).collect();
    assert_eq!(ids, vec![OsmId::Node(6), OsmId::Node(7), OsmId::Relation(4), OsmId::Way(1)]);
    assert_eq!(registry.entities[1].point, point(1.0, 0.0));
    assert!(registry.fits(&vec![vec![0; 4], vec![0; 4], vec![0; 4]]));
    assert!(!registry.fits(&vec![vec![0; 4], vec![0; 4]]));
    assert!(!registry.fits(&vec![vec![0; 4], vec![0; 3], vec![0; 4]]));
    assert_eq!(registry.entities[0].tag("website"), None);
    let e = tagged(OsmId::Node(1), "https://example.com");
    assert_eq!(e.tag("website"), Some(&"https://example.com".to_string()));
    assert_eq!(e.tag("brand"), Some(&"Coles".to_string()));
    assert_eq!(e.tag("name"), None);
}

#[test]
fn percentages_round_to_the_nearest_tenth() {
    let report = |forced: usize, on_distance: usize, raw: usize| Report {
        raw,
        osm: 0,
        forced,
        on_distance,
        unmatched_stores: Vec::new(),
        notes: Vec::new(),
        unmatched_entities: Vec::new(),
    };
    let line = |r: &Report| r.render().lines().nth(5).unwrap().to_string();
    assert_eq!(line(&report(1, 0, 3)), "- 33.3% conflated");
    assert_eq!(line(&report(1, 1, 3)), "- 66.7% conflated");
    assert_eq!(line(&report(0, 1, 8)), "- 12.5% conflated");
    assert_eq!(line(&report(3, 0, 2)), "- 150.0% conflated");
    assert_eq!(line(&report(0, 0, 5)), "- 0.0% conflated");
    assert_eq!(line(&report(1, 0, 2000)), "- 0.0% conflated");
    assert_eq!(line(&report(3, 0, 2000)), "- 0.2% conflated");
    assert_eq!(line(&report(usize::MAX, usize::MAX, 1)), "- 3689348814741910323000.0% conflated");
}

use priceshark::conflation::candidates::{build_candidates, Candidate};
use priceshark::conflation::resolver::resolve;

#[test]
fn passes_are_as_many_as_the_longest_stack() {
    let mut registry = Registry::new();
    for id in 1..=3 {
        registry.add_store(RawStore { id, point: point(0.0, 0.0) });
    }
    for id in 1..=4 {
        registry.add_entity(entity(id, 0.0, 0.0));
    }
    let far = metres(7000.0);
    let distances = vec![
        vec![metres(30.0), metres(20.0), metres(10.0), far],
        vec![metres(5.0), far, far, far],
        vec![far, far, far, far],
    ];
    let claims = vec![None, None, None, None];
    let forced = force_matches(&registry, &claims).unwrap();
    let candidates = build_candidates(&Retailer::Coles, &registry, &forced, &distances);
    assert_eq!(candidates.nearby.len(), 3);
    // the nearest candidate is the last of a stack
    assert_eq!(
        candidates.nearby[0].stack,
        vec![
            Candidate { distance: metres(30.0), entity: 0 },
            Candidate { distance: metres(20.0), entity: 1 },
            Candidate { distance: metres(10.0), entity: 2 },
        ]
    );
    assert!(candidates.nearby[2].stack.is_empty());
    assert_eq!(
        candidates.nearest,
        vec![Some(metres(5.0)), Some(metres(20.0)), Some(metres(10.0)), None]
    );
    let mut matches = forced.matches;
    let resolution = resolve(&Retailer::Coles, &registry, &candidates, &mut matches);
    assert_eq!(resolution.passes, 3);
    assert_eq!(matches.len(), 2);
    assert_eq!(matches.get(&StoreId::Coles(1)), Some(2));
    assert_eq!(matches.get(&StoreId::Coles(2)), Some(0));
    assert_eq!(matches.get(&StoreId::Coles(3)), None);
    assert_eq!(
        resolution.notes,
        vec![Note::Conflict {
            store: StoreId::Coles(1),
            held: OsmId::Node(3),
            contested: OsmId::Node(2)
        }]
    );

    // without stores or without entities there is no pass at all
    let empty = Registry::new();
    let forced = force_matches(&empty, &Vec::new()).unwrap();
    let candidates = build_candidates(&Retailer::Coles, &empty, &forced, &Vec::new());
    let mut matches = forced.matches;
    assert_eq!(resolve(&Retailer::Coles, &empty, &candidates, &mut matches).passes, 0);
}
