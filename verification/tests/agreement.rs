use std::collections::{BTreeMap, BTreeSet};

use priceshark::conflation::pipeline::conflate_claims;
use priceshark::conflation::registry::{OsmElement, Point, RawStore, Registry};
use priceshark::{ConflictError, OsmId, Retailer, StoreId};

/// A small generator of numbers that look random and are the same in every
/// run.
struct Dice(u64);

impl Dice {
    fn roll(&mut self, sides: u64) -> u64 {
        self.0 = self.0.wrapping_mul(6364136223846793005).wrapping_add(1442695040888963407);
        (self.0 >> 33) % sides
    }
}

/// The conflation written down plainly, with maps and sets keyed by the
/// identifiers and with distances as numbers.
fn plainly(
    stores: &[u32],
    entities: &[(OsmId, Option<StoreId>)],
    distance: &dyn Fn(usize, usize) -> f64,
) -> Result<(Vec<(StoreId, OsmId)>, String), (StoreId, OsmId, OsmId)> {
    let mut output: BTreeMap<StoreId, usize> = BTreeMap::new();
    let mut todo = String::new();

    let mut forced = BTreeSet::new();
    for (j, (id, claim)) in entities.iter().enumerate() {
        if let Some(store) = claim {
            forced.insert(*id);
            if let Some(earlier) = output.insert(*store, j) {
                return Err((*store, *id, entities[earlier].0));
            }
        }
    }

    let mut nearby: BTreeMap<StoreId, Vec<(f64, usize)>> = BTreeMap::new();
    let mut nearest: BTreeMap<OsmId, f64> = BTreeMap::new();
    for (i, store) in stores.iter().enumerate() {
        let id = StoreId::Coles(*store);
        if output.contains_key(&id) {
            continue;
        }
        let mut this_nearby = Vec::new();
        for (j, (osm, _)) in entities.iter().enumerate() {
            if forced.contains(osm) {
                continue;
            }
            let d = distance(i, j);
            if d < 500.0 {
                if let Some(x) = nearest.get_mut(osm) {
                    if *x > d {
                        *x = d;
                    }
                } else {
                    nearest.insert(*osm, d);
                }
                this_nearby.push((d, j));
            }
        }
        this_nearby.sort_by(|(a, _), (b, _)| a.total_cmp(b));
        this_nearby.reverse();
        nearby.insert(id, this_nearby);
    }

    let missing: Vec<_> = nearby.iter().filter(|(_, x)| x.is_empty()).collect();
    if !missing.is_empty() {
        todo.push_str("- didn't match with osm:\n");
        for (k, _) in missing {
            todo.push_str(&format!("  - {}\n", k.markdown()));
        }
    }

    let mut keep_going = true;
    let mut pass = 0;
    while keep_going {
        keep_going = false;
        pass += 1;
        for (store, this_nearby) in nearby.iter_mut() {
            if let Some((d, next)) = this_nearby.pop() {
                keep_going = true;
                let osm = entities[next].0;
                if nearest[&osm] == d {
                    if let Some(x) = output.get(store) {
                        todo.push_str(&format!(
                            "- {} is conflicted with {} and {}\n",
                            store.markdown(),
                            entities[*x].0.markdown(),
                            osm.markdown()
                        ));
                    } else {
                        if pass > 1 {
                            todo.push_str(&format!(
                                "- {} is #{pass} closest to {} ({d:.00}m)\n",
                                osm.markdown(),
                                store.markdown()
                            ));
                        } else if d > 400.0 {
                            todo.push_str(&format!(
                                "- {}: {} is {d:.00}m away from raw location\n",
                                store.markdown(),
                                osm.markdown()
                            ));
                        }
                        output.insert(*store, next);
                    }
                }
            }
        }
    }

    let mut existing: BTreeSet<OsmId> = forced.iter().copied().collect();
    existing.extend(output.values().map(|j| entities[*j].0));
    let missing: Vec<_> = entities.iter().map(|x| x.0).filter(|x| !existing.contains(x)).collect();
    if !missing.is_empty() {
        todo.push_str("- didn't match with raw:\n");
        for x in missing {
            todo.push_str(&format!("  - {}\n", x.markdown()));
        }
    }

    Ok((output.into_iter().map(|(k, j)| (k, entities[j].0)).collect(), todo))
}

#[test]
fn the_library_agrees_with_the_plain_reading() {
    let mut dice = Dice(2024);
    let mut errors = 0;
    let mut conflicts = 0;
    let mut later = 0;
    for _ in 0..400 {
        let store_count = dice.roll(7) as usize;
        let entity_count = dice.roll(8) as usize;
        let stores: Vec<u32> = (0..store_count as u32).map(|i| 10 + i * 3).collect();
        let mut entities: Vec<(OsmId, Option<StoreId>)> = Vec::new();
        for j in 0..entity_count as u64 {
            let id = match j % 3 {
                0 => OsmId::Node(100 + j),
                1 => OsmId::Relation(100 + j),
                _ => OsmId::Way(100 + j),
            };
            let claim = match dice.roll(6) {
                0 => Some(StoreId::Coles(10 + 3 * dice.roll(8) as u32)),
                _ => None,
            };
            entities.push((id, claim));
        }
        // the registry holds the entities in the order of their identifiers
        entities.sort();
        let steps = [0.0, 12.5, 50.0, 50.0, 120.25, 300.5, 399.5, 400.0, 400.5, 450.0, 499.5, 500.0, 750.0];
        let table: Vec<Vec<f64>> = (0..store_count)
            .map(|_| (0..entity_count).map(|_| steps[dice.roll(steps.len() as u64) as usize]).collect())
            .collect();

        let mut registry = Registry::new();
        for id in &stores {
            registry.add_store(RawStore { id: *id, point: Point { lat: 0, lon: 0 } });
        }
        for (id, _) in &entities {
            registry.add_entity(OsmElement { id: *id, point: Point { lat: 1, lon: 2 }, tags: Vec::new() });
        }
        let claims: Vec<Option<StoreId>> = entities.iter().map(|x| x.1).collect();
        let distances: Vec<Vec<u64>> =
            table.iter().map(|row| row.iter().map(|d| d.to_bits()).collect()).collect();

        let ours = conflate_claims(&Retailer::Coles, &registry, &claims, &distances);
        let plain = plainly(&stores, &entities, &|i, j| table[i][j]);
        match (ours, plain) {
            (Ok(ours), Ok((matches, todo))) => {
                let found: Vec<(StoreId, OsmId)> = ours.stores.iter().map(|x| (x.id, x.osm)).collect();
                assert_eq!(found, matches);
                assert_eq!(ours.report.todo(), todo);
                if todo.contains("conflicted") {
                    conflicts += 1;
                }
                if todo.contains("closest") {
                    later += 1;
                }
            }
            (Err(ours), Err((store, entity, earlier))) => {
                assert_eq!(ours, ConflictError { store, entity, earlier });
                errors += 1;
            }
            (ours, plain) => panic!("{:?} {:?}", ours.map(|x| x.stores), plain),
        }
    }
    // the runs reach every kind of outcome
    assert!(errors > 5);
    assert!(conflicts > 5);
    assert!(later > 5);
}
