//! One run from the registry to the matched stores and the report: forced
//! matches first, then the candidates of the other stores, the passes of the
//! resolver, and what is left over.

use vstd::prelude::*;
use crate::conflation::candidates::{
    build_candidates, built, lemma_live_stores, lemma_stack_upto, live_of, live_stores,
    nearest_upto, stack_of, Candidates,
};
use crate::conflation::forced::{
    claimed_by, clash_free, force_matches, forced_relation, named_count, taken_of, website_claim,
    website_claims, ConflictError,
};
use crate::conflation::matches::{entry_at, lemma_relation_at, relation, Matches};
use crate::conflation::registry::{OsmElement, RawStore, Registry, Store};
use crate::conflation::report::Report;
use crate::conflation::resolver::{
    contestable, contests_of, depth, entity_ids, notes_through, resolve, settled, store_id_at,
    within, Contest, Note,
};
use crate::osm::OsmId;
use crate::retailer::Retailer;
use crate::store::StoreId;

verus! {

/// What a run gives: the matched stores in the order of their identifiers,
/// and the report.
#[derive(Debug)]
pub struct Conflation {
    pub stores: Vec<Store>,
    pub report: Report,
}

/// The contest of a run: every store that no website names, with the stack
/// of its candidates.
pub open spec fn contest_of_run(
    retailer: Retailer,
    stores: Seq<RawStore>,
    claims: Seq<Option<StoreId>>,
    distances: Seq<Vec<u64>>,
) -> Seq<Contest> {
    let live = live_of(retailer, stores, forced_relation(claims));
    let order = live_stores(live, live.len() as int);
    Seq::new(
        order.len(),
        |k: int|
            Contest {
                store: store_id_at(retailer, stores, order[k] as int),
                start: None,
                stack: stack_of(taken_of(claims), distances[order[k] as int]@),
            },
    )
}

/// For each entity the least distance of a store that has it as a candidate.
pub open spec fn least_distances(
    retailer: Retailer,
    stores: Seq<RawStore>,
    claims: Seq<Option<StoreId>>,
    distances: Seq<Vec<u64>>,
) -> Seq<Option<u64>> {
    Seq::new(
        claims.len(),
        |j: int|
            nearest_upto(
                live_of(retailer, stores, forced_relation(claims)),
                taken_of(claims),
                distances,
                distances.len() as int,
                j,
            ),
    )
}

/// The matches of a run: the forced ones, and for every other store the
/// first entity that it wins.
pub open spec fn matches_of_run(
    retailer: Retailer,
    stores: Seq<RawStore>,
    claims: Seq<Option<StoreId>>,
    distances: Seq<Vec<u64>>,
) -> Map<StoreId, usize> {
    settled(
        forced_relation(claims),
        contest_of_run(retailer, stores, claims, distances),
        least_distances(retailer, stores, claims, distances),
    )
}

/// The notes of a run.
pub open spec fn notes_of_run(
    retailer: Retailer,
    registry: Registry,
    claims: Seq<Option<StoreId>>,
    distances: Seq<Vec<u64>>,
) -> Seq<Note> {
    let contests = contest_of_run(retailer, registry.stores@, claims, distances);
    notes_through(
        contests,
        entity_ids(registry.entities@),
        least_distances(retailer, registry.stores@, claims, distances),
        depth(contests, contests.len() as int),
    )
}

/// The stores among the first `k` of the contest that have no candidate.
pub open spec fn idle_stores(contests: Seq<Contest>, k: int) -> Seq<StoreId>
    decreases k,
{
    if k <= 0 {
        Seq::empty()
    } else if contests[k - 1].stack.len() == 0 {
        idle_stores(contests, k - 1).push(contests[k - 1].store)
    } else {
        idle_stores(contests, k - 1)
    }
}

/// Whether some store is matched with entity `j`.
pub open spec fn is_matched(relation: Map<StoreId, usize>, j: int) -> bool {
    exists|s: StoreId| relation.dom().contains(s) && #[trigger] relation[s] == j
}

/// The entities among the first `n` that no store is matched with.
pub open spec fn spare_entities(ids: Seq<OsmId>, relation: Map<StoreId, usize>, n: int) -> Seq<
    OsmId,
>
    decreases n,
{
    if n <= 0 {
        Seq::empty()
    } else if is_matched(relation, n - 1) {
        spare_entities(ids, relation, n - 1)
    } else {
        spare_entities(ids, relation, n - 1).push(ids[n - 1])
    }
}

/// Whether `stores` writes down the matches: one record for each matched
/// store, with the identifier and the place of its entity, in the order of
/// the stores' identifiers.
pub open spec fn exports(
    stores: Seq<Store>,
    relation: Map<StoreId, usize>,
    entities: Seq<OsmElement>,
) -> bool {
    &&& forall|a: int, b: int|
        0 <= a < b < stores.len() ==> (#[trigger] stores[a]).id.rank() < (
        #[trigger] stores[b]).id.rank()
    &&& forall|a: int|
        0 <= a < stores.len() ==> {
            let s = #[trigger] stores[a];
            &&& relation.dom().contains(s.id)
            &&& relation[s.id] < entities.len()
            &&& s.osm == entities[relation[s.id] as int].id
            &&& s.point == entities[relation[s.id] as int].point
        }
    &&& forall|s: StoreId|
        relation.dom().contains(s) ==> exists|a: int|
            0 <= a < stores.len() && (#[trigger] stores[a]).id == s
}

/// Whether `c` is the outcome of a run without clashes.
pub open spec fn outcome(
    c: Conflation,
    retailer: Retailer,
    registry: Registry,
    claims: Seq<Option<StoreId>>,
    distances: Seq<Vec<u64>>,
) -> bool {
    let contests = contest_of_run(retailer, registry.stores@, claims, distances);
    let matches = matches_of_run(retailer, registry.stores@, claims, distances);
    &&& exports(c.stores@, matches, registry.entities@)
    &&& c.report.raw == registry.stores@.len()
    &&& c.report.osm == registry.entities@.len()
    &&& c.report.forced == named_count(claims, claims.len() as int)
    &&& c.report.forced + c.report.on_distance == c.stores@.len()
    &&& c.report.unmatched_stores@ == idle_stores(contests, contests.len() as int)
    &&& c.report.notes@ == notes_of_run(retailer, registry, claims, distances)
    &&& c.report.unmatched_entities@ == spare_entities(
        entity_ids(registry.entities@),
        matches,
        registry.entities@.len() as int,
    )
}

/// Whether `e` names the first clash among the claims: the first entity
/// that names a store named before, and the entity that named it.
pub open spec fn first_clash(
    e: ConflictError,
    entities: Seq<OsmElement>,
    claims: Seq<Option<StoreId>>,
) -> bool {
    exists|i: int, j: int|
        {
            &&& 0 <= i < j < claims.len()
            &&& clash_free(claims.take(j))
            &&& claims[i] == Some(e.store)
            &&& claims[j] == Some(e.store)
            &&& e.entity == entities[j].id
            &&& e.earlier == entities[i].id
        }
}

/// Whether `r` is what a run gives: the error of the first clash where two
/// entities name one store, the outcome where none do.
pub open spec fn conflated(
    r: Result<Conflation, ConflictError>,
    retailer: Retailer,
    registry: Registry,
    claims: Seq<Option<StoreId>>,
    distances: Seq<Vec<u64>>,
) -> bool {
    match r {
        Ok(c) => clash_free(claims) && outcome(c, retailer, registry, claims, distances),
        Err(e) => !clash_free(claims) && first_clash(e, registry.entities@, claims),
    }
}

/// The stacks that the builder makes fit the registry.
proof fn lemma_built_contestable(
    registry: Registry,
    candidates: Candidates,
    live: Seq<bool>,
    taken: Seq<bool>,
    distances: Seq<Vec<u64>>,
)
    requires
        registry.measured_by(distances),
        live.len() == registry.stores@.len(),
        taken.len() == registry.entities@.len(),
        live.len() <= usize::MAX,
        taken.len() <= usize::MAX,
        built(candidates, live, taken, distances),
    ensures
        contestable(registry, candidates),
{
    let order = live_stores(live, live.len() as int);
    lemma_live_stores(live, live.len() as int);
    assert forall|k: int, a: int|
        0 <= k < candidates.nearby@.len() && 0 <= a < candidates.nearby@[k].stack@.len() implies {
        let c = #[trigger] candidates.nearby@[k].stack@[a];
        c.entity < registry.entities@.len() && c.distance < crate::conflation::distance::MATCH_RADIUS
    } by {
        let n = candidates.nearby@[k];
        let row = distances[n.store as int]@;
        assert(n.store == order[k]);
        lemma_stack_upto(taken, row, row.len() as int);
        assert(n.stack@ == stack_of(taken, row));
        let c = stack_of(taken, row)[a];
        assert(c.entity < row.len());
    }
    assert forall|a: int, b: int| 0 <= a < b < candidates.nearby@.len() implies (
    #[trigger] candidates.nearby@[a]).store < (#[trigger] candidates.nearby@[b]).store by {
        assert(candidates.nearby@[a].store == order[a]);
        assert(candidates.nearby@[b].store == order[b]);
    }
    assert forall|k: int| 0 <= k < candidates.nearby@.len() implies (
    #[trigger] candidates.nearby@[k]).store < registry.stores@.len() by {
        assert(candidates.nearby@[k].store == order[k]);
    }
}

/// The stores of the contest that have no candidate.
fn stores_without_candidates(retailer: &Retailer, registry: &Registry, candidates: &Candidates) -> (r:
    Vec<StoreId>)
    requires
        forall|k: int|
            0 <= k < candidates.nearby@.len() ==> (#[trigger] candidates.nearby@[k]).store
                < registry.stores@.len(),
    ensures
        r@ == idle_stores(
            contests_of(
                *retailer,
                registry.stores@,
                candidates.nearby@,
                Map::<StoreId, usize>::empty(),
            ),
            candidates.nearby@.len() as int,
        ),
{
    let ghost contests = contests_of(
        *retailer,
        registry.stores@,
        candidates.nearby@,
        Map::<StoreId, usize>::empty(),
    );
    let mut idle: Vec<StoreId> = Vec::new();
    let mut k: usize = 0;
    while k < candidates.nearby.len()
        invariant
            k <= candidates.nearby@.len(),
            contests == contests_of(
                *retailer,
                registry.stores@,
                candidates.nearby@,
                Map::<StoreId, usize>::empty(),
            ),
            forall|i: int|
                0 <= i < candidates.nearby@.len() ==> (#[trigger] candidates.nearby@[i]).store
                    < registry.stores@.len(),
            idle@ == idle_stores(contests, k as int),
        decreases candidates.nearby@.len() - k,
    {
        let entry = &candidates.nearby[k];
        assert(contests[k as int].stack == entry.stack@);
        if entry.stack.len() == 0 {
            idle.push(StoreId::new(retailer, registry.stores[entry.store].id));
        }
        k += 1;
    }
    idle
}

/// The entities that no store is matched with.
fn entities_without_store(registry: &Registry, matches: &Matches) -> (r: Vec<OsmId>)
    requires
        matches.wf(),
        within(matches@, registry.entities@.len() as int),
    ensures
        r@ == spare_entities(
            entity_ids(registry.entities@),
            matches@,
            registry.entities@.len() as int,
        ),
{
    let count = registry.entities.len();
    let mut used: Vec<bool> = Vec::new();
    let mut j: usize = 0;
    while j < count
        invariant
            j <= count,
            used@.len() == j,
            forall|i: int| 0 <= i < j ==> !(#[trigger] used@[i]),
        decreases count - j,
    {
        used.push(false);
        j += 1;
    }
    let mut a: usize = 0;
    while a < matches.entries.len()
        invariant
            a <= matches.entries@.len(),
            count == registry.entities@.len(),
            matches.wf(),
            within(matches@, count as int),
            used@.len() == count,
            forall|i: int|
                0 <= i < count ==> (#[trigger] used@[i] <==> exists|b: int|
                    0 <= b < a && (#[trigger] matches.entries@[b]).entity == i),
        decreases matches.entries@.len() - a,
    {
        let entity = matches.entries[a].entity;
        proof {
            lemma_relation_at(matches.entries@, a as int);
        }
        let ghost before = used@;
        used[entity] = true;
        proof {
            assert forall|i: int| 0 <= i < count implies (#[trigger] used@[i] <==> exists|b: int|
                0 <= b < a + 1 && (#[trigger] matches.entries@[b]).entity == i) by {
                if used@[i] {
                    if i == entity {
                        assert(matches.entries@[a as int].entity == i);
                    } else {
                        assert(before[i]);
                        let b = choose|b: int| 0 <= b < a && matches.entries@[b].entity == i;
                        assert(matches.entries@[b].entity == i);
                    }
                }
            }
        }
        a += 1;
    }
    proof {
        assert forall|i: int| 0 <= i < count implies (#[trigger] used@[i] <==> is_matched(
            matches@,
            i,
        )) by {
            if used@[i] {
                let b = choose|b: int|
                    0 <= b < matches.entries@.len() && matches.entries@[b].entity == i;
                lemma_relation_at(matches.entries@, b);
                assert(matches@[matches.entries@[b].store] == i);
            }
            if is_matched(matches@, i) {
                let s = choose|s: StoreId| matches@.dom().contains(s) && matches@[s] == i;
                let b = choose|b: int| entry_at(matches.entries@, s, b);
                lemma_relation_at(matches.entries@, b);
                assert(matches.entries@[b].entity == i);
            }
        }
    }
    let ghost ids = entity_ids(registry.entities@);
    let mut spare: Vec<OsmId> = Vec::new();
    let mut j: usize = 0;
    while j < count
        invariant
            j <= count,
            count == registry.entities@.len(),
            used@.len() == count,
            ids == entity_ids(registry.entities@),
            forall|i: int| 0 <= i < count ==> (#[trigger] used@[i] <==> is_matched(matches@, i)),
            spare@ == spare_entities(ids, matches@, j as int),
        decreases count - j,
    {
        if !used[j] {
            spare.push(registry.entities[j].id);
        }
        j += 1;
    }
    spare
}

/// The matches as records, in the order of the stores.
fn export(registry: &Registry, matches: &Matches) -> (r: Vec<Store>)
    requires
        matches.wf(),
        within(matches@, registry.entities@.len() as int),
    ensures
        exports(r@, matches@, registry.entities@),
        r@.len() == matches.entries@.len(),
{
    let mut stores: Vec<Store> = Vec::new();
    let mut a: usize = 0;
    while a < matches.entries.len()
        invariant
            a <= matches.entries@.len(),
            matches.wf(),
            within(matches@, registry.entities@.len() as int),
            stores@.len() == a,
            forall|b: int|
                0 <= b < a ==> {
                    let s = #[trigger] stores@[b];
                    let e = matches.entries@[b];
                    &&& s.id == e.store
                    &&& e.entity < registry.entities@.len()
                    &&& s.osm == registry.entities@[e.entity as int].id
                    &&& s.point == registry.entities@[e.entity as int].point
                },
        decreases matches.entries@.len() - a,
    {
        let entry = matches.entries[a];
        proof {
            lemma_relation_at(matches.entries@, a as int);
        }
        let entity = &registry.entities[entry.entity];
        stores.push(Store { id: entry.store, osm: entity.id, point: entity.point });
        a += 1;
    }
    proof {
        assert forall|b: int| 0 <= b < stores@.len() implies {
            let s = #[trigger] stores@[b];
            &&& matches@.dom().contains(s.id)
            &&& matches@[s.id] < registry.entities@.len()
            &&& s.osm == registry.entities@[matches@[s.id] as int].id
            &&& s.point == registry.entities@[matches@[s.id] as int].point
        } by {
            lemma_relation_at(matches.entries@, b);
        }
        assert forall|s: StoreId| matches@.dom().contains(s) implies exists|b: int|
            0 <= b < stores@.len() && (#[trigger] stores@[b]).id == s by {
            let b = choose|b: int| entry_at(matches.entries@, s, b);
            assert(stores@[b].id == s);
        }
        assert forall|x: int, y: int| 0 <= x < y < stores@.len() implies (
        #[trigger] stores@[x]).id.rank() < (#[trigger] stores@[y]).id.rank() by {
            assert(matches.entries@[x].store.rank() < matches.entries@[y].store.rank());
        }
    }
    stores
}

/// Runs the conflation for stores and entities whose claims are given: for
/// each entity of the registry the store that it names, if it names one.
pub fn conflate_claims(
    retailer: &Retailer,
    registry: &Registry,
    claims: &Vec<Option<StoreId>>,
    distances: &Vec<Vec<u64>>,
) -> (r: Result<Conflation, ConflictError>)
    requires
        registry.wf(),
        registry.measured_by(distances@),
        claims@.len() == registry.entities@.len(),
    ensures
        conflated(r, *retailer, *registry, claims@, distances@),
{
    let forced = match force_matches(registry, claims) {
        Ok(forced) => forced,
        Err(e) => {
            proof {
                let (i, j) = choose|i: int, j: int|
                    {
                        &&& 0 <= i < j < claims@.len()
                        &&& clash_free(claims@.take(j))
                        &&& claims@[i] == Some(e.store)
                        &&& claims@[j] == Some(e.store)
                        &&& e.entity == registry.entities@[j].id
                        &&& e.earlier == registry.entities@[i].id
                    };
                assert(crate::conflation::forced::clashes(claims@, j));
            }
            return Err(e);
        },
    };
    let ghost fixed = forced_relation(claims@);
    let ghost taken = taken_of(claims@);
    let ghost live = live_of(*retailer, registry.stores@, fixed);
    let candidates = build_candidates(retailer, registry, &forced, distances);
    let raw = registry.stores.len();
    let osm = registry.entities.len();
    proof {
        lemma_built_contestable(*registry, candidates, live, taken, distances@);
        lemma_live_stores(live, live.len() as int);
    }
    let unmatched_stores = stores_without_candidates(retailer, registry, &candidates);
    let forced_count = forced.matches.len();
    let mut matches = forced.matches;
    proof {
        assert forall|s: StoreId| fixed.dom().contains(s) implies #[trigger] fixed[s]
            < registry.entities@.len() by {
            let j = choose|j: int| claimed_by(claims@, s, j);
            assert(claimed_by(claims@, s, j));
        }
    }
    let resolution = resolve(retailer, registry, &candidates, &mut matches);
    let ghost contests = contest_of_run(*retailer, registry.stores@, claims@, distances@);
    let ghost nearest = least_distances(*retailer, registry.stores@, claims@, distances@);
    proof {
        let order = live_stores(live, live.len() as int);
        let made = contests_of(*retailer, registry.stores@, candidates.nearby@, fixed);
        assert forall|k: int| 0 <= k < made.len() implies made[k] == contests[k] by {
            let n = candidates.nearby@[k];
            assert(n.store == order[k]);
            assert(live[order[k] as int]);
        }
        assert(made =~= contests);
        let idle = contests_of(
            *retailer,
            registry.stores@,
            candidates.nearby@,
            Map::<StoreId, usize>::empty(),
        );
        assert forall|k: int| 0 <= k < idle.len() implies idle[k] == contests[k] by {
            let n = candidates.nearby@[k];
            assert(n.store == order[k]);
        }
        assert(idle =~= contests);
        assert(candidates.nearest@ =~= nearest);
    }
    let unmatched_entities = entities_without_store(registry, &matches);
    let stores = export(registry, &matches);
    let on_distance = matches.len() - forced_count;
    let report = Report {
        raw,
        osm,
        forced: forced_count,
        on_distance,
        unmatched_stores,
        notes: resolution.notes,
        unmatched_entities,
    };
    Ok(Conflation { stores, report })
}

/// Runs the conflation for a retailer: an entity names the store whose page
/// its website tag gives.
pub fn conflate(retailer: &Retailer, registry: &Registry, distances: &Vec<Vec<u64>>) -> (r: Result<
    Conflation,
    ConflictError,
>)
    requires
        registry.wf(),
        registry.measured_by(distances@),
    ensures
        conflated(
            r,
            *retailer,
            *registry,
            Seq::new(
                registry.entities@.len(),
                |j: int| website_claim(*retailer, registry.entities@[j]),
            ),
            distances@,
        ),
{
    let claims = website_claims(retailer, registry);
    assert(claims@ =~= Seq::new(
        registry.entities@.len(),
        |j: int| website_claim(*retailer, registry.entities@[j]),
    ));
    conflate_claims(retailer, registry, &claims, distances)
}

} // verus!
