//! What holds of every run.

use vstd::prelude::*;
use crate::conflation::candidates::{
    in_reach, lemma_live_stores, lemma_stack_upto, lesser, live_of, live_stores, nearest_upto,
    stack_of,
};
use crate::conflation::forced::{
    claimed_by, clash_free, clashes, forced_relation, lemma_one_claimant, taken_of, ConflictError,
};
use crate::conflation::pipeline::{
    conflated, contest_of_run, exports, least_distances, matches_of_run, Conflation,
};
use crate::conflation::registry::{stores_rising, OsmElement, RawStore, Registry, Store};
use crate::conflation::resolver::{
    depth, distinct_stores, examined, final_holds, held_after, held_before, lemma_held_stays,
    lemma_relation_lookup, settled, store_id_at, wins_at, Contest,
};
use crate::retailer::Retailer;
use crate::store::StoreId;

verus! {

/// Whether `distances` holds a row for each store, with a distance for each
/// of the entities that `claims` speaks of.
pub open spec fn table_fits(
    stores: Seq<RawStore>,
    claims: Seq<Option<StoreId>>,
    distances: Seq<Vec<u64>>,
) -> bool {
    &&& stores.len() <= usize::MAX
    &&& claims.len() <= usize::MAX
    &&& distances.len() == stores.len()
    &&& forall|i: int| 0 <= i < distances.len() ==> (#[trigger] distances[i])@.len() == claims.len()
}

/// A forced match stands: the store that an entity names is matched with
/// that entity in the end, whatever the distances are.
pub proof fn lemma_forced_matches_stand(
    retailer: Retailer,
    stores: Seq<RawStore>,
    claims: Seq<Option<StoreId>>,
    distances: Seq<Vec<u64>>,
    j: int,
)
    requires
        clash_free(claims),
        0 <= j < claims.len() <= usize::MAX,
        claims[j] is Some,
    ensures
        matches_of_run(retailer, stores, claims, distances).dom().contains(claims[j]->0),
        matches_of_run(retailer, stores, claims, distances)[claims[j]->0] == j,
{
    let s = claims[j]->0;
    assert(claimed_by(claims, s, j));
    let k = choose|k: int| claimed_by(claims, s, k);
    lemma_one_claimant(claims, s, k, j);
    let fixed = forced_relation(claims);
    assert(fixed.dom().contains(s));
    assert(fixed[s] == j);
    lemma_settled_keeps(
        fixed,
        contest_of_run(retailer, stores, claims, distances),
        least_distances(retailer, stores, claims, distances),
        s,
    );
}

/// The resolver overwrites no match that was there before it ran.
pub proof fn lemma_settled_keeps(
    fixed: Map<StoreId, usize>,
    contests: Seq<Contest>,
    nearest: Seq<Option<u64>>,
    s: StoreId,
)
    requires
        fixed.dom().contains(s),
    ensures
        settled(fixed, contests, nearest).dom().contains(s),
        settled(fixed, contests, nearest)[s] == fixed[s],
{
}

/// Forced matches stay out of the contest: no stack holds an entity that
/// names a store, and no store that an entity names has a stack.
pub proof fn lemma_forced_stay_out(
    retailer: Retailer,
    stores: Seq<RawStore>,
    claims: Seq<Option<StoreId>>,
    distances: Seq<Vec<u64>>,
)
    requires
        table_fits(stores, claims, distances),
    ensures
        forall|k: int, a: int|
            0 <= k < contest_of_run(retailer, stores, claims, distances).len() && 0 <= a
                < contest_of_run(retailer, stores, claims, distances)[k].stack.len() ==> (
            #[trigger] contest_of_run(retailer, stores, claims, distances)[k].stack[a]).entity
                < claims.len() && claims[contest_of_run(
                retailer,
                stores,
                claims,
                distances,
            )[k].stack[a].entity as int] is None,
        forall|k: int|
            0 <= k < contest_of_run(retailer, stores, claims, distances).len()
                ==> !forced_relation(claims).dom().contains(
                (#[trigger] contest_of_run(retailer, stores, claims, distances)[k]).store,
            ),
{
    let contests = contest_of_run(retailer, stores, claims, distances);
    let live = live_of(retailer, stores, forced_relation(claims));
    let order = live_stores(live, live.len() as int);
    let taken = taken_of(claims);
    lemma_live_stores(live, live.len() as int);
    assert forall|k: int, a: int|
        0 <= k < contests.len() && 0 <= a < contests[k].stack.len() implies (
    #[trigger] contests[k].stack[a]).entity < claims.len() && claims[contests[k].stack[a].entity as int] is None by {
        let row = distances[order[k] as int]@;
        lemma_stack_upto(taken, row, row.len() as int);
        let c = stack_of(taken, row)[a];
        assert(in_reach(taken, row, c.entity as int));
    }
    assert forall|k: int| 0 <= k < contests.len() implies !forced_relation(claims).dom().contains(
        (#[trigger] contests[k]).store,
    ) by {
        assert(live[order[k] as int]);
    }
}

/// An entity is a candidate of a store exactly if no website names a store
/// through it and it is nearer than the match radius: at the radius it is
/// out, anywhere below it is in.
pub proof fn lemma_candidates_are_within_radius(taken: Seq<bool>, row: Seq<u64>, j: int)
    requires
        row.len() <= usize::MAX,
    ensures
        (exists|a: int|
            0 <= a < stack_of(taken, row).len() && #[trigger] stack_of(taken, row)[a].entity == j)
            <==> (0 <= j < row.len() && j < taken.len() && !taken[j] && row[j]
            < crate::conflation::distance::MATCH_RADIUS),
{
    lemma_stack_upto(taken, row, row.len() as int);
    let stack = stack_of(taken, row);
    if in_reach(taken, row, j) {
        let a = choose|a: int| 0 <= a < stack.len() && #[trigger] stack[a].entity == j;
        assert(0 <= a < stack_of(taken, row).len() && stack_of(taken, row)[a].entity == j);
    }
    if exists|a: int|
        0 <= a < stack_of(taken, row).len() && #[trigger] stack_of(taken, row)[a].entity == j {
        let a = choose|a: int|
            0 <= a < stack_of(taken, row).len() && #[trigger] stack_of(taken, row)[a].entity == j;
        let c = stack_of(taken, row)[a];
        assert(in_reach(taken, row, c.entity as int));
    }
}

/// The least distance of an entity is the distance of one of the stores that
/// take part and reach it, and none of them is nearer.
pub proof fn lemma_nearest_is_least(
    live: Seq<bool>,
    taken: Seq<bool>,
    distances: Seq<Vec<u64>>,
    n: int,
    j: int,
)
    requires
        0 <= n <= distances.len(),
        n <= live.len(),
    ensures
        match nearest_upto(live, taken, distances, n, j) {
            Some(d) => {
                &&& exists|t: int|
                    0 <= t < n && live[t] && in_reach(taken, distances[t]@, j) && (
                    #[trigger] distances[t])@[j] == d
                &&& forall|t: int|
                    0 <= t < n && live[t] && in_reach(taken, distances[t]@, j) ==> d <= (
                    #[trigger] distances[t])@[j]
            },
            None => forall|t: int|
                0 <= t < n && live[t] ==> !in_reach(taken, (#[trigger] distances[t])@, j),
        },
    decreases n,
{
    if n > 0 {
        lemma_nearest_is_least(live, taken, distances, n - 1, j);
        let so_far = nearest_upto(live, taken, distances, n - 1, j);
        if live[n - 1] && in_reach(taken, distances[n - 1]@, j) {
            let d = distances[n - 1]@[j];
            let now = lesser(so_far, d);
            match so_far {
                Some(p) => {
                    if p > d {
                        assert(distances[n - 1]@[j] == now->0);
                    } else {
                        let t = choose|t: int|
                            0 <= t < n - 1 && live[t] && in_reach(taken, distances[t]@, j) && (
                            #[trigger] distances[t])@[j] == p;
                        assert(distances[t]@[j] == now->0);
                    }
                },
                None => {
                    assert(distances[n - 1]@[j] == now->0);
                },
            }
        } else {
            match so_far {
                Some(p) => {
                    let t = choose|t: int|
                        0 <= t < n - 1 && live[t] && in_reach(taken, distances[t]@, j) && (
                        #[trigger] distances[t])@[j] == p;
                    assert(distances[t]@[j] == p);
                },
                None => {},
            }
        }
    }
}

/// No two stores of a run's contest are the same store.
pub proof fn lemma_contest_stores_differ(
    retailer: Retailer,
    stores: Seq<RawStore>,
    claims: Seq<Option<StoreId>>,
    distances: Seq<Vec<u64>>,
)
    requires
        stores_rising(stores),
        stores.len() <= usize::MAX,
    ensures
        distinct_stores(contest_of_run(retailer, stores, claims, distances)),
{
    let contests = contest_of_run(retailer, stores, claims, distances);
    let live = live_of(retailer, stores, forced_relation(claims));
    let order = live_stores(live, live.len() as int);
    lemma_live_stores(live, live.len() as int);
    assert forall|a: int, b: int|
        0 <= a < contests.len() && 0 <= b < contests.len() && a != b implies (
    #[trigger] contests[a]).store != (#[trigger] contests[b]).store by {
        let x = order[a] as int;
        let y = order[b] as int;
        if a < b {
            assert(order[a] < order[b]);
            assert(stores[x].id < stores[y].id);
        } else {
            assert(order[b] < order[a]);
            assert(stores[y].id < stores[x].id);
        }
    }
}

/// A store whose nearest candidate is nearer to it than any other of its
/// candidates, and to which no other store is nearer, wins that entity in
/// the first pass and is matched with it. So does every store of which this
/// holds: stores that are equally near to an entity, with none nearer, are
/// all matched with it.
pub proof fn lemma_unique_nearest_wins_first_pass(
    retailer: Retailer,
    stores: Seq<RawStore>,
    claims: Seq<Option<StoreId>>,
    distances: Seq<Vec<u64>>,
    i: int,
    j: int,
)
    requires
        stores_rising(stores),
        table_fits(stores, claims, distances),
        0 <= i < stores.len(),
        !forced_relation(claims).dom().contains(store_id_at(retailer, stores, i)),
        in_reach(taken_of(claims), distances[i]@, j),
        forall|o: int|
            o != j && in_reach(taken_of(claims), distances[i]@, o) ==> distances[i]@[j]
                < distances[i]@[o],
        forall|t: int|
            0 <= t < stores.len() && t != i && !forced_relation(claims).dom().contains(
                store_id_at(retailer, stores, t),
            ) && in_reach(taken_of(claims), (#[trigger] distances[t])@, j) ==> distances[i]@[j]
                <= distances[t]@[j],
    ensures
        exists|k: int|
            {
                &&& 0 <= k < contest_of_run(retailer, stores, claims, distances).len()
                &&& (#[trigger] contest_of_run(retailer, stores, claims, distances)[k]).store
                    == store_id_at(retailer, stores, i)
                &&& wins_at(
                    contest_of_run(retailer, stores, claims, distances)[k].stack,
                    least_distances(retailer, stores, claims, distances),
                    1,
                )
                &&& examined(contest_of_run(retailer, stores, claims, distances)[k].stack, 1).entity
                    == j
            },
        matches_of_run(retailer, stores, claims, distances).dom().contains(
            store_id_at(retailer, stores, i),
        ),
        matches_of_run(retailer, stores, claims, distances)[store_id_at(retailer, stores, i)] == j,
{
    let fixed = forced_relation(claims);
    let taken = taken_of(claims);
    let live = live_of(retailer, stores, fixed);
    let order = live_stores(live, live.len() as int);
    let contests = contest_of_run(retailer, stores, claims, distances);
    let nearest = least_distances(retailer, stores, claims, distances);
    let row = distances[i]@;
    let stack = stack_of(taken, row);
    lemma_live_stores(live, live.len() as int);
    assert(live[i]);
    let k = choose|k: int| 0 <= k < order.len() && #[trigger] order[k] == i;
    assert(contests[k].stack == stack);
    // the entity is on top of the store's stack
    lemma_stack_upto(taken, row, row.len() as int);
    let a = choose|a: int| 0 <= a < stack.len() && #[trigger] stack[a].entity == j;
    let top = stack.len() - 1;
    if a != top {
        let o = stack[top].entity as int;
        assert(crate::conflation::candidates::nearer(stack[top], stack[a]));
        assert(in_reach(taken, row, o));
    }
    assert(examined(stack, 1) == stack[top]);
    // and no store is nearer to it
    lemma_nearest_is_least(live, taken, distances, distances.len() as int, j);
    let least = nearest_upto(live, taken, distances, distances.len() as int, j);
    assert(nearest[j] == least);
    assert(least is Some);
    let t = choose|t: int|
        0 <= t < distances.len() && live[t] && in_reach(taken, distances[t]@, j) && (
        #[trigger] distances[t])@[j] == least->0;
    if t != i {
        assert(least->0 <= distances[i]@[j]);
        assert(distances[i]@[j] <= distances[t]@[j]);
    }
    assert(a == top);
    assert(examined(stack, 1).entity == j);
    assert(wins_at(stack, nearest, 1));
    assert(held_before(None, stack, nearest, 1) == None::<usize>);
    assert(held_before(None, stack, nearest, 2) == Some(j as usize));
    lemma_held_stays(None, stack, nearest, 2, stack.len() as int + 1);
    let held = final_holds(contests, nearest);
    assert(held[k] == held_after(contests[k], nearest));
    lemma_contest_stores_differ(retailer, stores, claims, distances);
    lemma_relation_lookup(fixed, contests, held, k);
}

/// How many candidates the first `k` stores of a contest have.
pub open spec fn total_candidates(contests: Seq<Contest>, k: int) -> int
    decreases k,
{
    if k <= 0 {
        0
    } else {
        total_candidates(contests, k - 1) + contests[k - 1].stack.len()
    }
}

/// The resolver makes no more passes than there are candidates: none where
/// there are no stores or no entities.
pub proof fn lemma_passes_within_candidates(contests: Seq<Contest>, k: int)
    requires
        0 <= k <= contests.len(),
    ensures
        0 <= depth(contests, k) <= total_candidates(contests, k),
    decreases k,
{
    if k > 0 {
        lemma_passes_within_candidates(contests, k - 1);
    }
}

/// Records in the order of their stores that hold the same stores are the
/// same records.
pub proof fn lemma_same_stores(a: Seq<Store>, b: Seq<Store>)
    requires
        forall|x: int, y: int|
            0 <= x < y < a.len() ==> (#[trigger] a[x]).id.rank() < (#[trigger] a[y]).id.rank(),
        forall|x: int, y: int|
            0 <= x < y < b.len() ==> (#[trigger] b[x]).id.rank() < (#[trigger] b[y]).id.rank(),
        forall|s: Store| a.contains(s) <==> b.contains(s),
    ensures
        a == b,
    decreases a.len(),
{
    if a.len() == 0 {
        if b.len() > 0 {
            assert(b.contains(b[0]));
        }
        assert(a =~= b);
    } else {
        let la = a.last();
        assert(a.contains(la));
        assert(b.contains(la));
        let lb = b.last();
        assert(b.contains(lb));
        assert(a.contains(lb));
        let ib = choose|ib: int| 0 <= ib < b.len() && b[ib] == la;
        let ia = choose|ia: int| 0 <= ia < a.len() && a[ia] == lb;
        if ib < b.len() - 1 {
            assert(b[ib].id.rank() < b[b.len() - 1].id.rank());
        }
        if ia < a.len() - 1 {
            assert(a[ia].id.rank() < a[a.len() - 1].id.rank());
        }
        assert(la == lb);
        let ra = a.drop_last();
        let rb = b.drop_last();
        assert forall|s: Store| ra.contains(s) <==> rb.contains(s) by {
            if ra.contains(s) {
                let x = choose|x: int| 0 <= x < ra.len() && ra[x] == s;
                assert(a[x] == s);
                assert(a[x].id.rank() < a[a.len() - 1].id.rank());
                assert(a.contains(s));
                let y = choose|y: int| 0 <= y < b.len() && b[y] == s;
                assert(rb[y] == s);
            }
            if rb.contains(s) {
                let y = choose|y: int| 0 <= y < rb.len() && rb[y] == s;
                assert(b[y] == s);
                assert(b[y].id.rank() < b[b.len() - 1].id.rank());
                assert(b.contains(s));
                let x = choose|x: int| 0 <= x < a.len() && a[x] == s;
                assert(ra[x] == s);
            }
        }
        lemma_same_stores(ra, rb);
        assert(a =~= ra.push(la));
        assert(b =~= rb.push(lb));
    }
}

/// Two collections of records that write down the same matches are the same.
pub proof fn lemma_one_export(
    a: Seq<Store>,
    b: Seq<Store>,
    relation: Map<StoreId, usize>,
    entities: Seq<OsmElement>,
)
    requires
        exports(a, relation, entities),
        exports(b, relation, entities),
    ensures
        a == b,
{
    assert forall|s: Store| a.contains(s) <==> b.contains(s) by {
        if a.contains(s) {
            let x = choose|x: int| 0 <= x < a.len() && a[x] == s;
            let y = choose|y: int| 0 <= y < b.len() && (#[trigger] b[y]).id == s.id;
            assert(b[y] == s);
        }
        if b.contains(s) {
            let y = choose|y: int| 0 <= y < b.len() && b[y] == s;
            let x = choose|x: int| 0 <= x < a.len() && (#[trigger] a[x]).id == s.id;
            assert(a[x] == s);
        }
    }
    lemma_same_stores(a, b);
}

/// A run has one result: on the same stores, entities, claims and distances
/// two runs give the same records and the same report, or the same error.
pub proof fn lemma_one_result(
    a: Result<Conflation, ConflictError>,
    b: Result<Conflation, ConflictError>,
    retailer: Retailer,
    registry: Registry,
    claims: Seq<Option<StoreId>>,
    distances: Seq<Vec<u64>>,
)
    requires
        conflated(a, retailer, registry, claims, distances),
        conflated(b, retailer, registry, claims, distances),
    ensures
        a is Ok <==> b is Ok,
        a is Err ==> a->Err_0 == b->Err_0,
        a is Ok ==> {
            let x = a->Ok_0;
            let y = b->Ok_0;
            &&& x.stores@ == y.stores@
            &&& x.report.raw == y.report.raw
            &&& x.report.osm == y.report.osm
            &&& x.report.forced == y.report.forced
            &&& x.report.on_distance == y.report.on_distance
            &&& x.report.unmatched_stores@ == y.report.unmatched_stores@
            &&& x.report.notes@ == y.report.notes@
            &&& x.report.unmatched_entities@ == y.report.unmatched_entities@
            &&& x.report.text() == y.report.text()
        },
{
    match (a, b) {
        (Ok(x), Ok(y)) => {
            let matches = matches_of_run(retailer, registry.stores@, claims, distances);
            lemma_one_export(x.stores@, y.stores@, matches, registry.entities@);
        },
        (Err(e), Err(f)) => {
            let (i, j) = choose|i: int, j: int|
                {
                    &&& 0 <= i < j < claims.len()
                    &&& clash_free(claims.take(j))
                    &&& claims[i] == Some(e.store)
                    &&& claims[j] == Some(e.store)
                    &&& e.entity == registry.entities@[j].id
                    &&& e.earlier == registry.entities@[i].id
                };
            let (k, l) = choose|k: int, l: int|
                {
                    &&& 0 <= k < l < claims.len()
                    &&& clash_free(claims.take(l))
                    &&& claims[k] == Some(f.store)
                    &&& claims[l] == Some(f.store)
                    &&& f.entity == registry.entities@[l].id
                    &&& f.earlier == registry.entities@[k].id
                };
            if j < l {
                let seen = claims.take(l);
                assert(seen[i] == seen[j]);
                assert(clashes(seen, j));
            }
            if l < j {
                let seen = claims.take(j);
                assert(seen[k] == seen[l]);
                assert(clashes(seen, l));
            }
            assert(j == l);
            let seen = claims.take(j);
            if i < k {
                assert(seen[i] == seen[k]);
                assert(clashes(seen, k));
            }
            if k < i {
                assert(seen[k] == seen[i]);
                assert(clashes(seen, i));
            }
        },
        _ => {},
    }
}

} // verus!
