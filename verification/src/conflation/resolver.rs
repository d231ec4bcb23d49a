//! The greedy resolver. In each pass every store looks at its nearest
//! candidate that it has not looked at yet. It wins the entity if no store is
//! nearer to that entity; a store that holds a match already keeps it.
//!
//! Stores that are equally near to an entity, with none nearer, all win it:
//! the entity then stands in the matches of each of them. The resolver takes
//! no side between them.

use vstd::prelude::*;
use crate::conflation::candidates::{Candidate, Candidates, Nearby};
use crate::conflation::distance::{metres_of, whole_metres, MATCH_RADIUS, WARNING_RADIUS};
use crate::conflation::matches::Matches;
use crate::conflation::registry::{OsmElement, RawStore, Registry};
use crate::osm::OsmId;
use crate::retailer::Retailer;
use crate::store::StoreId;

verus! {

/// What the resolver tells the reader of the report.
#[derive(Clone, Copy, Debug, PartialEq, Eq, Structural)]
pub enum Note {
    /// A store that holds `held` has won `contested` as well.
    Conflict { store: StoreId, held: OsmId, contested: OsmId },
    /// A store was matched in a later pass than the first.
    LaterPass { store: StoreId, entity: OsmId, pass: usize, metres: u64 },
    /// A store was matched in the first pass over more than the warning
    /// radius.
    Distant { store: StoreId, entity: OsmId, metres: u64 },
}

/// What the resolver leaves besides the matches.
#[derive(Debug)]
pub struct Resolution {
    /// The notes, in the order in which they arose.
    pub notes: Vec<Note>,
    /// The number of passes in which any store had a candidate to look at.
    pub passes: usize,
}

/// One store in the contest: the store, the entity that it holds at the
/// start, and its candidates with the nearest last.
pub struct Contest {
    pub store: StoreId,
    pub start: Option<usize>,
    pub stack: Seq<Candidate>,
}

/// The candidate that a store looks at in pass `p`.
pub open spec fn examined(stack: Seq<Candidate>, p: int) -> Candidate
    recommends
        1 <= p <= stack.len(),
{
    stack[stack.len() - p]
}

/// Whether no store is nearer to the candidate's entity than this candidate.
pub open spec fn wins(nearest: Seq<Option<u64>>, c: Candidate) -> bool {
    c.entity < nearest.len() && nearest[c.entity as int] == Some(c.distance)
}

/// Whether a store has a candidate to look at in pass `p` and wins it.
pub open spec fn wins_at(stack: Seq<Candidate>, nearest: Seq<Option<u64>>, p: int) -> bool {
    1 <= p <= stack.len() && wins(nearest, examined(stack, p))
}

/// The entity that a store holds when pass `p` begins: what it held at the
/// start, or else the first entity that it won in an earlier pass.
pub open spec fn held_before(
    start: Option<usize>,
    stack: Seq<Candidate>,
    nearest: Seq<Option<u64>>,
    p: int,
) -> Option<usize>
    decreases p,
{
    if p <= 1 {
        start
    } else {
        match held_before(start, stack, nearest, p - 1) {
            Some(e) => Some(e),
            None => if wins_at(stack, nearest, p - 1) {
                Some(examined(stack, p - 1).entity)
            } else {
                None
            },
        }
    }
}

/// The entity that a store holds when it has looked at all its candidates.
pub open spec fn held_after(c: Contest, nearest: Seq<Option<u64>>) -> Option<usize> {
    held_before(c.start, c.stack, nearest, c.stack.len() as int + 1)
}

/// The note that a store gives rise to in pass `p`.
pub open spec fn note_at(c: Contest, ids: Seq<OsmId>, nearest: Seq<Option<u64>>, p: int) -> Option<
    Note,
> {
    if wins_at(c.stack, nearest, p) {
        let x = examined(c.stack, p);
        match held_before(c.start, c.stack, nearest, p) {
            Some(e) => Some(
                Note::Conflict {
                    store: c.store,
                    held: ids[e as int],
                    contested: ids[x.entity as int],
                },
            ),
            None => if p > 1 {
                Some(
                    Note::LaterPass {
                        store: c.store,
                        entity: ids[x.entity as int],
                        pass: p as usize,
                        metres: metres_of(x.distance) as u64,
                    },
                )
            } else if x.distance > WARNING_RADIUS {
                Some(
                    Note::Distant {
                        store: c.store,
                        entity: ids[x.entity as int],
                        metres: metres_of(x.distance) as u64,
                    },
                )
            } else {
                None
            },
        }
    } else {
        None
    }
}

/// The notes of pass `p` that the first `k` stores give rise to.
pub open spec fn pass_notes(
    contests: Seq<Contest>,
    ids: Seq<OsmId>,
    nearest: Seq<Option<u64>>,
    p: int,
    k: int,
) -> Seq<Note>
    decreases k,
{
    if k <= 0 {
        Seq::empty()
    } else {
        let before = pass_notes(contests, ids, nearest, p, k - 1);
        match note_at(contests[k - 1], ids, nearest, p) {
            Some(n) => before.push(n),
            None => before,
        }
    }
}

/// The notes of the first `passes` passes.
pub open spec fn notes_through(
    contests: Seq<Contest>,
    ids: Seq<OsmId>,
    nearest: Seq<Option<u64>>,
    passes: int,
) -> Seq<Note>
    decreases passes,
{
    if passes <= 0 {
        Seq::empty()
    } else {
        notes_through(contests, ids, nearest, passes - 1) + pass_notes(
            contests,
            ids,
            nearest,
            passes,
            contests.len() as int,
        )
    }
}

/// The length of the longest stack among the first `k` stores.
pub open spec fn depth(contests: Seq<Contest>, k: int) -> int
    decreases k,
{
    if k <= 0 {
        0
    } else {
        let d = depth(contests, k - 1);
        if contests[k - 1].stack.len() > d {
            contests[k - 1].stack.len() as int
        } else {
            d
        }
    }
}

/// Whether store `i` of the contest is `store` and holds an entity.
pub open spec fn holder_at(contests: Seq<Contest>, held: Seq<Option<usize>>, store: StoreId, i: int)
    -> bool {
    0 <= i < contests.len() && i < held.len() && contests[i].store == store && held[i] is Some
}

/// The matches when the stores of the contest hold what `held` says, beside
/// the matches `fixed` that were there before.
pub open spec fn relation_of(
    fixed: Map<StoreId, usize>,
    contests: Seq<Contest>,
    held: Seq<Option<usize>>,
) -> Map<StoreId, usize> {
    Map::new(
        |s: StoreId| fixed.dom().contains(s) || exists|i: int| holder_at(contests, held, s, i),
        |s: StoreId|
            if fixed.dom().contains(s) {
                fixed[s]
            } else {
                held[choose|i: int| holder_at(contests, held, s, i)]->0
            },
    )
}

/// What every store of the contest holds in the end.
pub open spec fn final_holds(contests: Seq<Contest>, nearest: Seq<Option<u64>>) -> Seq<
    Option<usize>,
> {
    Seq::new(contests.len(), |i: int| held_after(contests[i], nearest))
}

/// The matches when the resolver is done: those that were there before,
/// unchanged, and for each other store the first entity that it won.
pub open spec fn settled(
    fixed: Map<StoreId, usize>,
    contests: Seq<Contest>,
    nearest: Seq<Option<u64>>,
) -> Map<StoreId, usize> {
    relation_of(fixed, contests, final_holds(contests, nearest))
}

/// The store at a position of the registry, under the retailer's name.
pub open spec fn store_id_at(retailer: Retailer, stores: Seq<RawStore>, i: int) -> StoreId {
    StoreId::of(retailer, stores[i].id)
}

/// The contest that the builder's stacks and the matches made before set up.
pub open spec fn contests_of(
    retailer: Retailer,
    stores: Seq<RawStore>,
    nearby: Seq<Nearby>,
    fixed: Map<StoreId, usize>,
) -> Seq<Contest> {
    Seq::new(
        nearby.len(),
        |k: int|
            {
                let store = store_id_at(retailer, stores, nearby[k].store as int);
                Contest {
                    store,
                    start: if fixed.dom().contains(store) {
                        Some(fixed[store])
                    } else {
                        None
                    },
                    stack: nearby[k].stack@,
                }
            },
    )
}

/// The identifiers of the entities, in the order of the registry.
pub open spec fn entity_ids(entities: Seq<OsmElement>) -> Seq<OsmId> {
    Seq::new(entities.len(), |j: int| entities[j].id)
}

/// Whether the stacks fit the registry: the stores are stores of the
/// registry, each once and in its order, and every candidate is an entity of
/// the registry within the match radius.
pub open spec fn contestable(registry: Registry, candidates: Candidates) -> bool {
    &&& candidates.nearest@.len() == registry.entities@.len()
    &&& forall|k: int|
        0 <= k < candidates.nearby@.len() ==> (#[trigger] candidates.nearby@[k]).store
            < registry.stores@.len()
    &&& forall|a: int, b: int|
        0 <= a < b < candidates.nearby@.len() ==> (#[trigger] candidates.nearby@[a]).store < (
        #[trigger] candidates.nearby@[b]).store
    &&& forall|k: int, a: int|
        0 <= k < candidates.nearby@.len() && 0 <= a < candidates.nearby@[k].stack@.len() ==> {
            let c = #[trigger] candidates.nearby@[k].stack@[a];
            c.entity < registry.entities@.len() && c.distance < MATCH_RADIUS
        }
}

/// Whether every match names an entity among the first `n`.
pub open spec fn within(relation: Map<StoreId, usize>, n: int) -> bool {
    forall|s: StoreId| relation.dom().contains(s) ==> #[trigger] relation[s] < n
}

/// A store that holds an entity keeps it.
pub proof fn lemma_held_stays(
    start: Option<usize>,
    stack: Seq<Candidate>,
    nearest: Seq<Option<u64>>,
    p: int,
    q: int,
)
    requires
        1 <= p <= q,
        held_before(start, stack, nearest, p) is Some,
    ensures
        held_before(start, stack, nearest, q) == held_before(start, stack, nearest, p),
    decreases q - p,
{
    if p < q {
        lemma_held_stays(start, stack, nearest, p, q - 1);
    }
}

/// A store that has looked at all its candidates wins nothing more.
pub proof fn lemma_held_settles(
    start: Option<usize>,
    stack: Seq<Candidate>,
    nearest: Seq<Option<u64>>,
    q: int,
)
    requires
        q >= stack.len() + 1,
    ensures
        held_before(start, stack, nearest, q) == held_before(
            start,
            stack,
            nearest,
            stack.len() as int + 1,
        ),
    decreases q,
{
    if q > stack.len() + 1 {
        lemma_held_settles(start, stack, nearest, q - 1);
    }
}

/// No stack among the first `k` is longer than their depth.
pub proof fn lemma_depth_bounds(contests: Seq<Contest>, k: int, i: int)
    requires
        0 <= i < k <= contests.len(),
    ensures
        contests[i].stack.len() <= depth(contests, k),
    decreases k,
{
    if i < k - 1 {
        lemma_depth_bounds(contests, k - 1, i);
    }
}

/// Whether no two stores of the contest are the same store.
pub open spec fn distinct_stores(contests: Seq<Contest>) -> bool {
    forall|i: int, j: int|
        0 <= i < contests.len() && 0 <= j < contests.len() && i != j ==> (
        #[trigger] contests[i]).store != (#[trigger] contests[j]).store
}

/// Whether every store of the contest starts with what `fixed` holds for it.
pub open spec fn fair_start(fixed: Map<StoreId, usize>, contests: Seq<Contest>) -> bool {
    forall|i: int|
        0 <= i < contests.len() ==> (#[trigger] contests[i]).start == (if fixed.dom().contains(
            contests[i].store,
        ) {
            Some(fixed[contests[i].store])
        } else {
            None::<usize>
        })
}

/// What every store holds when the first `k` stores have had their turn in
/// pass `p` and the others have not.
pub open spec fn holds_in(contests: Seq<Contest>, nearest: Seq<Option<u64>>, p: int, k: int) -> Seq<
    Option<usize>,
> {
    Seq::new(
        contests.len(),
        |i: int|
            held_before(
                contests[i].start,
                contests[i].stack,
                nearest,
                if i < k {
                    p + 1
                } else {
                    p
                },
            ),
    )
}

/// Before the first pass the matches are those that were there before.
proof fn lemma_relation_start(
    fixed: Map<StoreId, usize>,
    contests: Seq<Contest>,
    nearest: Seq<Option<u64>>,
)
    requires
        fair_start(fixed, contests),
    ensures
        relation_of(fixed, contests, holds_in(contests, nearest, 1, 0)) == fixed,
{
    let held = holds_in(contests, nearest, 1, 0);
    let r = relation_of(fixed, contests, held);
    assert forall|s: StoreId| r.dom().contains(s) implies fixed.dom().contains(s) by {
        if !fixed.dom().contains(s) {
            let i = choose|i: int| holder_at(contests, held, s, i);
            assert(held[i] == contests[i].start);
        }
    }
    assert(r =~= fixed);
}

/// What the matches say of a store of the contest.
pub proof fn lemma_relation_lookup(
    fixed: Map<StoreId, usize>,
    contests: Seq<Contest>,
    held: Seq<Option<usize>>,
    k: int,
)
    requires
        distinct_stores(contests),
        held.len() == contests.len(),
        0 <= k < contests.len(),
        !fixed.dom().contains(contests[k].store),
    ensures
        relation_of(fixed, contests, held).dom().contains(contests[k].store) <==> held[k] is Some,
        held[k] is Some ==> relation_of(fixed, contests, held)[contests[k].store] == held[k]->0,
{
    let s = contests[k].store;
    let r = relation_of(fixed, contests, held);
    if held[k] is Some {
        assert(holder_at(contests, held, s, k));
        let i = choose|i: int| holder_at(contests, held, s, i);
        assert(i == k);
    }
    if r.dom().contains(s) {
        let i = choose|i: int| holder_at(contests, held, s, i);
        assert(i == k);
    }
}

/// A store that wins its first entity adds one match.
proof fn lemma_relation_gain(
    fixed: Map<StoreId, usize>,
    contests: Seq<Contest>,
    held: Seq<Option<usize>>,
    k: int,
    e: usize,
)
    requires
        distinct_stores(contests),
        held.len() == contests.len(),
        0 <= k < contests.len(),
        !fixed.dom().contains(contests[k].store),
        held[k] is None,
    ensures
        relation_of(fixed, contests, held.update(k, Some(e))) == relation_of(
            fixed,
            contests,
            held,
        ).insert(contests[k].store, e),
{
    let store = contests[k].store;
    let after = held.update(k, Some(e));
    let left = relation_of(fixed, contests, after);
    let right = relation_of(fixed, contests, held).insert(store, e);
    assert forall|s: StoreId| left.dom().contains(s) <==> right.dom().contains(s) by {
        if left.dom().contains(s) && !fixed.dom().contains(s) && s != store {
            let i = choose|i: int| holder_at(contests, after, s, i);
            assert(holder_at(contests, held, s, i));
        }
        if right.dom().contains(s) && !fixed.dom().contains(s) {
            if s == store {
                assert(holder_at(contests, after, s, k));
            } else {
                let i = choose|i: int| holder_at(contests, held, s, i);
                assert(holder_at(contests, after, s, i));
            }
        }
    }
    assert forall|s: StoreId| left.dom().contains(s) implies left[s] == right[s] by {
        if !fixed.dom().contains(s) {
            let i = choose|i: int| holder_at(contests, after, s, i);
            if s == store {
                assert(i == k);
            } else {
                let o = choose|o: int| holder_at(contests, held, s, o);
                assert(holder_at(contests, held, s, i));
                assert(i == o);
            }
        }
    }
    assert(left =~= right);
}

/// Runs the passes. A match that is there before stays as it is; a store
/// without one is matched with the first entity that it wins.
pub fn resolve(
    retailer: &Retailer,
    registry: &Registry,
    candidates: &Candidates,
    matches: &mut Matches,
) -> (r: Resolution)
    requires
        registry.wf(),
        contestable(*registry, *candidates),
        old(matches).wf(),
        within(old(matches)@, registry.entities@.len() as int),
    ensures
        final(matches).wf(),
        within(final(matches)@, registry.entities@.len() as int),
        final(matches).entries@.len() >= old(matches).entries@.len(),
        final(matches)@ == settled(
            old(matches)@,
            contests_of(*retailer, registry.stores@, candidates.nearby@, old(matches)@),
            candidates.nearest@,
        ),
        r.notes@ == notes_through(
            contests_of(*retailer, registry.stores@, candidates.nearby@, old(matches)@),
            entity_ids(registry.entities@),
            candidates.nearest@,
            r.passes as int,
        ),
        r.passes == depth(
            contests_of(*retailer, registry.stores@, candidates.nearby@, old(matches)@),
            candidates.nearby@.len() as int,
        ),
{
    let ghost fixed = matches@;
    let ghost held_at_start = matches.entries@.len();
    let ghost contests = contests_of(*retailer, registry.stores@, candidates.nearby@, fixed);
    let ghost ids = entity_ids(registry.entities@);
    let ghost nearest = candidates.nearest@;
    let count = candidates.nearby.len();
    proof {
        assert(fair_start(fixed, contests));
        assert forall|i: int, j: int|
            0 <= i < contests.len() && 0 <= j < contests.len() && i != j implies (
        #[trigger] contests[i]).store != (#[trigger] contests[j]).store by {
            let a = candidates.nearby@[i].store as int;
            let b = candidates.nearby@[j].store as int;
            if i < j {
                assert(a < b);
                assert(registry.stores@[a].id < registry.stores@[b].id);
            } else {
                assert(b < a);
                assert(registry.stores@[b].id < registry.stores@[a].id);
            }
        }
    }
    let mut passes: usize = 0;
    let mut k: usize = 0;
    while k < count
        invariant
            k <= count,
            count == candidates.nearby@.len(),
            contests.len() == count,
            forall|i: int|
                0 <= i < count ==> (#[trigger] contests[i]).stack == candidates.nearby@[i].stack@,
            passes == depth(contests, k as int),
        decreases count - k,
    {
        if candidates.nearby[k].stack.len() > passes {
            passes = candidates.nearby[k].stack.len();
        }
        k += 1;
    }
    let mut notes: Vec<Note> = Vec::new();
    let mut pass: usize = 0;
    proof {
        lemma_relation_start(fixed, contests, nearest);
    }
    while pass < passes
        invariant
            pass <= passes,
            registry.wf(),
            contestable(*registry, *candidates),
            count == candidates.nearby@.len(),
            contests == contests_of(*retailer, registry.stores@, candidates.nearby@, fixed),
            ids == entity_ids(registry.entities@),
            nearest == candidates.nearest@,
            distinct_stores(contests),
            fair_start(fixed, contests),
            within(fixed, registry.entities@.len() as int),
            matches.wf(),
            matches.entries@.len() >= held_at_start,
            within(matches@, registry.entities@.len() as int),
            matches@ == relation_of(fixed, contests, holds_in(contests, nearest, pass + 1, 0)),
            notes@ == notes_through(contests, ids, nearest, pass as int),
        decreases passes - pass,
    {
        let ghost p = pass + 1;
        let mut k: usize = 0;
        while k < count
            invariant
                k <= count,
                p == pass + 1,
                pass < usize::MAX,
                registry.wf(),
                contestable(*registry, *candidates),
                count == candidates.nearby@.len(),
                contests == contests_of(*retailer, registry.stores@, candidates.nearby@, fixed),
                ids == entity_ids(registry.entities@),
                nearest == candidates.nearest@,
                distinct_stores(contests),
                fair_start(fixed, contests),
                within(fixed, registry.entities@.len() as int),
                matches.wf(),
                matches.entries@.len() >= held_at_start,
                within(matches@, registry.entities@.len() as int),
                matches@ == relation_of(fixed, contests, holds_in(contests, nearest, p, k as int)),
                notes@ == notes_through(contests, ids, nearest, pass as int) + pass_notes(
                    contests,
                    ids,
                    nearest,
                    p,
                    k as int,
                ),
            decreases count - k,
        {
            let entry = &candidates.nearby[k];
            let len = entry.stack.len();
            let ghost c = contests[k as int];
            let ghost before = holds_in(contests, nearest, p, k as int);
            let ghost after = holds_in(contests, nearest, p, k + 1);
            let ghost had = held_before(c.start, c.stack, nearest, p);
            let ghost has = held_before(c.start, c.stack, nearest, p + 1);
            let ghost earlier = notes@;
            proof {
                assert(c.stack == entry.stack@);
                assert(before[k as int] == had);
                assert(after =~= before.update(k as int, has));
                if had is Some {
                    assert(has == had);
                    assert(after =~= before);
                }
                if c.start is Some {
                    lemma_held_stays(c.start, c.stack, nearest, 1, p);
                }
            }
            let mut won = false;
            if pass < len {
                let x = entry.stack[len - 1 - pass];
                assert(x == examined(c.stack, p));
                won = match candidates.nearest[x.entity] {
                    Some(d) => d == x.distance,
                    None => false,
                };
                assert(won == wins_at(c.stack, nearest, p));
                if won {
                    let store = StoreId::new(retailer, registry.stores[entry.store].id);
                    assert(store == c.store);
                    match matches.claim(store, x.entity) {
                        Some(h) => {
                            proof {
                                if !fixed.dom().contains(store) {
                                    lemma_relation_lookup(fixed, contests, before, k as int);
                                }
                                assert(had == Some(h));
                            }
                            notes.push(
                                Note::Conflict {
                                    store,
                                    held: registry.entities[h].id,
                                    contested: registry.entities[x.entity].id,
                                },
                            );
                        },
                        None => {
                            proof {
                                assert(!fixed.dom().contains(store));
                                lemma_relation_lookup(fixed, contests, before, k as int);
                                assert(had is None);
                                assert(has == Some(x.entity));
                                lemma_relation_gain(fixed, contests, before, k as int, x.entity);
                            }
                            if pass > 0 {
                                notes.push(
                                    Note::LaterPass {
                                        store,
                                        entity: registry.entities[x.entity].id,
                                        pass: pass + 1,
                                        metres: whole_metres(x.distance),
                                    },
                                );
                            } else if x.distance > WARNING_RADIUS {
                                notes.push(
                                    Note::Distant {
                                        store,
                                        entity: registry.entities[x.entity].id,
                                        metres: whole_metres(x.distance),
                                    },
                                );
                            }
                        },
                    }
                }
            }
            proof {
                if !won {
                    assert(!wins_at(c.stack, nearest, p));
                    assert(has == had);
                    assert(after =~= before);
                }
                assert(notes@ == match note_at(c, ids, nearest, p) {
                    Some(n) => earlier.push(n),
                    None => earlier,
                });
                let through = notes_through(contests, ids, nearest, pass as int);
                let so_far = pass_notes(contests, ids, nearest, p, k as int);
                match note_at(c, ids, nearest, p) {
                    Some(n) => {
                        assert((through + so_far).push(n) =~= through + so_far.push(n));
                    },
                    None => {},
                }
            }
            k += 1;
        }
        proof {
            assert(holds_in(contests, nearest, p, count as int) =~= holds_in(
                contests,
                nearest,
                p + 1,
                0,
            ));
        }
        pass += 1;
    }
    proof {
        let last = holds_in(contests, nearest, passes + 1, 0);
        let end = final_holds(contests, nearest);
        assert forall|i: int| 0 <= i < contests.len() implies last[i] == end[i] by {
            lemma_depth_bounds(contests, count as int, i);
            lemma_held_settles(contests[i].start, contests[i].stack, nearest, passes + 1);
        }
        assert(last =~= end);
    }
    Resolution { notes, passes }
}

} // verus!
