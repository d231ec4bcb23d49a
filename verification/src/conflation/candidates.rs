//! The candidates of each store that no website names: the map entities
//! within the match radius, nearest on top, and for each entity the least
//! distance at which any such store reaches it.

use vstd::prelude::*;
use crate::conflation::distance::MATCH_RADIUS;
use crate::conflation::forced::Forced;
use crate::conflation::registry::{RawStore, Registry};
use crate::retailer::Retailer;
use crate::store::StoreId;

verus! {

/// A map entity within reach of a store, and how far it is.
#[derive(Clone, Copy, Debug, PartialEq, Eq, Structural)]
pub struct Candidate {
    pub distance: u64,
    pub entity: usize,
}

/// A store and its candidates. The store is named by its position in the
/// registry. The last candidate is the nearest.
#[derive(Debug)]
pub struct Nearby {
    pub store: usize,
    pub stack: Vec<Candidate>,
}

/// What the resolver works on.
#[derive(Debug)]
pub struct Candidates {
    /// The stores that take part, in the order of the registry.
    pub nearby: Vec<Nearby>,
    /// For each entity the least distance of a store that has it as a
    /// candidate.
    pub nearest: Vec<Option<u64>>,
}

/// Whether entity `j` is a candidate for the store whose distances are `row`:
/// no website names a store through it, and it lies within the match radius.
pub open spec fn in_reach(taken: Seq<bool>, row: Seq<u64>, j: int) -> bool {
    &&& 0 <= j < row.len()
    &&& j < taken.len()
    &&& !taken[j]
    &&& row[j] < MATCH_RADIUS
}

/// Whether `a` leaves a stack before `b`: it is nearer, or as near and earlier
/// in the registry.
pub open spec fn nearer(a: Candidate, b: Candidate) -> bool {
    a.distance < b.distance || (a.distance == b.distance && a.entity < b.entity)
}

/// How many candidates at the bottom of `stack` are farther than `d`.
pub open spec fn farther_count(stack: Seq<Candidate>, d: u64) -> int
    decreases stack.len(),
{
    if stack.len() == 0 || stack[0].distance <= d {
        0
    } else {
        1 + farther_count(stack.skip(1), d)
    }
}

/// The stack with `c` above the candidates that are farther than it and
/// below the rest.
pub open spec fn with_candidate(stack: Seq<Candidate>, c: Candidate) -> Seq<Candidate> {
    stack.insert(farther_count(stack, c.distance), c)
}

/// The stack made of the candidates among the first `n` entities.
pub open spec fn stack_upto(taken: Seq<bool>, row: Seq<u64>, n: int) -> Seq<Candidate>
    decreases n,
{
    if n <= 0 {
        Seq::empty()
    } else {
        let below = stack_upto(taken, row, n - 1);
        if in_reach(taken, row, n - 1) {
            with_candidate(below, Candidate { distance: row[n - 1], entity: (n - 1) as usize })
        } else {
            below
        }
    }
}

/// The stack of the store whose distances are `row`.
pub open spec fn stack_of(taken: Seq<bool>, row: Seq<u64>) -> Seq<Candidate> {
    stack_upto(taken, row, row.len() as int)
}

/// For each store, whether it takes part: no website names it.
pub open spec fn live_of(retailer: Retailer, stores: Seq<RawStore>, forced: Map<StoreId, usize>)
    -> Seq<bool> {
    Seq::new(stores.len(), |i: int| !forced.dom().contains(StoreId::of(retailer, stores[i].id)))
}

/// The positions of the stores among the first `n` that take part.
pub open spec fn live_stores(live: Seq<bool>, n: int) -> Seq<usize>
    decreases n,
{
    if n <= 0 {
        Seq::empty()
    } else if n <= live.len() && live[n - 1] {
        live_stores(live, n - 1).push((n - 1) as usize)
    } else {
        live_stores(live, n - 1)
    }
}

/// The lesser of a least distance so far and one more distance.
pub open spec fn lesser(so_far: Option<u64>, d: u64) -> Option<u64> {
    match so_far {
        Some(p) => if p > d {
            Some(d)
        } else {
            Some(p)
        },
        None => Some(d),
    }
}

/// The least distance at which one of the first `n` stores has entity `j` as
/// a candidate.
pub open spec fn nearest_upto(
    live: Seq<bool>,
    taken: Seq<bool>,
    distances: Seq<Vec<u64>>,
    n: int,
    j: int,
) -> Option<u64>
    decreases n,
{
    if n <= 0 {
        None
    } else {
        let so_far = nearest_upto(live, taken, distances, n - 1, j);
        if n <= live.len() && n <= distances.len() && live[n - 1] && in_reach(
            taken,
            distances[n - 1]@,
            j,
        ) {
            lesser(so_far, distances[n - 1]@[j])
        } else {
            so_far
        }
    }
}

/// What a stack holds and in what order: exactly the candidates among the
/// first `n` entities, each with its distance, a nearer one above a farther.
pub proof fn lemma_stack_upto(taken: Seq<bool>, row: Seq<u64>, n: int)
    requires
        0 <= n <= row.len() <= usize::MAX,
    ensures
        forall|a: int|
            0 <= a < stack_upto(taken, row, n).len() ==> {
                let c = #[trigger] stack_upto(taken, row, n)[a];
                c.entity < n && in_reach(taken, row, c.entity as int) && c.distance
                    == row[c.entity as int]
            },
        forall|j: int|
            0 <= j < n && in_reach(taken, row, j) ==> exists|a: int|
                0 <= a < stack_upto(taken, row, n).len() && #[trigger] stack_upto(
                    taken,
                    row,
                    n,
                )[a].entity == j,
        forall|a: int, b: int|
            0 <= a < b < stack_upto(taken, row, n).len() ==> nearer(
                #[trigger] stack_upto(taken, row, n)[b],
                #[trigger] stack_upto(taken, row, n)[a],
            ),
    decreases n,
{
    if n > 0 {
        lemma_stack_upto(taken, row, n - 1);
        let below = stack_upto(taken, row, n - 1);
        let stack = stack_upto(taken, row, n);
        if in_reach(taken, row, n - 1) {
            let c = Candidate { distance: row[n - 1], entity: (n - 1) as usize };
            let pos = farther_count(below, c.distance);
            lemma_farther_count(below, c.distance);
            assert(stack == below.insert(pos, c));
            assert forall|a: int| 0 <= a < stack.len() implies {
                let x = #[trigger] stack[a];
                x.entity < n && in_reach(taken, row, x.entity as int) && x.distance
                    == row[x.entity as int]
            } by {
                if a < pos {
                    assert(stack[a] == below[a]);
                } else if a > pos {
                    assert(stack[a] == below[a - 1]);
                }
            }
            assert forall|j: int| 0 <= j < n && in_reach(taken, row, j) implies exists|a: int|
                0 <= a < stack.len() && #[trigger] stack[a].entity == j by {
                if j == n - 1 {
                    assert(stack[pos].entity == j);
                } else {
                    let o = choose|o: int| 0 <= o < below.len() && below[o].entity == j;
                    let a = if o < pos { o } else { o + 1 };
                    assert(stack[a] == below[o]);
                }
            }
            assert forall|a: int, b: int| 0 <= a < b < stack.len() implies nearer(
                #[trigger] stack[b],
                #[trigger] stack[a],
            ) by {
                let oa = if a < pos { a } else { a - 1 };
                let ob = if b < pos { b } else { b - 1 };
                if a != pos {
                    assert(stack[a] == below[oa]);
                }
                if b != pos {
                    assert(stack[b] == below[ob]);
                }
                if a != pos && b != pos {
                    assert(nearer(below[ob], below[oa]));
                } else if a == pos {
                    assert(below[ob].distance <= c.distance);
                    assert(below[ob].entity < n - 1);
                } else {
                    assert(below[oa].distance > c.distance);
                }
            }
        }
    }
}

/// Where a candidate at distance `d` goes: above the farther ones, and the
/// rest of a stack that is in order is no farther than `d`.
pub proof fn lemma_farther_count(stack: Seq<Candidate>, d: u64)
    requires
        forall|a: int, b: int|
            0 <= a < b < stack.len() ==> nearer(#[trigger] stack[b], #[trigger] stack[a]),
    ensures
        0 <= farther_count(stack, d) <= stack.len(),
        forall|a: int| 0 <= a < farther_count(stack, d) ==> (#[trigger] stack[a]).distance > d,
        forall|a: int|
            farther_count(stack, d) <= a < stack.len() ==> (#[trigger] stack[a]).distance <= d,
    decreases stack.len(),
{
    if stack.len() == 0 {
    } else if stack[0].distance <= d {
        assert forall|a: int| 0 <= a < stack.len() implies (#[trigger] stack[a]).distance
            <= d by {
            if a > 0 {
                assert(nearer(stack[a], stack[0]));
            }
        }
    } else {
        let rest = stack.skip(1);
        assert forall|a: int, b: int| 0 <= a < b < rest.len() implies nearer(
            #[trigger] rest[b],
            #[trigger] rest[a],
        ) by {
            assert(rest[a] == stack[a + 1]);
            assert(rest[b] == stack[b + 1]);
        }
        lemma_farther_count(rest, d);
        let k = farther_count(rest, d);
        assert forall|a: int| 0 <= a < k + 1 implies (#[trigger] stack[a]).distance > d by {
            if a > 0 {
                assert(stack[a] == rest[a - 1]);
            }
        }
        assert forall|a: int| k + 1 <= a < stack.len() implies (#[trigger] stack[a]).distance
            <= d by {
            assert(stack[a] == rest[a - 1]);
        }
    }
}

/// Which stores take part: those among the first `n` that no website names,
/// each once and in the order of the registry.
pub proof fn lemma_live_stores(live: Seq<bool>, n: int)
    requires
        0 <= n <= live.len() <= usize::MAX,
    ensures
        forall|k: int|
            0 <= k < live_stores(live, n).len() ==> (#[trigger] live_stores(live, n)[k]) < n
                && live[live_stores(live, n)[k] as int],
        forall|a: int, b: int|
            0 <= a < b < live_stores(live, n).len() ==> (#[trigger] live_stores(live, n)[a]) < (
            #[trigger] live_stores(live, n)[b]),
        forall|i: int|
            0 <= i < n && live[i] ==> exists|k: int|
                0 <= k < live_stores(live, n).len() && #[trigger] live_stores(live, n)[k] == i,
    decreases n,
{
    if n > 0 {
        lemma_live_stores(live, n - 1);
        let before = live_stores(live, n - 1);
        let now = live_stores(live, n);
        if live[n - 1] {
            assert forall|i: int| 0 <= i < n && live[i] implies exists|k: int|
                0 <= k < now.len() && #[trigger] now[k] == i by {
                if i == n - 1 {
                    assert(now[now.len() - 1] == i);
                } else {
                    let k = choose|k: int| 0 <= k < before.len() && before[k] == i;
                    assert(now[k] == i);
                }
            }
        }
    }
}

/// Whether `c` is what the builder makes of the stores that take part, the
/// entities that websites name, and the distances.
pub open spec fn built(c: Candidates, live: Seq<bool>, taken: Seq<bool>, distances: Seq<Vec<u64>>)
    -> bool {
    let stores = live_stores(live, live.len() as int);
    &&& c.nearest@.len() == taken.len()
    &&& forall|j: int|
        0 <= j < taken.len() ==> #[trigger] c.nearest@[j] == nearest_upto(
            live,
            taken,
            distances,
            distances.len() as int,
            j,
        )
    &&& c.nearby@.len() == stores.len()
    &&& forall|k: int|
        0 <= k < stores.len() ==> {
            let n = #[trigger] c.nearby@[k];
            n.store == stores[k] && n.store < distances.len() && n.stack@ == stack_of(
                taken,
                distances[n.store as int]@,
            )
        }
}

/// Puts a candidate on a stack, above the farther ones and below the rest.
fn place(stack: &mut Vec<Candidate>, c: Candidate)
    ensures
        final(stack)@ == with_candidate(old(stack)@, c),
{
    let mut pos: usize = 0;
    assert(stack@.skip(0) == stack@);
    while pos < stack.len() && stack[pos].distance > c.distance
        invariant
            *stack == *old(stack),
            pos <= stack@.len(),
            farther_count(stack@, c.distance) == pos + farther_count(
                stack@.skip(pos as int),
                c.distance,
            ),
        decreases stack@.len() - pos,
    {
        assert(stack@.skip(pos as int)[0] == stack@[pos as int]);
        assert(stack@.skip(pos as int).skip(1) == stack@.skip(pos + 1));
        pos += 1;
    }
    proof {
        if pos < stack@.len() {
            assert(stack@.skip(pos as int)[0] == stack@[pos as int]);
        }
    }
    stack.insert(pos, c);
}

/// Builds the stack of one store from its distances, and lowers the least
/// distance of each entity that the store reaches.
fn reach(taken: &Vec<bool>, row: &Vec<u64>, nearest: &mut Vec<Option<u64>>) -> (stack: Vec<
    Candidate,
>)
    requires
        row@.len() == taken@.len(),
        old(nearest)@.len() == taken@.len(),
    ensures
        stack@ == stack_of(taken@, row@),
        final(nearest)@.len() == taken@.len(),
        forall|j: int|
            0 <= j < taken@.len() ==> #[trigger] final(nearest)@[j] == (if in_reach(
                taken@,
                row@,
                j,
            ) {
                lesser(old(nearest)@[j], row@[j])
            } else {
                old(nearest)@[j]
            }),
{
    let mut stack: Vec<Candidate> = Vec::new();
    let mut j: usize = 0;
    while j < row.len()
        invariant
            j <= row@.len(),
            row@.len() == taken@.len(),
            nearest@.len() == taken@.len(),
            stack@ == stack_upto(taken@, row@, j as int),
            forall|k: int|
                0 <= k < j ==> #[trigger] nearest@[k] == (if in_reach(taken@, row@, k) {
                    lesser(old(nearest)@[k], row@[k])
                } else {
                    old(nearest)@[k]
                }),
            forall|k: int| j <= k < taken@.len() ==> #[trigger] nearest@[k] == old(nearest)@[k],
        decreases row@.len() - j,
    {
        if !taken[j] {
            let distance = row[j];
            if distance < MATCH_RADIUS {
                let lower = match nearest[j] {
                    Some(least) => least > distance,
                    None => true,
                };
                if lower {
                    nearest[j] = Some(distance);
                }
                place(&mut stack, Candidate { distance, entity: j });
            }
        }
        j += 1;
    }
    stack
}

/// Builds the stacks of the stores that no website names, and the least
/// distance of each entity.
pub fn build_candidates(
    retailer: &Retailer,
    registry: &Registry,
    forced: &Forced,
    distances: &Vec<Vec<u64>>,
) -> (r: Candidates)
    requires
        registry.measured_by(distances@),
        forced.matches.wf(),
        forced.taken@.len() == registry.entities@.len(),
    ensures
        built(
            r,
            live_of(*retailer, registry.stores@, forced.matches@),
            forced.taken@,
            distances@,
        ),
{
    let ghost live = live_of(*retailer, registry.stores@, forced.matches@);
    let mut nearest: Vec<Option<u64>> = Vec::new();
    let mut j: usize = 0;
    while j < forced.taken.len()
        invariant
            j <= forced.taken@.len(),
            nearest@.len() == j,
            forall|k: int| 0 <= k < j ==> (#[trigger] nearest@[k]) is None,
        decreases forced.taken@.len() - j,
    {
        nearest.push(None);
        j += 1;
    }
    let mut nearby: Vec<Nearby> = Vec::new();
    let mut i: usize = 0;
    while i < registry.stores.len()
        invariant
            i <= registry.stores@.len(),
            registry.measured_by(distances@),
            forced.matches.wf(),
            forced.taken@.len() == registry.entities@.len(),
            live == live_of(*retailer, registry.stores@, forced.matches@),
            nearest@.len() == forced.taken@.len(),
            forall|k: int|
                0 <= k < forced.taken@.len() ==> #[trigger] nearest@[k] == nearest_upto(
                    live,
                    forced.taken@,
                    distances@,
                    i as int,
                    k,
                ),
            nearby@.len() == live_stores(live, i as int).len(),
            forall|k: int|
                0 <= k < nearby@.len() ==> {
                    let n = #[trigger] nearby@[k];
                    n.store == live_stores(live, i as int)[k] && n.store < distances@.len()
                        && n.stack@ == stack_of(forced.taken@, distances@[n.store as int]@)
                },
        decreases registry.stores@.len() - i,
    {
        let id = StoreId::new(retailer, registry.stores[i].id);
        let held = forced.matches.get(&id);
        if held.is_none() {
            assert(live[i as int]);
            let stack = reach(&forced.taken, &distances[i], &mut nearest);
            nearby.push(Nearby { store: i, stack });
        } else {
            assert(!live[i as int]);
        }
        i += 1;
    }
    Candidates { nearby, nearest }
}

} // verus!
