//! Forced matches: a map entity whose website is the page of a store is that
//! store. Two entities that name one store cannot both be right.

use vstd::prelude::*;
use crate::conflation::matches::Matches;
use crate::conflation::registry::{OsmElement, Registry};
use crate::pairs::tag_value;
use crate::osm::OsmId;
use crate::retailer::Retailer;
use crate::store::StoreId;
use crate::text::push_text;

verus! {

/// Two map entities name the same store.
#[derive(Clone, Copy, Debug, PartialEq, Eq, Structural)]
pub struct ConflictError {
    /// The store that both name.
    pub store: StoreId,
    /// The entity at which the clash was found.
    pub entity: OsmId,
    /// The entity that named the store before.
    pub earlier: OsmId,
}

impl ConflictError {
    /// The message of the error.
    pub open spec fn message_text(self) -> Seq<char> {
        "Two elements reference store "@ + self.store.markdown_text() + ": "@
            + self.entity.markdown_text() + " "@ + self.earlier.markdown_text()
    }

    /// The message of the error: the store and both entities.
    pub fn message(&self) -> (r: String)
        ensures
            r@ == self.message_text(),
    {
        let mut out = String::new();
        push_text(&mut out, "Two elements reference store ");
        let store = self.store.markdown();
        push_text(&mut out, store.as_str());
        push_text(&mut out, ": ");
        let entity = self.entity.markdown();
        push_text(&mut out, entity.as_str());
        push_text(&mut out, " ");
        let earlier = self.earlier.markdown();
        push_text(&mut out, earlier.as_str());
        assert(out@ =~= self.message_text());
        out
    }
}

/// The forced matches of a run.
#[derive(Debug)]
pub struct Forced {
    /// The stores that entities name, each with the entity that names it.
    pub matches: Matches,
    /// For each entity, whether it names a store.
    pub taken: Vec<bool>,
}

/// The store that an entity names through its website, under the grammar of
/// the retailer's store pages.
pub open spec fn website_claim(retailer: Retailer, entity: OsmElement) -> Option<StoreId> {
    match tag_value(entity.tags@, "website"@) {
        Some(url) => retailer.parsed_store_link(url),
        None => None,
    }
}

/// Whether entity `j` names `store`.
pub open spec fn claimed_by(claims: Seq<Option<StoreId>>, store: StoreId, j: int) -> bool {
    0 <= j < claims.len() && claims[j] == Some(store)
}

/// Whether entity `j` names a store that an earlier entity names too.
pub open spec fn clashes(claims: Seq<Option<StoreId>>, j: int) -> bool {
    &&& 0 <= j < claims.len()
    &&& claims[j] is Some
    &&& exists|i: int| 0 <= i < j && claims[i] == claims[j]
}

/// Whether no entity names a store that another names.
pub open spec fn clash_free(claims: Seq<Option<StoreId>>) -> bool {
    forall|j: int| 0 <= j < claims.len() ==> !clashes(claims, j)
}

/// The forced matches: each named store with the entity that names it.
pub open spec fn forced_relation(claims: Seq<Option<StoreId>>) -> Map<StoreId, usize> {
    Map::new(
        |s: StoreId| exists|j: int| claimed_by(claims, s, j),
        |s: StoreId| (choose|j: int| claimed_by(claims, s, j)) as usize,
    )
}

/// For each entity, whether it names a store.
pub open spec fn taken_of(claims: Seq<Option<StoreId>>) -> Seq<bool> {
    Seq::new(claims.len(), |j: int| claims[j] is Some)
}

/// How many of the first `n` entities name a store.
pub open spec fn named_count(claims: Seq<Option<StoreId>>, n: int) -> nat
    decreases n,
{
    if n <= 0 {
        0
    } else if claims[n - 1] is Some {
        named_count(claims, n - 1) + 1
    } else {
        named_count(claims, n - 1)
    }
}

/// Without clashes a store is named by one entity.
pub proof fn lemma_one_claimant(claims: Seq<Option<StoreId>>, store: StoreId, i: int, j: int)
    requires
        clash_free(claims),
        claimed_by(claims, store, i),
        claimed_by(claims, store, j),
    ensures
        i == j,
{
    if i < j {
        assert(clashes(claims, j));
    }
    if j < i {
        assert(clashes(claims, i));
    }
}

/// What each entity's website names.
pub fn website_claims(retailer: &Retailer, registry: &Registry) -> (claims: Vec<Option<StoreId>>)
    ensures
        claims@.len() == registry.entities@.len(),
        forall|j: int|
            0 <= j < claims@.len() ==> claims@[j] == website_claim(
                *retailer,
                #[trigger] registry.entities@[j],
            ),
{
    let mut claims: Vec<Option<StoreId>> = Vec::new();
    let mut j: usize = 0;
    while j < registry.entities.len()
        invariant
            j <= registry.entities@.len(),
            claims@.len() == j,
            forall|k: int|
                0 <= k < j ==> claims@[k] == website_claim(
                    *retailer,
                    #[trigger] registry.entities@[k],
                ),
        decreases registry.entities@.len() - j,
    {
        let claim = match registry.entities[j].tag("website") {
            Some(url) => retailer.parse_store_link(url.as_str()),
            None => None,
        };
        claims.push(claim);
        j += 1;
    }
    claims
}

/// Makes the forced matches, or reports the first clash: the entity at which
/// it shows, and the one earlier entity that names the same store.
pub fn force_matches(registry: &Registry, claims: &Vec<Option<StoreId>>) -> (r: Result<
    Forced,
    ConflictError,
>)
    requires
        claims@.len() == registry.entities@.len(),
    ensures
        match r {
            Ok(forced) => {
                &&& clash_free(claims@)
                &&& forced.matches.wf()
                &&& forced.matches@ == forced_relation(claims@)
                &&& forced.taken@ == taken_of(claims@)
                &&& forced.matches.entries@.len() == named_count(claims@, claims@.len() as int)
            },
            Err(e) => exists|i: int, j: int|
                {
                    &&& 0 <= i < j < claims@.len()
                    &&& clash_free(claims@.take(j))
                    &&& claims@[i] == Some(e.store)
                    &&& claims@[j] == Some(e.store)
                    &&& e.entity == registry.entities@[j].id
                    &&& e.earlier == registry.entities@[i].id
                },
        },
{
    let mut matches = Matches::new();
    let mut taken: Vec<bool> = Vec::new();
    let mut j: usize = 0;
    proof {
        assert(matches@ =~= forced_relation(claims@.take(0)));
        assert(taken@ =~= taken_of(claims@.take(0)));
    }
    while j < claims.len()
        invariant
            j <= claims@.len(),
            claims@.len() == registry.entities@.len(),
            matches.wf(),
            clash_free(claims@.take(j as int)),
            matches@ == forced_relation(claims@.take(j as int)),
            taken@ == taken_of(claims@.take(j as int)),
            matches.entries@.len() == named_count(claims@, j as int),
        decreases claims@.len() - j,
    {
        let ghost seen = claims@.take(j as int);
        let ghost next = claims@.take(j + 1);
        match claims[j] {
            Some(store) => {
                match matches.claim(store, j) {
                    Some(i) => {
                        proof {
                            let k = choose|k: int| claimed_by(seen, store, k);
                            assert(claimed_by(seen, store, k));
                            assert(i == k);
                            assert(claims@[i as int] == seen[i as int]);
                        }
                        return Err(
                            ConflictError {
                                store,
                                entity: registry.entities[j].id,
                                earlier: registry.entities[i].id,
                            },
                        );
                    },
                    None => {
                        proof {
                            assert(forall|k: int| 0 <= k < j ==> next[k] == seen[k]);
                            assert(!clashes(next, j as int)) by {
                                if clashes(next, j as int) {
                                    let i = choose|i: int| 0 <= i < j && next[i] == next[j as int];
                                    assert(claimed_by(seen, store, i));
                                }
                            }
                            assert forall|k: int| 0 <= k < next.len() implies !clashes(
                                next,
                                k,
                            ) by {
                                if k < j && clashes(next, k) {
                                    let i = choose|i: int| 0 <= i < k && next[i] == next[k];
                                    assert(seen[i] == seen[k]);
                                    assert(clashes(seen, k));
                                }
                            }
                            let left = forced_relation(seen).insert(store, j);
                            let right = forced_relation(next);
                            assert forall|s: StoreId| left.dom().contains(s)
                                <==> right.dom().contains(s) by {
                                if left.dom().contains(s) {
                                    if s == store {
                                        assert(claimed_by(next, s, j as int));
                                    } else {
                                        let k = choose|k: int| claimed_by(seen, s, k);
                                        assert(claimed_by(next, s, k));
                                    }
                                }
                                if right.dom().contains(s) {
                                    let k = choose|k: int| claimed_by(next, s, k);
                                    if k < j {
                                        assert(claimed_by(seen, s, k));
                                    }
                                }
                            }
                            assert forall|s: StoreId| left.dom().contains(s) implies left[s]
                                == right[s] by {
                                let k = choose|k: int| claimed_by(next, s, k);
                                if s == store {
                                    lemma_one_claimant(next, s, k, j as int);
                                } else {
                                    let o = choose|o: int| claimed_by(seen, s, o);
                                    assert(claimed_by(next, s, o));
                                    lemma_one_claimant(next, s, k, o);
                                }
                            }
                            assert(left =~= right);
                        }
                    },
                }
                taken.push(true);
            },
            None => {
                proof {
                    assert(forall|k: int| 0 <= k < j ==> next[k] == seen[k]);
                    assert forall|k: int| 0 <= k < next.len() implies !clashes(next, k) by {
                        if k < j && clashes(next, k) {
                            let i = choose|i: int| 0 <= i < k && next[i] == next[k];
                            assert(seen[i] == seen[k]);
                            assert(clashes(seen, k));
                        }
                    }
                    let left = forced_relation(seen);
                    let right = forced_relation(next);
                    assert forall|s: StoreId| left.dom().contains(s) <==> right.dom().contains(
                        s,
                    ) by {
                        if left.dom().contains(s) {
                            let k = choose|k: int| claimed_by(seen, s, k);
                            assert(claimed_by(next, s, k));
                        }
                        if right.dom().contains(s) {
                            let k = choose|k: int| claimed_by(next, s, k);
                            assert(claimed_by(seen, s, k));
                        }
                    }
                    assert forall|s: StoreId| left.dom().contains(s) implies left[s]
                        == right[s] by {
                        let k = choose|k: int| claimed_by(next, s, k);
                        let o = choose|o: int| claimed_by(seen, s, o);
                        assert(claimed_by(next, s, o));
                        lemma_one_claimant(next, s, k, o);
                    }
                    assert(left =~= right);
                }
                taken.push(false);
            },
        }
        proof {
            assert(taken@ =~= taken_of(next));
        }
        j += 1;
    }
    proof {
        assert(claims@.take(j as int) == claims@);
    }
    Ok(Forced { matches, taken })
}

} // verus!
