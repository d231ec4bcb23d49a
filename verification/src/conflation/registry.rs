//! The two sets that one run works on: a retailer's stores as its feed reports
//! them, and the entities that the map holds for the retailer.

use vstd::prelude::*;
use crate::osm::OsmId;
use crate::store::StoreId;
use crate::pairs::{lookup, tag_value};

verus! {

/// A position on the globe. Each coordinate is held as the bits of a
/// double-precision number; the library carries it and never computes on it.
#[derive(Clone, Copy, Debug, PartialEq, Eq, Structural)]
pub struct Point {
    pub lat: u64,
    pub lon: u64,
}

/// A store as the retailer's feed reports it.
#[derive(Clone, Copy, Debug, PartialEq, Eq, Structural)]
pub struct RawStore {
    pub id: u32,
    pub point: Point,
}

/// An entity of the map: its identifier, where it is, and its tags.
#[derive(Clone, Debug)]
pub struct OsmElement {
    pub id: OsmId,
    pub point: Point,
    pub tags: Vec<(String, String)>,
}

/// A matched store: the store, the map entity that it is, and where that is.
#[derive(Clone, Copy, Debug, PartialEq, Eq, Structural)]
pub struct Store {
    pub id: StoreId,
    pub osm: OsmId,
    pub point: Point,
}

/// A position as a map query gives it.
#[derive(Clone, Copy, Debug, PartialEq, Eq, Structural)]
pub struct RawPosition {
    pub lat: u64,
    pub lon: u64,
}

/// An entity as a map query gives it, by kind.
#[derive(Clone, Debug)]
pub enum RawElement {
    Node { id: u64, center: RawPosition, tags: Vec<(String, String)> },
    Way { id: u64, center: RawPosition, tags: Vec<(String, String)> },
    Relation { id: u64, center: RawPosition, tags: Vec<(String, String)> },
}

impl RawPosition {
    /// The point at this position.
    pub fn refine(self) -> (r: Point)
        ensures
            r == (Point { lat: self.lat, lon: self.lon }),
    {
        Point { lat: self.lat, lon: self.lon }
    }
}

impl RawElement {
    /// The entity under the identifier of its kind.
    pub fn refine(self) -> (r: OsmElement)
        ensures
            r == match self {
                RawElement::Node { id, center, tags } => OsmElement {
                    id: OsmId::Node(id),
                    point: Point { lat: center.lat, lon: center.lon },
                    tags,
                },
                RawElement::Way { id, center, tags } => OsmElement {
                    id: OsmId::Way(id),
                    point: Point { lat: center.lat, lon: center.lon },
                    tags,
                },
                RawElement::Relation { id, center, tags } => OsmElement {
                    id: OsmId::Relation(id),
                    point: Point { lat: center.lat, lon: center.lon },
                    tags,
                },
            },
    {
        match self {
            RawElement::Node { id, center, tags } => OsmElement {
                id: OsmId::Node(id),
                point: center.refine(),
                tags,
            },
            RawElement::Way { id, center, tags } => OsmElement {
                id: OsmId::Way(id),
                point: center.refine(),
                tags,
            },
            RawElement::Relation { id, center, tags } => OsmElement {
                id: OsmId::Relation(id),
                point: center.refine(),
                tags,
            },
        }
    }
}

impl OsmElement {
    /// The value of the tag named `key`.
    pub fn tag(&self, key: &str) -> (r: Option<&String>)
        ensures
            match r {
                Some(v) => tag_value(self.tags@, key@) == Some(v@),
                None => tag_value(self.tags@, key@) is None,
            },
    {
        lookup(&self.tags, key)
    }
}

/// Whether the stores stand in strictly rising order of their numbers.
pub open spec fn stores_rising(stores: Seq<RawStore>) -> bool {
    forall|a: int, b: int| 0 <= a < b < stores.len() ==> stores[a].id < stores[b].id
}

/// Whether the entities stand in strictly rising order of their identifiers.
pub open spec fn entities_rising(entities: Seq<OsmElement>) -> bool {
    forall|a: int, b: int|
        0 <= a < b < entities.len() ==> entities[a].id.rank() < entities[b].id.rank()
}

/// The stores and the entities of one run. Each is a set held in the order of
/// its identifiers, so that every walk over it takes the same course.
#[derive(Debug)]
pub struct Registry {
    pub stores: Vec<RawStore>,
    pub entities: Vec<OsmElement>,
}

impl Registry {
    /// Both sets stand in rising order, each identifier once.
    pub open spec fn wf(self) -> bool {
        stores_rising(self.stores@) && entities_rising(self.entities@)
    }

    /// Whether `distances` gives one distance for each store and entity.
    pub open spec fn measured_by(self, distances: Seq<Vec<u64>>) -> bool {
        &&& distances.len() == self.stores@.len()
        &&& forall|i: int|
            0 <= i < distances.len() ==> (#[trigger] distances[i])@.len() == self.entities@.len()
    }

    /// A registry without stores or entities.
    pub fn new() -> (r: Registry)
        ensures
            r.wf(),
            r.stores@.len() == 0,
            r.entities@.len() == 0,
    {
        Registry { stores: Vec::new(), entities: Vec::new() }
    }

    /// Adds a store. A store that the registry holds under the same number
    /// gives way to the new one.
    pub fn add_store(&mut self, store: RawStore)
        requires
            old(self).wf(),
        ensures
            final(self).wf(),
            final(self).entities == old(self).entities,
            forall|x: RawStore|
                final(self).stores@.contains(x) <==> (x == store || (old(self).stores@.contains(x)
                    && x.id != store.id)),
    {
        let mut pos: usize = 0;
        while pos < self.stores.len() && self.stores[pos].id < store.id
            invariant
                *self == *old(self),
                pos <= self.stores@.len(),
                forall|i: int| 0 <= i < pos ==> self.stores@[i].id < store.id,
            decreases self.stores@.len() - pos,
        {
            pos += 1;
        }
        let ghost before = self.stores@;
        if pos < self.stores.len() && self.stores[pos].id == store.id {
            self.stores[pos] = store;
            proof {
                let after = self.stores@;
                assert forall|x: RawStore|
                    after.contains(x) <==> (x == store || (before.contains(x) && x.id
                        != store.id)) by {
                    if after.contains(x) {
                        let i = choose|i: int| 0 <= i < after.len() && after[i] == x;
                        if i != pos {
                            assert(before[i] == x);
                        }
                    }
                    if x == store {
                        assert(after[pos as int] == x);
                    }
                    if before.contains(x) && x.id != store.id {
                        let i = choose|i: int| 0 <= i < before.len() && before[i] == x;
                        assert(after[i] == x);
                    }
                }
            }
        } else {
            self.stores.insert(pos, store);
            proof {
                let after = self.stores@;
                assert forall|i: int| pos <= i < before.len() implies store.id
                    < before[i].id by {
                    if i > pos {
                        assert(before[pos as int].id < before[i].id);
                    }
                }
                assert forall|a: int, b: int| 0 <= a < b < after.len() implies after[a].id
                    < after[b].id by {
                    let oa = if a < pos { a } else { a - 1 };
                    let ob = if b < pos { b } else { b - 1 };
                    if a != pos && b != pos {
                        assert(after[a] == before[oa]);
                        assert(after[b] == before[ob]);
                    }
                }
                assert forall|x: RawStore|
                    after.contains(x) <==> (x == store || (before.contains(x) && x.id
                        != store.id)) by {
                    if after.contains(x) {
                        let i = choose|i: int| 0 <= i < after.len() && after[i] == x;
                        if i != pos {
                            let o = if i < pos { i } else { i - 1 };
                            assert(before[o] == x);
                        }
                    }
                    if x == store {
                        assert(after[pos as int] == x);
                    }
                    if before.contains(x) && x.id != store.id {
                        let o = choose|o: int| 0 <= o < before.len() && before[o] == x;
                        let i = if o < pos { o } else { o + 1 };
                        assert(after[i] == x);
                    }
                }
            }
        }
    }

    /// Adds an entity. An entity that the registry holds under the same
    /// identifier gives way to the new one.
    pub fn add_entity(&mut self, entity: OsmElement)
        requires
            old(self).wf(),
        ensures
            final(self).wf(),
            final(self).stores == old(self).stores,
            forall|x: OsmElement|
                final(self).entities@.contains(x) <==> (x == entity || (old(
                    self,
                ).entities@.contains(x) && x.id != entity.id)),
    {
        let mut pos: usize = 0;
        while pos < self.entities.len() && self.entities[pos].id.precedes(&entity.id)
            invariant
                *self == *old(self),
                pos <= self.entities@.len(),
                forall|i: int| 0 <= i < pos ==> self.entities@[i].id.rank() < entity.id.rank(),
            decreases self.entities@.len() - pos,
        {
            pos += 1;
        }
        let ghost before = self.entities@;
        if pos < self.entities.len() && !entity.id.precedes(&self.entities[pos].id) {
            proof {
                crate::osm::lemma_rank_names_entity(before[pos as int].id, entity.id);
            }
            self.entities[pos] = entity;
            proof {
                let after = self.entities@;
                assert forall|x: OsmElement|
                    after.contains(x) <==> (x == entity || (before.contains(x) && x.id
                        != entity.id)) by {
                    if after.contains(x) {
                        let i = choose|i: int| 0 <= i < after.len() && after[i] == x;
                        if i != pos {
                            assert(before[i] == x);
                            assert(before[i].id.rank() != before[pos as int].id.rank());
                        }
                    }
                    if x == entity {
                        assert(after[pos as int] == x);
                    }
                    if before.contains(x) && x.id != entity.id {
                        let i = choose|i: int| 0 <= i < before.len() && before[i] == x;
                        assert(after[i] == x);
                    }
                }
            }
        } else {
            proof {
                assert forall|i: int| pos <= i < before.len() implies entity.id.rank()
                    < before[i].id.rank() by {
                    if i > pos {
                        assert(before[pos as int].id.rank() < before[i].id.rank());
                    }
                }
            }
            self.entities.insert(pos, entity);
            proof {
                let after = self.entities@;
                assert forall|a: int, b: int| 0 <= a < b < after.len() implies after[a].id.rank()
                    < after[b].id.rank() by {
                    let oa = if a < pos { a } else { a - 1 };
                    let ob = if b < pos { b } else { b - 1 };
                    if a != pos && b != pos {
                        assert(after[a] == before[oa]);
                        assert(after[b] == before[ob]);
                    }
                }
                assert forall|x: OsmElement|
                    after.contains(x) <==> (x == entity || (before.contains(x) && x.id
                        != entity.id)) by {
                    if after.contains(x) {
                        let i = choose|i: int| 0 <= i < after.len() && after[i] == x;
                        if i != pos {
                            let o = if i < pos { i } else { i - 1 };
                            assert(before[o] == x);
                            assert(before[o].id.rank() != entity.id.rank());
                        }
                    }
                    if x == entity {
                        assert(after[pos as int] == x);
                    }
                    if before.contains(x) && x.id != entity.id {
                        let o = choose|o: int| 0 <= o < before.len() && before[o] == x;
                        let i = if o < pos { o } else { o + 1 };
                        assert(after[i] == x);
                    }
                }
            }
        }
    }

    /// Whether `distances` gives one distance for each store and entity.
    pub fn fits(&self, distances: &Vec<Vec<u64>>) -> (r: bool)
        ensures
            r == self.measured_by(distances@),
    {
        if distances.len() != self.stores.len() {
            return false;
        }
        let mut i: usize = 0;
        while i < distances.len()
            invariant
                i <= distances@.len(),
                forall|k: int|
                    0 <= k < i ==> (#[trigger] distances@[k])@.len() == self.entities@.len(),
            decreases distances@.len() - i,
        {
            if distances[i].len() != self.entities.len() {
                return false;
            }
            i += 1;
        }
        true
    }
}

} // verus!
