//! The evolving relation from stores to map entities: at most one entity for
//! a store, the stores kept in the order of their identifiers.

use vstd::prelude::*;
use crate::store::StoreId;

verus! {

/// One store and the map entity it is matched with. The entity is named by
/// its position in the registry.
#[derive(Clone, Copy, Debug, PartialEq, Eq, Structural)]
pub struct Assignment {
    pub store: StoreId,
    pub entity: usize,
}

/// The matches made so far, ordered by store.
#[derive(Debug)]
pub struct Matches {
    pub entries: Vec<Assignment>,
}

/// Whether the stores of `entries` stand in strictly rising order.
pub open spec fn rising(entries: Seq<Assignment>) -> bool {
    forall|a: int, b: int|
        0 <= a < b < entries.len() ==> entries[a].store.rank() < entries[b].store.rank()
}

/// Whether `entries` has an entry for `store` at position `i`.
pub open spec fn entry_at(entries: Seq<Assignment>, store: StoreId, i: int) -> bool {
    0 <= i < entries.len() && entries[i].store == store
}

/// The relation that `entries` writes down.
pub open spec fn relation(entries: Seq<Assignment>) -> Map<StoreId, usize> {
    Map::new(
        |s: StoreId| exists|i: int| entry_at(entries, s, i),
        |s: StoreId| entries[choose|i: int| entry_at(entries, s, i)].entity,
    )
}

/// In rising entries a store has one position.
pub proof fn lemma_one_position(entries: Seq<Assignment>, i: int, j: int)
    requires
        rising(entries),
        0 <= i < entries.len(),
        0 <= j < entries.len(),
        entries[i].store == entries[j].store,
    ensures
        i == j,
{
    if i < j {
        assert(entries[i].store.rank() < entries[j].store.rank());
    }
    if j < i {
        assert(entries[j].store.rank() < entries[i].store.rank());
    }
}

/// What the relation holds for the store of an entry.
pub proof fn lemma_relation_at(entries: Seq<Assignment>, i: int)
    requires
        rising(entries),
        0 <= i < entries.len(),
    ensures
        relation(entries).dom().contains(entries[i].store),
        relation(entries)[entries[i].store] == entries[i].entity,
{
    let s = entries[i].store;
    assert(entry_at(entries, s, i));
    let k = choose|k: int| entry_at(entries, s, k);
    lemma_one_position(entries, i, k);
}

/// Putting an entry in its place adds one pair to the relation.
pub proof fn lemma_relation_insert(entries: Seq<Assignment>, pos: int, a: Assignment)
    requires
        rising(entries),
        0 <= pos <= entries.len(),
        forall|i: int| 0 <= i < pos ==> entries[i].store.rank() < a.store.rank(),
        forall|i: int| pos <= i < entries.len() ==> a.store.rank() < entries[i].store.rank(),
    ensures
        rising(entries.insert(pos, a)),
        !relation(entries).dom().contains(a.store),
        relation(entries.insert(pos, a)) == relation(entries).insert(a.store, a.entity),
{
    let after = entries.insert(pos, a);
    assert(rising(after)) by {
        assert forall|x: int, y: int| 0 <= x < y < after.len() implies after[x].store.rank()
            < after[y].store.rank() by {
            let ox = if x < pos { x } else { x - 1 };
            let oy = if y < pos { y } else { y - 1 };
            if x != pos && y != pos {
                assert(after[x] == entries[ox]);
                assert(after[y] == entries[oy]);
            }
        }
    }
    assert(!relation(entries).dom().contains(a.store)) by {
        if exists|i: int| entry_at(entries, a.store, i) {
            let i = choose|i: int| entry_at(entries, a.store, i);
            assert(entries[i].store.rank() == a.store.rank());
        }
    }
    let left = relation(after);
    let right = relation(entries).insert(a.store, a.entity);
    assert forall|s: StoreId| left.dom().contains(s) <==> right.dom().contains(s) by {
        if left.dom().contains(s) {
            let i = choose|i: int| entry_at(after, s, i);
            if i != pos {
                let o = if i < pos { i } else { i - 1 };
                assert(entry_at(entries, s, o));
            }
        }
        if right.dom().contains(s) {
            if s == a.store {
                assert(entry_at(after, s, pos));
            } else {
                let o = choose|o: int| entry_at(entries, s, o);
                let i = if o < pos { o } else { o + 1 };
                assert(entry_at(after, s, i));
            }
        }
    }
    assert forall|s: StoreId| left.dom().contains(s) implies left[s] == right[s] by {
        let i = choose|i: int| entry_at(after, s, i);
        lemma_relation_at(after, i);
        if i != pos {
            let o = if i < pos { i } else { i - 1 };
            assert(after[i] == entries[o]);
            lemma_relation_at(entries, o);
        }
    }
    assert(left =~= right);
}

impl View for Matches {
    type V = Map<StoreId, usize>;

    open spec fn view(&self) -> Map<StoreId, usize> {
        relation(self.entries@)
    }
}

impl Matches {
    /// The entries stand in the order of their stores, each store once.
    pub open spec fn wf(self) -> bool {
        rising(self.entries@)
    }

    /// The entity that `store` is matched with, if any.
    pub open spec fn held(self, store: StoreId) -> Option<usize> {
        if self@.dom().contains(store) {
            Some(self@[store])
        } else {
            None
        }
    }

    /// No matches.
    pub fn new() -> (r: Matches)
        ensures
            r.wf(),
            r.entries@.len() == 0,
            r@ == Map::<StoreId, usize>::empty(),
    {
        let r = Matches { entries: Vec::new() };
        assert(r@ =~= Map::<StoreId, usize>::empty());
        r
    }

    /// How many stores are matched.
    pub fn len(&self) -> (r: usize)
        ensures
            r == self.entries@.len(),
    {
        self.entries.len()
    }

    /// The position at which an entry for `store` stands or would stand.
    fn place(&self, store: &StoreId) -> (pos: usize)
        requires
            self.wf(),
        ensures
            pos <= self.entries@.len(),
            forall|i: int| 0 <= i < pos ==> self.entries@[i].store.rank() < store.rank(),
            forall|i: int|
                pos <= i < self.entries@.len() ==> store.rank() <= self.entries@[i].store.rank(),
    {
        let mut pos: usize = 0;
        while pos < self.entries.len() && self.entries[pos].store.precedes(store)
            invariant
                self.wf(),
                pos <= self.entries@.len(),
                forall|i: int| 0 <= i < pos ==> self.entries@[i].store.rank() < store.rank(),
            decreases self.entries@.len() - pos,
        {
            pos += 1;
        }
        assert forall|i: int| pos <= i < self.entries@.len() implies store.rank()
            <= self.entries@[i].store.rank() by {
            if i > pos {
                assert(self.entries@[pos as int].store.rank() < self.entries@[i].store.rank());
            }
        }
        pos
    }

    /// The entity that `store` is matched with, if any.
    pub fn get(&self, store: &StoreId) -> (r: Option<usize>)
        requires
            self.wf(),
        ensures
            r == self.held(*store),
    {
        let pos = self.place(store);
        if pos < self.entries.len() && self.entries[pos].store.position() == store.position() {
            proof {
                crate::store::lemma_rank_names_store(self.entries@[pos as int].store, *store);
                lemma_relation_at(self.entries@, pos as int);
            }
            Some(self.entries[pos].entity)
        } else {
            proof {
                if self@.dom().contains(*store) {
                    let i = choose|i: int| entry_at(self.entries@, *store, i);
                    assert(self.entries@[i].store.rank() == store.rank());
                }
            }
            None
        }
    }

    /// Matches `store` with `entity` unless the store is matched already;
    /// then nothing changes, and the entity that it holds is returned.
    pub fn claim(&mut self, store: StoreId, entity: usize) -> (r: Option<usize>)
        requires
            old(self).wf(),
        ensures
            final(self).wf(),
            r == old(self).held(store),
            r is Some ==> *final(self) == *old(self),
            r is None ==> final(self)@ == old(self)@.insert(store, entity),
            r is None ==> final(self).entries@.len() == old(self).entries@.len() + 1,
    {
        let pos = self.place(&store);
        if pos < self.entries.len() && self.entries[pos].store.position() == store.position() {
            proof {
                crate::store::lemma_rank_names_store(self.entries@[pos as int].store, store);
                lemma_relation_at(self.entries@, pos as int);
            }
            Some(self.entries[pos].entity)
        } else {
            let a = Assignment { store, entity };
            proof {
                lemma_relation_insert(self.entries@, pos as int, a);
            }
            self.entries.insert(pos, a);
            None
        }
    }
}

} // verus!
