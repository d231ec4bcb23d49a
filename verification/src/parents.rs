//! What a store stands in: the buildings and the centres around it, and the
//! one name that they give it, if they agree on one.

use vstd::prelude::*;
use crate::conflation::registry::OsmElement;
use crate::pairs::tag_value;
use crate::text::texts;
use crate::osm::OsmId;
use crate::sorted::{as_entries, keys_before, lemma_with_text_rising, texts_rising, with_text};
use crate::store::StoreId;
use crate::text::{chars_of, comes_before, is_text, push_text, same_chars};

verus! {

/// What surrounds a store.
#[derive(Clone, Debug, PartialEq, Eq)]
pub struct Parentage {
    /// How many entities surround the store.
    pub parents: usize,
    /// The names of those entities, each once, in the order of texts.
    pub names: Vec<String>,
}

/// A text as it is shown for inspection: in quotes, with what cannot be read
/// written as an escape. This is what the standard library's `Debug`
/// formatting of a string gives.
pub uninterp spec fn debug_text(s: Seq<char>) -> Seq<char>;

/// A text as it is shown for inspection: `format!` with `{:?}` on a string
/// slice, the same for the same text.
#[verifier::external_body]
fn quoted(s: &str) -> (r: String)
    ensures
        r@ == debug_text(s@),
{
    format!("{s:?}")
}

/// Whether an entity around a store is something that the store stands in:
/// anything but a supermarket.
pub open spec fn is_parent(e: OsmElement) -> bool {
    tag_value(e.tags@, "shop"@) != Some("supermarket"@)
}

/// How many of the first `n` entities a store stands in.
pub open spec fn parents_among(elements: Seq<OsmElement>, n: int) -> nat
    decreases n,
{
    if n <= 0 {
        0
    } else if is_parent(elements[n - 1]) {
        parents_among(elements, n - 1) + 1
    } else {
        parents_among(elements, n - 1)
    }
}

/// The names of those among the first `n` entities that a store stands in,
/// each once, in the order of texts.
pub open spec fn names_among(elements: Seq<OsmElement>, n: int) -> Seq<Seq<char>>
    decreases n,
{
    if n <= 0 {
        Seq::empty()
    } else if is_parent(elements[n - 1]) {
        match tag_value(elements[n - 1].tags@, "name"@) {
            Some(name) => with_text(names_among(elements, n - 1), name),
            None => names_among(elements, n - 1),
        }
    } else {
        names_among(elements, n - 1)
    }
}

/// Names stay in rising order.
pub proof fn lemma_names_rising(elements: Seq<OsmElement>, n: int)
    ensures
        texts_rising(names_among(elements, n)),
    decreases n,
{
    if n > 0 {
        lemma_names_rising(elements, n - 1);
        if is_parent(elements[n - 1]) {
            match tag_value(elements[n - 1].tags@, "name"@) {
                Some(name) => {
                    lemma_with_text_rising(names_among(elements, n - 1), name);
                },
                None => {},
            }
        }
    }
}

/// Where a name stands or would stand among names.
fn place_of(names: &Vec<String>, key: &[char]) -> (pos: usize)
    ensures
        pos == keys_before(as_entries(texts(names@)), key@),
        pos <= names@.len(),
{
    let ghost all = as_entries(texts(names@));
    let mut pos: usize = 0;
    assert(all.skip(0) == all);
    loop
        invariant
            pos <= names@.len(),
            all == as_entries(texts(names@)),
            keys_before(all, key@) == pos + keys_before(all.skip(pos as int), key@),
        decreases names@.len() - pos,
    {
        if pos >= names.len() {
            return pos;
        }
        let held = chars_of(names[pos].as_str());
        assert(all.skip(pos as int)[0] == all[pos as int]);
        assert(all[pos as int].0 == held@);
        if !comes_before(held.as_slice(), key) {
            return pos;
        }
        assert(all.skip(pos as int).skip(1) == all.skip(pos + 1));
        pos += 1;
    }
}

/// Puts a name among names in rising order, if it is not among them yet.
fn insert_name(names: &mut Vec<String>, name: &String)
    requires
        texts_rising(texts(old(names)@)),
    ensures
        texts(final(names)@) == with_text(texts(old(names)@), name@),
{
    let ghost before = texts(names@);
    let key = chars_of(name.as_str());
    let pos = place_of(names, key.as_slice());
    let there = if pos < names.len() {
        let held = chars_of(names[pos].as_str());
        same_chars(held.as_slice(), key.as_slice())
    } else {
        false
    };
    if !there {
        names.insert(pos, name.clone());
        assert(texts(names@) =~= before.insert(pos as int, name@));
    }
}

/// Looks at the entities around a store.
pub fn parentage(elements: &Vec<OsmElement>) -> (r: Parentage)
    ensures
        r.parents == parents_among(elements@, elements@.len() as int),
        texts(r.names@) == names_among(elements@, elements@.len() as int),
{
    let mut parents: usize = 0;
    let mut names: Vec<String> = Vec::new();
    let mut i: usize = 0;
    assert(texts(names@) =~= names_among(elements@, 0));
    while i < elements.len()
        invariant
            i <= elements@.len(),
            parents == parents_among(elements@, i as int),
            parents <= i,
            texts(names@) == names_among(elements@, i as int),
        decreases elements@.len() - i,
    {
        let element = &elements[i];
        let supermarket = match element.tag("shop") {
            Some(shop) => {
                let chars = chars_of(shop.as_str());
                is_text(chars.as_slice(), "supermarket")
            },
            None => false,
        };
        if !supermarket {
            parents += 1;
            match element.tag("name") {
                Some(name) => {
                    proof {
                        lemma_names_rising(elements@, i as int);
                    }
                    insert_name(&mut names, name);
                },
                None => {},
            }
        }
        i += 1;
    }
    Parentage { parents, names }
}

/// The first `n` names as shown for inspection, with a comma between each
/// two.
pub open spec fn names_text(names: Seq<String>, n: int) -> Seq<char>
    decreases n,
{
    if n <= 0 {
        Seq::empty()
    } else if n == 1 {
        debug_text(names[0]@)
    } else {
        names_text(names, n - 1) + ", "@ + debug_text(names[n - 1]@)
    }
}

impl Parentage {
    /// The name that the surroundings give the store: the one name, where
    /// there is one and no other.
    pub fn name(&self) -> (r: Option<&String>)
        ensures
            match r {
                Some(name) => self.names@.len() == 1 && *name == self.names@[0],
                None => self.names@.len() != 1,
            },
    {
        if self.names.len() == 1 {
            Some(&self.names[0])
        } else {
            None
        }
    }

    /// What the report says of the surroundings, if anything: that there are
    /// none, or that their names differ.
    pub open spec fn note_text(self, store: StoreId, osm: OsmId) -> Option<Seq<char>> {
        if self.parents == 0 {
            Some("- "@ + store.markdown_text() + " "@ + osm.markdown_text() + " has no parents"@)
        } else if self.names@.len() > 1 {
            Some(
                "- "@ + store.markdown_text() + " "@ + osm.markdown_text()
                    + " has conflicting parent names: {"@ + names_text(
                    self.names@,
                    self.names@.len() as int,
                ) + "}"@,
            )
        } else {
            None
        }
    }

    /// What the report says of the surroundings, if anything.
    pub fn note(&self, store: &StoreId, osm: &OsmId) -> (r: Option<String>)
        ensures
            match r {
                Some(line) => self.note_text(*store, *osm) == Some(line@),
                None => self.note_text(*store, *osm) is None,
            },
    {
        if self.parents != 0 && self.names.len() <= 1 {
            return None;
        }
        let mut out = String::new();
        push_text(&mut out, "- ");
        push_text(&mut out, store.markdown().as_str());
        push_text(&mut out, " ");
        push_text(&mut out, osm.markdown().as_str());
        if self.parents == 0 {
            push_text(&mut out, " has no parents");
            assert(out@ =~= "- "@ + store.markdown_text() + " "@ + osm.markdown_text()
                + " has no parents"@);
            return Some(out);
        }
        push_text(&mut out, " has conflicting parent names: {");
        let ghost head = out@;
        let mut i: usize = 0;
        assert(out@ =~= head + names_text(self.names@, 0));
        while i < self.names.len()
            invariant
                i <= self.names@.len(),
                out@ == head + names_text(self.names@, i as int),
            decreases self.names@.len() - i,
        {
            if i > 0 {
                push_text(&mut out, ", ");
            }
            push_text(&mut out, quoted(self.names[i].as_str()).as_str());
            assert(out@ =~= head + names_text(self.names@, i + 1));
            i += 1;
        }
        push_text(&mut out, "}");
        assert(out@ =~= "- "@ + store.markdown_text() + " "@ + osm.markdown_text()
            + " has conflicting parent names: {"@ + names_text(
            self.names@,
            self.names@.len() as int,
        ) + "}"@);
        Some(out)
    }
}

} // verus!
