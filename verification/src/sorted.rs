//! Entries under slugs, kept in the order of the slugs: what a map keyed by
//! texts holds, written down as a sequence.

use vstd::prelude::*;
use crate::text::{
    lemma_text_order_strict, lemma_text_order_total, lemma_text_order_transitive, text_before,
};

verus! {

/// Whether the slugs stand in strictly rising order.
pub open spec fn slugs_rising<V>(entries: Seq<(Seq<char>, V)>) -> bool {
    forall|a: int, b: int|
        0 <= a < b < entries.len() ==> text_before(
            (#[trigger] entries[a]).0,
            (#[trigger] entries[b]).0,
        )
}

/// Whether an entry stands under `key`.
pub open spec fn has_key<V>(entries: Seq<(Seq<char>, V)>, key: Seq<char>) -> bool {
    exists|i: int| 0 <= i < entries.len() && (#[trigger] entries[i]).0 == key
}

/// How many of the entries at the beginning stand under slugs before `key`.
pub open spec fn keys_before<V>(entries: Seq<(Seq<char>, V)>, key: Seq<char>) -> int
    decreases entries.len(),
{
    if entries.len() == 0 || !text_before(entries[0].0, key) {
        0
    } else {
        1 + keys_before(entries.skip(1), key)
    }
}

/// The entries with `token` under `key`, in the place of the entry that stood
/// there or else where the order of the slugs puts it.
pub open spec fn with_entry<V>(
    entries: Seq<(Seq<char>, V)>,
    key: Seq<char>,
    token: V,
) -> Seq<(Seq<char>, V)> {
    let pos = keys_before(entries, key);
    if pos < entries.len() && entries[pos].0 == key {
        entries.update(pos, (key, token))
    } else {
        entries.insert(pos, (key, token))
    }
}

/// Where `key` belongs among rising slugs: after all that come before it and
/// before all others.
pub proof fn lemma_keys_before<V>(entries: Seq<(Seq<char>, V)>, key: Seq<char>)
    requires
        slugs_rising(entries),
    ensures
        0 <= keys_before(entries, key) <= entries.len(),
        forall|a: int|
            0 <= a < keys_before(entries, key) ==> text_before((#[trigger] entries[a]).0, key),
        forall|a: int|
            keys_before(entries, key) <= a < entries.len() ==> !text_before(
                (#[trigger] entries[a]).0,
                key,
            ),
        has_key(entries, key) <==> (keys_before(entries, key) < entries.len()
            && entries[keys_before(entries, key)].0 == key),
    decreases entries.len(),
{
    let pos = keys_before(entries, key);
    if entries.len() == 0 {
    } else if !text_before(entries[0].0, key) {
        assert forall|a: int| 0 <= a < entries.len() implies !text_before(
            (#[trigger] entries[a]).0,
            key,
        ) by {
            if a > 0 && text_before(entries[a].0, key) {
                lemma_text_order_transitive(entries[0].0, entries[a].0, key);
            }
        }
    } else {
        let rest = entries.skip(1);
        assert forall|a: int, b: int| 0 <= a < b < rest.len() implies text_before(
            (#[trigger] rest[a]).0,
            (#[trigger] rest[b]).0,
        ) by {
            assert(rest[a] == entries[a + 1]);
            assert(rest[b] == entries[b + 1]);
        }
        lemma_keys_before(rest, key);
        let k = keys_before(rest, key);
        assert forall|a: int| 0 <= a < k + 1 implies text_before((#[trigger] entries[a]).0, key) by {
            if a > 0 {
                assert(entries[a] == rest[a - 1]);
            }
        }
        assert forall|a: int| k + 1 <= a < entries.len() implies !text_before(
            (#[trigger] entries[a]).0,
            key,
        ) by {
            assert(entries[a] == rest[a - 1]);
        }
    }
    lemma_text_order_strict(key);
    if has_key(entries, key) {
        let i = choose|i: int| 0 <= i < entries.len() && (#[trigger] entries[i]).0 == key;
        assert(i >= pos);
        if i > pos {
            assert(text_before(entries[pos].0, entries[i].0));
        }
    }
}

/// Putting an entry under its slug keeps the slugs in rising order.
pub proof fn lemma_with_entry_rising<V>(
    entries: Seq<(Seq<char>, V)>,
    key: Seq<char>,
    token: V,
)
    requires
        slugs_rising(entries),
    ensures
        slugs_rising(with_entry(entries, key, token)),
{
    lemma_keys_before(entries, key);
    let pos = keys_before(entries, key);
    let after = with_entry(entries, key, token);
    if pos < entries.len() && entries[pos].0 == key {
        assert forall|a: int, b: int| 0 <= a < b < after.len() implies text_before(
            (#[trigger] after[a]).0,
            (#[trigger] after[b]).0,
        ) by {
            assert(after[a].0 == entries[a].0);
            assert(after[b].0 == entries[b].0);
        }
    } else {
        assert forall|a: int| pos <= a < entries.len() implies text_before(
            key,
            (#[trigger] entries[a]).0,
        ) by {
            lemma_text_order_total(key, entries[a].0);
            if entries[a].0 == key {
                assert(has_key(entries, key));
            }
        }
        assert forall|a: int, b: int| 0 <= a < b < after.len() implies text_before(
            (#[trigger] after[a]).0,
            (#[trigger] after[b]).0,
        ) by {
            let oa = if a < pos { a } else { a - 1 };
            let ob = if b < pos { b } else { b - 1 };
            if a != pos {
                assert(after[a] == entries[oa]);
            }
            if b != pos {
                assert(after[b] == entries[ob]);
            }
        }
    }
}

/// Some texts as entries that hold nothing but their slugs.
pub open spec fn as_entries(names: Seq<Seq<char>>) -> Seq<(Seq<char>, ())> {
    Seq::new(names.len(), |i: int| (names[i], ()))
}

/// Whether the texts stand in strictly rising order.
pub open spec fn texts_rising(names: Seq<Seq<char>>) -> bool {
    slugs_rising(as_entries(names))
}

/// The texts with `name` among them, where the order of texts puts it, if
/// it is not among them yet.
pub open spec fn with_text(names: Seq<Seq<char>>, name: Seq<char>) -> Seq<Seq<char>> {
    let pos = keys_before(as_entries(names), name);
    if pos < names.len() && names[pos] == name {
        names
    } else {
        names.insert(pos, name)
    }
}

/// Putting a text among rising texts keeps them in rising order.
pub proof fn lemma_with_text_rising(names: Seq<Seq<char>>, name: Seq<char>)
    requires
        texts_rising(names),
    ensures
        texts_rising(with_text(names, name)),
        0 <= keys_before(as_entries(names), name) <= names.len(),
{
    lemma_keys_before(as_entries(names), name);
    lemma_with_entry_rising(as_entries(names), name, ());
    let pos = keys_before(as_entries(names), name);
    if pos < names.len() && names[pos] == name {
        assert(as_entries(names)[pos].0 == name);
        assert(as_entries(with_text(names, name)) =~= with_entry(as_entries(names), name, ()));
    } else {
        if pos < names.len() {
            assert(as_entries(names)[pos].0 != name);
        }
        assert(as_entries(with_text(names, name)) =~= with_entry(as_entries(names), name, ()));
    }
}

} // verus!
