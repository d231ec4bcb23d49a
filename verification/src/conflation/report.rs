//! The report of a run: the counts, and what a reader should look at.

use vstd::prelude::*;
use crate::conflation::distance::rounded_half_even;
use crate::conflation::resolver::Note;
use crate::osm::OsmId;
use crate::store::StoreId;
use crate::text::{decimal_text, digit_char, push_char, push_decimal, push_text};

verus! {

/// What a run found.
#[derive(Debug)]
pub struct Report {
    /// How many stores the feed reports.
    pub raw: usize,
    /// How many entities the map holds.
    pub osm: usize,
    /// How many stores a website names.
    pub forced: usize,
    /// How many stores were matched by distance.
    pub on_distance: usize,
    /// The stores without any candidate.
    pub unmatched_stores: Vec<StoreId>,
    /// The notes of the resolver.
    pub notes: Vec<Note>,
    /// The entities that no store was matched with.
    pub unmatched_entities: Vec<OsmId>,
}

/// The line that a note makes in the report, without its end.
pub open spec fn note_text(note: Note) -> Seq<char> {
    match note {
        Note::Conflict { store, held, contested } => "- "@ + store.markdown_text()
            + " is conflicted with "@ + held.markdown_text() + " and "@
            + contested.markdown_text(),
        Note::LaterPass { store, entity, pass, metres } => "- "@ + entity.markdown_text()
            + " is #"@ + decimal_text(pass as nat) + " closest to "@ + store.markdown_text()
            + " ("@ + decimal_text(metres as nat) + "m)"@,
        Note::Distant { store, entity, metres } => "- "@ + store.markdown_text() + ": "@
            + entity.markdown_text() + " is "@ + decimal_text(metres as nat)
            + "m away from raw location"@,
    }
}

/// The lines of the first `n` notes.
pub open spec fn notes_text(notes: Seq<Note>, n: int) -> Seq<char>
    decreases n,
{
    if n <= 0 {
        Seq::empty()
    } else {
        notes_text(notes, n - 1) + note_text(notes[n - 1]) + "\n"@
    }
}

/// The list entries of the first `n` stores.
pub open spec fn stores_text(stores: Seq<StoreId>, n: int) -> Seq<char>
    decreases n,
{
    if n <= 0 {
        Seq::empty()
    } else {
        stores_text(stores, n - 1) + "  - "@ + stores[n - 1].markdown_text() + "\n"@
    }
}

/// The list entries of the first `n` entities.
pub open spec fn entities_text(entities: Seq<OsmId>, n: int) -> Seq<char>
    decreases n,
{
    if n <= 0 {
        Seq::empty()
    } else {
        entities_text(entities, n - 1) + "  - "@ + entities[n - 1].markdown_text() + "\n"@
    }
}

/// The share of `matched` in `raw` as a percentage with one decimal, rounded
/// to the nearest tenth and to the even one where two are as near. Of no
/// stores, nothing is no number and anything is without bound.
pub open spec fn percent_text(matched: nat, raw: nat) -> Seq<char> {
    if raw == 0 {
        if matched == 0 {
            "NaN"@
        } else {
            "inf"@
        }
    } else {
        let tenths = rounded_half_even(matched as int * 1000, raw as int);
        decimal_text((tenths / 10) as nat) + "."@ + seq![digit_char((tenths % 10) as nat)]
    }
}

impl Report {
    /// What is left to look at: the stores without candidates under their
    /// heading, the notes, and the entities without a store under theirs.
    pub open spec fn todo_text(self) -> Seq<char> {
        (if self.unmatched_stores@.len() > 0 {
            "- didn't match with osm:\n"@ + stores_text(
                self.unmatched_stores@,
                self.unmatched_stores@.len() as int,
            )
        } else {
            Seq::empty()
        }) + notes_text(self.notes@, self.notes@.len() as int) + (if self.unmatched_entities@.len()
            > 0 {
            "- didn't match with raw:\n"@ + entities_text(
                self.unmatched_entities@,
                self.unmatched_entities@.len() as int,
            )
        } else {
            Seq::empty()
        })
    }

    /// The counts.
    pub open spec fn statistics_text(self) -> Seq<char> {
        "## Statistics\n\n"@ + "- "@ + decimal_text(self.raw as nat) + " raw, "@ + decimal_text(
            self.osm as nat,
        ) + " osm\n"@ + "- "@ + decimal_text(self.forced as nat) + " sourced from url\n"@ + "- "@
            + decimal_text(self.on_distance as nat) + " matched on distance\n"@ + "- "@
            + percent_text((self.forced + self.on_distance) as nat, self.raw as nat)
            + "% conflated\n"@ + "\n"@
    }

    /// The report as a document: the counts, then what is left to look at,
    /// if anything is.
    pub open spec fn text(self) -> Seq<char> {
        self.statistics_text() + (if self.todo_text().len() > 0 {
            "## Todo\n\n"@ + self.todo_text() + "\n"@
        } else {
            Seq::empty()
        })
    }
}

/// Appends the line of a note, without its end.
fn push_note(out: &mut String, note: &Note)
    ensures
        final(out)@ == old(out)@ + note_text(*note),
{
    match note {
        Note::Conflict { store, held, contested } => {
            push_text(out, "- ");
            push_text(out, store.markdown().as_str());
            push_text(out, " is conflicted with ");
            push_text(out, held.markdown().as_str());
            push_text(out, " and ");
            push_text(out, contested.markdown().as_str());
        },
        Note::LaterPass { store, entity, pass, metres } => {
            push_text(out, "- ");
            push_text(out, entity.markdown().as_str());
            push_text(out, " is #");
            push_decimal(out, *pass as u128);
            push_text(out, " closest to ");
            push_text(out, store.markdown().as_str());
            push_text(out, " (");
            push_decimal(out, *metres as u128);
            push_text(out, "m)");
        },
        Note::Distant { store, entity, metres } => {
            push_text(out, "- ");
            push_text(out, store.markdown().as_str());
            push_text(out, ": ");
            push_text(out, entity.markdown().as_str());
            push_text(out, " is ");
            push_decimal(out, *metres as u128);
            push_text(out, "m away from raw location");
        },
    }
    assert(out@ =~= old(out)@ + note_text(*note));
}

/// Appends a percentage with one decimal.
fn push_percent(out: &mut String, matched: u128, raw: usize)
    requires
        matched <= 2 * usize::MAX,
    ensures
        final(out)@ == old(out)@ + percent_text(matched as nat, raw as nat),
{
    if raw == 0 {
        if matched == 0 {
            push_text(out, "NaN");
        } else {
            push_text(out, "inf");
        }
    } else {
        let m: u128 = matched * 1000;
        let d: u128 = raw as u128;
        let q = m / d;
        let r = m % d;
        let tenths = if 2 * r > d || (2 * r == d && q % 2 == 1) {
            q + 1
        } else {
            q
        };
        assert(tenths == rounded_half_even(matched as int * 1000, raw as int));
        push_decimal(out, tenths / 10);
        push_text(out, ".");
        let digit: u8 = (tenths % 10) as u8;
        push_char(out, (48 + digit) as char);
        assert(out@ =~= old(out)@ + percent_text(matched as nat, raw as nat));
    }
}

impl Report {
    /// What is left to look at.
    pub fn todo(&self) -> (r: String)
        ensures
            r@ == self.todo_text(),
    {
        let mut out = String::new();
        if self.unmatched_stores.len() > 0 {
            push_text(&mut out, "- didn't match with osm:\n");
            let ghost head = out@;
            let mut i: usize = 0;
            while i < self.unmatched_stores.len()
                invariant
                    i <= self.unmatched_stores@.len(),
                    out@ == head + stores_text(self.unmatched_stores@, i as int),
                decreases self.unmatched_stores@.len() - i,
            {
                push_text(&mut out, "  - ");
                push_text(&mut out, self.unmatched_stores[i].markdown().as_str());
                push_text(&mut out, "\n");
                assert(out@ =~= head + stores_text(self.unmatched_stores@, i + 1));
                i += 1;
            }
        }
        let ghost first = out@;
        let mut i: usize = 0;
        while i < self.notes.len()
            invariant
                i <= self.notes@.len(),
                out@ == first + notes_text(self.notes@, i as int),
            decreases self.notes@.len() - i,
        {
            push_note(&mut out, &self.notes[i]);
            push_text(&mut out, "\n");
            assert(out@ =~= first + notes_text(self.notes@, i + 1));
            i += 1;
        }
        if self.unmatched_entities.len() > 0 {
            push_text(&mut out, "- didn't match with raw:\n");
            let ghost head = out@;
            let mut i: usize = 0;
            while i < self.unmatched_entities.len()
                invariant
                    i <= self.unmatched_entities@.len(),
                    out@ == head + entities_text(self.unmatched_entities@, i as int),
                decreases self.unmatched_entities@.len() - i,
            {
                push_text(&mut out, "  - ");
                push_text(&mut out, self.unmatched_entities[i].markdown().as_str());
                push_text(&mut out, "\n");
                assert(out@ =~= head + entities_text(self.unmatched_entities@, i + 1));
                i += 1;
            }
        }
        assert(out@ =~= self.todo_text());
        out
    }

    /// The report as a document.
    pub fn render(&self) -> (r: String)
        ensures
            r@ == self.text(),
    {
        let mut out = String::new();
        push_text(&mut out, "## Statistics\n\n");
        push_text(&mut out, "- ");
        push_decimal(&mut out, self.raw as u128);
        push_text(&mut out, " raw, ");
        push_decimal(&mut out, self.osm as u128);
        push_text(&mut out, " osm\n");
        push_text(&mut out, "- ");
        push_decimal(&mut out, self.forced as u128);
        push_text(&mut out, " sourced from url\n");
        push_text(&mut out, "- ");
        push_decimal(&mut out, self.on_distance as u128);
        push_text(&mut out, " matched on distance\n");
        push_text(&mut out, "- ");
        push_percent(&mut out, self.forced as u128 + self.on_distance as u128, self.raw);
        push_text(&mut out, "% conflated\n");
        push_text(&mut out, "\n");
        assert(out@ =~= self.statistics_text());
        let todo = self.todo();
        if todo.as_str().unicode_len() > 0 {
            push_text(&mut out, "## Todo\n\n");
            push_text(&mut out, todo.as_str());
            push_text(&mut out, "\n");
        }
        assert(out@ =~= self.text());
        out
    }
}

} // verus!
