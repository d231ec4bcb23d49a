//! Identifiers of map entities.

use vstd::prelude::*;
use crate::text::{chars_of, decimal_text, parse_u64, parsed_u64, push_decimal, push_text};
use vstd::slice::slice_subrange;

verus! {

/// The identifier of a map entity: its kind and its number within the kind.
#[derive(Clone, Copy, Debug, PartialEq, Eq, Structural, PartialOrd, Ord, Hash)]
pub enum OsmId {
    Node(u64),
    Relation(u64),
    Way(u64),
}

/// The failure to read an identifier of a map entity.
#[derive(Clone, Copy, Debug, PartialEq, Eq, Structural)]
pub struct ParseOsmIdError;

impl ParseOsmIdError {
    /// The message of the failure.
    pub fn message(&self) -> (r: &'static str)
        ensures
            r@ == "Failed to parse OSM ID"@,
    {
        "Failed to parse OSM ID"
    }
}

impl OsmId {
    /// The entity's number within its kind.
    pub open spec fn number(self) -> u64 {
        match self {
            OsmId::Node(x) => x,
            OsmId::Relation(x) => x,
            OsmId::Way(x) => x,
        }
    }

    /// The place of the entity's kind among the kinds.
    pub open spec fn kind_rank(self) -> int {
        match self {
            OsmId::Node(_) => 0,
            OsmId::Relation(_) => 1,
            OsmId::Way(_) => 2,
        }
    }

    /// The place of an identifier in the order of identifiers: by kind, and
    /// within a kind by number.
    pub open spec fn rank(self) -> int {
        self.kind_rank() * 0x1_0000_0000_0000_0000 + self.number() as int
    }

    /// The letter that stands for the entity's kind.
    pub open spec fn letter(self) -> char {
        match self {
            OsmId::Node(_) => 'n',
            OsmId::Relation(_) => 'r',
            OsmId::Way(_) => 'w',
        }
    }

    /// The word for the entity's kind.
    pub open spec fn kind_text(self) -> Seq<char> {
        match self {
            OsmId::Node(_) => "node"@,
            OsmId::Relation(_) => "relation"@,
            OsmId::Way(_) => "way"@,
        }
    }

    /// The short form of the identifier: the kind's letter, then the number.
    pub open spec fn short_text(self) -> Seq<char> {
        seq![self.letter()] + decimal_text(self.number() as nat)
    }

    /// The identifier as a query to Overpass names it.
    pub open spec fn overpass_text(self) -> Seq<char> {
        self.kind_text() + "("@ + decimal_text(self.number() as nat) + ")"@
    }

    /// How the identifier is shown in a report: a link to the entity's page.
    pub open spec fn markdown_text(self) -> Seq<char> {
        "["@ + self.short_text() + "](https://www.openstreetmap.org/"@ + self.kind_text() + "/"@
            + decimal_text(self.number() as nat) + ")"@
    }

    /// The identifier that a short form names. A short form has at least
    /// three characters.
    pub open spec fn parsed(s: Seq<char>) -> Option<OsmId> {
        if s.len() <= 2 {
            None
        } else {
            match parsed_u64(s.skip(1)) {
                Some(x) => if s[0] == 'n' {
                    Some(OsmId::Node(x))
                } else if s[0] == 'w' {
                    Some(OsmId::Way(x))
                } else if s[0] == 'r' {
                    Some(OsmId::Relation(x))
                } else {
                    None
                },
                None => None,
            }
        }
    }

    /// The entity's number within its kind.
    fn value(&self) -> (r: u64)
        ensures
            r == self.number(),
    {
        match self {
            OsmId::Node(x) => *x,
            OsmId::Relation(x) => *x,
            OsmId::Way(x) => *x,
        }
    }

    /// The word for the entity's kind.
    fn kind(&self) -> (r: &'static str)
        ensures
            r@ == self.kind_text(),
    {
        match self {
            OsmId::Node(_) => "node",
            OsmId::Relation(_) => "relation",
            OsmId::Way(_) => "way",
        }
    }

    /// The place of the entity's kind among the kinds.
    fn kind_position(&self) -> (r: u8)
        ensures
            r == self.kind_rank(),
    {
        match self {
            OsmId::Node(_) => 0,
            OsmId::Relation(_) => 1,
            OsmId::Way(_) => 2,
        }
    }

    /// Whether this identifier comes before `other`.
    pub fn precedes(&self, other: &OsmId) -> (r: bool)
        ensures
            r == (self.rank() < other.rank()),
    {
        let a = self.kind_position();
        let b = other.kind_position();
        a < b || (a == b && self.value() < other.value())
    }

    /// The short form of the identifier.
    pub fn to_text(&self) -> (r: String)
        ensures
            r@ == self.short_text(),
    {
        let mut out = String::new();
        match self {
            OsmId::Node(_) => crate::text::push_char(&mut out, 'n'),
            OsmId::Relation(_) => crate::text::push_char(&mut out, 'r'),
            OsmId::Way(_) => crate::text::push_char(&mut out, 'w'),
        }
        push_decimal(&mut out, self.value() as u128);
        assert(out@ =~= self.short_text());
        out
    }

    /// The identifier as a query to Overpass names it.
    pub fn overpass(&self) -> (r: String)
        ensures
            r@ == self.overpass_text(),
    {
        let mut out = String::new();
        push_text(&mut out, self.kind());
        push_text(&mut out, "(");
        push_decimal(&mut out, self.value() as u128);
        push_text(&mut out, ")");
        assert(out@ =~= self.overpass_text());
        out
    }

    /// The identifier as a report shows it.
    pub fn markdown(&self) -> (r: String)
        ensures
            r@ == self.markdown_text(),
    {
        let mut out = String::new();
        push_text(&mut out, "[");
        let short = self.to_text();
        push_text(&mut out, short.as_str());
        push_text(&mut out, "](https://www.openstreetmap.org/");
        push_text(&mut out, self.kind());
        push_text(&mut out, "/");
        push_decimal(&mut out, self.value() as u128);
        push_text(&mut out, ")");
        assert(out@ =~= self.markdown_text());
        out
    }

    /// Reads an identifier from its short form.
    pub fn parse(s: &str) -> (r: Result<OsmId, ParseOsmIdError>)
        ensures
            match r {
                Ok(id) => OsmId::parsed(s@) == Some(id),
                Err(_) => OsmId::parsed(s@) is None,
            },
    {
        let chars = chars_of(s);
        if chars.len() <= 2 {
            return Err(ParseOsmIdError);
        }
        let letter = chars[0];
        let digits = slice_subrange(chars.as_slice(), 1, chars.len());
        assert(digits@ == s@.skip(1));
        match parse_u64(digits) {
            Some(x) => {
                if letter == 'n' {
                    Ok(OsmId::Node(x))
                } else if letter == 'w' {
                    Ok(OsmId::Way(x))
                } else if letter == 'r' {
                    Ok(OsmId::Relation(x))
                } else {
                    Err(ParseOsmIdError)
                }
            },
            None => Err(ParseOsmIdError),
        }
    }
}

/// An identifier whose number has two digits or more is read back from its
/// short form. One whose number has a single digit is not: its short form is
/// too short.
pub proof fn lemma_short_form_round_trip(id: OsmId)
    ensures
        id.number() >= 10 ==> OsmId::parsed(id.short_text()) == Some(id),
        id.number() < 10 ==> OsmId::parsed(id.short_text()) is None,
{
    let digits = decimal_text(id.number() as nat);
    let text = id.short_text();
    crate::text::lemma_decimal_round_trip(id.number() as nat);
    assert(text.skip(1) =~= digits);
    assert(text[0] == id.letter());
    if id.number() >= 10 {
        crate::text::lemma_parse_what_was_written(id.number() as nat, u64::MAX as nat);
    } else {
        assert(digits.len() == 1);
    }
}

/// Identifiers with the same rank are the same identifier.
pub proof fn lemma_rank_names_entity(a: OsmId, b: OsmId)
    requires
        a.rank() == b.rank(),
    ensures
        a == b,
{
}

impl core::str::FromStr for OsmId {
    type Err = ParseOsmIdError;

    /// Reads an identifier from its short form, as `OsmId::parse` does.
    fn from_str(s: &str) -> (r: Result<OsmId, ParseOsmIdError>)
        ensures
            match r {
                Ok(id) => OsmId::parsed(s@) == Some(id),
                Err(_) => OsmId::parsed(s@) is None,
            },
    {
        OsmId::parse(s)
    }
}

} // verus!
