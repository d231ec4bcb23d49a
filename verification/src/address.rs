//! Addresses of stores.

use vstd::prelude::*;
use crate::text::same_text;

verus! {

/// A state or territory of Australia.
#[derive(Clone, Copy, Debug, PartialEq, Eq, Structural)]
pub enum State {
    NSW,
    VIC,
    QLD,
    SA,
    WA,
    TAS,
    NT,
    ACT,
}

/// Where a store is: the places that it lies in, from the smallest, its
/// postcode and its state.
#[derive(Debug)]
pub struct Address {
    pub places: Vec<String>,
    pub postcode: Option<String>,
    pub state: State,
}

impl State {
    /// The state's abbreviation.
    pub open spec fn name_text(self) -> Seq<char> {
        match self {
            State::NSW => "NSW"@,
            State::VIC => "VIC"@,
            State::QLD => "QLD"@,
            State::SA => "SA"@,
            State::WA => "WA"@,
            State::TAS => "TAS"@,
            State::NT => "NT"@,
            State::ACT => "ACT"@,
        }
    }

    /// The state that a code of the standard for subdivisions names.
    pub open spec fn coded(code: Seq<char>) -> Option<State> {
        if code == "AU-ACT"@ {
            Some(State::ACT)
        } else if code == "AU-NSW"@ {
            Some(State::NSW)
        } else if code == "AU-NT"@ {
            Some(State::NT)
        } else if code == "AU-QLD"@ {
            Some(State::QLD)
        } else if code == "AU-SA"@ {
            Some(State::SA)
        } else if code == "AU-TAS"@ {
            Some(State::TAS)
        } else if code == "AU-VIC"@ {
            Some(State::VIC)
        } else if code == "AU-WA"@ {
            Some(State::WA)
        } else {
            None
        }
    }

    /// The state's abbreviation.
    pub fn name(&self) -> (r: &'static str)
        ensures
            r@ == self.name_text(),
    {
        match self {
            State::NSW => "NSW",
            State::VIC => "VIC",
            State::QLD => "QLD",
            State::SA => "SA",
            State::WA => "WA",
            State::TAS => "TAS",
            State::NT => "NT",
            State::ACT => "ACT",
        }
    }

    /// The state that a code names.
    pub fn from_code(code: &str) -> (r: Option<State>)
        ensures
            r == State::coded(code@),
    {
        if same_text(code, "AU-ACT") {
            Some(State::ACT)
        } else if same_text(code, "AU-NSW") {
            Some(State::NSW)
        } else if same_text(code, "AU-NT") {
            Some(State::NT)
        } else if same_text(code, "AU-QLD") {
            Some(State::QLD)
        } else if same_text(code, "AU-SA") {
            Some(State::SA)
        } else if same_text(code, "AU-TAS") {
            Some(State::TAS)
        } else if same_text(code, "AU-VIC") {
            Some(State::VIC)
        } else if same_text(code, "AU-WA") {
            Some(State::WA)
        } else {
            None
        }
    }
}

} // verus!
