//! Where a store is, in words: addresses as a geocoder gives them, made into
//! the names of places, and the name and the description of a store.

use vstd::prelude::*;
use vstd::slice::slice_subrange;
use crate::address::{Address, State};
use crate::pairs::{lookup, tag_value};
use crate::text::texts;
use crate::osm::OsmId;
use crate::text::{
    chars_of, is_text, parse_u32, parsed_u32, push_chars, push_text, same_chars, string_of,
};

verus! {

/// The kind of a map entity as a geocoder names it.
#[derive(Clone, Copy, Debug, PartialEq, Eq, Structural)]
pub enum OsmType {
    Node,
    Way,
    Relation,
}

impl OsmType {
    /// The identifier of the entity of this kind with the number `id`.
    pub fn osm_id(&self, id: u64) -> (r: OsmId)
        ensures
            r == match self {
                OsmType::Node => OsmId::Node(id),
                OsmType::Way => OsmId::Way(id),
                OsmType::Relation => OsmId::Relation(id),
            },
    {
        match self {
            OsmType::Node => OsmId::Node(id),
            OsmType::Way => OsmId::Way(id),
            OsmType::Relation => OsmId::Relation(id),
        }
    }
}

/// An address as a geocoder gives it.
#[derive(Clone, Debug, PartialEq, Eq)]
pub struct RawAddress {
    pub state_code: String,
    pub postcode: Option<String>,
    pub suburb: Option<String>,
    pub town: Option<String>,
    pub city: Option<String>,
}

/// The part of an entity's address that names its road.
#[derive(Clone, Debug, PartialEq, Eq)]
pub struct OSMAddress {
    pub road: Option<String>,
}

/// Why an address could not be used.
#[derive(Clone, Copy, Debug, PartialEq, Eq, Structural)]
pub enum AddressError {
    /// The code of the state names no state.
    UnknownState,
    /// The postcode is no number.
    PostcodeNumber,
    /// The postcode does not have four characters.
    PostcodeLength,
}

/// Whether `s` ends with `p`.
pub open spec fn ends_with(s: Seq<char>, p: Seq<char>) -> bool {
    p.len() <= s.len() && s.skip(s.len() - p.len()) == p
}

/// The text without `p` at its beginning, however often it stands there.
pub open spec fn without_leading(s: Seq<char>, p: Seq<char>) -> Seq<char>
    decreases s.len(),
{
    if p.len() > 0 && p.is_prefix_of(s) {
        without_leading(s.skip(p.len() as int), p)
    } else {
        s
    }
}

/// The text without `p` at its end, however often it stands there.
pub open spec fn without_trailing(s: Seq<char>, p: Seq<char>) -> Seq<char>
    decreases s.len(),
{
    if p.len() > 0 && ends_with(s, p) {
        without_trailing(s.take(s.len() - p.len()), p)
    } else {
        s
    }
}

/// Takes `p` from the beginning of `s`, however often it stands there.
pub fn trim_leading<'a>(s: &'a [char], p: &str) -> (r: &'a [char])
    ensures
        r@ == without_leading(s@, p@),
{
    let pattern = chars_of(p);
    let mut rest = s;
    if pattern.len() == 0 {
        return rest;
    }
    while pattern.len() <= rest.len() && same_chars(
        slice_subrange(rest, 0, pattern.len()),
        pattern.as_slice(),
    )
        invariant
            pattern@ == p@,
            pattern@.len() > 0,
            without_leading(s@, p@) == without_leading(rest@, p@),
        decreases rest@.len(),
    {
        rest = slice_subrange(rest, pattern.len(), rest.len());
    }
    rest
}

/// Takes `p` from the end of `s`, however often it stands there.
pub fn trim_trailing<'a>(s: &'a [char], p: &str) -> (r: &'a [char])
    ensures
        r@ == without_trailing(s@, p@),
{
    let pattern = chars_of(p);
    let mut rest = s;
    if pattern.len() == 0 {
        return rest;
    }
    while pattern.len() <= rest.len() && same_chars(
        slice_subrange(rest, rest.len() - pattern.len(), rest.len()),
        pattern.as_slice(),
    )
        invariant
            pattern@ == p@,
            pattern@.len() > 0,
            without_trailing(s@, p@) == without_trailing(rest@, p@),
        decreases rest@.len(),
    {
        rest = slice_subrange(rest, 0, rest.len() - pattern.len());
    }
    rest
}

/// The name of a town without the words that mark a district.
pub open spec fn town_name(town: Seq<char>) -> Seq<char> {
    without_leading(town, "District of "@)
}

/// The name of a city without the words that mark its council.
pub open spec fn city_name(city: Seq<char>) -> Seq<char> {
    without_trailing(without_trailing(city, " Council"@), " City"@)
}

/// The places of an address, from the smallest: the suburb, the town and
/// the city, as far as the address has them.
pub open spec fn places_of(
    suburb: Option<Seq<char>>,
    town: Option<Seq<char>>,
    city: Option<Seq<char>>,
) -> Seq<Seq<char>> {
    (match suburb {
        Some(s) => seq![s],
        None => Seq::empty(),
    }) + (match town {
        Some(t) => seq![town_name(t)],
        None => Seq::empty(),
    }) + (match city {
        Some(c) => seq![city_name(c)],
        None => Seq::empty(),
    })
}

/// What is wrong with a postcode, if anything: it is a number, and it has
/// four characters.
pub open spec fn postcode_fault(postcode: Seq<char>) -> Option<AddressError> {
    if parsed_u32(postcode) is None {
        Some(AddressError::PostcodeNumber)
    } else if postcode.len() != 4 {
        Some(AddressError::PostcodeLength)
    } else {
        None
    }
}

/// The text of a string that may be missing.
pub open spec fn text_of(s: Option<String>) -> Option<Seq<char>> {
    match s {
        Some(s) => Some(s@),
        None => None,
    }
}

/// What is wrong with an address as a geocoder gives it, if anything.
pub open spec fn address_fault(raw: RawAddress) -> Option<AddressError> {
    if State::coded(raw.state_code@) is None {
        Some(AddressError::UnknownState)
    } else {
        match raw.postcode {
            Some(p) => postcode_fault(p@),
            None => None,
        }
    }
}

/// Makes an address of what a geocoder gives.
pub fn refine_address(raw: RawAddress) -> (r: Result<Address, AddressError>)
    ensures
        match r {
            Ok(address) => {
                &&& address_fault(raw) is None
                &&& Some(address.state) == State::coded(raw.state_code@)
                &&& address.postcode == raw.postcode
                &&& texts(address.places@) == places_of(
                    text_of(raw.suburb),
                    text_of(raw.town),
                    text_of(raw.city),
                )
            },
            Err(e) => address_fault(raw) == Some(e),
        },
{
    let state = match State::from_code(raw.state_code.as_str()) {
        Some(state) => state,
        None => { return Err(AddressError::UnknownState); },
    };
    match &raw.postcode {
        Some(p) => {
            let digits = chars_of(p.as_str());
            if parse_u32(digits.as_slice()).is_none() {
                return Err(AddressError::PostcodeNumber);
            }
            if digits.len() != 4 {
                return Err(AddressError::PostcodeLength);
            }
        },
        None => {},
    }
    let mut places: Vec<String> = Vec::new();
    match &raw.suburb {
        Some(s) => {
            places.push(s.clone());
        },
        None => {},
    }
    match &raw.town {
        Some(t) => {
            let chars = chars_of(t.as_str());
            places.push(string_of(trim_leading(chars.as_slice(), "District of ")));
        },
        None => {},
    }
    match &raw.city {
        Some(c) => {
            let chars = chars_of(c.as_str());
            let trimmed = trim_trailing(trim_trailing(chars.as_slice(), " Council"), " City");
            places.push(string_of(trimmed));
        },
        None => {},
    }
    assert(texts(places@) =~= places_of(
        text_of(raw.suburb),
        text_of(raw.town),
        text_of(raw.city),
    ));
    Ok(Address { places, state, postcode: raw.postcode })
}

/// The name of a place as the address of an entity gives it: without the
/// words that mark a council or a district, and three regions under the
/// names of their cities.
pub open spec fn place_name(value: Seq<char>) -> Seq<char> {
    let plain = without_leading(without_trailing(value, " City Council"@), "District of "@);
    if plain == "Greater Brisbane"@ {
        "Brisbane"@
    } else if plain == "Gold Coast City"@ {
        "Gold Coast"@
    } else if plain == "Sunshine Coast Regional"@ {
        "Sunshine Coast"@
    } else {
        plain
    }
}

/// The name so far with the place under `key` added, after a comma where
/// the name has begun.
pub open spec fn with_place(name: Seq<char>, addr: Seq<(String, String)>, key: Seq<char>) -> Seq<
    char,
> {
    match tag_value(addr, key) {
        Some(v) => (if name.len() > 0 {
            name + ", "@
        } else {
            name
        }) + place_name(v),
        None => name,
    }
}

/// The places of an address in one line: village, town, district and city,
/// as far as the address has them.
pub open spec fn locality_text(addr: Seq<(String, String)>) -> Seq<char> {
    with_place(
        with_place(
            with_place(with_place(Seq::empty(), addr, "village"@), addr, "town"@),
            addr,
            "district"@,
        ),
        addr,
        "city"@,
    )
}

/// Adds the place under `key` to a name, after a comma where the name has
/// begun.
fn add_place(name: &mut String, addr: &Vec<(String, String)>, key: &str)
    ensures
        final(name)@ == with_place(old(name)@, addr@, key@),
{
    match lookup(addr, key) {
        Some(v) => {
            if name.as_str().unicode_len() > 0 {
                push_text(name, ", ");
            }
            let chars = chars_of(v.as_str());
            let plain = trim_leading(trim_trailing(chars.as_slice(), " City Council"), "District of ");
            if is_text(plain, "Greater Brisbane") {
                push_text(name, "Brisbane");
            } else if is_text(plain, "Gold Coast City") {
                push_text(name, "Gold Coast");
            } else if is_text(plain, "Sunshine Coast Regional") {
                push_text(name, "Sunshine Coast");
            } else {
                push_chars(name, plain);
            }
        },
        None => {},
    }
}

/// The places of an address in one line.
pub fn locality(addr: &Vec<(String, String)>) -> (r: String)
    ensures
        r@ == locality_text(addr@),
{
    let mut name = String::new();
    add_place(&mut name, addr, "village");
    add_place(&mut name, addr, "town");
    add_place(&mut name, addr, "district");
    add_place(&mut name, addr, "city");
    name
}

/// Whether a character is white space.
pub open spec fn is_space(c: char) -> bool {
    let n = c as int;
    (0x09 <= n <= 0x0D) || n == 0x20 || n == 0x85 || n == 0xA0 || n == 0x1680 || (0x2000 <= n
        <= 0x200A) || n == 0x2028 || n == 0x2029 || n == 0x202F || n == 0x205F || n == 0x3000
}

/// The text without white space at its beginning.
pub open spec fn without_leading_space(s: Seq<char>) -> Seq<char>
    decreases s.len(),
{
    if s.len() > 0 && is_space(s[0]) {
        without_leading_space(s.skip(1))
    } else {
        s
    }
}

/// The text without white space at its end.
pub open spec fn without_trailing_space(s: Seq<char>) -> Seq<char>
    decreases s.len(),
{
    if s.len() > 0 && is_space(s.last()) {
        without_trailing_space(s.drop_last())
    } else {
        s
    }
}

/// The text without white space at either end.
pub open spec fn trimmed(s: Seq<char>) -> Seq<char> {
    without_trailing_space(without_leading_space(s))
}

/// Whether a character is white space.
pub fn is_white(c: char) -> (r: bool)
    ensures
        r == is_space(c),
{
    let n = crate::text::code_of(c);
    (0x09 <= n && n <= 0x0D) || n == 0x20 || n == 0x85 || n == 0xA0 || n == 0x1680 || (0x2000 <= n
        && n <= 0x200A) || n == 0x2028 || n == 0x2029 || n == 0x202F || n == 0x205F || n == 0x3000
}

/// Takes white space from both ends of `s`.
pub fn trim<'a>(s: &'a [char]) -> (r: &'a [char])
    ensures
        r@ == trimmed(s@),
{
    let mut rest = s;
    while rest.len() > 0 && is_white(rest[0])
        invariant
            without_leading_space(s@) == without_leading_space(rest@),
        decreases rest@.len(),
    {
        rest = slice_subrange(rest, 1, rest.len());
    }
    let ghost inner = rest@;
    while rest.len() > 0 && is_white(rest[rest.len() - 1])
        invariant
            without_trailing_space(inner) == without_trailing_space(rest@),
        decreases rest@.len(),
    {
        assert(rest@.subrange(0, rest@.len() - 1) == rest@.drop_last());
        rest = slice_subrange(rest, 0, rest.len() - 1);
    }
    rest
}

/// What follows the brand in the name of a store: its branch; or else its
/// full name without the brand before it; or else the place that it is in.
pub open spec fn branch_text(tags: Seq<(String, String)>, brand: Seq<char>, place: Seq<char>)
    -> Seq<char> {
    match tag_value(tags, "branch"@) {
        Some(branch) => branch,
        None => match tag_value(tags, "full_name"@) {
            Some(full) => trimmed(without_leading(full, brand)),
            None => place,
        },
    }
}

/// The name of a store: its brand and its branch.
pub open spec fn store_name_text(tags: Seq<(String, String)>, place: Seq<char>) -> Option<
    Seq<char>,
> {
    match tag_value(tags, "brand"@) {
        Some(brand) => Some(brand + " "@ + branch_text(tags, brand, place)),
        None => None,
    }
}

/// The name of a store, from the tags of its entity and the name of the
/// place that it is in. An entity without a brand has no name.
pub fn store_name(tags: &Vec<(String, String)>, place: &str) -> (r: Option<String>)
    ensures
        match r {
            Some(name) => store_name_text(tags@, place@) == Some(name@),
            None => store_name_text(tags@, place@) is None,
        },
{
    let brand = match lookup(tags, "brand") {
        Some(brand) => brand,
        None => { return None; },
    };
    let mut name = String::new();
    push_text(&mut name, brand.as_str());
    push_text(&mut name, " ");
    match lookup(tags, "branch") {
        Some(branch) => {
            push_text(&mut name, branch.as_str());
        },
        None => match lookup(tags, "full_name") {
            Some(full) => {
                let chars = chars_of(full.as_str());
                let rest = trim(trim_leading(chars.as_slice(), brand.as_str()));
                push_chars(&mut name, rest);
            },
            None => {
                push_text(&mut name, place);
            },
        },
    }
    Some(name)
}

/// Where a store is, in one line: the building or the centre that it is in,
/// if known; the places of its address, or else the place that it is in;
/// the state and the postcode.
pub open spec fn store_description_text(
    area: Option<Seq<char>>,
    places: Seq<char>,
    place: Seq<char>,
    state: Seq<char>,
    postcode: Seq<char>,
) -> Seq<char> {
    (match area {
        Some(a) => a + ", "@,
        None => Seq::empty(),
    }) + (if places.len() == 0 {
        place
    } else {
        places
    }) + " "@ + state + " "@ + postcode
}

/// Where a store is, in one line.
pub fn store_description(
    area: Option<&str>,
    places: &str,
    place: &str,
    state: &str,
    postcode: &str,
) -> (r: String)
    ensures
        r@ == store_description_text(
            match area {
                Some(a) => Some(a@),
                None => None,
            },
            places@,
            place@,
            state@,
            postcode@,
        ),
{
    let mut out = String::new();
    match area {
        Some(a) => {
            push_text(&mut out, a);
            push_text(&mut out, ", ");
        },
        None => {},
    }
    if places.unicode_len() == 0 {
        push_text(&mut out, place);
    } else {
        push_text(&mut out, places);
    }
    push_text(&mut out, " ");
    push_text(&mut out, state);
    push_text(&mut out, " ");
    push_text(&mut out, postcode);
    assert(out@ =~= store_description_text(
        match area {
            Some(a) => Some(a@),
            None => None,
        },
        places@,
        place@,
        state@,
        postcode@,
    ));
    out
}

/// The first `n` places, each after a comma where something stands already.
pub open spec fn listed(start: Seq<char>, places: Seq<String>, n: int) -> Seq<char>
    decreases n,
{
    if n <= 0 {
        start
    } else {
        let before = listed(start, places, n - 1);
        (if before.len() > 0 {
            before + ", "@
        } else {
            before
        }) + places[n - 1]@
    }
}

/// The heading of a store: the retailer and the smallest place.
pub open spec fn store_title_text(retailer: Seq<char>, places: Seq<String>) -> Seq<char> {
    if places.len() > 0 {
        retailer + " "@ + places[0]@
    } else {
        retailer
    }
}

/// The surroundings of a store: what it is in, its places, its state and
/// its postcode.
pub open spec fn store_context_text(parent: Option<Seq<char>>, address: Address) -> Seq<char> {
    listed(
        match parent {
            Some(p) => p,
            None => Seq::empty(),
        },
        address.places@,
        address.places@.len() as int,
    ) + " "@ + address.state.name_text() + " "@ + (match address.postcode {
        Some(p) => p@,
        None => Seq::empty(),
    })
}

/// The heading of a store.
pub fn store_title(retailer: &str, address: &Address) -> (r: String)
    ensures
        r@ == store_title_text(retailer@, address.places@),
{
    let mut out = String::new();
    push_text(&mut out, retailer);
    if address.places.len() > 0 {
        push_text(&mut out, " ");
        push_text(&mut out, address.places[0].as_str());
    }
    assert(out@ =~= store_title_text(retailer@, address.places@));
    out
}

/// The surroundings of a store.
pub fn store_context(parent: Option<&str>, address: &Address) -> (r: String)
    ensures
        r@ == store_context_text(
            match parent {
                Some(p) => Some(p@),
                None => None,
            },
            *address,
        ),
{
    let mut out = String::new();
    match parent {
        Some(p) => {
            push_text(&mut out, p);
        },
        None => {},
    }
    let ghost start = out@;
    let mut i: usize = 0;
    while i < address.places.len()
        invariant
            i <= address.places@.len(),
            out@ == listed(start, address.places@, i as int),
        decreases address.places@.len() - i,
    {
        if out.as_str().unicode_len() != 0 {
            push_text(&mut out, ", ");
        }
        push_text(&mut out, address.places[i].as_str());
        i += 1;
    }
    push_text(&mut out, " ");
    push_text(&mut out, address.state.name());
    push_text(&mut out, " ");
    match &address.postcode {
        Some(p) => {
            push_text(&mut out, p.as_str());
        },
        None => {},
    }
    assert(out@ =~= store_context_text(
        match parent {
            Some(p) => Some(p@),
            None => None,
        },
        *address,
    ));
    out
}

/// The short forms of the first `n` identifiers with a comma between each
/// two.
pub open spec fn ids_text(ids: Seq<OsmId>, n: int) -> Seq<char>
    decreases n,
{
    if n <= 0 {
        Seq::empty()
    } else if n == 1 {
        ids[0].short_text()
    } else {
        ids_text(ids, n - 1) + ","@ + ids[n - 1].short_text()
    }
}

/// The address under which a geocoder tells where some entities are.
pub open spec fn lookup_text(ids: Seq<OsmId>, email: Option<Seq<char>>) -> Seq<char> {
    "https://nominatim.openstreetmap.org/lookup?osm_ids="@ + ids_text(ids, ids.len() as int)
        + "&format=json"@ + (match email {
        Some(e) => "&email="@ + e,
        None => Seq::empty(),
    })
}

/// The address under which a geocoder tells where some entities are.
pub fn lookup_address(ids: &[OsmId], email: Option<&str>) -> (r: String)
    ensures
        r@ == lookup_text(
            ids@,
            match email {
                Some(e) => Some(e@),
                None => None,
            },
        ),
{
    let mut out = String::new();
    push_text(&mut out, "https://nominatim.openstreetmap.org/lookup?osm_ids=");
    let ghost head = out@;
    let mut i: usize = 0;
    assert(out@ =~= head + ids_text(ids@, 0));
    while i < ids.len()
        invariant
            i <= ids@.len(),
            out@ == head + ids_text(ids@, i as int),
        decreases ids@.len() - i,
    {
        if i > 0 {
            push_text(&mut out, ",");
        }
        let short = ids[i].to_text();
        push_text(&mut out, short.as_str());
        assert(out@ =~= head + ids_text(ids@, i + 1));
        i += 1;
    }
    push_text(&mut out, "&format=json");
    match email {
        Some(e) => {
            push_text(&mut out, "&email=");
            push_text(&mut out, e);
        },
        None => {},
    }
    assert(out@ =~= lookup_text(
        ids@,
        match email {
            Some(e) => Some(e@),
            None => None,
        },
    ));
    out
}

} // verus!
