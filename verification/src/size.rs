//! Units and containers of product sizes.

use vstd::prelude::*;
use crate::text::{chars_of, is_text, parse_u64, parsed_u64, same_text, split, split_on, string_of};

verus! {

/// A unit of volume or of mass.
#[derive(Clone, Copy, Debug, PartialEq, Eq, Structural)]
pub enum Unit {
    Liters,
    Milliliters,
    Kilograms,
    Grams,
}

/// What a product comes in.
#[derive(Clone, Copy, Debug, PartialEq, Eq, Structural)]
pub enum Container {
    Bottle,
    Can,
    Glass,
}

impl Unit {
    /// How many of the small unit of its kind the unit holds.
    pub open spec fn factor(self) -> u32 {
        match self {
            Unit::Liters => 1000,
            Unit::Milliliters => 1,
            Unit::Kilograms => 1000,
            Unit::Grams => 1,
        }
    }

    /// The unit's symbol.
    pub open spec fn symbol_text(self) -> Seq<char> {
        match self {
            Unit::Liters => "L"@,
            Unit::Milliliters => "mL"@,
            Unit::Kilograms => "kg"@,
            Unit::Grams => "g"@,
        }
    }

    /// The unit that a symbol in small letters names.
    pub open spec fn named(s: Seq<char>) -> Option<Unit> {
        if s == "l"@ {
            Some(Unit::Liters)
        } else if s == "ml"@ {
            Some(Unit::Milliliters)
        } else if s == "kg"@ {
            Some(Unit::Kilograms)
        } else if s == "g"@ {
            Some(Unit::Grams)
        } else {
            None
        }
    }

    /// How many of the small unit of its kind the unit holds.
    pub fn multiplier(&self) -> (r: u32)
        ensures
            r == self.factor(),
    {
        match self {
            Unit::Liters => 1000,
            Unit::Milliliters => 1,
            Unit::Kilograms => 1000,
            Unit::Grams => 1,
        }
    }

    /// The unit's symbol.
    pub fn symbol(&self) -> (r: &'static str)
        ensures
            r@ == self.symbol_text(),
    {
        match self {
            Unit::Liters => "L",
            Unit::Milliliters => "mL",
            Unit::Kilograms => "kg",
            Unit::Grams => "g",
        }
    }

    /// Reads a unit from its symbol in small letters.
    pub fn parse(s: &str) -> (r: Option<Unit>)
        ensures
            r == Unit::named(s@),
    {
        if same_text(s, "l") {
            Some(Unit::Liters)
        } else if same_text(s, "ml") {
            Some(Unit::Milliliters)
        } else if same_text(s, "kg") {
            Some(Unit::Kilograms)
        } else if same_text(s, "g") {
            Some(Unit::Grams)
        } else {
            None
        }
    }
}

impl Container {
    /// The word for `amount` of the container.
    pub open spec fn display_text(self, amount: u64) -> Seq<char> {
        if amount == 1 {
            match self {
                Container::Bottle => "Bottle"@,
                Container::Can => "Can"@,
                Container::Glass => "Glass Bottle"@,
            }
        } else {
            match self {
                Container::Bottle => "Bottles"@,
                Container::Can => "Cans"@,
                Container::Glass => "Glass Bottles"@,
            }
        }
    }

    /// The container that a word names.
    pub open spec fn named(s: Seq<char>) -> Option<Container> {
        if s == "bottle"@ {
            Some(Container::Bottle)
        } else if s == "can"@ {
            Some(Container::Can)
        } else if s == "glass"@ {
            Some(Container::Glass)
        } else {
            None
        }
    }

    /// The word for `amount` of the container.
    pub fn display(&self, amount: u64) -> (r: &'static str)
        ensures
            r@ == self.display_text(amount),
    {
        if amount == 1 {
            match self {
                Container::Bottle => "Bottle",
                Container::Can => "Can",
                Container::Glass => "Glass Bottle",
            }
        } else {
            match self {
                Container::Bottle => "Bottles",
                Container::Can => "Cans",
                Container::Glass => "Glass Bottles",
            }
        }
    }

    /// Reads a container from its word.
    pub fn parse(s: &str) -> (r: Option<Container>)
        ensures
            r == Container::named(s@),
    {
        if same_text(s, "bottle") {
            Some(Container::Bottle)
        } else if same_text(s, "can") {
            Some(Container::Can)
        } else if same_text(s, "glass") {
            Some(Container::Glass)
        } else {
            None
        }
    }
}

/// How many digits stand at the beginning of `s`.
pub open spec fn leading_digits(s: Seq<char>) -> int
    decreases s.len(),
{
    if s.len() > 0 && crate::text::is_digit(s[0]) {
        1 + leading_digits(s.skip(1))
    } else {
        0
    }
}

/// The text without a sign at its beginning.
pub open spec fn unsigned(s: Seq<char>) -> Seq<char> {
    if s.len() > 0 && (s[0] == '+' || s[0] == '-') {
        s.skip(1)
    } else {
        s
    }
}

/// The text in small letters.
pub open spec fn in_small(s: Seq<char>) -> Seq<char> {
    Seq::new(s.len(), |i: int| crate::utils::lowered(s[i]))
}

/// Whether `s` is an exponent or nothing: the letter `e`, small or capital,
/// a sign or none, and digits.
pub open spec fn is_exponent(s: Seq<char>) -> bool {
    s.len() == 0 || ((s[0] == 'e' || s[0] == 'E') && unsigned(s.skip(1)).len() > 0
        && crate::text::all_digits(unsigned(s.skip(1))))
}

/// Whether `s` writes a number with a fraction: digits, a point and digits,
/// with a digit on at least one side where there is a point, and an
/// exponent or none.
pub open spec fn is_decimal(s: Seq<char>) -> bool {
    let whole = leading_digits(s);
    let rest = s.skip(whole);
    if rest.len() > 0 && rest[0] == '.' {
        let fraction = leading_digits(rest.skip(1));
        whole + fraction > 0 && is_exponent(rest.skip(1).skip(fraction))
    } else {
        whole > 0 && is_exponent(rest)
    }
}

/// Whether `s` writes a number of the kind that amounts are: a sign or none,
/// and then a number with a fraction, or one of the words for what is without
/// bound or no number, in letters of either case.
pub open spec fn is_amount(s: Seq<char>) -> bool {
    let body = unsigned(s);
    in_small(body) == "inf"@ || in_small(body) == "infinity"@ || in_small(body) == "nan"@
        || is_decimal(body)
}

/// How many digits stand at the beginning of `s`.
fn count_digits(s: &[char]) -> (n: usize)
    ensures
        n == leading_digits(s@),
        n <= s@.len(),
{
    let mut n: usize = 0;
    assert(s@.skip(0) == s@);
    loop
        invariant
            n <= s@.len(),
            leading_digits(s@) == n + leading_digits(s@.skip(n as int)),
        decreases s@.len() - n,
    {
        if n >= s.len() {
            return n;
        }
        let code = crate::text::code_of(s[n]);
        assert(s@.skip(n as int)[0] == s@[n as int]);
        if code < 48 || code > 57 {
            return n;
        }
        assert(s@.skip(n as int).skip(1) == s@.skip(n + 1));
        n += 1;
    }
}

/// The text without a sign at its beginning.
fn without_sign<'a>(s: &'a [char]) -> (r: &'a [char])
    ensures
        r@ == unsigned(s@),
{
    if s.len() > 0 && (s[0] == '+' || s[0] == '-') {
        vstd::slice::slice_subrange(s, 1, s.len())
    } else {
        s
    }
}

/// Whether `s` is an exponent or nothing.
fn exponent(s: &[char]) -> (r: bool)
    ensures
        r == is_exponent(s@),
{
    if s.len() == 0 {
        return true;
    }
    if !(s[0] == 'e' || s[0] == 'E') {
        return false;
    }
    let digits = without_sign(vstd::slice::slice_subrange(s, 1, s.len()));
    if digits.len() == 0 {
        return false;
    }
    let n = count_digits(digits);
    proof {
        lemma_leading_digits(digits@);
    }
    n == digits.len()
}

/// All of a text is digits exactly if its leading digits are all of it.
pub proof fn lemma_leading_digits(s: Seq<char>)
    ensures
        0 <= leading_digits(s) <= s.len(),
        crate::text::all_digits(s) <==> leading_digits(s) == s.len(),
    decreases s.len(),
{
    if s.len() > 0 {
        lemma_leading_digits(s.skip(1));
        if crate::text::is_digit(s[0]) {
            if crate::text::all_digits(s) {
                assert forall|i: int| 0 <= i < s.skip(1).len() implies crate::text::is_digit(
                    #[trigger] s.skip(1)[i],
                ) by {
                    assert(s.skip(1)[i] == s[i + 1]);
                }
            }
            if leading_digits(s) == s.len() {
                assert forall|i: int| 0 <= i < s.len() implies crate::text::is_digit(
                    #[trigger] s[i],
                ) by {
                    if i > 0 {
                        assert(s[i] == s.skip(1)[i - 1]);
                    }
                }
            }
        } else {
            assert(!crate::text::all_digits(s));
        }
    }
}

/// Whether `s` writes a number of the kind that amounts are.
pub fn is_number(s: &[char]) -> (r: bool)
    ensures
        r == is_amount(s@),
{
    let body = without_sign(s);
    let mut small: Vec<char> = Vec::new();
    let mut i: usize = 0;
    while i < body.len()
        invariant
            i <= body@.len(),
            small@ == in_small(body@).take(i as int),
        decreases body@.len() - i,
    {
        small.push(crate::utils::to_lower(body[i]));
        assert(small@ =~= in_small(body@).take(i + 1));
        i += 1;
    }
    assert(in_small(body@).take(i as int) =~= in_small(body@));
    if is_text(small.as_slice(), "inf") || is_text(small.as_slice(), "infinity") || is_text(
        small.as_slice(),
        "nan",
    ) {
        return true;
    }
    let whole = count_digits(body);
    let rest = vstd::slice::slice_subrange(body, whole, body.len());
    if rest.len() > 0 && rest[0] == '.' {
        let after = vstd::slice::slice_subrange(rest, 1, rest.len());
        let fraction = count_digits(after);
        if whole == 0 && fraction == 0 {
            return false;
        }
        exponent(vstd::slice::slice_subrange(after, fraction, after.len()))
    } else {
        whole > 0 && exponent(rest)
    }
}

/// A size as it is written: how many pieces, whether the amount is that of
/// all pieces together, the amount as written, its unit, and what the
/// product comes in.
#[derive(Clone, Debug, PartialEq, Eq)]
pub struct SizeText {
    pub pack: u64,
    pub amount_is_total: bool,
    pub amount: String,
    pub unit: Unit,
    pub container: Container,
}

/// Why a size could not be read.
#[derive(Clone, Copy, Debug, PartialEq, Eq, Structural)]
pub enum SizeError {
    /// The size has neither three words nor five.
    WordCount,
    /// The number of pieces is no number.
    Pack,
    /// The sign between the pieces and the amount is neither `=` nor `x`.
    PackSymbol,
    /// The amount is no number.
    Amount,
    /// The unit is unknown.
    UnknownUnit,
    /// The container is unknown.
    UnknownContainer,
}

/// The parts of a size of three words: an amount, a unit and a container.
pub open spec fn parsed_single(amount: Seq<char>, unit: Seq<char>, container: Seq<char>) -> Result<
    (u64, bool, Seq<char>, Unit, Container),
    SizeError,
> {
    if !is_amount(amount) {
        Err(SizeError::Amount)
    } else {
        match Unit::named(unit) {
            None => Err(SizeError::UnknownUnit),
            Some(u) => match Container::named(container) {
                None => Err(SizeError::UnknownContainer),
                Some(c) => Ok((1u64, false, amount, u, c)),
            },
        }
    }
}

/// The parts of a size of five words: the pieces, `=` for an amount of all
/// together or `x` for the amount of each, and then as with three words.
pub open spec fn parsed_pack(
    pack: Seq<char>,
    symbol: Seq<char>,
    amount: Seq<char>,
    unit: Seq<char>,
    container: Seq<char>,
) -> Result<(u64, bool, Seq<char>, Unit, Container), SizeError> {
    match parsed_u64(pack) {
        None => Err(SizeError::Pack),
        Some(n) => if symbol != "="@ && symbol != "x"@ {
            Err(SizeError::PackSymbol)
        } else if !is_amount(amount) {
            Err(SizeError::Amount)
        } else {
            match Unit::named(unit) {
                None => Err(SizeError::UnknownUnit),
                Some(u) => match Container::named(container) {
                    None => Err(SizeError::UnknownContainer),
                    Some(c) => Ok((n, symbol == "="@, amount, u, c)),
                },
            }
        },
    }
}

/// The parts of a size as written, its words set apart by one space each.
pub open spec fn parsed_size(s: Seq<char>) -> Result<
    (u64, bool, Seq<char>, Unit, Container),
    SizeError,
> {
    let words = split_on(s, ' ');
    if words.len() == 3 {
        parsed_single(words[0], words[1], words[2])
    } else if words.len() == 5 {
        parsed_pack(words[0], words[1], words[2], words[3], words[4])
    } else {
        Err(SizeError::WordCount)
    }
}

/// The unit that a word names.
fn unit_of(word: &Vec<char>) -> (r: Option<Unit>)
    ensures
        r == Unit::named(word@),
{
    Unit::parse(string_of(word.as_slice()).as_str())
}

/// The container that a word names.
fn container_of(word: &Vec<char>) -> (r: Option<Container>)
    ensures
        r == Container::named(word@),
{
    Container::parse(string_of(word.as_slice()).as_str())
}

/// Reads a size as written.
pub fn parse_size(s: &str) -> (r: Result<SizeText, SizeError>)
    ensures
        match r {
            Ok(size) => parsed_size(s@) == Ok::<(u64, bool, Seq<char>, Unit, Container), SizeError>(
                (size.pack, size.amount_is_total, size.amount@, size.unit, size.container),
            ),
            Err(e) => parsed_size(s@) == Err::<(u64, bool, Seq<char>, Unit, Container), SizeError>(
                e,
            ),
        },
{
    let chars = chars_of(s);
    let words = split(chars.as_slice(), ' ');
    let ghost texts = split_on(s@, ' ');
    assert(words@.len() == texts.len());
    if words.len() == 3 {
        assert(texts[0] == words@[0]@ && texts[1] == words@[1]@ && texts[2] == words@[2]@);
        if !is_number(words[0].as_slice()) {
            return Err(SizeError::Amount);
        }
        let unit = match unit_of(&words[1]) {
            Some(u) => u,
            None => { return Err(SizeError::UnknownUnit); },
        };
        let container = match container_of(&words[2]) {
            Some(c) => c,
            None => { return Err(SizeError::UnknownContainer); },
        };
        Ok(
            SizeText {
                pack: 1,
                amount_is_total: false,
                amount: string_of(words[0].as_slice()),
                unit,
                container,
            },
        )
    } else if words.len() == 5 {
        assert(texts[0] == words@[0]@ && texts[1] == words@[1]@ && texts[2] == words@[2]@
            && texts[3] == words@[3]@ && texts[4] == words@[4]@);
        let pack = match parse_u64(words[0].as_slice()) {
            Some(n) => n,
            None => { return Err(SizeError::Pack); },
        };
        let total = is_text(words[1].as_slice(), "=");
        if !total && !is_text(words[1].as_slice(), "x") {
            return Err(SizeError::PackSymbol);
        }
        if !is_number(words[2].as_slice()) {
            return Err(SizeError::Amount);
        }
        let unit = match unit_of(&words[3]) {
            Some(u) => u,
            None => { return Err(SizeError::UnknownUnit); },
        };
        let container = match container_of(&words[4]) {
            Some(c) => c,
            None => { return Err(SizeError::UnknownContainer); },
        };
        Ok(
            SizeText {
                pack,
                amount_is_total: total,
                amount: string_of(words[2].as_slice()),
                unit,
                container,
            },
        )
    } else {
        Err(SizeError::WordCount)
    }
}

impl SizeText {
    /// What stands before the amount where a size is shown: the pieces and
    /// a multiplication sign, where there are several and the amount is
    /// that of each.
    pub open spec fn pack_text(self) -> Seq<char> {
        if self.pack > 1 && !self.amount_is_total {
            crate::text::decimal_text(self.pack as nat) + "x"@
        } else {
            Seq::empty()
        }
    }

    /// The size as it is shown, given how its amount is shown.
    pub open spec fn display_text(self, amount: Seq<char>) -> Seq<char> {
        self.pack_text() + amount + self.unit.symbol_text() + " "@ + self.container.display_text(
            self.pack,
        )
    }

    /// The size as it is shown, given how its amount is shown.
    pub fn display(&self, amount: &str) -> (r: String)
        ensures
            r@ == self.display_text(amount@),
    {
        let mut out = String::new();
        if self.pack > 1 && !self.amount_is_total {
            crate::text::push_decimal(&mut out, self.pack as u128);
            crate::text::push_text(&mut out, "x");
        }
        assert(out@ =~= self.pack_text());
        crate::text::push_text(&mut out, amount);
        crate::text::push_text(&mut out, self.unit.symbol());
        crate::text::push_text(&mut out, " ");
        crate::text::push_text(&mut out, self.container.display(self.pack));
        out
    }
}

} // verus!
