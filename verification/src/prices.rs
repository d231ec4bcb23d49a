//! Prices as the retailers' feeds write them, read into cents.

use vstd::prelude::*;
use crate::retailer::Retailer;
use crate::text::{
    chars_of, is_text, parse_u32, parsed_u32, same_text, split_at_first, split_first,
    strip_prefix,
};

verus! {

/// The kind of promotion that a price stands under.
#[derive(Clone, Copy, Debug, PartialEq, Eq, Structural)]
pub enum PromotionType {
    NoPromotion,
    New,
    Special,
    WhileStocksLast,
    ColesEveryday,
    ColesDownDown,
    ColesBonusCollectable,
    ColesDroppedAndLocked,
    ColesLocked,
    ColesFlybuysTriplePoints,
    ColesFlybuys100Points,
    WoolworthsLowPrice,
    WoolworthsPriceDropped,
}

impl PromotionType {
    /// The number under which a promotion is stored.
    pub open spec fn code_of(self) -> u8 {
        match self {
            PromotionType::NoPromotion => 0,
            PromotionType::New => 1,
            PromotionType::Special => 2,
            PromotionType::WhileStocksLast => 3,
            PromotionType::ColesEveryday => 4,
            PromotionType::ColesDownDown => 5,
            PromotionType::ColesBonusCollectable => 6,
            PromotionType::ColesDroppedAndLocked => 7,
            PromotionType::ColesLocked => 8,
            PromotionType::ColesFlybuysTriplePoints => 9,
            PromotionType::ColesFlybuys100Points => 10,
            PromotionType::WoolworthsLowPrice => 11,
            PromotionType::WoolworthsPriceDropped => 12,
        }
    }

    /// The number under which the promotion is stored.
    pub fn code(&self) -> (r: u8)
        ensures
            r == self.code_of(),
    {
        match self {
            PromotionType::NoPromotion => 0,
            PromotionType::New => 1,
            PromotionType::Special => 2,
            PromotionType::WhileStocksLast => 3,
            PromotionType::ColesEveryday => 4,
            PromotionType::ColesDownDown => 5,
            PromotionType::ColesBonusCollectable => 6,
            PromotionType::ColesDroppedAndLocked => 7,
            PromotionType::ColesLocked => 8,
            PromotionType::ColesFlybuysTriplePoints => 9,
            PromotionType::ColesFlybuys100Points => 10,
            PromotionType::WoolworthsLowPrice => 11,
            PromotionType::WoolworthsPriceDropped => 12,
        }
    }

    /// The promotion stored under a number.
    pub fn from_code(code: u8) -> (r: Option<PromotionType>)
        ensures
            match r {
                Some(p) => p.code_of() == code,
                None => code > 12,
            },
    {
        match code {
            0 => Some(PromotionType::NoPromotion),
            1 => Some(PromotionType::New),
            2 => Some(PromotionType::Special),
            3 => Some(PromotionType::WhileStocksLast),
            4 => Some(PromotionType::ColesEveryday),
            5 => Some(PromotionType::ColesDownDown),
            6 => Some(PromotionType::ColesBonusCollectable),
            7 => Some(PromotionType::ColesDroppedAndLocked),
            8 => Some(PromotionType::ColesLocked),
            9 => Some(PromotionType::ColesFlybuysTriplePoints),
            10 => Some(PromotionType::ColesFlybuys100Points),
            11 => Some(PromotionType::WoolworthsLowPrice),
            12 => Some(PromotionType::WoolworthsPriceDropped),
            _ => None,
        }
    }
}

/// Why a price could not be read.
#[derive(Clone, Copy, Debug, PartialEq, Eq, Structural)]
pub enum PriceError {
    /// The text does not have the shape of a price.
    InvalidPrice,
    /// A part that should be a number is none.
    InvalidNumber,
    /// The price in cents is greater than a `u32` holds.
    TooLarge,
}

impl PriceError {
    /// The message of the error.
    pub fn message(&self) -> (r: &'static str)
        ensures
            r@ == match self {
                PriceError::InvalidPrice => "Invalid price"@,
                PriceError::InvalidNumber => "invalid digit found in string"@,
                PriceError::TooLarge => "number too large to fit in target type"@,
            },
    {
        match self {
            PriceError::InvalidPrice => "Invalid price",
            PriceError::InvalidNumber => "invalid digit found in string",
            PriceError::TooLarge => "number too large to fit in target type",
        }
    }
}

/// The cents that whole dollars and further cents make.
pub open spec fn in_cents(dollars: u32, cents: u32) -> Result<u32, PriceError> {
    if dollars * 100 + cents <= u32::MAX {
        Ok((dollars * 100 + cents) as u32)
    } else {
        Err(PriceError::TooLarge)
    }
}

/// The price in cents that `raw` writes: a dollar sign, the dollars, and
/// after a point, if there is one, the cents.
pub open spec fn parsed_price(raw: Seq<char>) -> Result<u32, PriceError> {
    if !"$"@.is_prefix_of(raw) {
        Err(PriceError::InvalidPrice)
    } else {
        let amount = raw.skip("$"@.len() as int);
        match split_at_first(amount, '.') {
            Some((dollars, cents)) => match parsed_u32(dollars) {
                Some(a) => match parsed_u32(cents) {
                    Some(b) => in_cents(a, b),
                    None => Err(PriceError::InvalidNumber),
                },
                None => Err(PriceError::InvalidNumber),
            },
            None => match parsed_u32(amount) {
                Some(a) => in_cents(a, 0),
                None => Err(PriceError::InvalidNumber),
            },
        }
    }
}

/// The quantity and the price in cents that `raw` writes: a price alone, for
/// one, or a quantity, the word `for` and a price, set apart by one space
/// each.
pub open spec fn parsed_quantity_price(raw: Seq<char>) -> Result<(u32, u32), PriceError> {
    match split_at_first(raw, ' ') {
        None => match parsed_price(raw) {
            Ok(price) => Ok((1u32, price)),
            Err(e) => Err(e),
        },
        Some((quantity, rest)) => match split_at_first(rest, ' ') {
            None => Err(PriceError::InvalidPrice),
            Some((word, price)) => if split_at_first(price, ' ') is Some {
                Err(PriceError::InvalidPrice)
            } else if word != "for"@ {
                Err(PriceError::InvalidPrice)
            } else {
                match parsed_u32(quantity) {
                    Some(q) => match parsed_price(price) {
                        Ok(p) => Ok((q, p)),
                        Err(e) => Err(e),
                    },
                    None => Err(PriceError::InvalidNumber),
                }
            },
        },
    }
}

/// The cents that whole dollars and further cents make.
fn cents_of(dollars: u32, cents: u32) -> (r: Result<u32, PriceError>)
    ensures
        r == in_cents(dollars, cents),
{
    let total: u64 = dollars as u64 * 100 + cents as u64;
    if total <= 0xffff_ffff {
        Ok(total as u32)
    } else {
        Err(PriceError::TooLarge)
    }
}

/// Reads a price in cents.
fn price_of(raw: &[char]) -> (r: Result<u32, PriceError>)
    ensures
        r == parsed_price(raw@),
{
    let amount = match strip_prefix(raw, "$") {
        Some(amount) => amount,
        None => { return Err(PriceError::InvalidPrice); },
    };
    match split_first(amount, '.') {
        Some((dollars, cents)) => {
            let a = match parse_u32(dollars) {
                Some(a) => a,
                None => { return Err(PriceError::InvalidNumber); },
            };
            let b = match parse_u32(cents) {
                Some(b) => b,
                None => { return Err(PriceError::InvalidNumber); },
            };
            cents_of(a, b)
        },
        None => match parse_u32(amount) {
            Some(a) => cents_of(a, 0),
            None => Err(PriceError::InvalidNumber),
        },
    }
}

/// Reads a price in cents, as `$1.23` or `$7`.
pub fn parse_price(raw: &str) -> (r: Result<u32, PriceError>)
    ensures
        r == parsed_price(raw@),
{
    let chars = chars_of(raw);
    price_of(chars.as_slice())
}

/// Reads a quantity and a price in cents, as `3 for $4.50`, or a price alone
/// for one.
pub fn parse_quantity_price(raw: &str) -> (r: Result<(u32, u32), PriceError>)
    ensures
        r == parsed_quantity_price(raw@),
{
    let chars = chars_of(raw);
    match split_first(chars.as_slice(), ' ') {
        None => match price_of(chars.as_slice()) {
            Ok(price) => Ok((1, price)),
            Err(e) => Err(e),
        },
        Some((quantity, rest)) => match split_first(rest, ' ') {
            None => Err(PriceError::InvalidPrice),
            Some((word, price)) => {
                if split_first(price, ' ').is_some() {
                    return Err(PriceError::InvalidPrice);
                }
                if !is_text(word, "for") {
                    return Err(PriceError::InvalidPrice);
                }
                let q = match parse_u32(quantity) {
                    Some(q) => q,
                    None => { return Err(PriceError::InvalidNumber); },
                };
                match price_of(price) {
                    Ok(p) => Ok((q, p)),
                    Err(e) => Err(e),
                }
            },
        },
    }
}

/// A feed of prices.
#[derive(Clone, Copy, Debug, PartialEq, Eq, Structural)]
pub enum Source {
    ColesPrices,
    WoolworthsPrices,
}

impl Source {
    /// The retailer whose prices the feed holds.
    pub fn retailer(&self) -> (r: Retailer)
        ensures
            r == match self {
                Source::ColesPrices => Retailer::Coles,
                Source::WoolworthsPrices => Retailer::Woolworths,
            },
    {
        match self {
            Source::ColesPrices => Retailer::Coles,
            Source::WoolworthsPrices => Retailer::Woolworths,
        }
    }

    /// About how many prices a day's feed holds.
    pub fn suggested_len(&self) -> (r: u64)
        ensures
            r == match self {
                Source::ColesPrices => 17_600_000u64,
                Source::WoolworthsPrices => 51_400_000u64,
            },
    {
        match self {
            Source::ColesPrices => 17_600_000,
            Source::WoolworthsPrices => 51_400_000,
        }
    }
}

/// The kind of a promotion as the feed of Coles names it.
#[derive(Clone, Copy, Debug, PartialEq, Eq, Structural)]
pub enum ColesPromotion {
    Special,
    Everyday,
    Downdown,
    Bonuscollectable,
    Flybuys,
    New,
    Droppedlocked,
    Locked,
    Continuityredeemable,
}

/// The kind of a promotion as the feed of Woolworths names it.
#[derive(Clone, Copy, Debug, PartialEq, Eq, Structural)]
pub enum WoolworthsPromotion {
    Unpromoted,
    Special,
    LowPrice,
    PriceDropped,
}

/// Why a promotion of Coles could not be told.
#[derive(Clone, Copy, Debug, PartialEq, Eq, Structural)]
pub enum PromotionError {
    /// A promotion with points says nothing of the points.
    FlybuysWithoutDescription,
    /// A promotion with points says something unheard of.
    UnknownFlybuys,
}

/// The promotion that the feed of Coles means by a kind and, for points, by
/// the description of the offer.
pub open spec fn coles_promotion_of(kind: Option<ColesPromotion>, offer: Option<Seq<char>>)
    -> Result<PromotionType, PromotionError> {
    match kind {
        None => Ok(PromotionType::NoPromotion),
        Some(ColesPromotion::Special) => Ok(PromotionType::Special),
        Some(ColesPromotion::Everyday) => Ok(PromotionType::ColesEveryday),
        Some(ColesPromotion::Downdown) => Ok(PromotionType::ColesDownDown),
        Some(ColesPromotion::Bonuscollectable) => Ok(PromotionType::ColesBonusCollectable),
        Some(ColesPromotion::Flybuys) => match offer {
            None => Err(PromotionError::FlybuysWithoutDescription),
            Some(text) => if text == "Triple points"@ {
                Ok(PromotionType::ColesFlybuysTriplePoints)
            } else if text == "100 Bonus Points"@ {
                Ok(PromotionType::ColesFlybuys100Points)
            } else {
                Err(PromotionError::UnknownFlybuys)
            },
        },
        Some(ColesPromotion::New) => Ok(PromotionType::New),
        Some(ColesPromotion::Droppedlocked) => Ok(PromotionType::ColesDroppedAndLocked),
        Some(ColesPromotion::Locked) => Ok(PromotionType::ColesLocked),
        Some(ColesPromotion::Continuityredeemable) => Ok(PromotionType::NoPromotion),
    }
}

/// The promotion that the feed of Coles means.
pub fn coles_promotion(kind: Option<ColesPromotion>, offer: Option<&str>) -> (r: Result<
    PromotionType,
    PromotionError,
>)
    ensures
        r == coles_promotion_of(
            kind,
            match offer {
                Some(text) => Some(text@),
                None => None,
            },
        ),
{
    match kind {
        None => Ok(PromotionType::NoPromotion),
        Some(ColesPromotion::Special) => Ok(PromotionType::Special),
        Some(ColesPromotion::Everyday) => Ok(PromotionType::ColesEveryday),
        Some(ColesPromotion::Downdown) => Ok(PromotionType::ColesDownDown),
        Some(ColesPromotion::Bonuscollectable) => Ok(PromotionType::ColesBonusCollectable),
        Some(ColesPromotion::Flybuys) => match offer {
            None => Err(PromotionError::FlybuysWithoutDescription),
            Some(text) => {
                if same_text(text, "Triple points") {
                    Ok(PromotionType::ColesFlybuysTriplePoints)
                } else if same_text(text, "100 Bonus Points") {
                    Ok(PromotionType::ColesFlybuys100Points)
                } else {
                    Err(PromotionError::UnknownFlybuys)
                }
            },
        },
        Some(ColesPromotion::New) => Ok(PromotionType::New),
        Some(ColesPromotion::Droppedlocked) => Ok(PromotionType::ColesDroppedAndLocked),
        Some(ColesPromotion::Locked) => Ok(PromotionType::ColesLocked),
        Some(ColesPromotion::Continuityredeemable) => Ok(PromotionType::NoPromotion),
    }
}

/// The promotion that the feed of Woolworths means.
pub fn woolworths_promotion(kind: WoolworthsPromotion) -> (r: PromotionType)
    ensures
        r == match kind {
            WoolworthsPromotion::Unpromoted => PromotionType::NoPromotion,
            WoolworthsPromotion::Special => PromotionType::Special,
            WoolworthsPromotion::LowPrice => PromotionType::WoolworthsLowPrice,
            WoolworthsPromotion::PriceDropped => PromotionType::WoolworthsPriceDropped,
        },
{
    match kind {
        WoolworthsPromotion::Unpromoted => PromotionType::NoPromotion,
        WoolworthsPromotion::Special => PromotionType::Special,
        WoolworthsPromotion::LowPrice => PromotionType::WoolworthsLowPrice,
        WoolworthsPromotion::PriceDropped => PromotionType::WoolworthsPriceDropped,
    }
}

/// An amount of money. The feed of Coles gives amounts as numbers of single
/// precision, which are held by their bits; that of Woolworths gives cents,
/// sometimes for several pieces together.
#[derive(Clone, Copy, Debug, PartialEq, Eq, Structural)]
pub enum Amount {
    /// Dollars, as the bits of a number of single precision.
    Bits(u32),
    /// The cents that `shared_by` pieces cost together.
    Cents { cents: u32, shared_by: u32 },
}

impl Amount {
    /// Whether the amount is nothing: zero of either sign, or no cents.
    pub open spec fn is_nothing(self) -> bool {
        match self {
            Amount::Bits(bits) => bits == 0 || bits == 0x8000_0000,
            Amount::Cents { cents, shared_by } => cents == 0,
        }
    }

    /// Whether the amount is nothing.
    pub fn is_zero(&self) -> (r: bool)
        ensures
            r == self.is_nothing(),
    {
        match self {
            Amount::Bits(bits) => *bits == 0 || *bits == 0x8000_0000,
            Amount::Cents { cents, .. } => *cents == 0,
        }
    }
}

/// A lower price under a condition.
#[derive(Clone, Copy, Debug, PartialEq, Eq, Structural)]
pub struct Discount {
    /// The lower price of each piece.
    pub price: Amount,
    /// How many pieces must be bought.
    pub quantity: u32,
    /// Whether only members get it.
    pub members_only: bool,
}

/// What a product costs.
#[derive(Clone, Debug, PartialEq, Eq)]
pub struct RawPriceInfo {
    pub price: Amount,
    pub discounts: Vec<Discount>,
    pub promotion: PromotionType,
}

/// What a product costs at a store.
#[derive(Clone, Debug, PartialEq, Eq)]
pub struct RawPriceRecord {
    pub store: u32,
    pub product: u32,
    pub info: RawPriceInfo,
}

/// What the feed of Coles says of a price.
#[derive(Clone, Debug, PartialEq, Eq)]
pub struct ColesPricing {
    pub now: u32,
    pub was: u32,
    pub promotion_type: Option<ColesPromotion>,
    pub offer_description: Option<String>,
    /// The least quantity and the price of each piece where several are
    /// bought.
    pub multi_buy: Option<(u32, u32)>,
}

/// What the feed of Woolworths says of a product at a store.
#[derive(Clone, Debug, PartialEq, Eq)]
pub struct WoolworthsItem {
    pub product_id: String,
    pub store: u32,
    pub price: Option<u32>,
    pub was_price: Option<String>,
    pub promotion: WoolworthsPromotion,
    pub multi_buy_price: Option<String>,
    pub member_price: Option<String>,
}

impl RawPriceRecord {
    /// The record of a product at a store of which no price is known.
    pub fn new(store: u32, product: u32) -> (r: RawPriceRecord)
        ensures
            r.store == store,
            r.product == product,
            r.info.price == Amount::Bits(0),
            r.info.discounts@.len() == 0,
            r.info.promotion == PromotionType::NoPromotion,
    {
        RawPriceRecord {
            store,
            product,
            info: RawPriceInfo {
                price: Amount::Bits(0),
                discounts: Vec::new(),
                promotion: PromotionType::NoPromotion,
            },
        }
    }
}

/// The price and the discounts that the feed of Coles means: the price is
/// what the product cost before, if it cost anything, and then what it costs
/// now is a discount; a price for several comes last.
pub open spec fn coles_amounts(pricing: ColesPricing) -> (Amount, Seq<Discount>) {
    let several = match pricing.multi_buy {
        Some((quantity, reward)) => seq![
            Discount { price: Amount::Bits(reward), quantity, members_only: false },
        ],
        None => Seq::empty(),
    };
    if Amount::Bits(pricing.was).is_nothing() {
        (Amount::Bits(pricing.now), several)
    } else {
        (
            Amount::Bits(pricing.was),
            seq![Discount { price: Amount::Bits(pricing.now), quantity: 1, members_only: false }]
                + several,
        )
    }
}

/// The record that the feed of Coles means. At the store without a number
/// and without pricing nothing is known.
pub fn coles_record(store: u32, product: u32, pricing: Option<&ColesPricing>) -> (r: Result<
    RawPriceRecord,
    PromotionError,
>)
    ensures
        match r {
            Ok(record) => {
                &&& record.store == store
                &&& record.product == product
                &&& match pricing {
                    Some(p) if store != 0 => {
                        &&& (record.info.price, record.info.discounts@) == coles_amounts(*p)
                        &&& Ok::<PromotionType, PromotionError>(record.info.promotion)
                            == coles_promotion_of(p.promotion_type, text_of(p.offer_description))
                    },
                    _ => {
                        &&& record.info.price == Amount::Bits(0)
                        &&& record.info.discounts@.len() == 0
                        &&& record.info.promotion == PromotionType::NoPromotion
                    },
                }
            },
            Err(e) => store != 0 && pricing is Some && coles_promotion_of(
                pricing->0.promotion_type,
                text_of(pricing->0.offer_description),
            ) == Err::<PromotionType, PromotionError>(e),
        },
{
    let mut record = RawPriceRecord::new(store, product);
    if store == 0 {
        return Ok(record);
    }
    match pricing {
        Some(p) => {
            if Amount::Bits(p.was).is_zero() {
                record.info.price = Amount::Bits(p.now);
            } else {
                record.info.price = Amount::Bits(p.was);
                record.info.discounts.push(
                    Discount { price: Amount::Bits(p.now), quantity: 1, members_only: false },
                );
            }
            match p.multi_buy {
                Some((quantity, reward)) => {
                    record.info.discounts.push(
                        Discount { price: Amount::Bits(reward), quantity, members_only: false },
                    );
                },
                None => {},
            }
            assert(record.info.discounts@ =~= coles_amounts(*p).1);
            let offer: Option<&str> = match &p.offer_description {
                Some(text) => Some(text.as_str()),
                None => None,
            };
            match coles_promotion(p.promotion_type, offer) {
                Ok(promotion) => {
                    record.info.promotion = promotion;
                },
                Err(e) => {
                    return Err(e);
                },
            }
        },
        None => {},
    }
    Ok(record)
}

/// The text of a string that may be missing.
pub open spec fn text_of(s: Option<String>) -> Option<Seq<char>> {
    match s {
        Some(s) => Some(s@),
        None => None,
    }
}

/// The price before a special, as the feed of Woolworths writes it: after
/// the word `Was`.
pub open spec fn parsed_was_price(raw: Seq<char>) -> Result<u32, PriceError> {
    if "Was "@.is_prefix_of(raw) {
        parsed_price(raw.skip("Was "@.len() as int))
    } else {
        Err(PriceError::InvalidPrice)
    }
}

/// The record that the feed of Woolworths means, in cents. The price is what
/// the feed gives, or nothing; under a special with an earlier price, that
/// earlier price is the price and what the feed gives is a discount. A price
/// for several and a price for members follow as discounts for members, the
/// second as the cents of all the pieces together.
pub open spec fn woolworths_record_of(item: WoolworthsItem) -> Result<
    (u32, Amount, Seq<Discount>, PromotionType),
    PriceError,
> {
    match parsed_u32(item.product_id@) {
        None => Err(PriceError::InvalidNumber),
        Some(product) => if item.store == 0 {
            Ok((product, Amount::Bits(0), Seq::empty(), PromotionType::NoPromotion))
        } else {
            let given = match item.price {
                Some(p) => p,
                None => 0u32,
            };
            let special = item.was_price is Some && item.promotion == WoolworthsPromotion::Special;
            let before = if special {
                parsed_was_price(item.was_price->0@)
            } else {
                Ok(given)
            };
            let first = if special {
                seq![
                    Discount {
                        price: Amount::Cents { cents: given, shared_by: 1 },
                        quantity: 1,
                        members_only: false,
                    },
                ]
            } else {
                Seq::empty()
            };
            match before {
                Err(e) => Err(e),
                Ok(price) => {
                    let several = match item.multi_buy_price {
                        Some(text) => match parsed_quantity_price(text@) {
                            Ok((q, p)) => Ok(
                                seq![
                                    Discount {
                                        price: Amount::Cents { cents: p, shared_by: 1 },
                                        quantity: q,
                                        members_only: true,
                                    },
                                ],
                            ),
                            Err(e) => Err(e),
                        },
                        None => Ok(Seq::empty()),
                    };
                    match several {
                        Err(e) => Err(e),
                        Ok(second) => {
                            let members = match item.member_price {
                                Some(text) => match parsed_quantity_price(text@) {
                                    Ok((q, p)) => Ok(
                                        seq![
                                            Discount {
                                                price: Amount::Cents { cents: p, shared_by: q },
                                                quantity: q,
                                                members_only: true,
                                            },
                                        ],
                                    ),
                                    Err(e) => Err(e),
                                },
                                None => Ok(Seq::empty()),
                            };
                            match members {
                                Err(e) => Err(e),
                                Ok(third) => Ok(
                                    (
                                        product,
                                        Amount::Cents { cents: price, shared_by: 1 },
                                        first + second + third,
                                        match item.promotion {
                                            WoolworthsPromotion::Unpromoted =>
                                                PromotionType::NoPromotion,
                                            WoolworthsPromotion::Special => PromotionType::Special,
                                            WoolworthsPromotion::LowPrice =>
                                                PromotionType::WoolworthsLowPrice,
                                            WoolworthsPromotion::PriceDropped =>
                                                PromotionType::WoolworthsPriceDropped,
                                        },
                                    ),
                                ),
                            }
                        },
                    }
                },
            }
        },
    }
}

/// The record that the feed of Woolworths means.
pub fn woolworths_record(item: &WoolworthsItem) -> (r: Result<RawPriceRecord, PriceError>)
    ensures
        match r {
            Ok(record) => record.store == item.store && woolworths_record_of(*item) == Ok::<
                (u32, Amount, Seq<Discount>, PromotionType),
                PriceError,
            >((record.product, record.info.price, record.info.discounts@, record.info.promotion)),
            Err(e) => woolworths_record_of(*item) == Err::<
                (u32, Amount, Seq<Discount>, PromotionType),
                PriceError,
            >(e),
        },
{
    let id = chars_of(item.product_id.as_str());
    let product = match parse_u32(id.as_slice()) {
        Some(product) => product,
        None => { return Err(PriceError::InvalidNumber); },
    };
    let mut record = RawPriceRecord::new(item.store, product);
    if item.store == 0 {
        assert(record.info.discounts@ =~= Seq::empty());
        return Ok(record);
    }
    let mut price = match item.price {
        Some(p) => p,
        None => 0,
    };
    match &item.was_price {
        Some(raw) => {
            if item.promotion == WoolworthsPromotion::Special {
                record.info.discounts.push(
                    Discount {
                        price: Amount::Cents { cents: price, shared_by: 1 },
                        quantity: 1,
                        members_only: false,
                    },
                );
                let chars = chars_of(raw.as_str());
                let rest = match strip_prefix(chars.as_slice(), "Was ") {
                    Some(rest) => rest,
                    None => { return Err(PriceError::InvalidPrice); },
                };
                price = match price_of(rest) {
                    Ok(p) => p,
                    Err(e) => { return Err(e); },
                };
            }
        },
        None => {},
    }
    record.info.price = Amount::Cents { cents: price, shared_by: 1 };
    match &item.multi_buy_price {
        Some(text) => {
            let (quantity, cents) = match parse_quantity_price(text.as_str()) {
                Ok(pair) => pair,
                Err(e) => { return Err(e); },
            };
            record.info.discounts.push(
                Discount {
                    price: Amount::Cents { cents, shared_by: 1 },
                    quantity,
                    members_only: true,
                },
            );
        },
        None => {},
    }
    match &item.member_price {
        Some(text) => {
            let (quantity, cents) = match parse_quantity_price(text.as_str()) {
                Ok(pair) => pair,
                Err(e) => { return Err(e); },
            };
            record.info.discounts.push(
                Discount {
                    price: Amount::Cents { cents, shared_by: quantity },
                    quantity,
                    members_only: true,
                },
            );
        },
        None => {},
    }
    record.info.promotion = woolworths_promotion(item.promotion);
    proof {
        match woolworths_record_of(*item) {
            Ok(wanted) => {
                assert(record.info.discounts@ =~= wanted.2);
            },
            Err(_) => {},
        }
    }
    Ok(record)
}

} // verus!
