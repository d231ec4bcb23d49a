pub mod address;
pub mod barcodes;
pub mod conflation;
pub mod eval;
pub mod helper;
pub mod images;
pub mod links;
pub mod localities;
pub mod osm;
pub mod pairs;
pub mod parents;
pub mod prices;
pub mod product;
pub mod products;
pub mod ranks;
pub mod retailer;
pub mod size;
pub mod sorted;
pub mod store;
pub mod text;
pub mod tokens;
pub mod utils;
pub mod vendors;

pub use address::{Address, State};
pub use conflation::forced::ConflictError;
pub use conflation::pipeline::{conflate, Conflation};
pub use conflation::registry::{
    OsmElement, Point, RawElement, RawPosition, RawStore, Registry, Store,
};
pub use eval::eval;
pub use helper::Maybe;
pub use links::Link;
pub use localities::OSMAddress;
pub use osm::{OsmId, ParseOsmIdError};
pub use prices::{parse_price, parse_quantity_price, PromotionType};
pub use product::{ProductID, ProductId};
pub use products::RawProduct;
pub use retailer::Retailer;
pub use size::Unit;
pub use store::StoreId;
pub use utils::{slug, title_case};
pub use vendors::Vendor;
