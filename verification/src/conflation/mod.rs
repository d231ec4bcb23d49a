//! Matching a retailer's stores with the entities of a map.

pub mod candidates;
pub mod distance;
pub mod forced;
pub mod laws;
pub mod matches;
pub mod pipeline;
pub mod registry;
pub mod report;
pub mod resolver;
