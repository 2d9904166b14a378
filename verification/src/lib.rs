//! Bounded structural survey of game-system JSON data: source classification,
//! structural signatures, source audits and scan receipts.

pub mod text;
pub mod json;
pub mod shape;
pub mod order;
pub mod model;
pub mod tally;
pub mod inventory;
pub mod scan;
pub mod worksheet;
pub mod cli;
pub mod safety;
pub mod audit;
pub mod git_source;
pub mod decode;
pub mod properties;
