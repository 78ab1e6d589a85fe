//! Splitting a receipt among the people who share it.
//!
//! A [`receipt::Receipt`] holds a total, the people sharing it and its items.
//! Items are split by fixed ratios or in proportion to what everyone already
//! owes; the split table reports, item by item, who owes what.

pub mod arguments;
pub mod decimal;
pub mod edit;
pub mod error;
pub mod laws;
pub mod model;
pub mod pattern;
pub mod proportion;
pub mod receipt;
pub mod resolver;
pub mod session;
pub mod splits;
pub mod table;
pub mod text;
