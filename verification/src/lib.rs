//! The Seer protocol library: the Seer token ledger, the label database,
//! the events that the capabilities and heuristics report, and the trading
//! primitives.
pub mod address;
pub mod amount;
pub mod capabilities;
pub mod config;
pub mod db;
pub mod exex;
pub mod heuristics;
pub mod label_codec;
pub mod nodes;
pub mod primitives;
pub mod sums;
pub mod text;
pub mod token;
