//! Trading primitives: contracts with their terms, trading pairs and pools.
pub mod contracts;
pub mod objects;
pub mod terms;
