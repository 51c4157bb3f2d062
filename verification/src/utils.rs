//! The helpers on pairs, under one roof.

pub use crate::asset::sort_addresses;
pub use crate::bucket::sort_buckets;
pub use crate::symbol::pair_symbol;
