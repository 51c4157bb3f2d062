//! A constant-product exchange: pools of two assets that price swaps from their
//! reserves, issue shares to liquidity providers, and a router that keeps one
//! pool per unordered pair of assets.
//!
//! - [`amount`]: fixed-point quantities, with the arithmetic of the ledger's
//!   decimal.
//! - [`asset`], [`bucket`], [`symbol`]: asset identifiers and their canonical
//!   order, buckets of an asset, and the display symbol of a pair.
//! - [`pool_math`]: the pricing and share formulas.
//! - [`pool_model`], [`router_model`]: what a pool and the router are and do,
//!   as mathematical states and transitions.
//! - [`liquidity_pool`], [`swap`]: the pool and the router themselves, each
//!   operation held to its transition.
//! - [`laws`]: what holds of the formulas and transitions whatever the inputs.
//! - [`records`]: records of the layers built on top of pools.
//!
//! The exchange moves no assets itself. It decides what each operation does to
//! the reserves and the shares, and hands back, as buckets, what the caller is
//! owed; whoever holds the assets carries that out. An operation that is
//! refused has changed nothing.

pub mod amount;
pub mod asset;
pub mod bucket;
pub mod error;
pub mod laws;
pub mod liquidity_pool;
pub mod pool_math;
pub mod pool_model;
pub mod records;
pub mod router_model;
pub mod swap;
pub mod symbol;
pub mod utils;
