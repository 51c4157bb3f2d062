//! Records of the layers that are built on top of pools: tranches of a
//! structured vault, and the options that hedge them.

use crate::amount::Amount;
use vstd::prelude::*;

verus! {

/// A source of prices for the layers above the pools.
#[derive(Clone, Copy, Debug, PartialEq, Eq, Structural)]
pub struct PriceOracle {}

/// Where a tranche stands.
#[derive(Clone, Copy, Debug, PartialEq, Eq, Structural)]
pub enum TrancheState {
    Invalid,
    Open,
    Closed,
}

/// One tranche of a vault: an amount, the share of the vault it stands for,
/// the epoch in which it was made and whether it is hedged.
#[derive(Clone, Copy, Debug)]
pub struct Tranche {
    pub state: TrancheState,
    pub amount: Amount,
    pub share: Amount,
    pub creation_epoch: u64,
    pub hedged: bool,
}

/// The right an option gives: to buy, or to sell.
#[derive(Clone, Copy, Debug, PartialEq, Eq, Structural)]
pub enum OptionType {
    Call,
    Put,
}

/// Where an option stands.
#[derive(Clone, Copy, Debug, PartialEq, Eq, Structural)]
pub enum OptionState {
    Invalid,
    Active,
    Exercised,
    Expired,
}

} // verus!
