//! The ways an exchange operation can be refused.

use vstd::prelude::*;

verus! {

/// Why an operation was refused. A refused operation changes nothing.
#[derive(Clone, Copy, Debug, PartialEq, Eq, Structural)]
pub enum PoolError {
    /// Bad arguments: identical assets, a non-fungible asset, an empty bucket,
    /// a fee above 100, or share tokens of the wrong identity.
    Validation,
    /// The asset is not one of the pool's two.
    Membership,
    /// No pool is registered for the pair, or for the share token.
    NotFound,
    /// A pool is already registered for the pair.
    AlreadyExists,
    /// A reserve or an input bucket holds too little for the operation.
    Liquidity,
    /// The output is below the minimum the caller declared.
    Slippage,
    /// A quantity in the computation has no fixed-point value: it is above the
    /// largest amount, or a division by zero.
    Overflow,
}

} // verus!
