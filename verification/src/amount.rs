//! Non-negative fixed-point quantities with eighteen decimal places.
//!
//! An [`Amount`] counts attos, the 10^-18 subunits of one whole token. It covers
//! exactly the non-negative range of the ledger's 192-bit decimal, so that every
//! quantity the ledger can hold has one `Amount` and the four arithmetic
//! operations round and overflow as the ledger's do.

use scrypto::math::{CheckedAdd, CheckedDiv, CheckedMul, CheckedSub, Decimal, I192};
use vstd::prelude::*;

verus! {

/// Attos in one whole unit: 10^18.
pub const ATTOS_PER_UNIT: u128 = 1_000_000_000_000_000_000;

/// The largest number of attos an [`Amount`] can hold: 2^191 - 1.
pub open spec fn max_attos() -> nat {
    0x7fff_ffff_ffff_ffff_ffff_ffff_ffff_ffff_ffff_ffff_ffff_ffffnat
}

/// Attos in one whole unit, as a mathematical integer.
pub open spec fn one() -> nat {
    1_000_000_000_000_000_000
}

/// The number that three 64-bit limbs stand for, least significant first.
pub open spec fn limbs_value(d0: u64, d1: u64, d2: u64) -> int {
    d0 + d1 * 0x1_0000_0000_0000_0000 + d2 * 0x1_0000_0000_0000_0000_0000_0000_0000_0000int
}

/// The sum of two quantities, where it can be held.
pub open spec fn checked_sum(a: nat, b: nat) -> Option<nat> {
    if a + b <= max_attos() {
        Some(a + b)
    } else {
        None
    }
}

/// The difference of two quantities, where it is not negative.
pub open spec fn checked_difference(a: nat, b: nat) -> Option<nat> {
    if b <= a {
        Some((a - b) as nat)
    } else {
        None
    }
}

/// The fixed-point product of two quantities, rounded down to a whole number of
/// attos, where it can be held.
pub open spec fn checked_product(a: nat, b: nat) -> Option<nat> {
    if (a * b) / one() <= max_attos() {
        Some((a * b) / one())
    } else {
        None
    }
}

/// The fixed-point quotient of two quantities, rounded down to a whole number of
/// attos, where the divisor is not zero and the quotient can be held.
pub open spec fn checked_quotient(a: nat, b: nat) -> Option<nat> {
    if b != 0 && (a * one()) / b <= max_attos() {
        Some((a * one()) / b)
    } else {
        None
    }
}

/// A non-negative quantity of attos below 2^191, kept as three 64-bit limbs,
/// least significant first.
#[derive(Clone, Copy, Debug)]
pub struct Amount {
    d0: u64,
    d1: u64,
    d2: u64,
}

impl View for Amount {
    type V = nat;

    /// The number of attos.
    closed spec fn view(&self) -> nat {
        limbs_value(self.d0, self.d1, self.d2) as nat
    }
}

impl Amount {
    /// What holds of every amount: the top limb is below 2^63, so that the
    /// quantity is below 2^191.
    #[verifier::type_invariant]
    pub closed spec fn in_range(self) -> bool {
        self.d2 < 0x8000_0000_0000_0000
    }

    /// Every quantity in range is at most [`max_attos`].
    pub proof fn lemma_in_range_bounded(self)
        requires
            self.in_range(),
        ensures
            self@ <= max_attos(),
    {
    }

    /// The quantity of nothing.
    pub fn zero() -> (r: Amount)
        ensures
            r@ == 0,
    {
        Amount { d0: 0, d1: 0, d2: 0 }
    }

    /// The quantity of `attos` attos.
    pub fn from_attos(attos: u128) -> (r: Amount)
        ensures
            r@ == attos,
    {
        let low: u128 = attos % 0x1_0000_0000_0000_0000;
        let high: u128 = attos / 0x1_0000_0000_0000_0000;
        Amount { d0: low as u64, d1: high as u64, d2: 0 }
    }

    /// The quantity of `units` whole units.
    pub fn from_units(units: u64) -> (r: Amount)
        ensures
            r@ == units * one(),
    {
        let wide: u128 = units as u128;
        Amount::from_attos(wide * ATTOS_PER_UNIT)
    }

    /// The quantity with the given limbs, least significant first, where it is in
    /// range: the top limb must be below 2^63.
    pub fn from_limbs(d0: u64, d1: u64, d2: u64) -> (r: Option<Amount>)
        ensures
            r is Some <==> d2 < 0x8000_0000_0000_0000,
            r matches Some(a) ==> a@ == limbs_value(d0, d1, d2),
    {
        if d2 < 0x8000_0000_0000_0000 {
            Some(Amount { d0, d1, d2 })
        } else {
            None
        }
    }

    /// The three limbs, least significant first.
    pub fn limbs(&self) -> (r: (u64, u64, u64))
        ensures
            self@ == limbs_value(r.0, r.1, r.2),
            r.2 < 0x8000_0000_0000_0000,
    {
        proof {
            use_type_invariant(self);
        }
        (self.d0, self.d1, self.d2)
    }

    /// The number of attos, where it fits in 128 bits.
    pub fn to_attos(&self) -> (r: Option<u128>)
        ensures
            r is Some <==> self@ <= u128::MAX,
            r matches Some(n) ==> n == self@,
    {
        if self.d2 == 0 {
            let high: u128 = self.d1 as u128;
            let low: u128 = self.d0 as u128;
            Some(high * 0x1_0000_0000_0000_0000 + low)
        } else {
            None
        }
    }

    /// Whether the quantity is nothing.
    pub fn is_zero(&self) -> (r: bool)
        ensures
            r == (self@ == 0),
    {
        self.d0 == 0 && self.d1 == 0 && self.d2 == 0
    }

    /// Whether the two quantities are equal.
    pub fn equals(&self, other: &Amount) -> (r: bool)
        ensures
            r == (self@ == other@),
    {
        self.d0 == other.d0 && self.d1 == other.d1 && self.d2 == other.d2
    }

    /// Whether `self` is strictly less than `other`.
    pub fn less_than(&self, other: &Amount) -> (r: bool)
        ensures
            r == (self@ < other@),
    {
        if self.d2 != other.d2 {
            self.d2 < other.d2
        } else if self.d1 != other.d1 {
            self.d1 < other.d1
        } else {
            self.d0 < other.d0
        }
    }

    /// Whether `self` is at most `other`.
    pub fn at_most(&self, other: &Amount) -> (r: bool)
        ensures
            r == (self@ <= other@),
    {
        !other.less_than(self)
    }

    /// `self + other`, or `None` where the sum is above [`max_attos`].
    pub fn checked_add(self, other: Amount) -> (r: Option<Amount>)
        ensures
            r is Some <==> checked_sum(self@, other@) is Some,
            r matches Some(v) ==> checked_sum(self@, other@) == Some(v@),
    {
        decimal_add(self, other)
    }

    /// `self - other`, or `None` where `other` is the greater.
    pub fn checked_sub(self, other: Amount) -> (r: Option<Amount>)
        ensures
            r is Some <==> checked_difference(self@, other@) is Some,
            r matches Some(v) ==> checked_difference(self@, other@) == Some(v@),
    {
        if other.at_most(&self) {
            decimal_sub(self, other)
        } else {
            None
        }
    }

    /// The product rounded down to whole attos, or `None` where it is above
    /// [`max_attos`].
    pub fn checked_mul(self, other: Amount) -> (r: Option<Amount>)
        ensures
            r is Some <==> checked_product(self@, other@) is Some,
            r matches Some(v) ==> checked_product(self@, other@) == Some(v@),
    {
        decimal_mul(self, other)
    }

    /// The quotient rounded down to whole attos, or `None` where `other` is zero
    /// or the quotient is above [`max_attos`].
    pub fn checked_div(self, other: Amount) -> (r: Option<Amount>)
        ensures
            r is Some <==> checked_quotient(self@, other@) is Some,
            r matches Some(v) ==> checked_quotient(self@, other@) == Some(v@),
    {
        decimal_div(self, other)
    }
}

/// Calls `Decimal::checked_add` on the two quantities. Trusted: the ledger's
/// decimal adds the attos exactly and gives nothing where the sum leaves its
/// 192-bit signed range.
#[verifier::external_body]
fn decimal_add(a: Amount, b: Amount) -> (r: Option<Amount>)
    ensures
        r.is_some() == (a@ + b@ <= max_attos()),
        r matches Some(v) ==> v@ == a@ + b@,
{
    let x = Decimal::from_attos(I192::from_digits([a.d0, a.d1, a.d2]));
    let y = Decimal::from_attos(I192::from_digits([b.d0, b.d1, b.d2]));
    match x.checked_add(y) {
        Some(z) => {
            let l = z.attos().to_digits();
            Some(Amount { d0: l[0], d1: l[1], d2: l[2] })
        },
        None => None,
    }
}

/// Calls `Decimal::checked_sub` on the two quantities. Trusted: the ledger's
/// decimal subtracts the attos exactly; with `b` at most `a` the difference is
/// never out of its range.
#[verifier::external_body]
fn decimal_sub(a: Amount, b: Amount) -> (r: Option<Amount>)
    requires
        b@ <= a@,
    ensures
        r is Some,
        r matches Some(v) ==> v@ == a@ - b@,
{
    let x = Decimal::from_attos(I192::from_digits([a.d0, a.d1, a.d2]));
    let y = Decimal::from_attos(I192::from_digits([b.d0, b.d1, b.d2]));
    match x.checked_sub(y) {
        Some(z) => {
            let l = z.attos().to_digits();
            Some(Amount { d0: l[0], d1: l[1], d2: l[2] })
        },
        None => None,
    }
}

/// Calls `Decimal::checked_mul` on the two quantities. Trusted: the ledger's
/// decimal multiplies the attos in 256 bits, divides by 10^18 rounding toward
/// zero, and gives nothing where the result leaves its 192-bit signed range.
#[verifier::external_body]
fn decimal_mul(a: Amount, b: Amount) -> (r: Option<Amount>)
    ensures
        r.is_some() == ((a@ * b@) / one() <= max_attos()),
        r matches Some(v) ==> v@ == (a@ * b@) / one(),
{
    let x = Decimal::from_attos(I192::from_digits([a.d0, a.d1, a.d2]));
    let y = Decimal::from_attos(I192::from_digits([b.d0, b.d1, b.d2]));
    match x.checked_mul(y) {
        Some(z) => {
            let l = z.attos().to_digits();
            Some(Amount { d0: l[0], d1: l[1], d2: l[2] })
        },
        None => None,
    }
}

/// Calls `Decimal::checked_div` on the two quantities. Trusted: the ledger's
/// decimal multiplies the dividend's attos by 10^18 in 256 bits, divides by the
/// divisor's attos rounding toward zero, and gives nothing where the divisor is
/// zero or the result leaves its 192-bit signed range.
#[verifier::external_body]
fn decimal_div(a: Amount, b: Amount) -> (r: Option<Amount>)
    ensures
        r.is_some() == (b@ != 0 && (a@ * one()) / b@ <= max_attos()),
        r matches Some(v) ==> v@ == (a@ * one()) / b@,
{
    let x = Decimal::from_attos(I192::from_digits([a.d0, a.d1, a.d2]));
    let y = Decimal::from_attos(I192::from_digits([b.d0, b.d1, b.d2]));
    match x.checked_div(y) {
        Some(z) => {
            let l = z.attos().to_digits();
            Some(Amount { d0: l[0], d1: l[1], d2: l[2] })
        },
        None => None,
    }
}

} // verus!
