use vstd::prelude::*;

verus! {

/// Largest power of ten a scale may name: the exact decimal carries at
/// most 28 fractional digits.
pub const MAX_SCALE: u32 = 28;

/// Largest mantissa the exact decimal can carry: it is a 96-bit magnitude.
pub const MAX_MANTISSA: u128 = 0xFFFF_FFFF_FFFF_FFFF_FFFF_FFFF;

/// `10^n`.
pub open spec fn pow10(n: nat) -> int
    decreases n,
{
    if n == 0 {
        1
    } else {
        10 * pow10((n - 1) as nat)
    }
}

/// An exact non-negative fixed-point decimal: the number
/// `mantissa / 10^scale`.  It holds as plain values exactly what the
/// outside 96-bit decimal type holds, so that the ordering the heap
/// depends on can be stated over integers.
#[derive(Clone, Copy, Debug, PartialEq, Eq, Structural)]
pub struct Price {
    pub mantissa: u128,
    pub scale: u32,
}

/// What the outside decimal division returns for
/// `(mantissa / 10^scale) / quantity`: the mantissa and scale of the
/// quotient, rounded by the decimal library where the division is
/// inexact.  The quotient depends on these three integers alone.
pub uninterp spec fn quot_of(mantissa: int, scale: int, quantity: int) -> (int, int);

impl Price {
    /// The price lies in the domain of the exact decimal type.
    pub open spec fn valid(self) -> bool {
        self.mantissa <= MAX_MANTISSA && self.scale <= MAX_SCALE
    }

    /// The price's value scaled to a whole number of `10^-28` units.
    /// Two valid prices compare as their units compare.
    pub open spec fn units(self) -> int {
        if self.scale <= MAX_SCALE {
            self.mantissa * pow10((MAX_SCALE - self.scale) as nat)
        } else {
            0
        }
    }

    pub fn new(mantissa: u128, scale: u32) -> (r: Price)
        requires
            mantissa <= MAX_MANTISSA,
            scale <= MAX_SCALE,
        ensures
            r == (Price { mantissa, scale }),
            r.valid(),
    {
        Price { mantissa, scale }
    }

    /// Runtime check that the price lies in the decimal's domain.
    pub fn is_valid(&self) -> (r: bool)
        ensures
            r == self.valid(),
    {
        self.mantissa <= MAX_MANTISSA && self.scale <= MAX_SCALE
    }

    pub fn le(&self, other: &Price) -> (r: bool)
        requires
            self.valid(),
            other.valid(),
        ensures
            r == (self.units() <= other.units()),
    {
        dec_le(self, other)
    }

    pub fn lt(&self, other: &Price) -> (r: bool)
        requires
            self.valid(),
            other.valid(),
        ensures
            r == (self.units() < other.units()),
    {
        !other.le(self)
    }

    /// Numeric equality: `1.00` and `1` are the same price though their
    /// scales differ.
    pub fn value_eq(&self, other: &Price) -> (r: bool)
        requires
            self.valid(),
            other.valid(),
        ensures
            r == (self.units() == other.units()),
    {
        self.le(other) && other.le(self)
    }
}

/// Relies on `rust_decimal::Decimal`'s `Ord`: decimals compare by numeric
/// value, by rescaling both mantissas to a common exponent, which is the
/// order of `units`.
#[verifier::external_body]
fn dec_le(a: &Price, b: &Price) -> (r: bool)
    requires
        a.valid(),
        b.valid(),
    ensures
        r == (a.units() <= b.units()),
{
    let da = rust_decimal::Decimal::from_i128_with_scale(a.mantissa as i128, a.scale);
    let db = rust_decimal::Decimal::from_i128_with_scale(b.mantissa as i128, b.scale);
    da <= db
}

/// Relies on `rust_decimal::Decimal`'s `Div`: the quotient of a valid
/// decimal by a positive whole number is again a decimal, so its mantissa
/// and scale lie in the valid domain, and it depends on the operands
/// alone, which `quot_of` names.  The quotient of a non-negative decimal
/// by a positive one is non-negative.
#[verifier::external_body]
pub(crate) fn dec_div(cost: &Price, quantity: u64) -> (r: Price)
    requires
        cost.valid(),
        1 <= quantity <= i64::MAX as u64,
    ensures
        r.valid(),
        (r.mantissa as int, r.scale as int) == quot_of(
            cost.mantissa as int,
            cost.scale as int,
            quantity as int,
        ),
{
    let c = rust_decimal::Decimal::from_i128_with_scale(cost.mantissa as i128, cost.scale);
    let q = rust_decimal::Decimal::new(quantity as i64, 0);
    let d = c / q;
    Price { mantissa: d.mantissa().unsigned_abs(), scale: d.scale() }
}

} // verus!
