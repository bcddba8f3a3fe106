use vstd::prelude::*;

verus! {

/// Number of fractional decimal digits an `Amount` carries.
pub const SCALE: u32 = 4;

/// An exact decimal amount of money, held as a whole number of
/// ten-thousandths (`units == 10_000` is one unit of currency).
#[derive(Clone, Copy, Debug, PartialEq, Eq, Structural)]
pub struct Amount {
    pub units: i128,
}

/// Whether an integer can be held by an `Amount`.
pub open spec fn fits(x: int) -> bool {
    i128::MIN <= x <= i128::MAX
}

impl Amount {
    /// The amount worth `units` ten-thousandths.
    pub fn from_units(units: i128) -> (r: Amount)
        ensures
            r.units == units,
    {
        Amount { units }
    }

    /// The amount nothing.
    pub fn zero() -> (r: Amount)
        ensures
            r.units == 0,
    {
        Amount { units: 0 }
    }

    /// `self + other`, or `None` where the sum does not fit.
    pub fn checked_add(self, other: Amount) -> (r: Option<Amount>)
        ensures
            r is Some <==> fits(self.units + other.units),
            r matches Some(v) ==> v.units == self.units + other.units,
    {
        match self.units.checked_add(other.units) {
            Some(u) => Some(Amount { units: u }),
            None => None,
        }
    }

    /// `self - other`, or `None` where the difference does not fit.
    pub fn checked_sub(self, other: Amount) -> (r: Option<Amount>)
        ensures
            r is Some <==> fits(self.units - other.units),
            r matches Some(v) ==> v.units == self.units - other.units,
    {
        match self.units.checked_sub(other.units) {
            Some(u) => Some(Amount { units: u }),
            None => None,
        }
    }
}

} // verus!
