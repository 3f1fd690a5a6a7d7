use vstd::prelude::*;

verus! {

/// Number of ticks in one whole price unit: prices carry four decimal places.
pub const TICKS_PER_UNIT: i128 = 10_000;

/// Largest magnitude, in ticks, of a strike, a premium, a range bound or a step
/// (2^60 ticks, about 1.15e14 units); keeps every derived sum inside `i128`.
pub const PRICE_LIMIT: i128 = 0x1000_0000_0000_0000;

/// A fixed-point decimal amount, stored as a whole number of ticks
/// (one tick is one ten-thousandth of a unit).
#[derive(Clone, Copy, Debug, PartialEq, Eq, Structural, PartialOrd, Ord, Hash)]
pub struct Price {
    pub ticks: i128,
}

impl View for Price {
    type V = int;

    open spec fn view(&self) -> int {
        self.ticks as int
    }
}

/// Ten to the power `n`.
pub open spec fn pow10(n: nat) -> int
    decreases n,
{
    if n == 0 {
        1
    } else {
        10 * pow10((n - 1) as nat)
    }
}

/// Whether an amount of `t` ticks lies within the library's price bound.
pub open spec fn in_limit(t: int) -> bool {
    -PRICE_LIMIT <= t <= PRICE_LIMIT
}

impl Price {
    /// The amount made of `ticks` ten-thousandths of a unit.
    pub fn from_ticks(ticks: i128) -> (r: Price)
        ensures
            r@ == ticks as int,
    {
        Price { ticks }
    }

    /// The whole amount `units`.
    pub fn from_units(units: i64) -> (r: Price)
        ensures
            r@ == units as int * TICKS_PER_UNIT,
    {
        Price { ticks: units as i128 * TICKS_PER_UNIT }
    }

    /// The decimal `mantissa / 10^scale`, the way decimal libraries store a number.
    /// `None` when it has more than four decimal places or lies beyond the price bound.
    pub fn from_parts(mantissa: i128, scale: u32) -> (r: Option<Price>)
        ensures
            scale <= 4 && in_limit(mantissa * pow10((4 - scale) as nat)) <==> r.is_some(),
            r matches Some(p) ==> p@ == mantissa * pow10((4 - scale) as nat),
    {
        if scale > 4 || mantissa < -PRICE_LIMIT || mantissa > PRICE_LIMIT {
            proof {
                if scale <= 4 {
                    lemma_pow10_positive((4 - scale) as nat);
                    if mantissa < -PRICE_LIMIT {
                        assert(mantissa * pow10((4 - scale) as nat) <= mantissa) by (nonlinear_arith)
                            requires mantissa < 0, pow10((4 - scale) as nat) >= 1;
                    } else {
                        assert(mantissa * pow10((4 - scale) as nat) >= mantissa) by (nonlinear_arith)
                            requires mantissa > 0, pow10((4 - scale) as nat) >= 1;
                    }
                }
            }
            return None;
        }
        let factor: i128 = if scale == 0 {
            10_000
        } else if scale == 1 {
            1_000
        } else if scale == 2 {
            100
        } else if scale == 3 {
            10
        } else {
            1
        };
        proof {
            reveal_with_fuel(pow10, 5);
        }
        assert(factor == pow10((4 - scale) as nat));
        let t = mantissa * factor;
        if t < -PRICE_LIMIT || t > PRICE_LIMIT {
            None
        } else {
            Some(Price { ticks: t })
        }
    }

    /// The amount in ticks.
    pub fn ticks(&self) -> (r: i128)
        ensures
            r == self@,
    {
        self.ticks
    }
}

proof fn lemma_pow10_positive(n: nat)
    ensures
        pow10(n) >= 1,
    decreases n,
{
    if n > 0 {
        lemma_pow10_positive((n - 1) as nat);
    }
}

} // verus!
