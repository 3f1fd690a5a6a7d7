use vstd::prelude::*;

use super::strategies::{
    legs_payoff, lemma_pair_payoff, lemma_payoff_bound, merged_table, OptionCombo, OptionContract,
};
use super::{OptionType, PositionSide};
use crate::helpers::{self, bound_ok, price_range};
use crate::price::{in_limit, Price, TICKS_PER_UNIT};
use crate::Error;

verus! {

/// Half-width of the price window a contract is evaluated over, when none is given:
/// ten units.
pub const DEFAULT_OFFSET: i128 = 100_000;

/// Whether the prices of a table's entries increase strictly from one entry to the next.
pub open spec fn keys_increasing(s: Seq<(int, int)>) -> bool {
    forall|i: int, j: int| 0 <= i < j < s.len() ==> #[trigger] s[i].0 < #[trigger] s[j].0
}

/// Profit at price `p` of one option held to expiry, counting intrinsic value only.
/// A position without a side is long.
pub open spec fn payoff_value(
    option_type: OptionType,
    side: Option<PositionSide>,
    strike: int,
    premium: int,
    p: int,
) -> int {
    let short = side == Some(PositionSide::Short);
    match option_type {
        OptionType::Call => if short {
            if premium <= strike - p + premium { premium } else { strike - p + premium }
        } else {
            if -premium >= p - strike - premium { -premium } else { p - strike - premium }
        },
        OptionType::Put => if short {
            if premium <= p - strike + premium { premium } else { p - strike + premium }
        } else {
            if -premium >= strike - p - premium { -premium } else { strike - p - premium }
        },
    }
}

/// Payoff of a particular option or combination: (price, profit) entries in strictly
/// increasing order of price.
#[derive(Debug, Clone)]
pub struct PayoffStruct {
    pub inner: Vec<(Price, Price)>,
}

impl View for PayoffStruct {
    type V = Seq<(int, int)>;

    open spec fn view(&self) -> Seq<(int, int)> {
        self.inner@.map_values(|e: (Price, Price)| (e.0@, e.1@))
    }
}

impl Default for PayoffStruct {
    fn default() -> (r: PayoffStruct)
        ensures
            r@ == Seq::<(int, int)>::empty(),
    {
        PayoffStruct { inner: Vec::new() }
    }
}

impl PayoffStruct {
    /// A table with strictly increasing prices.
    pub open spec fn wf(&self) -> bool {
        keys_increasing(self@)
    }

    /// The table holding `data`, whose prices must increase strictly.
    pub fn new(data: Vec<(Price, Price)>) -> (r: Self)
        requires
            keys_increasing(data@.map_values(|e: (Price, Price)| (e.0@, e.1@))),
        ensures
            r.inner == data,
            r.wf(),
    {
        Self { inner: data }
    }

    /// Number of entries.
    pub fn len(&self) -> (r: usize)
        ensures
            r == self@.len(),
    {
        self.inner.len()
    }

    pub fn is_empty(&self) -> (r: bool)
        ensures
            r <==> self@.len() == 0,
    {
        self.inner.len() == 0
    }

    /// Lowest price of the table.
    pub fn first_key(&self) -> (r: Option<Price>)
        ensures
            self@.len() == 0 ==> r is None,
            self@.len() > 0 ==> (r matches Some(k) && k@ == self@[0].0),
    {
        if self.inner.len() == 0 {
            None
        } else {
            Some(self.inner[0].0)
        }
    }

    /// Highest price of the table.
    pub fn last_key(&self) -> (r: Option<Price>)
        ensures
            self@.len() == 0 ==> r is None,
            self@.len() > 0 ==> (r matches Some(k) && k@ == self@.last().0),
    {
        if self.inner.len() == 0 {
            None
        } else {
            Some(self.inner[self.inner.len() - 1].0)
        }
    }

    /// Position of the entry at `price`, if there is one.
    pub fn position(&self, price: &Price) -> (r: Option<usize>)
        requires
            self.wf(),
        ensures
            r matches Some(i) ==> i < self@.len() && self@[i as int].0 == price@,
            r is None ==> forall|i: int| 0 <= i < self@.len() ==> #[trigger] self@[i].0 != price@,
    {
        let mut lo: usize = 0;
        let mut hi: usize = self.inner.len();
        while lo < hi
            invariant
                self.wf(),
                0 <= lo <= hi <= self@.len(),
                forall|i: int| 0 <= i < lo ==> #[trigger] self@[i].0 < price@,
                forall|i: int| hi <= i < self@.len() ==> #[trigger] self@[i].0 > price@,
            decreases hi - lo,
        {
            let mid = lo + (hi - lo) / 2;
            let k = self.inner[mid].0.ticks;
            assert(k == self@[mid as int].0);
            if k == price.ticks {
                return Some(mid);
            } else if k < price.ticks {
                assert forall|i: int| 0 <= i < mid + 1 implies #[trigger] self@[i].0 < price@ by {
                    if i < mid {
                        assert(self@[i].0 < self@[mid as int].0);
                    }
                }
                lo = mid + 1;
            } else {
                assert forall|i: int| mid <= i < self@.len() implies #[trigger] self@[i].0
                    > price@ by {
                    if i > mid {
                        assert(self@[mid as int].0 < self@[i].0);
                    }
                }
                hi = mid;
            }
        }
        None
    }

    /// Profit stored at `price`, if the table has that price.
    pub fn get(&self, price: &Price) -> (r: Option<Price>)
        requires
            self.wf(),
        ensures
            r matches Some(v) ==> exists|i: int|
                0 <= i < self@.len() && #[trigger] self@[i] == (price@, v@),
            r is None ==> forall|i: int| 0 <= i < self@.len() ==> #[trigger] self@[i].0 != price@,
    {
        match self.position(price) {
            Some(i) => {
                let v = self.inner[i].1;
                assert(self@[i as int] == (price@, v@));
                Some(v)
            },
            None => None,
        }
    }
}

/// Increasing positions of a price range hold increasing prices.
pub proof fn lemma_price_range_increasing(start: int, end: int, step: int)
    requires
        step > 0,
    ensures
        forall|i: int, j: int|
            0 <= i < j < price_range(start, end, step).len() ==> #[trigger] price_range(
                start,
                end,
                step,
            )[i] < #[trigger] price_range(start, end, step)[j],
{
    assert forall|i: int, j: int|
        0 <= i < j < price_range(start, end, step).len() implies #[trigger] price_range(
        start,
        end,
        step,
    )[i] < #[trigger] price_range(start, end, step)[j] by {
        assert(i * step < j * step) by (nonlinear_arith)
            requires i < j, step > 0;
    }
}

impl OptionContract {
    /// Profit of this contract at price `p`.
    pub open spec fn spec_payoff(&self, p: int) -> int {
        payoff_value(self.option_type, self.side, self.strike@, self.premium@, p)
    }

    /// Strike and premium lie within the price bound.
    pub open spec fn terms_ok(&self) -> bool {
        in_limit(self.strike@) && in_limit(self.premium@)
    }

    /// The table this contract materializes over `strike - offset ..= strike + offset`.
    pub open spec fn payoff_table(&self, offset: int) -> Seq<(int, int)> {
        price_range(self.strike@ - offset, self.strike@ + offset, TICKS_PER_UNIT as int).map_values(
            |p: int| (p, self.spec_payoff(p)),
        )
    }

    /// Terms within bounds, and a table (possibly empty) with increasing prices, each
    /// within the range bound and holding this contract's profit at that price.
    pub open spec fn wf(&self) -> bool {
        &&& self.terms_ok()
        &&& self.payoff.wf()
        &&& forall|i: int|
            0 <= i < self.payoff@.len() ==> bound_ok(#[trigger] self.payoff@[i].0)
                && self.payoff@[i].1 == self.spec_payoff(self.payoff@[i].0)
    }

    /// Intrinsic profit at `price`: for a long position (also when no side is set)
    /// floored at minus the premium, for a short one capped at the premium.
    pub fn get_price_payoff(&self, price: &Price) -> (r: Price)
        requires
            self.terms_ok(),
            bound_ok(price@),
        ensures
            r@ == self.spec_payoff(price@),
    {
        let k = self.strike.ticks;
        let c = self.premium.ticks;
        let p = price.ticks;
        let short = match self.side {
            Some(side) => side.is_short(),
            None => false,
        };
        let t = match self.option_type {
            OptionType::Call => if short {
                if c <= k - p + c { c } else { k - p + c }
            } else {
                if -c >= p - k - c { -c } else { p - k - c }
            },
            OptionType::Put => if short {
                if c <= p - k + c { c } else { p - k + c }
            } else {
                if -c >= k - p - c { -c } else { k - p - c }
            },
        };
        Price { ticks: t }
    }

    /// Fills the payoff table afresh over `strike - offset ..= strike + offset` at unit
    /// step (ten units each way when `offset` is `None`), discarding what it held.
    pub fn get_profit_structure(&mut self, offset: Option<Price>)
        requires
            old(self).terms_ok(),
            offset matches Some(o) ==> in_limit(o@),
        ensures
            final(self).side == old(self).side,
            final(self).option_type == old(self).option_type,
            final(self).strike == old(self).strike,
            final(self).expiration == old(self).expiration,
            final(self).premium == old(self).premium,
            final(self).greeks == old(self).greeks,
            final(self).payoff@ == final(self).payoff_table(
                match offset {
                    Some(o) => o@,
                    None => DEFAULT_OFFSET as int,
                },
            ),
            final(self).wf(),
    {
        let offset = match offset {
            Some(o) => o,
            None => Price { ticks: DEFAULT_OFFSET },
        };
        let prices = helpers::gen_offset_range(self.strike, offset);
        let ghost range = price_range(
            self.strike@ - offset@,
            self.strike@ + offset@,
            TICKS_PER_UNIT as int,
        );
        proof {
            lemma_price_range_increasing(
                self.strike@ - offset@,
                self.strike@ + offset@,
                TICKS_PER_UNIT as int,
            );
            helpers::lemma_price_range_properties(
                self.strike@ - offset@,
                self.strike@ + offset@,
                TICKS_PER_UNIT as int,
            );
            assert forall|j: int| 0 <= j < prices@.len() implies #[trigger] prices@[j]@ == range[j] by {
                assert(prices@.map_values(|p: Price| p@)[j] == range[j]);
            }
        }
        let mut inner: Vec<(Price, Price)> = Vec::new();
        let mut i: usize = 0;
        while i < prices.len()
            invariant
                self.terms_ok(),
                in_limit(offset@),
                prices@.len() == range.len(),
                forall|j: int| 0 <= j < prices@.len() ==> #[trigger] prices@[j]@ == range[j],
                forall|j: int|
                    0 <= j < range.len() ==> self.strike@ - offset@ <= #[trigger] range[j]
                        <= self.strike@ + offset@,
                0 <= i <= prices@.len(),
                inner@.len() == i,
                forall|j: int|
                    0 <= j < i ==> (#[trigger] inner@[j]).0@ == range[j] && inner@[j].1@
                        == self.spec_payoff(range[j]),
            decreases prices@.len() - i,
        {
            let p = prices[i];
            assert(p@ == range[i as int]);
            let v = self.get_price_payoff(&p);
            inner.push((p, v));
            i = i + 1;
        }
        self.payoff = PayoffStruct { inner };
        assert(self.payoff@ =~= self.payoff_table(offset@));
    }
}

impl OptionContract {
    /// Combines two contracts into a combination owning both. Its table covers the
    /// union of the two tables' bounds at unit step; at each price a table entry is
    /// used where the contract has one, and the contract's formula where it has none.
    /// An empty table on either side is refused.
    pub fn add(self, rhs: Self) -> (r: Result<OptionCombo, Error>)
        requires
            self.wf(),
            rhs.wf(),
        ensures
            r is Err <==> (self.payoff@.len() == 0 || rhs.payoff@.len() == 0),
            r matches Err(e) ==> e == Error::EmptyPayoff,
            r matches Ok(c) ==> c.legs@ == seq![self, rhs],
            r matches Ok(c) ==> c.payoff@ == merged_table(self.payoff@, rhs.payoff@, seq![self, rhs]),
            r matches Ok(c) ==> c.wf(),
    {
        if self.payoff.is_empty() || rhs.payoff.is_empty() {
            return Err(Error::EmptyPayoff);
        }
        let a_first = self.payoff.inner[0].0;
        let a_last = self.payoff.inner[self.payoff.inner.len() - 1].0;
        let b_first = rhs.payoff.inner[0].0;
        let b_last = rhs.payoff.inner[rhs.payoff.inner.len() - 1].0;
        let lo = if a_first.ticks <= b_first.ticks { a_first } else { b_first };
        let hi = if a_last.ticks >= b_last.ticks { a_last } else { b_last };
        let ghost legs = seq![self, rhs];
        proof {
            assert(bound_ok(self.payoff@[0].0));
            assert(bound_ok(self.payoff@[self.payoff@.len() - 1].0));
            assert(bound_ok(rhs.payoff@[0].0));
            assert(bound_ok(rhs.payoff@[rhs.payoff@.len() - 1].0));
            helpers::lemma_price_range_properties(lo@, hi@, TICKS_PER_UNIT as int);
            lemma_price_range_increasing(lo@, hi@, TICKS_PER_UNIT as int);
            assert forall|q: int| legs_payoff(legs, q) == self.spec_payoff(q) + rhs.spec_payoff(q) by {
                lemma_pair_payoff(self, rhs, q);
            }
        }
        let prices = helpers::gen_dec_range(&lo, &hi);
        let ghost range = price_range(lo@, hi@, TICKS_PER_UNIT as int);
        proof {
            assert forall|j: int| 0 <= j < prices@.len() implies #[trigger] prices@[j]@ == range[j] by {
                assert(prices@.map_values(|p: Price| p@)[j] == range[j]);
            }
        }
        let mut inner: Vec<(Price, Price)> = Vec::new();
        let mut i: usize = 0;
        while i < prices.len()
            invariant
                self.wf(),
                rhs.wf(),
                legs == seq![self, rhs],
                forall|q: int| legs_payoff(legs, q) == self.spec_payoff(q) + rhs.spec_payoff(q),
                prices@.len() == range.len(),
                forall|j: int| 0 <= j < prices@.len() ==> #[trigger] prices@[j]@ == range[j],
                forall|j: int| 0 <= j < range.len() ==> lo@ <= #[trigger] range[j] <= hi@,
                bound_ok(lo@),
                bound_ok(hi@),
                0 <= i <= prices@.len(),
                inner@.len() == i,
                forall|j: int|
                    0 <= j < i ==> (#[trigger] inner@[j]).0@ == range[j] && inner@[j].1@
                        == legs_payoff(legs, range[j]),
            decreases prices@.len() - i,
        {
            let p = prices[i];
            assert(p@ == range[i as int]);
            let va = match self.payoff.position(&p) {
                Some(j) => {
                    assert(self.payoff@[j as int].1 == self.spec_payoff(p@));
                    self.payoff.inner[j].1
                },
                None => self.get_price_payoff(&p),
            };
            let vb = match rhs.payoff.position(&p) {
                Some(j) => {
                    assert(rhs.payoff@[j as int].1 == rhs.spec_payoff(p@));
                    rhs.payoff.inner[j].1
                },
                None => rhs.get_price_payoff(&p),
            };
            proof {
                lemma_payoff_bound(self, p@);
                lemma_payoff_bound(rhs, p@);
            }
            inner.push((p, Price { ticks: va.ticks + vb.ticks }));
            i = i + 1;
        }
        let payoff = PayoffStruct { inner };
        assert(payoff@ =~= merged_table(self.payoff@, rhs.payoff@, legs));
        let combo = OptionCombo::new(vec![self, rhs], payoff);
        assert(combo.legs@ =~= legs);
        Ok(combo)
    }
}

} // verus!
