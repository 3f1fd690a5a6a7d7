use vstd::prelude::*;

use super::profits::{PayoffStruct, DEFAULT_OFFSET};
use super::{OptionType, PositionSide};
use crate::helpers::{self, bound_ok, price_range};
use crate::price::{in_limit, Price, TICKS_PER_UNIT};
use crate::Error;

verus! {

/// Sensitivities of an option's price; not computed yet, so all zero.
#[derive(Clone, Copy, Debug)]
pub struct Greeks {
    delta: Price,
    gamma: Price,
    theta: Price,
    vega: Price,
}

impl Greeks {
    /// Whether every sensitivity is zero.
    pub closed spec fn is_zero(&self) -> bool {
        self.delta@ == 0 && self.gamma@ == 0 && self.theta@ == 0 && self.vega@ == 0
    }
}

impl Default for Greeks {
    fn default() -> (r: Greeks)
        ensures
            r.is_zero(),
    {
        let zero = Price { ticks: 0 };
        Greeks { delta: zero, gamma: zero, theta: zero, vega: zero }
    }
}

/// Basic call or put option contract, with its payoff table.
#[derive(Clone, Debug)]
pub struct OptionContract {
    pub side: Option<PositionSide>,
    pub option_type: OptionType,
    pub strike: Price,
    pub expiration: chrono::NaiveDate,
    pub premium: Price,
    pub payoff: PayoffStruct,
    pub greeks: Greeks,
}

impl OptionContract {
    /// A contract whose payoff table is materialized at once over
    /// `strike - payoff_offset ..= strike + payoff_offset` (ten units each way by default).
    pub fn new(
        side: Option<PositionSide>,
        option_type: OptionType,
        strike: Price,
        expiration: chrono::NaiveDate,
        premium: Price,
        payoff_offset: Option<Price>,
    ) -> (r: Self)
        requires
            in_limit(strike@),
            in_limit(premium@),
            payoff_offset matches Some(o) ==> in_limit(o@),
        ensures
            r.side == side,
            r.option_type == option_type,
            r.strike == strike,
            r.expiration == expiration,
            r.premium == premium,
            r.greeks.is_zero(),
            r.payoff@ == r.payoff_table(
                match payoff_offset {
                    Some(o) => o@,
                    None => DEFAULT_OFFSET as int,
                },
            ),
            r.wf(),
    {
        let mut contract = Self {
            side,
            option_type,
            strike,
            expiration,
            premium,
            payoff: PayoffStruct::default(),
            greeks: Greeks::default(),
        };
        contract.get_profit_structure(payoff_offset);
        contract
    }
}

/// Bound on the magnitude of one contract's profit at a price within the range bound
/// (four times the price bound).
pub const PAYOFF_LIMIT: i128 = 0x4000_0000_0000_0000;

/// Smaller of two prices.
pub open spec fn min_int(a: int, b: int) -> int {
    if a <= b { a } else { b }
}

/// Larger of two prices.
pub open spec fn max_int(a: int, b: int) -> int {
    if a >= b { a } else { b }
}

/// Total profit of `legs` at price `p`.
pub open spec fn legs_payoff(legs: Seq<OptionContract>, p: int) -> int
    decreases legs.len(),
{
    if legs.len() == 0 {
        0
    } else {
        legs_payoff(legs.drop_last(), p) + legs.last().spec_payoff(p)
    }
}

/// Whether every leg has its terms within bounds.
pub open spec fn legs_ok(legs: Seq<OptionContract>) -> bool {
    forall|i: int| 0 <= i < legs.len() ==> (#[trigger] legs[i]).terms_ok()
}

/// The table over `lo ..= hi` at unit step whose profit at each price is that of `legs`.
pub open spec fn summed_table(lo: int, hi: int, legs: Seq<OptionContract>) -> Seq<(int, int)> {
    price_range(lo, hi, TICKS_PER_UNIT as int).map_values(|p: int| (p, legs_payoff(legs, p)))
}

/// Lowest price of a non-empty table.
pub open spec fn first_price(t: Seq<(int, int)>) -> int {
    t[0].0
}

/// Highest price of a non-empty table.
pub open spec fn last_price(t: Seq<(int, int)>) -> int {
    t.last().0
}

/// The table that combining two tables for `legs` gives: the union of their bounds at
/// unit step, with the total profit of `legs` at each price.
pub open spec fn merged_table(
    t1: Seq<(int, int)>,
    t2: Seq<(int, int)>,
    legs: Seq<OptionContract>,
) -> Seq<(int, int)> {
    summed_table(
        min_int(first_price(t1), first_price(t2)),
        max_int(last_price(t1), last_price(t2)),
        legs,
    )
}

/// The profit of one contract stays within `PAYOFF_LIMIT` at prices within the range bound.
pub proof fn lemma_payoff_bound(c: OptionContract, p: int)
    requires
        c.terms_ok(),
        bound_ok(p),
    ensures
        -PAYOFF_LIMIT <= c.spec_payoff(p) <= PAYOFF_LIMIT,
{
}

/// The total profit of `n` legs stays within `n * PAYOFF_LIMIT`.
pub proof fn lemma_legs_payoff_bound(legs: Seq<OptionContract>, p: int)
    requires
        legs_ok(legs),
        bound_ok(p),
    ensures
        -(legs.len() * PAYOFF_LIMIT) <= legs_payoff(legs, p) <= legs.len() * PAYOFF_LIMIT,
    decreases legs.len(),
{
    if legs.len() > 0 {
        let init = legs.drop_last();
        assert(legs_ok(init)) by {
            assert forall|i: int| 0 <= i < init.len() implies (#[trigger] init[i]).terms_ok() by {
                assert(init[i] == legs[i]);
            }
        }
        lemma_legs_payoff_bound(init, p);
        lemma_payoff_bound(legs.last(), p);
        assert(legs.len() * PAYOFF_LIMIT == init.len() * PAYOFF_LIMIT + PAYOFF_LIMIT) by (nonlinear_arith)
            requires legs.len() == init.len() + 1;
    }
}

/// The total profit of two legs is the sum of their profits.
pub proof fn lemma_pair_payoff(a: OptionContract, b: OptionContract, p: int)
    ensures
        legs_payoff(seq![a, b], p) == a.spec_payoff(p) + b.spec_payoff(p),
{
    let legs = seq![a, b];
    assert(legs.drop_last() =~= seq![a]);
    assert(legs.drop_last().drop_last() =~= Seq::<OptionContract>::empty());
    reveal_with_fuel(legs_payoff, 3);
}

/// Total profit of the first `n` legs, then of one more.
proof fn lemma_legs_payoff_take(legs: Seq<OptionContract>, n: int, p: int)
    requires
        0 <= n < legs.len(),
    ensures
        legs_payoff(legs.take(n + 1), p) == legs_payoff(legs.take(n), p) + legs[n].spec_payoff(p),
{
    assert(legs.take(n + 1).drop_last() =~= legs.take(n));
}

/// Total profit of `legs` at `price`, each leg evaluated by its formula.
pub fn legs_payoff_at(legs: &Vec<OptionContract>, price: &Price) -> (r: Price)
    requires
        legs_ok(legs@),
        bound_ok(price@),
    ensures
        r@ == legs_payoff(legs@, price@),
{
    let mut sum: i128 = 0;
    let mut k: usize = 0;
    assert(legs@.take(0) =~= Seq::<OptionContract>::empty());
    while k < legs.len()
        invariant
            legs_ok(legs@),
            bound_ok(price@),
            0 <= k <= legs@.len(),
            sum == legs_payoff(legs@.take(k as int), price@),
            -(k * PAYOFF_LIMIT) <= sum <= k * PAYOFF_LIMIT,
        decreases legs@.len() - k,
    {
        let leg = &legs[k];
        let v = leg.get_price_payoff(price);
        proof {
            lemma_payoff_bound(*leg, price@);
            lemma_legs_payoff_take(legs@, k as int, price@);
            assert(usize::MAX <= u64::MAX);
            assert((k + 1) * PAYOFF_LIMIT == k * PAYOFF_LIMIT + PAYOFF_LIMIT) by (nonlinear_arith);
            assert(k * PAYOFF_LIMIT <= 0x1_0000_0000_0000_0000 * PAYOFF_LIMIT) by (nonlinear_arith)
                requires k < 0x1_0000_0000_0000_0000;
        }
        sum = sum + v.ticks;
        k = k + 1;
    }
    assert(legs@.take(legs@.len() as int) =~= legs@);
    Price { ticks: sum }
}

/// Aggregate of two or more contracts sharing one combined payoff table.
#[derive(Clone, Debug)]
pub struct OptionCombo {
    pub legs: Vec<OptionContract>,
    pub payoff: PayoffStruct,
}

impl OptionCombo {
    /// Legs with terms within bounds, and a table with increasing prices, each within
    /// the range bound and holding the legs' total profit at that price.
    pub open spec fn wf(&self) -> bool {
        &&& legs_ok(self.legs@)
        &&& self.payoff.wf()
        &&& forall|i: int|
            0 <= i < self.payoff@.len() ==> bound_ok(#[trigger] self.payoff@[i].0)
                && self.payoff@[i].1 == legs_payoff(self.legs@, self.payoff@[i].0)
    }

    pub fn new(legs: Vec<OptionContract>, payoff: PayoffStruct) -> (r: Self)
        ensures
            r.legs == legs,
            r.payoff == payoff,
    {
        Self { legs, payoff }
    }

    /// Folds one more leg into the combination. The table is rebuilt over the union of
    /// the current bounds and the leg's, at unit step; an empty table on either side is
    /// refused and leaves the combination as it was.
    pub fn add_leg(&mut self, leg: OptionContract) -> (r: Result<(), Error>)
        requires
            old(self).wf(),
            leg.wf(),
        ensures
            r is Err <==> (old(self).payoff@.len() == 0 || leg.payoff@.len() == 0),
            r matches Err(e) ==> e == Error::EmptyPayoff && *final(self) == *old(self),
            r is Ok ==> final(self).legs@ == old(self).legs@.push(leg),
            r is Ok ==> final(self).payoff@ == merged_table(
                old(self).payoff@,
                leg.payoff@,
                final(self).legs@,
            ),
            final(self).wf(),
    {
        if self.payoff.is_empty() || leg.payoff.is_empty() {
            return Err(Error::EmptyPayoff);
        }
        let a_first = self.payoff.inner[0].0;
        let a_last = self.payoff.inner[self.payoff.inner.len() - 1].0;
        let b_first = leg.payoff.inner[0].0;
        let b_last = leg.payoff.inner[leg.payoff.inner.len() - 1].0;
        let lo = if a_first.ticks <= b_first.ticks { a_first } else { b_first };
        let hi = if a_last.ticks >= b_last.ticks { a_last } else { b_last };
        let ghost new_legs = self.legs@.push(leg);
        let ghost target = merged_table(self.payoff@, leg.payoff@, new_legs);
        proof {
            assert(bound_ok(self.payoff@[0].0));
            assert(bound_ok(self.payoff@[self.payoff@.len() - 1].0));
            assert(bound_ok(leg.payoff@[0].0));
            assert(bound_ok(leg.payoff@[leg.payoff@.len() - 1].0));
            helpers::lemma_price_range_properties(lo@, hi@, TICKS_PER_UNIT as int);
            super::profits::lemma_price_range_increasing(lo@, hi@, TICKS_PER_UNIT as int);
            assert(new_legs.drop_last() =~= self.legs@);
        }
        let prices = helpers::gen_dec_range(&lo, &hi);
        let ghost range = price_range(lo@, hi@, TICKS_PER_UNIT as int);
        proof {
            assert forall|j: int| 0 <= j < prices@.len() implies #[trigger] prices@[j]@ == range[j] by {
                assert(prices@.map_values(|p: Price| p@)[j] == range[j]);
            }
        }
        let n_legs: usize = self.legs.len();
        let mut inner: Vec<(Price, Price)> = Vec::new();
        let mut i: usize = 0;
        while i < prices.len()
            invariant
                n_legs == self.legs@.len(),
                self.wf(),
                leg.wf(),
                new_legs == self.legs@.push(leg),
                new_legs.drop_last() == self.legs@,
                prices@.len() == range.len(),
                forall|j: int| 0 <= j < prices@.len() ==> #[trigger] prices@[j]@ == range[j],
                forall|j: int| 0 <= j < range.len() ==> lo@ <= #[trigger] range[j] <= hi@,
                bound_ok(lo@),
                bound_ok(hi@),
                0 <= i <= prices@.len(),
                inner@.len() == i,
                forall|j: int|
                    0 <= j < i ==> (#[trigger] inner@[j]).0@ == range[j] && inner@[j].1@
                        == legs_payoff(new_legs, range[j]),
            decreases prices@.len() - i,
        {
            let p = prices[i];
            assert(p@ == range[i as int]);
            let va = match self.payoff.position(&p) {
                Some(j) => {
                    assert(self.payoff@[j as int].1 == legs_payoff(self.legs@, p@));
                    self.payoff.inner[j].1
                },
                None => legs_payoff_at(&self.legs, &p),
            };
            let vb = match leg.payoff.position(&p) {
                Some(j) => {
                    assert(leg.payoff@[j as int].1 == leg.spec_payoff(p@));
                    leg.payoff.inner[j].1
                },
                None => leg.get_price_payoff(&p),
            };
            proof {
                lemma_legs_payoff_bound(self.legs@, p@);
                lemma_payoff_bound(leg, p@);
                assert(usize::MAX <= u64::MAX);
                let n = n_legs as int;
                assert(n * PAYOFF_LIMIT <= 0x1_0000_0000_0000_0000 * PAYOFF_LIMIT) by (nonlinear_arith)
                    requires n < 0x1_0000_0000_0000_0000;
            }
            inner.push((p, Price { ticks: va.ticks + vb.ticks }));
            i = i + 1;
        }
        self.payoff = PayoffStruct { inner };
        self.legs.push(leg);
        proof {
            assert(self.legs@ == new_legs);
            assert(self.payoff@ =~= target);
            assert(legs_ok(new_legs)) by {
                assert forall|k: int| 0 <= k < new_legs.len() implies (#[trigger] new_legs[k]).terms_ok() by {
                    if k < new_legs.len() - 1 {
                        assert(new_legs[k] == new_legs.drop_last()[k]);
                    }
                }
            }
        }
        Ok(())
    }
}

/// Legs making up a spread.
pub struct Spread {
    pub legs: Vec<OptionContract>,
}

impl Spread {
    pub fn new(legs: Vec<OptionContract>) -> (r: Self)
        ensures
            r.legs == legs,
    {
        Self { legs }
    }
}

/// Call and put legs making up a straddle, with the side taken.
pub struct Straddle {
    pub side: Option<PositionSide>,
    pub call_legs: Vec<OptionContract>,
    pub put_legs: Vec<OptionContract>,
}

impl Straddle {
    pub fn new(
        side: Option<PositionSide>,
        call_legs: Vec<OptionContract>,
        put_legs: Vec<OptionContract>,
    ) -> (r: Self)
        ensures
            r.side == side,
            r.call_legs == call_legs,
            r.put_legs == put_legs,
    {
        Self { side, call_legs, put_legs }
    }
}

/// Legs making up a strangle, with the side taken.
pub struct Strangle {
    pub side: Option<PositionSide>,
    pub legs: Vec<OptionContract>,
}

impl Strangle {
    pub fn new(side: Option<PositionSide>, legs: Vec<OptionContract>) -> (r: Self)
        ensures
            r.side == side,
            r.legs == legs,
    {
        Self { side, legs }
    }
}

} // verus!
