use vstd::prelude::*;

use crate::helpers::{lemma_price_range_properties, price_range};
use crate::structs::profits::{keys_increasing, lemma_price_range_increasing};
use crate::structs::strategies::{
    first_price, last_price, lemma_pair_payoff, max_int, merged_table, min_int,
    OptionContract,
};
use crate::structs::{OptionType, PositionSide};
use crate::price::TICKS_PER_UNIT;

verus! {

/// Whether table `t` has an entry at price `p`.
pub open spec fn table_has(t: Seq<(int, int)>, p: int) -> bool {
    exists|i: int| 0 <= i < t.len() && #[trigger] t[i].0 == p
}

/// The profit that `t` stores at `p`, or `fallback` where it has no entry there.
pub open spec fn table_value_or(t: Seq<(int, int)>, p: int, fallback: int) -> int {
    if table_has(t, p) {
        t[choose|i: int| 0 <= i < t.len() && #[trigger] t[i].0 == p].1
    } else {
        fallback
    }
}

/// The reconciliation rule for two tables with formulas `f1` and `f2` behind them: over
/// the union of their bounds at unit step, each side contributes its stored profit where
/// it has the price and its formula where it does not.
pub open spec fn reconcile(
    t1: Seq<(int, int)>,
    t2: Seq<(int, int)>,
    f1: spec_fn(int) -> int,
    f2: spec_fn(int) -> int,
) -> Seq<(int, int)> {
    price_range(
        min_int(first_price(t1), first_price(t2)),
        max_int(last_price(t1), last_price(t2)),
        TICKS_PER_UNIT as int,
    ).map_values(|p: int| (p, table_value_or(t1, p, f1(p)) + table_value_or(t2, p, f2(p))))
}

/// A long position (also one without a side) never loses more than its premium; a
/// short one never gains more than its premium.
pub proof fn lemma_payoff_floor_cap(c: OptionContract, p: int)
    ensures
        c.side != Some(PositionSide::Short) ==> c.spec_payoff(p) >= -c.premium@,
        c.side == Some(PositionSide::Short) ==> c.spec_payoff(p) <= c.premium@,
{
}

/// A long call's profit does not fall as the price rises, a long put's does not rise;
/// for short positions the directions are reversed.
pub proof fn lemma_payoff_monotonic(c: OptionContract, p: int, q: int)
    requires
        p <= q,
    ensures
        c.side != Some(PositionSide::Short) && c.option_type == OptionType::Call ==> c.spec_payoff(p)
            <= c.spec_payoff(q),
        c.side != Some(PositionSide::Short) && c.option_type == OptionType::Put ==> c.spec_payoff(p)
            >= c.spec_payoff(q),
        c.side == Some(PositionSide::Short) && c.option_type == OptionType::Call ==> c.spec_payoff(p)
            >= c.spec_payoff(q),
        c.side == Some(PositionSide::Short) && c.option_type == OptionType::Put ==> c.spec_payoff(p)
            <= c.spec_payoff(q),
{
}

/// Combining `a` with `b` gives the same table as combining `b` with `a`.
pub proof fn lemma_combine_commutative(a: OptionContract, b: OptionContract)
    ensures
        merged_table(a.payoff@, b.payoff@, seq![a, b]) == merged_table(
            b.payoff@,
            a.payoff@,
            seq![b, a],
        ),
{
    let t1 = merged_table(a.payoff@, b.payoff@, seq![a, b]);
    let t2 = merged_table(b.payoff@, a.payoff@, seq![b, a]);
    assert forall|i: int| 0 <= i < t1.len() implies #[trigger] t1[i] == t2[i] by {
        lemma_pair_payoff(a, b, t1[i].0);
        lemma_pair_payoff(b, a, t1[i].0);
    }
    assert(t1 =~= t2);
}

/// Combining two contracts follows the reconciliation rule: stored profit where a
/// contract's table has the price, its formula where it does not.
pub proof fn lemma_combine_is_reconciliation(a: OptionContract, b: OptionContract)
    requires
        a.wf(),
        b.wf(),
    ensures
        merged_table(a.payoff@, b.payoff@, seq![a, b]) == reconcile(
            a.payoff@,
            b.payoff@,
            |p: int| a.spec_payoff(p),
            |p: int| b.spec_payoff(p),
        ),
{
    let t = merged_table(a.payoff@, b.payoff@, seq![a, b]);
    let r = reconcile(a.payoff@, b.payoff@, |p: int| a.spec_payoff(p), |p: int| b.spec_payoff(p));
    assert forall|i: int| 0 <= i < t.len() implies #[trigger] t[i] == r[i] by {
        let p = t[i].0;
        lemma_pair_payoff(a, b, p);
        if table_has(a.payoff@, p) {
            let j = choose|j: int| 0 <= j < a.payoff@.len() && #[trigger] a.payoff@[j].0 == p;
            assert(a.payoff@[j].1 == a.spec_payoff(a.payoff@[j].0));
        }
        if table_has(b.payoff@, p) {
            let j = choose|j: int| 0 <= j < b.payoff@.len() && #[trigger] b.payoff@[j].0 == p;
            assert(b.payoff@[j].1 == b.spec_payoff(b.payoff@[j].0));
        }
    }
    assert(t =~= r);
}

/// Adding leg `c` to the combination of `a` and `b` gives the table that the
/// reconciliation rule gives for the combined table of `a` and `b` (with formula
/// `a + b`) and the table of `c`; at each price it holds the sum of the three profits.
pub proof fn lemma_add_leg_matches_pairwise(a: OptionContract, b: OptionContract, c: OptionContract)
    requires
        a.wf(),
        b.wf(),
        c.wf(),
        a.payoff@.len() > 0,
        b.payoff@.len() > 0,
        c.payoff@.len() > 0,
    ensures
        ({
            let ab = merged_table(a.payoff@, b.payoff@, seq![a, b]);
            let t = merged_table(ab, c.payoff@, seq![a, b].push(c));
            &&& t == reconcile(
                ab,
                c.payoff@,
                |p: int| a.spec_payoff(p) + b.spec_payoff(p),
                |p: int| c.spec_payoff(p),
            )
            &&& forall|i: int|
                0 <= i < t.len() ==> #[trigger] t[i].1 == a.spec_payoff(t[i].0) + b.spec_payoff(
                    t[i].0,
                ) + c.spec_payoff(t[i].0)
        }),
{
    let ab = merged_table(a.payoff@, b.payoff@, seq![a, b]);
    let legs = seq![a, b].push(c);
    let t = merged_table(ab, c.payoff@, legs);
    let r = reconcile(
        ab,
        c.payoff@,
        |p: int| a.spec_payoff(p) + b.spec_payoff(p),
        |p: int| c.spec_payoff(p),
    );
    let lo = min_int(a.payoff@[0].0, b.payoff@[0].0);
    let hi = max_int(a.payoff@.last().0, b.payoff@.last().0);
    lemma_price_range_properties(lo, hi, TICKS_PER_UNIT as int);
    assert(ab.len() > 0);
    assert(legs.drop_last() == seq![a, b]);
    assert forall|i: int| 0 <= i < t.len() implies #[trigger] t[i] == r[i] && t[i].1
        == a.spec_payoff(t[i].0) + b.spec_payoff(t[i].0) + c.spec_payoff(t[i].0) by {
        let p = t[i].0;
        lemma_pair_payoff(a, b, p);
        if table_has(ab, p) {
            let j = choose|j: int| 0 <= j < ab.len() && #[trigger] ab[j].0 == p;
            lemma_pair_payoff(a, b, ab[j].0);
        }
        if table_has(c.payoff@, p) {
            let j = choose|j: int| 0 <= j < c.payoff@.len() && #[trigger] c.payoff@[j].0 == p;
            assert(c.payoff@[j].1 == c.spec_payoff(c.payoff@[j].0));
        }
    }
    assert(t =~= r);
}

/// Where the two tables' bounds lie a whole number of units apart, the combined table
/// runs from the lower of the two lowest prices to the higher of the two highest, one
/// unit apart, each price once.
pub proof fn lemma_combined_domain(a: OptionContract, b: OptionContract)
    requires
        a.wf(),
        b.wf(),
        a.payoff@.len() > 0,
        b.payoff@.len() > 0,
        (max_int(a.payoff@.last().0, b.payoff@.last().0) - min_int(a.payoff@[0].0, b.payoff@[0].0))
            % (TICKS_PER_UNIT as int) == 0,
    ensures
        ({
            let t = merged_table(a.payoff@, b.payoff@, seq![a, b]);
            &&& t.len() > 0
            &&& first_price(t) == min_int(a.payoff@[0].0, b.payoff@[0].0)
            &&& last_price(t) == max_int(a.payoff@.last().0, b.payoff@.last().0)
            &&& keys_increasing(t)
            &&& forall|i: int| 0 <= i < t.len() - 1 ==> #[trigger] t[i + 1].0 == t[i].0 + TICKS_PER_UNIT
        }),
{
    let lo = min_int(a.payoff@[0].0, b.payoff@[0].0);
    let hi = max_int(a.payoff@.last().0, b.payoff@.last().0);
    let u = TICKS_PER_UNIT as int;
    let t = merged_table(a.payoff@, b.payoff@, seq![a, b]);
    let s = price_range(lo, hi, u);
    lemma_price_range_properties(lo, hi, u);
    lemma_price_range_increasing(lo, hi, u);
    assert(lo <= a.payoff@[0].0 <= a.payoff@.last().0 <= hi) by {
        if a.payoff@.len() > 1 {
            assert(a.payoff@[0].0 < a.payoff@[a.payoff@.len() - 1].0);
        }
    }
    let q = (hi - lo) / u;
    assert(q * u == hi - lo) by (nonlinear_arith)
        requires (hi - lo) % u == 0, q == (hi - lo) / u, u > 0;
    assert(s[s.len() - 1] == hi);
    assert forall|i: int, j: int| 0 <= i < j < t.len() implies #[trigger] t[i].0 < #[trigger] t[j].0 by {
        assert(s[i] < s[j]);
    }
    assert forall|i: int| 0 <= i < t.len() - 1 implies #[trigger] t[i + 1].0 == t[i].0 + TICKS_PER_UNIT by {
        assert(s[i + 1] == s[i] + u);
    }
}

} // verus!
