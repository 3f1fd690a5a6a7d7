use vstd::prelude::*;

use crate::price::{in_limit, Price, PRICE_LIMIT, TICKS_PER_UNIT};
use crate::Error;

verus! {

/// Number of points from `start` up to `end` at `step`: none when `start > end`.
pub open spec fn range_len(start: int, end: int, step: int) -> nat {
    if start > end {
        0
    } else {
        ((end - start) / step + 1) as nat
    }
}

/// The prices `start, start + step, start + 2 * step, ...` that do not exceed `end`.
pub open spec fn price_range(start: int, end: int, step: int) -> Seq<int> {
    Seq::new(range_len(start, end, step), |i: int| start + i * step)
}

/// Whether a range bound lies within twice the price bound (a strike plus an offset).
pub open spec fn bound_ok(t: int) -> bool {
    -2 * PRICE_LIMIT <= t <= 2 * PRICE_LIMIT
}

/// Every emitted value lies between the bounds, consecutive values differ by exactly
/// `step`, and there are `floor((end - start) / step) + 1` of them when `start <= end`.
pub proof fn lemma_price_range_properties(start: int, end: int, step: int)
    requires
        step > 0,
    ensures
        start > end ==> price_range(start, end, step).len() == 0,
        start <= end ==> price_range(start, end, step).len() == (end - start) / step + 1,
        forall|i: int|
            0 <= i < price_range(start, end, step).len() ==> start <= #[trigger] price_range(
                start,
                end,
                step,
            )[i] <= end,
        forall|i: int|
            0 <= i < price_range(start, end, step).len() - 1 ==> #[trigger] price_range(
                start,
                end,
                step,
            )[i + 1] == price_range(start, end, step)[i] + step,
{
    let s = price_range(start, end, step);
    assert forall|i: int| 0 <= i < s.len() implies start <= #[trigger] s[i] <= end by {
        let q = (end - start) / step;
        assert(q * step <= end - start) by (nonlinear_arith)
            requires step > 0, q == (end - start) / step, end - start >= 0;
        assert(i * step <= q * step) by (nonlinear_arith)
            requires 0 <= i <= q, step > 0;
        assert(0 <= i * step) by (nonlinear_arith)
            requires 0 <= i, step > 0;
    }
    assert forall|i: int| 0 <= i < s.len() - 1 implies #[trigger] s[i + 1] == s[i] + step by {
        assert((i + 1) * step == i * step + step) by (nonlinear_arith);
    }
}

/// Prices from `start` up to `end`, both included where they fall on a step, `step`
/// apart (one unit when `step` is `None`). A step that is not positive is refused.
pub fn gen_dec_range_w_step(start: &Price, end: &Price, step: Option<Price>) -> (r: Result<
    Vec<Price>,
    Error,
>)
    requires
        bound_ok(start@),
        bound_ok(end@),
        step matches Some(s) ==> s@ <= PRICE_LIMIT,
    ensures
        r is Err <==> (step matches Some(s) && s@ <= 0),
        r matches Err(e) ==> e == Error::InvalidRange,
        r matches Ok(v) ==> v@.map_values(|p: Price| p@) == price_range(
            start@,
            end@,
            match step {
                Some(s) => s@,
                None => TICKS_PER_UNIT as int,
            },
        ),
{
    let step_ticks: i128 = match step {
        Some(s) => s.ticks,
        None => TICKS_PER_UNIT,
    };
    if step_ticks <= 0 {
        return Err(Error::InvalidRange);
    }
    Ok(stepped_range(start.ticks, end.ticks, step_ticks))
}

/// Prices from `start` up to `end`, one unit apart.
pub fn gen_dec_range(start: &Price, end: &Price) -> (r: Vec<Price>)
    requires
        bound_ok(start@),
        bound_ok(end@),
    ensures
        r@.map_values(|p: Price| p@) == price_range(start@, end@, TICKS_PER_UNIT as int),
{
    stepped_range(start.ticks, end.ticks, TICKS_PER_UNIT)
}

/// Prices one unit apart from `center - offset` up to `center + offset`.
pub fn gen_offset_range(center: Price, offset: Price) -> (r: Vec<Price>)
    requires
        in_limit(center@),
        in_limit(offset@),
    ensures
        r@.map_values(|p: Price| p@) == price_range(
            center@ - offset@,
            center@ + offset@,
            TICKS_PER_UNIT as int,
        ),
{
    let start = Price { ticks: center.ticks - offset.ticks };
    let end = Price { ticks: center.ticks + offset.ticks };
    gen_dec_range(&start, &end)
}

fn stepped_range(start: i128, end: i128, step: i128) -> (r: Vec<Price>)
    requires
        bound_ok(start as int),
        bound_ok(end as int),
        0 < step <= PRICE_LIMIT,
    ensures
        r@.map_values(|p: Price| p@) == price_range(start as int, end as int, step as int),
{
    let mut range: Vec<Price> = Vec::new();
    let mut pointer: i128 = start;
    let ghost mut i: int = 0;
    while pointer <= end
        invariant
            bound_ok(start as int),
            bound_ok(end as int),
            0 < step <= PRICE_LIMIT,
            0 <= i,
            pointer == start + i * step,
            i > 0 ==> pointer <= end + step,
            i > 0 ==> start <= end,
            range@.len() == i,
            forall|j: int| 0 <= j < i ==> #[trigger] range@[j]@ == start + j * step,
        decreases end - pointer + step,
    {
        range.push(Price { ticks: pointer });
        proof {
            assert(i * step >= 0) by (nonlinear_arith)
                requires i >= 0, step > 0;
            assert((i + 1) * step == i * step + step) by (nonlinear_arith);
            i = i + 1;
        }
        pointer = pointer + step;
    }
    proof {
        let n = range_len(start as int, end as int, step as int);
        if start <= end {
            let q = (end - start) / (step as int);
            assert(q * step <= end - start < (q + 1) * step) by (nonlinear_arith)
                requires step > 0, q == (end - start) / (step as int), end - start >= 0;
            assert((i - 1) * step <= end - start < i * step) by (nonlinear_arith)
                requires pointer == start + i * step, pointer > end, i >= 1, pointer - step <= end;
            assert(i == q + 1) by (nonlinear_arith)
                requires
                    q * step <= end - start < (q + 1) * step,
                    (i - 1) * step <= end - start < i * step,
                    step > 0;
        }
        assert(range@.map_values(|p: Price| p@).len() == price_range(start as int, end as int, step as int).len());
        assert(range@.map_values(|p: Price| p@) =~= price_range(start as int, end as int, step as int));
    }
    range
}

} // verus!
