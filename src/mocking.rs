use vstd::prelude::*;

use crate::calendar::valid_ymd;
use crate::price::Price;
use crate::structs::profits::PayoffStruct;
use crate::structs::strategies::{Greeks, OptionContract};
use crate::structs::OptionType;

verus! {

/// Whether `c` is a sample contract: no side, the given type, strike and premium (in
/// ticks), and a table not yet materialized.
pub open spec fn is_sample(c: OptionContract, option_type: OptionType, strike: int, premium: int) -> bool {
    &&& c.side is None
    &&& c.option_type == option_type
    &&& c.strike@ == strike
    &&& c.premium@ == premium
    &&& c.payoff@.len() == 0
    &&& c.greeks.is_zero()
    &&& c.wf()
}

fn sample_contract(option_type: OptionType, strike: i128, premium: i128, expiration: chrono::NaiveDate) -> (r: OptionContract)
    requires
        -1_000_000_000 <= strike <= 1_000_000_000,
        0 <= premium <= 1_000_000_000,
    ensures
        is_sample(r, option_type, strike as int, premium as int),
        r.expiration == expiration,
{
    OptionContract {
        side: None,
        option_type,
        strike: Price { ticks: strike },
        expiration,
        premium: Price { ticks: premium },
        payoff: PayoffStruct::default(),
        greeks: Greeks::default(),
    }
}

/// A fixed sample chain expiring on 2024-04-20: calls struck at 100 (premium 2.5) and
/// 105 (premium 1.5), puts struck at 95 (premium 2) and 90 (premium 1).
pub fn create_mock_option_chain() -> (r: Vec<OptionContract>)
    ensures
        r@.len() == 4,
        is_sample(r@[0], OptionType::Call, 1_000_000, 25_000),
        is_sample(r@[1], OptionType::Call, 1_050_000, 15_000),
        is_sample(r@[2], OptionType::Put, 950_000, 20_000),
        is_sample(r@[3], OptionType::Put, 900_000, 10_000),
{
    assert(valid_ymd(2024, 4, 20));
    let expiration = chrono::NaiveDate::from_ymd_opt(2024, 4, 20).unwrap();
    vec![
        sample_contract(OptionType::Call, 1_000_000, 25_000, expiration),
        sample_contract(OptionType::Call, 1_050_000, 15_000, expiration),
        sample_contract(OptionType::Put, 950_000, 20_000, expiration),
        sample_contract(OptionType::Put, 900_000, 10_000, expiration),
    ]
}

} // verus!
