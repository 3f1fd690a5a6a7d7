use option_payoffs::helpers::{gen_dec_range, gen_dec_range_w_step, gen_offset_range};
use option_payoffs::mocking::create_mock_option_chain;
use option_payoffs::price::Price;
use option_payoffs::structs::profits::PayoffStruct;
use option_payoffs::structs::strategies::{OptionCombo, OptionContract, Spread, Straddle, Strangle};
use option_payoffs::structs::{OptionType, PositionSide};
use option_payoffs::Error;

fn units(n: i64) -> Price {
    Price::from_units(n)
}

fn dec(mantissa: i128, scale: u32) -> Price {
    Price::from_parts(mantissa, scale).unwrap()
}

fn expiry() -> chrono::NaiveDate {
    chrono::NaiveDate::from_ymd_opt(2024, 4, 20).unwrap()
}

fn contract(side: Option<PositionSide>, kind: OptionType, strike: Price, premium: Price, offset: Option<Price>) -> OptionContract {
    OptionContract::new(side, kind, strike, expiry(), premium, offset)
}

fn keys(p: &PayoffStruct) -> Vec<Price> {
    p.inner.iter().map(|e| e.0).collect()
}

#[test]
fn price_from_parts_scales_to_ticks() {
    assert_eq!(dec(25, 1).ticks(), 25_000);
    assert_eq!(dec(1000, 1), units(100));
    assert_eq!(dec(-15, 0).ticks(), -150_000);
    assert_eq!(Price::from_parts(1, 5), None);
    assert_eq!(Price::from_parts(i128::MAX, 0), None);
}

#[test]
fn range_with_step_counts_and_bounds() {
    let r = gen_dec_range_w_step(&units(1), &units(10), Some(units(3))).unwrap();
    assert_eq!(r, vec![units(1), units(4), units(7), units(10)]);
    let r = gen_dec_range_w_step(&units(1), &units(9), Some(units(3))).unwrap();
    assert_eq!(r, vec![units(1), units(4), units(7)]);
    let r = gen_dec_range_w_step(&dec(5, 1), &units(2), None).unwrap();
    assert_eq!(r, vec![dec(5, 1), dec(15, 1)]);
}

#[test]
fn range_empty_when_start_after_end() {
    assert!(gen_dec_range(&units(5), &units(4)).is_empty());
    assert!(gen_dec_range_w_step(&units(5), &units(4), Some(units(1))).unwrap().is_empty());
}

#[test]
fn range_single_point() {
    assert_eq!(gen_dec_range(&units(7), &units(7)), vec![units(7)]);
}

#[test]
fn range_rejects_non_positive_step() {
    assert_eq!(gen_dec_range_w_step(&units(1), &units(5), Some(units(0))), Err(Error::InvalidRange));
    assert_eq!(gen_dec_range_w_step(&units(1), &units(5), Some(units(-1))), Err(Error::InvalidRange));
}

#[test]
fn offset_range_matches_dec_range() {
    let a = gen_offset_range(dec(1025, 1), units(3));
    let b = gen_dec_range(&dec(995, 1), &dec(1055, 1));
    assert_eq!(a, b);
    assert_eq!(a.len(), 7);
    assert_eq!(a[0], dec(995, 1));
    assert_eq!(a[6], dec(1055, 1));
    assert!(gen_offset_range(units(10), units(-1)).is_empty());
}

#[test]
fn long_call_scenario() {
    let c = contract(None, OptionType::Call, units(100), dec(25, 1), Some(units(10)));
    assert_eq!(c.payoff.len(), 21);
    assert_eq!(c.payoff.get(&units(100)), Some(dec(-25, 1)));
    assert_eq!(c.payoff.get(&units(110)), Some(dec(75, 1)));
    assert_eq!(c.payoff.get(&units(90)), Some(dec(-25, 1)));
    assert_eq!(c.payoff.get(&units(111)), None);
}

#[test]
fn short_put_scenario() {
    let c = contract(Some(PositionSide::Short), OptionType::Put, units(95), units(2), None);
    assert_eq!(c.payoff.get(&units(95)), Some(units(2)));
    assert_eq!(c.payoff.get(&units(85)), Some(units(-8)));
    assert_eq!(c.payoff.first_key(), Some(units(85)));
    assert_eq!(c.payoff.last_key(), Some(units(105)));
}

#[test]
fn price_payoff_formulas() {
    let long_put = contract(Some(PositionSide::Long), OptionType::Put, units(95), units(2), None);
    assert_eq!(long_put.get_price_payoff(&units(80)), units(13));
    assert_eq!(long_put.get_price_payoff(&units(120)), units(-2));
    let short_call = contract(Some(PositionSide::Short), OptionType::Call, units(100), units(3), None);
    assert_eq!(short_call.get_price_payoff(&units(90)), units(3));
    assert_eq!(short_call.get_price_payoff(&units(108)), units(-5));
}

#[test]
fn floor_and_cap_hold_over_table() {
    let long = contract(None, OptionType::Put, units(50), units(4), Some(units(30)));
    assert!(long.payoff.inner.iter().all(|e| e.1 >= units(-4)));
    let short = contract(Some(PositionSide::Short), OptionType::Call, units(50), units(4), Some(units(30)));
    assert!(short.payoff.inner.iter().all(|e| e.1 <= units(4)));
}

#[test]
fn payoff_monotonic_over_table() {
    let lc = contract(None, OptionType::Call, units(20), units(1), None);
    assert!(lc.payoff.inner.windows(2).all(|w| w[0].1 <= w[1].1));
    let lp = contract(None, OptionType::Put, units(20), units(1), None);
    assert!(lp.payoff.inner.windows(2).all(|w| w[0].1 >= w[1].1));
    let sc = contract(Some(PositionSide::Short), OptionType::Call, units(20), units(1), None);
    assert!(sc.payoff.inner.windows(2).all(|w| w[0].1 >= w[1].1));
    let sp = contract(Some(PositionSide::Short), OptionType::Put, units(20), units(1), None);
    assert!(sp.payoff.inner.windows(2).all(|w| w[0].1 <= w[1].1));
}

#[test]
fn profit_structure_replaces_table() {
    let mut c = contract(None, OptionType::Call, units(100), units(1), Some(units(10)));
    c.get_profit_structure(Some(units(2)));
    assert_eq!(keys(&c.payoff), vec![units(98), units(99), units(100), units(101), units(102)]);
}

#[test]
fn combine_is_commutative() {
    let a = contract(None, OptionType::Call, units(100), dec(25, 1), Some(units(5)));
    let b = contract(Some(PositionSide::Short), OptionType::Put, units(97), units(2), Some(units(8)));
    let ab = a.clone().add(b.clone()).unwrap();
    let ba = b.add(a).unwrap();
    assert_eq!(ab.payoff.inner, ba.payoff.inner);
}

#[test]
fn combine_domain_is_union() {
    let a = contract(None, OptionType::Call, units(100), units(1), Some(units(3)));
    let b = contract(None, OptionType::Put, units(110), units(1), Some(units(2)));
    let combo = a.add(b).unwrap();
    let expected: Vec<Price> = (97..=112).map(units).collect();
    assert_eq!(keys(&combo.payoff), expected);
}

#[test]
fn combine_mock_calls() {
    let chain = create_mock_option_chain();
    let mut first = chain[0].clone();
    let mut second = chain[1].clone();
    first.get_profit_structure(None);
    second.get_profit_structure(None);
    let combo = first.clone().add(second.clone()).unwrap();
    assert_eq!(combo.payoff.first_key(), Some(units(90)));
    assert_eq!(combo.payoff.last_key(), Some(units(115)));
    assert_eq!(combo.payoff.len(), 26);
    for e in combo.payoff.inner.iter() {
        assert_eq!(e.1.ticks(), first.get_price_payoff(&e.0).ticks() + second.get_price_payoff(&e.0).ticks());
    }
    assert_eq!(combo.payoff.get(&units(102)), Some(units(-2)));
    assert_eq!(combo.payoff.get(&dec(1025, 1)), None);
    let mid = first.get_price_payoff(&dec(1025, 1)).ticks() + second.get_price_payoff(&dec(1025, 1)).ticks();
    assert_eq!(mid, -15_000);
    assert_eq!(combo.legs.len(), 2);
}

#[test]
fn combine_refuses_empty_table() {
    let chain = create_mock_option_chain();
    let a = contract(None, OptionType::Call, units(100), units(1), None);
    assert_eq!(a.add(chain[2].clone()).err(), Some(Error::EmptyPayoff));
}

#[test]
fn add_leg_matches_pairwise() {
    let a = contract(None, OptionType::Call, units(100), dec(25, 1), Some(units(4)));
    let b = contract(Some(PositionSide::Short), OptionType::Call, units(105), dec(15, 1), Some(units(3)));
    let c = contract(None, OptionType::Put, units(95), units(2), Some(units(6)));
    let mut combo = a.clone().add(b.clone()).unwrap();
    assert_eq!(combo.add_leg(c.clone()), Ok(()));
    let expected: Vec<Price> = (89..=108).map(units).collect();
    assert_eq!(keys(&combo.payoff), expected);
    for e in combo.payoff.inner.iter() {
        let sum = a.get_price_payoff(&e.0).ticks() + b.get_price_payoff(&e.0).ticks() + c.get_price_payoff(&e.0).ticks();
        assert_eq!(e.1.ticks(), sum);
    }
    assert_eq!(combo.legs.len(), 3);
}

#[test]
fn add_leg_refuses_empty_table() {
    let chain = create_mock_option_chain();
    let a = contract(None, OptionType::Call, units(100), units(1), None);
    let b = contract(None, OptionType::Put, units(100), units(1), None);
    let mut combo = a.add(b).unwrap();
    let before = combo.payoff.inner.clone();
    assert_eq!(combo.add_leg(chain[3].clone()), Err(Error::EmptyPayoff));
    assert_eq!(combo.payoff.inner, before);
    assert_eq!(combo.legs.len(), 2);
}

#[test]
fn mock_chain_contents() {
    let chain = create_mock_option_chain();
    assert_eq!(chain.len(), 4);
    assert_eq!(chain[0].strike, units(100));
    assert_eq!(chain[0].premium, dec(25, 1));
    assert_eq!(chain[1].strike, units(105));
    assert_eq!(chain[2].option_type, OptionType::Put);
    assert_eq!(chain[3].premium, units(1));
    assert!(chain.iter().all(|c| c.payoff.is_empty() && c.side.is_none()));
    assert_eq!(chain[0].expiration, expiry());
}

#[test]
fn side_predicates() {
    assert!(PositionSide::Long.is_long());
    assert!(!PositionSide::Long.is_short());
    assert!(PositionSide::Short.is_short());
    assert!(!PositionSide::Short.is_long());
}

#[test]
fn strategy_holders_keep_legs() {
    let a = contract(None, OptionType::Call, units(100), units(1), None);
    let b = contract(None, OptionType::Put, units(100), units(1), None);
    assert_eq!(Spread::new(vec![a.clone()]).legs.len(), 1);
    let s = Straddle::new(Some(PositionSide::Long), vec![a.clone()], vec![b.clone()]);
    assert_eq!(s.call_legs.len() + s.put_legs.len(), 2);
    assert_eq!(Strangle::new(None, vec![a.clone(), b.clone()]).legs.len(), 2);
    let combo = OptionCombo::new(vec![a], PayoffStruct::default());
    assert!(combo.payoff.is_empty());
}

#[test]
fn table_new_and_lookup() {
    let t = PayoffStruct::new(vec![(units(1), units(5)), (units(3), units(-2)), (units(8), units(0))]);
    assert_eq!(t.get(&units(3)), Some(units(-2)));
    assert_eq!(t.get(&units(8)), Some(units(0)));
    assert_eq!(t.get(&units(2)), None);
    assert_eq!(t.position(&units(1)), Some(0));
}
