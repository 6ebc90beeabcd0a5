use eq_oracle::asset::Asset;
use eq_oracle::median::PricePoint;
use eq_oracle::oracle::{Error, GenesisConfig, Oracle, OracleConfig, PriceLog, PRICE_SETTER};
use eq_oracle::policy::{DirectPriceCorrelation, SpecialPrices, Whitelist};
use eq_oracle::transport::{InvalidTransaction, PricePayload, UNSIGNED_LONGEVITY};

const EQ: Asset = Asset(0x6571);
const EQD: Asset = Asset(0x657164);
const BTC: Asset = Asset(0x627463);
const ETH: Asset = Asset(0x657468);
const DOT: Asset = Asset(0x646F74);
const XDOT: Asset = Asset(0x78646F74);
const HDOT: Asset = Asset(0x68646f74);
const LP_XDOT: Asset = Asset(0x786C707430);
const LP_CURVE: Asset = Asset(0x6C707430);

const ONE: i64 = 1_000_000_000;

/// The test runtime: the engine, the current block and the current time.
struct Env {
    oracle: Oracle,
    log: PriceLog,
    block: u64,
    now: u64,
}

fn config() -> OracleConfig {
    OracleConfig {
        price_timeout: 1,
        median_price_timeout: 60 * 60 * 2,
        unsigned_lifetime_in_blocks: 5,
        unsigned_priority: 0,
        min_transaction_weight: 1_000_000,
    }
}

fn new_test_ext() -> Env {
    let mut assets = vec![EQD, BTC, ETH, DOT, EQ];
    assets.sort();
    let special_prices = SpecialPrices {
        entries: vec![(EQD.0, ONE), (LP_CURVE.0, 2 * ONE), (LP_XDOT.0, 2 * ONE)],
    };
    let correlations = DirectPriceCorrelation {
        entries: vec![(XDOT.0, DOT.0, ONE), (HDOT.0, DOT.0, ONE)],
    };
    let oracle = Oracle::new(
        config(),
        Whitelist::new(),
        assets,
        special_prices,
        correlations,
        GenesisConfig { prices: vec![], update_date: 0 },
    );
    Env { oracle, log: PriceLog::new(), block: 0, now: 0 }
}

fn fixed(price: f64) -> i64 {
    (price * (ONE as f64)) as i64
}

fn set_price(env: &mut Env, account: u64, asset: Asset, price: f64, block_number: u64) -> Result<i64, Error> {
    let payload = PricePayload { public: account, asset, price: fixed(price), block_number };
    env.oracle.set_price_unsigned(&payload, env.block, env.now, true, &mut env.log)
}

fn set_price_ok(env: &mut Env, account: u64, asset: Asset, price: f64, block_number: u64) {
    assert!(set_price(env, account, asset, price, block_number).is_ok());
}

fn check_price(env: &Env, asset: Asset, price: f64) {
    assert_eq!(env.oracle.get_price(asset, env.now).unwrap(), fixed(price));
}

fn time_move(env: &mut Env, time: &mut u64, step: u64) {
    *time = *time + step;
    env.now = *time;
    env.block = *time / 6;
}

fn points_of(env: &Env, asset: Asset) -> Vec<PricePoint> {
    env.oracle.price_points.get(&asset.0).unwrap().price_points.clone()
}

#[test]
fn main_test() {
    let mut env = new_test_ext();
    let account_id_1 = 0;
    let account_id_2 = 1;

    assert_eq!(set_price(&mut env, account_id_1, EQ, 1., 0), Err(Error::NotAllowedToSubmitPrice));
    assert_eq!(set_price(&mut env, account_id_1, EQ, 2., 0), Err(Error::NotAllowedToSubmitPrice));

    env.oracle.whitelist.add_to_whitelist(account_id_1);
    env.oracle.whitelist.add_to_whitelist(account_id_2);

    assert_eq!(set_price(&mut env, account_id_1, EQ, 0., 0), Err(Error::PriceIsZero));
    assert_eq!(set_price(&mut env, account_id_1, EQ, -1., 0), Err(Error::PriceIsNegative));
    assert_eq!(set_price(&mut env, account_id_1, EQD, 1., 0), Err(Error::WrongCurrency));

    set_price_ok(&mut env, account_id_1, EQ, 100_000.17, 1);
    set_price_ok(&mut env, account_id_2, EQ, 200_000.13, 1);

    set_price_ok(&mut env, account_id_1, BTC, 10.19, 1);
    set_price_ok(&mut env, account_id_2, BTC, 20.23, 1);

    check_price(&env, EQ, 150_000.15);
    check_price(&env, BTC, 15.21);

    env.block = 2;

    set_price_ok(&mut env, account_id_1, EQ, 10_000., 2);
    set_price_ok(&mut env, account_id_2, EQ, 20_000., 2);

    check_price(&env, EQ, 15_000.);
}

#[test]
fn set_price_not_from_whitelist() {
    let mut env = new_test_ext();
    let account_id_1 = 0;
    assert_eq!(set_price(&mut env, account_id_1, EQ, 1., 0), Err(Error::NotAllowedToSubmitPrice));
    assert_eq!(set_price(&mut env, account_id_1, EQ, 2., 0), Err(Error::NotAllowedToSubmitPrice));
}

#[test]
fn set_price_from_whitelist() {
    let mut env = new_test_ext();
    let account_id_1 = 0;
    env.oracle.whitelist.add_to_whitelist(account_id_1);
    set_price_ok(&mut env, account_id_1, EQ, 100_000., 0);
}

#[test]
fn set_median_price() {
    let mut env = new_test_ext();
    let (a1, a2, a3, a4, a5, a6, a7) = (1, 2, 3, 4, 5, 6, 7);
    for a in [a1, a2, a3, a4, a5, a6] {
        env.oracle.whitelist.add_to_whitelist(a);
    }
    set_price_ok(&mut env, a1, EQ, 35_000., 0);
    check_price(&env, EQ, 35_000.);
    env.block = 2;
    set_price_ok(&mut env, a1, EQ, 40_000., 2);
    check_price(&env, EQ, 40_000.);
    set_price_ok(&mut env, a2, EQ, 50_000., 2);
    check_price(&env, EQ, 45_000.);
    set_price_ok(&mut env, a3, EQ, 130_000., 2);
    check_price(&env, EQ, 50_000.);
    set_price_ok(&mut env, a4, EQ, 1_000., 2);
    check_price(&env, EQ, 45_000.);
    set_price_ok(&mut env, a5, EQ, 120_000., 2);
    check_price(&env, EQ, 50_000.);
    set_price_ok(&mut env, a6, EQ, 2_000., 2);
    check_price(&env, EQ, 45_000.);
    env.block = 3;
    set_price_ok(&mut env, a1, EQ, 60_000., 3);
    check_price(&env, EQ, 55_000.);

    env.oracle.whitelist.remove_from_whitelist(a1);
    env.oracle.whitelist.remove_from_whitelist(a2);
    env.block = 4;
    set_price_ok(&mut env, a3, EQ, 5_000., 4);
    check_price(&env, EQ, 27_500.);

    env.oracle.whitelist.add_to_whitelist(a7);
    env.block = 5;
    set_price_ok(&mut env, a3, EQ, 70_000., 5);
    check_price(&env, EQ, 55_000.);

    // data_point price timeout
    env.block = 6;
    set_price_ok(&mut env, a3, EQ, 30_000., 6);
    env.now = 2;
    set_price_ok(&mut env, a4, EQ, 40_000., 6);
    set_price_ok(&mut env, a5, EQ, 50_000., 6);
    set_price_ok(&mut env, a6, EQ, 60_000., 6);
    set_price_ok(&mut env, a7, EQ, 70_000., 6);
    check_price(&env, EQ, 55_000.);
}

#[test]
fn set_price_twice_block_moved() {
    let mut env = new_test_ext();
    let account_id_1 = 0;
    env.now = 2;
    env.block = 1;
    env.oracle.whitelist.add_to_whitelist(account_id_1);
    set_price_ok(&mut env, account_id_1, EQ, 10_000., 1);
    env.block = 2;
    set_price_ok(&mut env, account_id_1, EQ, 20_000., 2);
}

#[test]
fn set_price_twice_time_moved() {
    let mut env = new_test_ext();
    let account_id_1 = 0;
    env.now = 2;
    env.block = 1;
    env.oracle.whitelist.add_to_whitelist(account_id_1);
    set_price_ok(&mut env, account_id_1, EQ, 10_000., 1);
    env.now = 3;
    assert_eq!(set_price(&mut env, account_id_1, EQ, 20_000., 1), Err(Error::PriceAlreadyAdded));
}

#[test]
fn not_set_price_twice() {
    let mut env = new_test_ext();
    let account_id_1 = 0;
    env.now = 2;
    env.block = 1;
    env.oracle.whitelist.add_to_whitelist(account_id_1);
    set_price_ok(&mut env, account_id_1, EQ, 10_000., 1);
    assert_eq!(set_price(&mut env, account_id_1, EQ, 20_000., 1), Err(Error::PriceAlreadyAdded));
}

#[test]
fn invalid_prices() {
    let mut env = new_test_ext();
    let account_id_1 = 0;
    env.oracle.whitelist.add_to_whitelist(account_id_1);
    assert_eq!(env.oracle.whitelist.contains(account_id_1), true);
    assert_eq!(set_price(&mut env, account_id_1, EQ, 0., 0), Err(Error::PriceIsZero));
    assert_eq!(set_price(&mut env, account_id_1, EQ, -1., 0), Err(Error::PriceIsNegative));
}

#[test]
fn test_timeout() {
    let mut env = new_test_ext();
    let mut time: u64 = 0;
    time_move(&mut env, &mut time, 10000);
    time_move(&mut env, &mut time, 10000);
    time_move(&mut env, &mut time, 10000);

    let account_id = 0;
    env.oracle.whitelist.add_to_whitelist(account_id);

    set_price_ok(&mut env, account_id, EQ, 0.000_000_001, 0);
    check_price(&env, EQ, 0.000_000_001);

    time_move(&mut env, &mut time, 7199);
    check_price(&env, EQ, 0.000_000_001);

    time_move(&mut env, &mut time, 1);
    assert_eq!(env.oracle.get_price(EQ, env.now), Err(Error::PriceTimeout));
}

#[test]
fn invalid_currencies() {
    let mut env = new_test_ext();
    let account_id_1 = 0;
    env.oracle.whitelist.add_to_whitelist(account_id_1);
    assert_eq!(set_price(&mut env, account_id_1, EQD, 1., 0), Err(Error::WrongCurrency));
}

#[test]
fn should_build_on_genesis_price_points() {
    let env = new_test_ext();
    for asset in [EQ, BTC, ETH] {
        let data = env.oracle.price_points.get(&asset.0).unwrap();
        assert_eq!(data.block_number, env.block);
        assert_eq!(data.timestamp, 0);
        assert_eq!(data.price, 0);
        assert!(data.price_points.is_empty());
    }
}

#[test]
fn set_price_when_stored_price_newer_should_fail() {
    let mut env = new_test_ext();
    let account_id_1 = 0;
    let account_id_2 = 2;
    env.oracle.whitelist.add_to_whitelist(account_id_1);
    env.oracle.whitelist.add_to_whitelist(account_id_2);
    env.block = 2;
    set_price_ok(&mut env, account_id_1, EQ, 100_000.17, 2);
    set_price_ok(&mut env, account_id_2, EQ, 100_000., 1);
    assert_eq!(set_price(&mut env, account_id_1, EQ, 100_100., 1), Err(Error::PriceAlreadyAdded));
    assert_eq!(set_price(&mut env, account_id_1, EQ, 100_100., 2), Err(Error::PriceAlreadyAdded));
}

#[test]
fn filter_prices_from_test() {
    let mut env = new_test_ext();
    let (a1, a2, a3) = (1, 2, 3);
    env.oracle.whitelist.add_to_whitelist(a1);
    env.oracle.whitelist.add_to_whitelist(a2);
    env.oracle.whitelist.add_to_whitelist(a3);

    set_price_ok(&mut env, a1, EQ, 80_000., 1);
    set_price_ok(&mut env, a2, EQ, 90_000., 1);
    set_price_ok(&mut env, a3, EQ, 100_000., 1);

    assert_eq!(env.oracle.price_points.get(&EQ.0).unwrap().price, 90_000 * ONE);
    env.oracle.filter_prices_from(a1);
    assert_eq!(env.oracle.price_points.get(&EQ.0).unwrap().price, 95_000 * ONE);
    for data_point in points_of(&env, EQ) {
        assert!(data_point.account_id != a1);
    }

    set_price_ok(&mut env, a1, EQ, 110_000., 1);
    assert_eq!(env.oracle.price_points.get(&EQ.0).unwrap().price, 100_000 * ONE);
}

#[test]
fn aggregate_follows_median_in_one_round() {
    let mut env = new_test_ext();
    for a in 1..=3 {
        env.oracle.whitelist.add_to_whitelist(a);
    }
    assert_eq!(set_price(&mut env, 1, BTC, 40_000., 0), Ok(40_000 * ONE));
    assert_eq!(set_price(&mut env, 2, BTC, 50_000., 0), Ok(45_000 * ONE));
    assert_eq!(set_price(&mut env, 3, BTC, 60_000., 0), Ok(50_000 * ONE));
}

#[test]
fn even_count_takes_mean_of_middle_pair() {
    let mut env = new_test_ext();
    for a in 1..=4 {
        env.oracle.whitelist.add_to_whitelist(a);
    }
    set_price_ok(&mut env, 1, ETH, 10., 0);
    set_price_ok(&mut env, 2, ETH, 40., 0);
    set_price_ok(&mut env, 3, ETH, 20., 0);
    assert_eq!(set_price(&mut env, 4, ETH, 31., 0), Ok(25_500_000_000));
    let prices: Vec<i64> = points_of(&env, ETH).iter().map(|p| p.price).collect();
    assert_eq!(prices, vec![10 * ONE, 20 * ONE, 31 * ONE, 40 * ONE]);
}

#[test]
fn odd_sum_mean_rounds_toward_zero() {
    let mut env = new_test_ext();
    env.oracle.whitelist.add_to_whitelist(1);
    env.oracle.whitelist.add_to_whitelist(2);
    let p1 = PricePayload { public: 1, asset: DOT, price: 3, block_number: 0 };
    let p2 = PricePayload { public: 2, asset: DOT, price: 4, block_number: 0 };
    env.oracle.set_price_unsigned(&p1, 0, 0, true, &mut env.log).unwrap();
    assert_eq!(env.oracle.set_price_unsigned(&p2, 0, 0, true, &mut env.log), Ok(3));
}

#[test]
fn stale_central_point_leaves_the_window() {
    let mut env = new_test_ext();
    for a in 1..=3 {
        env.oracle.whitelist.add_to_whitelist(a);
    }
    set_price_ok(&mut env, 1, EQ, 10., 0);
    set_price_ok(&mut env, 2, EQ, 50., 0);
    set_price_ok(&mut env, 3, EQ, 90., 0);
    check_price(&env, EQ, 50.);
    // every point is now one second old: the point timeout has passed
    env.now = 1;
    env.block = 1;
    assert_eq!(set_price(&mut env, 1, EQ, 20., 1), Ok(20 * ONE));
    assert_eq!(points_of(&env, EQ).len(), 1);
}

#[test]
fn read_errors() {
    let mut env = new_test_ext();
    assert_eq!(env.oracle.get_price(XDOT, 0), Err(Error::CurrencyNotFound));
    assert_eq!(env.oracle.get_price(EQ, 0), Err(Error::PriceIsZero));
    env.oracle.set_the_only_price(EQ, -5, 0, 0, &mut env.log);
    assert_eq!(env.log.entries, vec![(EQ, -5)]);
    assert_eq!(env.oracle.get_price(EQ, 0), Err(Error::PriceIsNegative));
    assert_eq!(env.oracle.get_price(EQ, 7_199), Err(Error::PriceIsNegative));
    assert_eq!(env.oracle.get_price(EQ, 7_200), Err(Error::PriceTimeout));
}

#[test]
fn validation_order_and_errors() {
    let mut env = new_test_ext();
    assert_eq!(env.oracle.validate_params(1, EQ, ONE, false), Err(Error::AdditionalValidatorFailed));
    assert_eq!(env.oracle.validate_params(1, EQ, ONE, true), Err(Error::NotAllowedToSubmitPrice));
    env.oracle.whitelist.add_to_whitelist(1);
    assert_eq!(env.oracle.validate_params(1, XDOT, ONE, true), Err(Error::AssetNotFound));
    assert_eq!(env.oracle.validate_params(1, EQD, -1, true), Err(Error::WrongCurrency));
    assert_eq!(env.oracle.validate_params(1, EQ, -1, true), Err(Error::PriceIsNegative));
    assert_eq!(env.oracle.validate_params(1, EQ, 0, true), Err(Error::PriceIsZero));
    assert_eq!(env.oracle.validate_params(1, EQ, 1, true), Ok(()));
}

#[test]
fn remove_sole_feeder_deletes_aggregate() {
    let mut env = new_test_ext();
    env.oracle.whitelist.add_to_whitelist(1);
    env.oracle.whitelist.add_to_whitelist(2);
    set_price_ok(&mut env, 1, BTC, 100., 0);
    set_price_ok(&mut env, 1, EQ, 10., 0);
    set_price_ok(&mut env, 2, EQ, 30., 0);
    env.oracle.filter_prices_from(1);
    assert!(env.oracle.price_points.get(&BTC.0).is_none());
    assert_eq!(env.oracle.get_price(BTC, 0), Err(Error::CurrencyNotFound));
    assert_eq!(env.oracle.get_price(EQ, 0), Ok(30 * ONE));
    // an aggregate without points goes as well
    assert!(env.oracle.price_points.get(&ETH.0).is_none());
}

#[test]
fn overlay_sets_constant_and_correlated_prices() {
    let mut env = new_test_ext();
    env.oracle.assets.push(XDOT);
    env.oracle.correlations = DirectPriceCorrelation { entries: vec![(XDOT.0, DOT.0, ONE / 2)] };
    env.oracle.whitelist.add_to_whitelist(1);
    set_price_ok(&mut env, 1, DOT, 8., 0);
    let mut overlay_log = PriceLog::new();
    env.oracle.on_initialize(3, 10, &mut overlay_log);
    assert_eq!(overlay_log.entries, vec![(EQD, ONE), (XDOT, 4 * ONE)]);
    assert_eq!(env.oracle.get_price(EQD, 10), Ok(ONE));
    assert_eq!(env.oracle.get_price(XDOT, 10), Ok(4 * ONE));
    let points = points_of(&env, XDOT);
    assert_eq!(points.len(), 1);
    assert_eq!(points[0].account_id, PRICE_SETTER);
    assert_eq!(points[0].block_number, 3);
    assert_eq!(set_price(&mut env, 1, XDOT, 1., 0), Err(Error::WrongCurrency));
}

#[test]
fn genesis_prices_override_defaults() {
    let oracle = Oracle::new(
        config(),
        Whitelist::new(),
        vec![EQ, BTC],
        SpecialPrices { entries: vec![] },
        DirectPriceCorrelation { entries: vec![] },
        GenesisConfig { prices: vec![(BTC, 7 * ONE)], update_date: 100 },
    );
    assert_eq!(oracle.get_price(BTC, 100), Ok(7 * ONE));
    assert_eq!(oracle.get_price(EQ, 100), Err(Error::PriceIsZero));
    assert_eq!(oracle.get_price(BTC, 7_300), Err(Error::PriceTimeout));
    assert_eq!(oracle.price_points.get(&EQ.0).unwrap().price, 0);
}

#[test]
fn unsigned_update_checks() {
    let mut env = new_test_ext();
    env.oracle.whitelist.add_to_whitelist(9);
    let payload = PricePayload { public: 9, asset: EQ, price: ONE, block_number: 7 };
    assert_eq!(env.oracle.validate_unsigned(&payload, false, 8, true), Err(InvalidTransaction::BadProof));
    assert_eq!(env.oracle.validate_unsigned(&payload, true, 6, true), Err(InvalidTransaction::Stale));
    assert_eq!(env.oracle.validate_unsigned(&payload, true, 13, true), Err(InvalidTransaction::Stale));
    let bad = PricePayload { price: 0, ..payload };
    assert_eq!(env.oracle.validate_unsigned(&bad, true, 8, true), Err(InvalidTransaction::Call));
    let ok = env.oracle.validate_unsigned(&payload, true, 12, true).unwrap();
    assert_eq!(ok.priority, 7);
    assert_eq!((ok.provides_public, ok.provides_asset), (9, EQ.0));
    assert_eq!(ok.longevity, UNSIGNED_LONGEVITY);
    assert!(ok.propagate);
}

#[test]
fn whitelist_add_and_remove() {
    let mut w = Whitelist::new();
    w.add_to_whitelist(3);
    w.add_to_whitelist(3);
    w.add_to_whitelist(5);
    assert!(w.contains(3) && w.contains(5));
    w.remove_from_whitelist(3);
    assert!(!w.contains(3));
    assert!(w.contains(5));
}

#[test]
fn accepted_prices_reach_the_sink() {
    let mut env = new_test_ext();
    env.oracle.whitelist.add_to_whitelist(1);
    env.oracle.whitelist.add_to_whitelist(2);
    let mut sink = PriceLog::new();
    assert_eq!(env.oracle.set_price(1, EQ, 10 * ONE, 0, 0, true, &mut sink), Ok(10 * ONE));
    assert_eq!(env.oracle.set_price(2, EQ, 30 * ONE, 0, 0, true, &mut sink), Ok(20 * ONE));
    assert_eq!(env.oracle.set_price(1, EQ, 50 * ONE, 0, 0, true, &mut sink), Err(Error::PriceAlreadyAdded));
    assert_eq!(env.oracle.set_price(3, EQ, 50 * ONE, 0, 0, true, &mut sink), Err(Error::NotAllowedToSubmitPrice));
    assert_eq!(sink.entries, vec![(EQ, 10 * ONE), (EQ, 30 * ONE)]);
}

#[test]
fn new_round_point_supersedes_old_one() {
    let mut env = new_test_ext();
    env.oracle.whitelist.add_to_whitelist(1);
    env.oracle.whitelist.add_to_whitelist(2);
    env.now = 100;
    set_price_ok(&mut env, 2, EQ, 5., 0);
    set_price_ok(&mut env, 1, EQ, 10., 0);
    env.block = 1;
    set_price_ok(&mut env, 1, EQ, 20., 1);
    let mine: Vec<PricePoint> = points_of(&env, EQ).into_iter().filter(|p| p.account_id == 1).collect();
    assert_eq!(mine, vec![PricePoint { block_number: 1, timestamp: 100, price: 20 * ONE, account_id: 1 }]);
}
