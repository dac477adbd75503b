use clmm_core::error::ErrorCode;
use clmm_core::tick_math::{get_sqrt_price_at_tick, get_tick_at_sqrt_price, MAX_TICK, MIN_TICK};

#[test]
fn sqrt_price_fixed_points() {
    // Tick zero is exactly 1.0 in Q64.64.
    assert_eq!(get_sqrt_price_at_tick(0).unwrap(), 1u128 << 64);
    // The lowest valid tick's square-root price.
    assert_eq!(get_sqrt_price_at_tick(MIN_TICK).unwrap(), 4295048016);
    // The highest valid tick's square-root price.
    assert_eq!(
        get_sqrt_price_at_tick(MAX_TICK).unwrap(),
        79226673515399530063174229719
    );
    // One tick up multiplies by the Q64.64 square root of 1.0001.
    assert_eq!(get_sqrt_price_at_tick(1).unwrap(), 18447666387855959850);
}

#[test]
fn sqrt_price_monotonic_samples() {
    let mut prev = get_sqrt_price_at_tick(-1000).unwrap();
    for t in -999..1000 {
        let p = get_sqrt_price_at_tick(t).unwrap();
        assert!(p > prev);
        prev = p;
    }
}

#[test]
fn tick_round_trip_small() {
    for t in [-1000, -100, -1, 0, 1, 100, 1000] {
        let p = get_sqrt_price_at_tick(t).unwrap();
        assert_eq!(get_tick_at_sqrt_price(p).unwrap(), t);
        // A price one below the tick's own belongs to the tick below.
        assert_eq!(get_tick_at_sqrt_price(p - 1).unwrap(), t - 1);
    }
}

#[test]
fn tick_round_trip_wide() {
    for t in [-100000, -30720, 30720, 100000] {
        let p = get_sqrt_price_at_tick(t).unwrap();
        assert_eq!(get_tick_at_sqrt_price(p).unwrap(), t);
    }
}

#[test]
fn tick_round_trip_min() {
    let p = get_sqrt_price_at_tick(MIN_TICK).unwrap();
    assert_eq!(get_tick_at_sqrt_price(p).unwrap(), MIN_TICK);
}

#[test]
fn tick_round_trip_max() {
    let p = get_sqrt_price_at_tick(MAX_TICK).unwrap();
    assert_eq!(get_tick_at_sqrt_price(p).unwrap(), MAX_TICK);
}

#[test]
fn out_of_range_inputs_are_rejected() {
    assert_eq!(
        get_sqrt_price_at_tick(MAX_TICK + 1),
        Err(ErrorCode::InvalidTick)
    );
    assert_eq!(
        get_sqrt_price_at_tick(MIN_TICK - 1),
        Err(ErrorCode::InvalidTick)
    );
    // Prices outside the valid price range are rejected.
    assert_eq!(get_tick_at_sqrt_price(0), Err(ErrorCode::PriceOverflow));
    assert_eq!(
        get_tick_at_sqrt_price(4295048015),
        Err(ErrorCode::PriceOverflow)
    );
    assert_eq!(
        get_tick_at_sqrt_price(u128::MAX),
        Err(ErrorCode::PriceOverflow)
    );
    // The extreme valid prices are accepted.
    assert_eq!(get_tick_at_sqrt_price(4295048016).unwrap(), MIN_TICK);
}
