use clmm_core::bitmap::test_bit;
use clmm_core::bitmap_extension::TickArrayBitmapExtension;
use clmm_core::collect::{check_required_accounts_length, check_unclaimed_fees_and_vault};
use clmm_core::error::ErrorCode;
use clmm_core::liquidity::{decrease_liquidity, increase_liquidity};
use clmm_core::pool::{create_pool, Address, PoolState, PoolStatusBitIndex};
use clmm_core::position::{
    calculate_latest_token_fees, PersonalPositionState, PositionRewardInfo,
};
use clmm_core::tick_array::{add_delta, TickArrayState};

fn addr(n: u128) -> Address {
    Address { w0: n, w1: 3 }
}

fn build_pool(tick_current: i32, tick_spacing: u16) -> PoolState {
    let mut pool = create_pool(
        0,
        clmm_core::tick_math::get_sqrt_price_at_tick(tick_current).unwrap(),
        0,
        1,
        addr(1),
        addr(2),
        addr(3),
        addr(4),
        tick_spacing,
        addr(5),
        6,
        addr(6),
        6,
        addr(7),
        0,
    )
    .unwrap();
    pool.tick_current = tick_current;
    pool
}

fn build_position(tick_lower_index: i32, tick_upper_index: i32) -> PersonalPositionState {
    PersonalPositionState {
        bump: 0,
        nft_mint: addr(20),
        pool_id: addr(21),
        tick_lower_index,
        tick_upper_index,
        liquidity: 0,
        fee_growth_inside_0_last_x64: 0,
        fee_growth_inside_1_last_x64: 0,
        token_fees_owed_0: 0,
        token_fees_owed_1: 0,
        reward_infos: vec![
            PositionRewardInfo { growth_inside_last_x64: 0, reward_amount_owed: 0 };
            3
        ],
        recent_epoch: 0,
    }
}

#[test]
fn mint_then_burn_restores_pool() {
    // Mint liquidity into a range containing the current tick, then burn the
    // same amount: the pool liquidity returns to its pre-mint value, both
    // boundary ticks' gross liquidity returns to zero, and their bitmap bits
    // clear again.
    let mut pool = build_pool(5, 10);
    let mut position = build_position(0, 1200);
    let mut array_lower = TickArrayState::new(addr(21), 0, 10, 0);
    let mut array_upper = TickArrayState::new(addr(21), 1200, 10, 0);
    let mut ext: Option<TickArrayBitmapExtension> = None;
    let liquidity: u128 = 1000;

    increase_liquidity(
        &mut pool,
        &mut position,
        &mut array_lower,
        &mut array_upper,
        &mut ext,
        liquidity,
        100,
        1,
    )
    .unwrap();
    assert_eq!(pool.liquidity, 1000);
    assert_eq!(position.liquidity, 1000);
    // Array slot 0 holds start 0 (bit 512); slot 2 holds start 1200.
    assert!(test_bit(&pool.tick_array_bitmap, 512));
    assert!(test_bit(&pool.tick_array_bitmap, 514));
    assert_eq!(array_lower.initialized_tick_count, 1);
    assert_eq!(array_upper.initialized_tick_count, 1);
    let lower_tick = array_lower.get_tick_state(0, 10).unwrap();
    let upper_tick = array_upper.get_tick_state(1200, 10).unwrap();
    assert_eq!(lower_tick.liquidity_gross, 1000);
    assert_eq!(lower_tick.liquidity_net, 1000);
    assert_eq!(upper_tick.liquidity_gross, 1000);
    assert_eq!(upper_tick.liquidity_net, -1000);

    let (fees_0, fees_1, reward_amounts) = decrease_liquidity(
        &mut pool,
        &mut position,
        &mut array_lower,
        &mut array_upper,
        &mut ext,
        liquidity,
        200,
        2,
        0,
        0,
        &vec![0, 0, 0],
    )
    .unwrap();
    assert_eq!(pool.liquidity, 0);
    assert_eq!(position.liquidity, 0);
    assert_eq!(fees_0, 0);
    assert_eq!(fees_1, 0);
    assert_eq!(reward_amounts, vec![0, 0, 0]);
    assert!(!test_bit(&pool.tick_array_bitmap, 512));
    assert!(!test_bit(&pool.tick_array_bitmap, 514));
    let lower_tick = array_lower.get_tick_state(0, 10).unwrap();
    let upper_tick = array_upper.get_tick_state(1200, 10).unwrap();
    assert_eq!(lower_tick.liquidity_gross, 0);
    assert_eq!(upper_tick.liquidity_gross, 0);
    assert_eq!(array_lower.initialized_tick_count, 0);
    assert_eq!(array_upper.initialized_tick_count, 0);
}

#[test]
fn pool_liquidity_equals_net_sum_below_current() {
    // After a sequence of mints and burns, the pool's active liquidity
    // equals the sum of liquidity_net over all ticks at or below the
    // current tick.
    let mut pool = build_pool(5, 10);
    let mut ext: Option<TickArrayBitmapExtension> = None;
    let mut array_a = TickArrayState::new(addr(21), -600, 10, 0);
    let mut array_b = TickArrayState::new(addr(21), 0, 10, 0);
    let mut array_c = TickArrayState::new(addr(21), 600, 10, 0);
    let mut array_d = TickArrayState::new(addr(21), 1200, 10, 0);
    let mut pos1 = build_position(0, 1200);
    let mut pos2 = build_position(-600, 600);

    increase_liquidity(
        &mut pool,
        &mut pos1,
        &mut array_b,
        &mut array_d,
        &mut ext,
        1000,
        100,
        1,
    )
    .unwrap();
    increase_liquidity(
        &mut pool,
        &mut pos2,
        &mut array_a,
        &mut array_c,
        &mut ext,
        500,
        110,
        1,
    )
    .unwrap();
    decrease_liquidity(
        &mut pool,
        &mut pos1,
        &mut array_b,
        &mut array_d,
        &mut ext,
        400,
        120,
        2,
        0,
        0,
        &vec![0, 0, 0],
    )
    .unwrap();

    let mut net_sum_below: i128 = 0;
    for array in [&array_a, &array_b, &array_c, &array_d] {
        for tick in array.ticks.iter() {
            if tick.tick <= pool.tick_current {
                net_sum_below += tick.liquidity_net;
            }
        }
    }
    assert_eq!(pool.liquidity, 1100);
    assert_eq!(net_sum_below, 1100);
}

#[test]
fn mint_outside_range_leaves_active_liquidity() {
    // A range entirely above the current tick adds no active liquidity.
    let mut pool = build_pool(-50, 10);
    let mut position = build_position(0, 1200);
    let mut array_lower = TickArrayState::new(addr(21), 0, 10, 0);
    let mut array_upper = TickArrayState::new(addr(21), 1200, 10, 0);
    let mut ext: Option<TickArrayBitmapExtension> = None;
    increase_liquidity(
        &mut pool,
        &mut position,
        &mut array_lower,
        &mut array_upper,
        &mut ext,
        700,
        100,
        1,
    )
    .unwrap();
    assert_eq!(pool.liquidity, 0);
    assert_eq!(position.liquidity, 700);
    // The boundary nets still record the range for later crossings.
    assert_eq!(array_lower.get_tick_state(0, 10).unwrap().liquidity_net, 700);
    assert_eq!(
        array_upper.get_tick_state(1200, 10).unwrap().liquidity_net,
        -700
    );
}

#[test]
fn increase_rejected_when_disabled() {
    let mut pool = build_pool(5, 10);
    pool.set_status(1); // bit 0: opening positions disabled
    let mut position = build_position(0, 1200);
    let mut array_lower = TickArrayState::new(addr(21), 0, 10, 0);
    let mut array_upper = TickArrayState::new(addr(21), 1200, 10, 0);
    let mut ext: Option<TickArrayBitmapExtension> = None;
    assert_eq!(
        increase_liquidity(
            &mut pool,
            &mut position,
            &mut array_lower,
            &mut array_upper,
            &mut ext,
            1000,
            100,
            1,
        ),
        Err(ErrorCode::NotApproved)
    );
    pool.set_status(14); // decrease, collect-fee and collect-reward disabled
    assert_eq!(
        decrease_liquidity(
            &mut pool,
            &mut position,
            &mut array_lower,
            &mut array_upper,
            &mut ext,
            0,
            100,
            1,
            0,
            0,
            &vec![0, 0, 0],
        ),
        Err(ErrorCode::NotApproved)
    );
}

#[test]
fn wrong_array_is_rejected() {
    let mut pool = build_pool(5, 10);
    let mut position = build_position(0, 1200);
    // The upper array does not contain tick 1200.
    let mut array_lower = TickArrayState::new(addr(21), 0, 10, 0);
    let mut array_upper = TickArrayState::new(addr(21), 2400, 10, 0);
    let mut ext: Option<TickArrayBitmapExtension> = None;
    assert_eq!(
        increase_liquidity(
            &mut pool,
            &mut position,
            &mut array_lower,
            &mut array_upper,
            &mut ext,
            1000,
            100,
            1,
        ),
        Err(ErrorCode::InvalidTickArray)
    );
    // A tick off the spacing grid is rejected.
    let r = array_lower.get_tick_state(5, 10);
    assert_eq!(r.err(), Some(ErrorCode::TickAndSpacingNotMatch));
}

#[test]
fn fee_settlement_exact_value() {
    // A growth delta of 2^64 per unit of liquidity owes exactly the
    // liquidity in whole tokens: 5 + 3 * 1 = 8.
    let owed = calculate_latest_token_fees(5, 0, 1u128 << 64, 3).unwrap();
    assert_eq!(owed, 8);
    // Wrapping subtraction: latest below last wraps modulo 2^128.
    let owed = calculate_latest_token_fees(0, u128::MAX, 1u128 << 63, 2).unwrap();
    assert_eq!(owed, 1);
    // A delta too large for the accumulator is a fatal error.
    assert_eq!(
        calculate_latest_token_fees(0, 0, u128::MAX, u128::MAX),
        Err(ErrorCode::MathOverflow)
    );
}

#[test]
fn add_delta_boundaries() {
    assert_eq!(add_delta(10, -3), Ok(7));
    assert_eq!(add_delta(10, 3), Ok(13));
    assert_eq!(add_delta(2, -3), Err(ErrorCode::LiquiditySubValueErr));
    assert_eq!(add_delta(u128::MAX, 1), Err(ErrorCode::LiquidityAddValueErr));
}

#[test]
fn vault_shortfall_disables_fee_collection() {
    let mut pool = build_pool(0, 10);
    pool.total_fees_token_0 = 100;
    pool.total_fees_claimed_token_0 = 40;
    // Vault holds less than the 60 unclaimed: collection is disabled.
    check_unclaimed_fees_and_vault(&mut pool, 50, 0).unwrap();
    assert!(!pool.get_status_by_bit(PoolStatusBitIndex::CollectFee));

    let mut pool = build_pool(0, 10);
    pool.total_fees_token_0 = 100;
    pool.total_fees_claimed_token_0 = 40;
    // Vault covers the unclaimed fees: nothing changes.
    check_unclaimed_fees_and_vault(&mut pool, 61, 0).unwrap();
    assert!(pool.get_status_by_bit(PoolStatusBitIndex::CollectFee));

    // Inconsistent accounting is a fatal error.
    let mut pool = build_pool(0, 10);
    pool.total_fees_token_0 = 10;
    pool.total_fees_claimed_token_0 = 40;
    assert_eq!(
        check_unclaimed_fees_and_vault(&mut pool, 0, 0),
        Err(ErrorCode::MathOverflow)
    );
}

#[test]
fn required_accounts_follow_initialized_slots() {
    let mut pool = build_pool(0, 10);
    assert!(check_required_accounts_length(&pool, 0, 3).is_ok());
    assert_eq!(
        check_required_accounts_length(&pool, 3, 3),
        Err(ErrorCode::InvalidRewardInputAccountNumber)
    );
    pool.initialize_reward(
        1000,
        2000,
        10,
        &addr(5),
        None,
        &addr(30),
        &addr(31),
        &clmm_core::pool::OperationState {
            bump: 0,
            operation_owners: vec![Address { w0: 0, w1: 0 }; 10],
            whitelist_mints: vec![Address { w0: 0, w1: 0 }; 100],
        },
        &addr(99),
    )
    .unwrap();
    assert!(check_required_accounts_length(&pool, 3, 3).is_ok());
    assert!(check_required_accounts_length(&pool, 2, 2).is_ok());
}
