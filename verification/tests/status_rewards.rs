use clmm_core::error::ErrorCode;
use clmm_core::pool::{
    create_pool, Address, OperationState, PoolState, PoolStatusBitFlag, PoolStatusBitIndex,
};

fn addr(n: u128) -> Address {
    Address { w0: n, w1: 9 }
}

fn zero() -> Address {
    Address { w0: 0, w1: 0 }
}

fn wrapped_native_mint() -> Address {
    Address {
        w0: 0x35c01846637f68fb8481abfe57889b06,
        w1: 0x0100000000f0a098553beb1adc39c4da,
    }
}

fn build_pool() -> PoolState {
    create_pool(
        0,
        clmm_core::tick_math::get_sqrt_price_at_tick(0).unwrap(),
        0,
        1,
        addr(1),
        addr(2),
        addr(3),
        addr(4),
        1,
        addr(5),
        6,
        addr(6),
        6,
        addr(7),
        0,
    )
    .unwrap()
}

fn empty_operation_state() -> OperationState {
    OperationState {
        bump: 0,
        operation_owners: vec![zero(); 10],
        whitelist_mints: vec![zero(); 100],
    }
}

#[test]
fn get_set_status_by_bit() {
    let mut pool = build_pool();
    pool.set_status(17); // 00010001
    assert_eq!(pool.get_status_by_bit(PoolStatusBitIndex::Swap), false);
    assert_eq!(
        pool.get_status_by_bit(PoolStatusBitIndex::OpenPositionOrIncreaseLiquidity),
        false
    );
    assert_eq!(
        pool.get_status_by_bit(PoolStatusBitIndex::DecreaseLiquidity),
        true
    );
    assert_eq!(pool.get_status_by_bit(PoolStatusBitIndex::CollectFee), true);
    assert_eq!(
        pool.get_status_by_bit(PoolStatusBitIndex::CollectReward),
        true
    );

    // disable -> disable, nothing to change
    pool.set_status_by_bit(PoolStatusBitIndex::Swap, PoolStatusBitFlag::Disable);
    assert_eq!(pool.get_status_by_bit(PoolStatusBitIndex::Swap), false);

    // disable -> enable
    pool.set_status_by_bit(PoolStatusBitIndex::Swap, PoolStatusBitFlag::Enable);
    assert_eq!(pool.get_status_by_bit(PoolStatusBitIndex::Swap), true);

    // enable -> enable, nothing to change
    pool.set_status_by_bit(
        PoolStatusBitIndex::DecreaseLiquidity,
        PoolStatusBitFlag::Enable,
    );
    assert_eq!(
        pool.get_status_by_bit(PoolStatusBitIndex::DecreaseLiquidity),
        true
    );
    // enable -> disable
    pool.set_status_by_bit(
        PoolStatusBitIndex::DecreaseLiquidity,
        PoolStatusBitFlag::Disable,
    );
    assert_eq!(
        pool.get_status_by_bit(PoolStatusBitIndex::DecreaseLiquidity),
        false
    );
}

#[test]
fn reward_info_test() {
    let mut pool = build_pool();
    let operation_state = empty_operation_state();
    pool.initialize_reward(
        1665982800,
        1666069200,
        10,
        &wrapped_native_mint(),
        None,
        &zero(),
        &zero(),
        &operation_state,
        &addr(99),
    )
    .unwrap();

    // before start time, nothing to update
    let updated_reward_infos = pool.update_reward_infos(1665982700).unwrap();
    assert_eq!(updated_reward_infos[0], pool.reward_infos[0]);

    // pool liquidity is 0
    let updated_reward_infos = pool.update_reward_infos(1665982900).unwrap();
    assert_eq!(updated_reward_infos[0].reward_growth_global_x64, 0);

    pool.liquidity = 100;
    let updated_reward_infos = pool.update_reward_infos(1665983000).unwrap();
    assert_eq!(updated_reward_infos[0].last_update_time, 1665983000);
    assert_eq!(updated_reward_infos[0].reward_growth_global_x64, 10);

    // curr_timestamp greater than reward end time
    let updated_reward_infos = pool.update_reward_infos(1666069300).unwrap();
    assert_eq!(updated_reward_infos[0].last_update_time, 1666069200);
}

#[test]
fn reward_accrual_scenarios() {
    // With liquidity 100 and emission rate 10 per second in Q64.64, one
    // hundred seconds accrue floor(100 * 10 / 100) = 10 growth, and the
    // emitted whole tokens are the ceiling of 1000 / 2^64.
    let mut pool = build_pool();
    let operation_state = empty_operation_state();
    pool.initialize_reward(
        1000,
        1000000,
        10,
        &wrapped_native_mint(),
        None,
        &zero(),
        &zero(),
        &operation_state,
        &addr(99),
    )
    .unwrap();
    pool.liquidity = 100;
    let updated = pool.update_reward_infos(1100).unwrap();
    assert_eq!(updated[0].reward_growth_global_x64, 10);
    assert_eq!(updated[0].reward_total_emissioned, 1);
    assert!(updated[0].reward_claimed <= updated[0].reward_total_emissioned);

    // With liquidity 1 the same hundred seconds accrue the whole emission:
    // growth 1000.
    let mut pool = build_pool();
    pool.initialize_reward(
        1000,
        1000000,
        10,
        &wrapped_native_mint(),
        None,
        &zero(),
        &zero(),
        &empty_operation_state(),
        &addr(99),
    )
    .unwrap();
    pool.liquidity = 1;
    let updated = pool.update_reward_infos(1100).unwrap();
    assert_eq!(updated[0].reward_growth_global_x64, 1000);
    assert!(updated[0].reward_claimed <= updated[0].reward_total_emissioned);
}

#[test]
fn reward_update_is_idempotent_at_same_time() {
    let mut pool = build_pool();
    pool.initialize_reward(
        1000,
        1000000,
        10,
        &wrapped_native_mint(),
        None,
        &zero(),
        &zero(),
        &empty_operation_state(),
        &addr(99),
    )
    .unwrap();
    pool.liquidity = 100;
    pool.update_reward_infos(1100).unwrap();
    let first = pool.reward_infos.clone();
    pool.update_reward_infos(1100).unwrap();
    assert_eq!(pool.reward_infos, first);
}

#[test]
fn reward_update_rejects_time_running_backwards() {
    let mut pool = build_pool();
    pool.initialize_reward(
        1000,
        1000000,
        10,
        &wrapped_native_mint(),
        None,
        &zero(),
        &zero(),
        &empty_operation_state(),
        &addr(99),
    )
    .unwrap();
    pool.liquidity = 5;
    pool.update_reward_infos(2000).unwrap();
    assert_eq!(
        pool.update_reward_infos(1500),
        Err(ErrorCode::InvalidTimestamp)
    );
}

#[test]
fn reward_slot_rules() {
    let mut pool = build_pool();
    let operation_state = empty_operation_state();
    let admin = addr(99);

    // First slot: a foreign mint with a freeze authority is rejected.
    assert_eq!(
        pool.initialize_reward(
            1000,
            2000,
            10,
            &addr(50),
            Some(addr(51)),
            &zero(),
            &zero(),
            &operation_state,
            &admin,
        ),
        Err(ErrorCode::ExceptRewardMint)
    );
    // The pool's own mint is always accepted.
    pool.initialize_reward(
        1000,
        2000,
        10,
        &addr(5),
        Some(addr(51)),
        &zero(),
        &zero(),
        &operation_state,
        &admin,
    )
    .unwrap();
    // A mint may appear in only one slot.
    assert_eq!(
        pool.initialize_reward(
            1000,
            2000,
            10,
            &addr(5),
            None,
            &zero(),
            &zero(),
            &operation_state,
            &admin,
        ),
        Err(ErrorCode::RewardTokenAlreadyInUse)
    );
    // Second slot: with a pool mint already present, a freeze-free foreign
    // mint is accepted.
    pool.initialize_reward(
        1000,
        2000,
        10,
        &addr(60),
        None,
        &zero(),
        &zero(),
        &operation_state,
        &admin,
    )
    .unwrap();
    // Last slot: only the administrative authority or an operation owner.
    assert_eq!(
        pool.initialize_reward(
            1000,
            2000,
            10,
            &addr(61),
            None,
            &zero(),
            &addr(77),
            &operation_state,
            &admin,
        ),
        Err(ErrorCode::NotApproved)
    );
    pool.initialize_reward(
        1000,
        2000,
        10,
        &addr(61),
        None,
        &zero(),
        &admin,
        &operation_state,
        &admin,
    )
    .unwrap();
    // All slots taken.
    assert_eq!(
        pool.initialize_reward(
            1000,
            2000,
            10,
            &addr(62),
            None,
            &zero(),
            &admin,
            &operation_state,
            &admin,
        ),
        Err(ErrorCode::FullRewardInfo)
    );
}

#[test]
fn second_slot_requires_pool_mint_when_none_present() {
    let mut pool = build_pool();
    let operation_state = empty_operation_state();
    let admin = addr(99);
    // First slot takes a freeze-free foreign mint.
    pool.initialize_reward(
        1000,
        2000,
        10,
        &addr(50),
        None,
        &zero(),
        &zero(),
        &operation_state,
        &admin,
    )
    .unwrap();
    // Second slot: with no pool mint among the rewards, a foreign mint is
    // rejected even without a freeze authority.
    assert_eq!(
        pool.initialize_reward(
            1000,
            2000,
            10,
            &addr(51),
            None,
            &zero(),
            &zero(),
            &operation_state,
            &admin,
        ),
        Err(ErrorCode::ExceptRewardMint)
    );
    // But the pool's own mint is accepted.
    pool.initialize_reward(
        1000,
        2000,
        10,
        &addr(6),
        None,
        &zero(),
        &zero(),
        &operation_state,
        &admin,
    )
    .unwrap();
}

#[test]
fn check_and_claim_rewards_accounting() {
    let mut pool = build_pool();
    pool.initialize_reward(
        1000,
        1000000,
        10 << 32,
        &wrapped_native_mint(),
        None,
        &zero(),
        &zero(),
        &empty_operation_state(),
        &addr(99),
    )
    .unwrap();
    pool.liquidity = 1;
    pool.update_reward_infos(1000000).unwrap();
    let emitted = pool.reward_infos[0].reward_total_emissioned;
    assert!(emitted > 0);
    assert!(pool.check_unclaimed_reward(0, emitted).is_ok());
    assert_eq!(
        pool.check_unclaimed_reward(0, emitted + 1),
        Err(ErrorCode::InsufficientClaimAmount)
    );
    pool.add_reward_clamed(0, emitted).unwrap();
    assert_eq!(pool.reward_infos[0].reward_claimed, emitted);
    assert_eq!(
        pool.check_unclaimed_reward(0, 1),
        Err(ErrorCode::InsufficientClaimAmount)
    );
}
