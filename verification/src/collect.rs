//! Fee and reward collection: moving owed amounts out of positions into
//! claimed totals, capped by what the vaults hold, and the defensive checks
//! that disable collection rather than allow over-withdrawal.

use vstd::prelude::*;
use crate::error::ErrorCode;
use crate::pool::{status_bit, PoolState, PoolStatusBitFlag, PoolStatusBitIndex, REWARD_NUM};
use crate::position::PersonalPositionState;

verus! {

/// Whether every reward slot with an owed amount has that amount covered by
/// its emitted-but-unclaimed total.
pub open spec fn reward_claims_covered(pool: PoolState, pos: PersonalPositionState) -> bool
    recommends
        pool.wf(),
        pos.wf(),
{
    forall|i: int|
        0 <= i < REWARD_NUM ==> ((pool.reward_infos@[i].spec_initialized()
            && #[trigger] pos.reward_infos@[i].reward_amount_owed > 0)
            ==> pos.reward_infos@[i].reward_amount_owed + pool.reward_infos@[i].reward_claimed
            <= pool.reward_infos@[i].reward_total_emissioned)
}

/// The amount one reward slot pays out: the owed amount, capped at what the
/// slot's vault holds.
pub open spec fn reward_transfer_amount(
    pool: PoolState,
    pos: PersonalPositionState,
    vaults: Seq<u64>,
    i: int,
) -> u64 {
    if pool.reward_infos@[i].spec_initialized() && pos.reward_infos@[i].reward_amount_owed > 0 {
        if pos.reward_infos@[i].reward_amount_owed > vaults[i] {
            vaults[i]
        } else {
            pos.reward_infos@[i].reward_amount_owed
        }
    } else {
        0
    }
}

/// Pay out the rewards owed to a position, slot by slot: each initialized
/// slot with an owed amount pays the owed amount capped at its vault
/// balance, reduces the position's owed accumulator, and raises the pool's
/// claimed total. When reward collection is disabled by the status bitmask,
/// nothing is paid and nothing changes. The claimed totals never exceed the
/// emitted totals.
pub fn collect_rewards(
    pool_state: &mut PoolState,
    personal_position: &mut PersonalPositionState,
    reward_vault_amounts: &Vec<u64>,
) -> (r: Result<Vec<u64>, ErrorCode>)
    requires
        old(pool_state).wf(),
        old(personal_position).wf(),
        old(pool_state).reward_claims_bounded(),
        reward_vault_amounts@.len() == REWARD_NUM,
    ensures
        final(pool_state).wf(),
        final(personal_position).wf(),
        final(pool_state).reward_claims_bounded(),
        r is Ok <==> status_bit(old(pool_state).status, 3) || reward_claims_covered(
            *old(pool_state),
            *old(personal_position),
        ),
        r is Err ==> r == Result::<Vec<u64>, ErrorCode>::Err(ErrorCode::InsufficientClaimAmount)
            && *final(pool_state) == *old(pool_state) && *final(personal_position) == *old(personal_position),
        r matches Ok(v) ==> v@.len() == REWARD_NUM,
        r matches Ok(v) ==> (if status_bit(old(pool_state).status, 3) {
            (forall|i: int| 0 <= i < REWARD_NUM ==> v@[i] == 0) && *final(pool_state) == *old(pool_state) && *final(personal_position) == *old(personal_position)
        } else {
            &&& (forall|i: int|
                0 <= i < REWARD_NUM ==> v@[i] == reward_transfer_amount(
                    *old(pool_state),
                    *old(personal_position),
                    reward_vault_amounts@,
                    i,
                ))
            &&& (forall|i: int|
                0 <= i < REWARD_NUM ==> #[trigger] final(personal_position).reward_infos@[i].reward_amount_owed == old(personal_position).reward_infos@[i].reward_amount_owed - v@[i])
            &&& (forall|i: int|
                0 <= i < REWARD_NUM ==> #[trigger] final(pool_state).reward_infos@[i].reward_claimed == old(pool_state).reward_infos@[i].reward_claimed + v@[i])
            &&& *final(pool_state) == (PoolState {
                reward_infos: final(pool_state).reward_infos,
                ..*old(pool_state)
            })
            &&& *final(personal_position) == (PersonalPositionState {
                reward_infos: final(personal_position).reward_infos,
                ..*old(personal_position)
            })
        }),
{
    let mut reward_amounts: Vec<u64> = Vec::new();
    if !pool_state.get_status_by_bit(PoolStatusBitIndex::CollectReward) {
        reward_amounts.push(0);
        reward_amounts.push(0);
        reward_amounts.push(0);
        return Ok(reward_amounts);
    }
    // Validate coverage of every slot before changing anything, so a failed
    // claim leaves all accounts untouched.
    let mut i: usize = 0;
    while i < 3
        invariant
            pool_state.wf(),
            personal_position.wf(),
            *pool_state == *old(pool_state),
            *personal_position == *old(personal_position),
            pool_state.reward_claims_bounded(),
            !status_bit(old(pool_state).status, 3),
            i <= 3,
            forall|j: int|
                0 <= j < i ==> ((pool_state.reward_infos@[j].spec_initialized()
                    && #[trigger] personal_position.reward_infos@[j].reward_amount_owed > 0)
                    ==> personal_position.reward_infos@[j].reward_amount_owed
                    + pool_state.reward_infos@[j].reward_claimed
                    <= pool_state.reward_infos@[j].reward_total_emissioned),
        decreases 3 - i,
    {
        let owed = personal_position.reward_infos[i].reward_amount_owed;
        if pool_state.reward_infos[i].initialized() && owed > 0 {
            match pool_state.check_unclaimed_reward(i, owed) {
                Ok(()) => {},
                Err(e) => {
                    proof {
                        assert(pool_state.reward_infos@[i as int].spec_initialized()
                            && personal_position.reward_infos@[i as int].reward_amount_owed > 0
                            && personal_position.reward_infos@[i as int].reward_amount_owed
                            + pool_state.reward_infos@[i as int].reward_claimed
                            > pool_state.reward_infos@[i as int].reward_total_emissioned);
                        assert(!reward_claims_covered(
                            *old(pool_state),
                            *old(personal_position),
                        ));
                    }
                    return Err(e);
                },
            }
        }
        i += 1;
    }
    let mut i: usize = 0;
    while i < 3
        invariant
            pool_state.wf(),
            personal_position.wf(),
            pool_state.reward_claims_bounded(),
            reward_vault_amounts@.len() == REWARD_NUM,
            reward_claims_covered(*old(pool_state), *old(personal_position)),
            !status_bit(old(pool_state).status, 3),
            i <= 3,
            reward_amounts@.len() == i,
            forall|j: int|
                0 <= j < i ==> reward_amounts@[j] == reward_transfer_amount(
                    *old(pool_state),
                    *old(personal_position),
                    reward_vault_amounts@,
                    j,
                ),
            forall|j: int|
                0 <= j < i ==> #[trigger] personal_position.reward_infos@[j].reward_amount_owed
                    == old(personal_position).reward_infos@[j].reward_amount_owed
                    - reward_amounts@[j],
            forall|j: int|
                i <= j < REWARD_NUM ==> #[trigger] personal_position.reward_infos@[j] == old(personal_position).reward_infos@[j],
            forall|j: int|
                0 <= j < i ==> #[trigger] pool_state.reward_infos@[j].reward_claimed == old(pool_state).reward_infos@[j].reward_claimed + reward_amounts@[j],
            forall|j: int|
                i <= j < REWARD_NUM ==> #[trigger] pool_state.reward_infos@[j] == old(pool_state).reward_infos@[j],
            *pool_state == (PoolState {
                reward_infos: pool_state.reward_infos,
                ..*old(pool_state)
            }),
            *personal_position == (PersonalPositionState {
                reward_infos: personal_position.reward_infos,
                ..*old(personal_position)
            }),
        decreases 3 - i,
    {
        let owed = personal_position.reward_infos[i].reward_amount_owed;
        let initialized = pool_state.reward_infos[i].initialized();
        if !initialized || owed == 0 {
            reward_amounts.push(0);
            i += 1;
            continue;
        }
        let vault = reward_vault_amounts[i];
        let transfer_amount = if owed > vault {
            vault
        } else {
            owed
        };
        if transfer_amount > 0 {
            let mut pos_slot = personal_position.reward_infos[i];
            pos_slot.reward_amount_owed = owed - transfer_amount;
            personal_position.reward_infos.set(i, pos_slot);
            match pool_state.add_reward_clamed(i, transfer_amount) {
                Ok(()) => {},
                Err(e) => {
                    proof {
                        assert(false);
                    }
                    return Err(e);
                },
            }
        }
        reward_amounts.push(transfer_amount);
        i += 1;
    }
    Ok(reward_amounts)
}

/// The number of accounts a collection call must supply: one group of
/// accounts for each initialized reward slot.
pub fn check_required_accounts_length(
    pool_state: &PoolState,
    remaining_accounts_len: usize,
    reward_group_account_num: usize,
) -> (r: Result<(), ErrorCode>)
    requires
        pool_state.wf(),
        reward_group_account_num <= 3,
    ensures
        r is Ok <==> remaining_accounts_len == spec_initialized_reward_count(*pool_state)
            * reward_group_account_num,
        r is Err ==> r == Result::<(), ErrorCode>::Err(
            ErrorCode::InvalidRewardInputAccountNumber,
        ),
{
    let mut valid_reward_count: usize = 0;
    if pool_state.reward_infos[0].initialized() {
        valid_reward_count += 1;
    }
    if pool_state.reward_infos[1].initialized() {
        valid_reward_count += 1;
    }
    if pool_state.reward_infos[2].initialized() {
        valid_reward_count += 1;
    }
    if remaining_accounts_len != valid_reward_count * reward_group_account_num {
        return Err(ErrorCode::InvalidRewardInputAccountNumber);
    }
    Ok(())
}

/// How many reward slots of the pool are configured.
pub open spec fn spec_initialized_reward_count(pool: PoolState) -> int
    recommends
        pool.wf(),
{
    (if pool.reward_infos@[0].spec_initialized() {
        1int
    } else {
        0int
    }) + (if pool.reward_infos@[1].spec_initialized() {
        1int
    } else {
        0int
    }) + (if pool.reward_infos@[2].spec_initialized() {
        1int
    } else {
        0int
    })
}

/// Compare the pool's unclaimed trade fees with what the vaults actually
/// hold, and defensively disable fee collection when a nonempty vault no
/// longer covers them, rather than allowing over-withdrawal.
pub fn check_unclaimed_fees_and_vault(
    pool_state: &mut PoolState,
    token_vault_0_amount: u64,
    token_vault_1_amount: u64,
) -> (r: Result<(), ErrorCode>)
    requires
        old(pool_state).wf(),
    ensures
        final(pool_state).wf(),
        r is Ok <==> old(pool_state).total_fees_claimed_token_0 <= old(pool_state).total_fees_token_0 && old(pool_state).total_fees_claimed_token_1 <= old(pool_state).total_fees_token_1,
        r is Err ==> r == Result::<(), ErrorCode>::Err(ErrorCode::MathOverflow) && *final(pool_state) == *old(pool_state),
        r is Ok ==> {
            let unclaimed_0 = old(pool_state).total_fees_token_0 - old(pool_state).total_fees_claimed_token_0;
            let unclaimed_1 = old(pool_state).total_fees_token_1 - old(pool_state).total_fees_claimed_token_1;
            let short = (unclaimed_0 >= token_vault_0_amount && token_vault_0_amount != 0) || (
            unclaimed_1 >= token_vault_1_amount && token_vault_1_amount != 0);
            &&& status_bit(final(pool_state).status, 2) == (if short {
                true
            } else {
                status_bit(old(pool_state).status, 2)
            })
            &&& (forall|k: u8|
                k < 8 && k != 2 ==> status_bit(final(pool_state).status, k) == status_bit(
                    old(pool_state).status,
                    k,
                ))
            &&& *final(pool_state) == (PoolState {
                status: final(pool_state).status,
                ..*old(pool_state)
            })
        },
{
    let total_0 = pool_state.total_fees_token_0;
    let claimed_0 = pool_state.total_fees_claimed_token_0;
    let total_1 = pool_state.total_fees_token_1;
    let claimed_1 = pool_state.total_fees_claimed_token_1;
    if claimed_0 > total_0 || claimed_1 > total_1 {
        return Err(ErrorCode::MathOverflow);
    }
    let unclaimed_fee_token_0 = total_0 - claimed_0;
    let unclaimed_fee_token_1 = total_1 - claimed_1;
    if (unclaimed_fee_token_0 >= token_vault_0_amount && token_vault_0_amount != 0) || (
    unclaimed_fee_token_1 >= token_vault_1_amount && token_vault_1_amount != 0) {
        pool_state.set_status_by_bit(PoolStatusBitIndex::CollectFee, PoolStatusBitFlag::Disable);
    }
    Ok(())
}

} // verus!
