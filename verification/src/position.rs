//! Per-liquidity-provider position records: range, growth-inside snapshots,
//! and owed-but-unclaimed fee and reward amounts.

use vstd::prelude::*;
use crate::error::ErrorCode;
use crate::math::{mul_shr_64, p64};
use crate::pool::{Address, REWARD_NUM};
use crate::tick_array::wsub_spec;

verus! {

/// One reward stream's view from a position: the growth-inside snapshot it
/// last settled at, and the amount owed since.
#[derive(Clone, Copy, Debug)]
pub struct PositionRewardInfo {
    /// Q64.64 reward growth inside the range at the last settlement.
    pub growth_inside_last_x64: u128,
    /// Reward tokens owed and not yet collected.
    pub reward_amount_owed: u64,
}

/// A liquidity provider's position: its tick range, its liquidity, and the
/// fee and reward amounts accrued to it.
pub struct PersonalPositionState {
    /// Bump byte of the position account.
    pub bump: u8,
    /// Mint of the position's ownership token.
    pub nft_mint: Address,
    /// The pool the position belongs to.
    pub pool_id: Address,
    /// Lower boundary tick of the range.
    pub tick_lower_index: i32,
    /// Upper boundary tick of the range.
    pub tick_upper_index: i32,
    /// Liquidity the position holds in its range.
    pub liquidity: u128,
    /// Q64.64 token-0 fee growth inside the range at the last settlement.
    pub fee_growth_inside_0_last_x64: u128,
    /// Q64.64 token-1 fee growth inside the range at the last settlement.
    pub fee_growth_inside_1_last_x64: u128,
    /// Token-0 fees owed and not yet collected.
    pub token_fees_owed_0: u64,
    /// Token-1 fees owed and not yet collected.
    pub token_fees_owed_1: u64,
    /// Per-slot reward snapshots and owed amounts.
    pub reward_infos: Vec<PositionRewardInfo>,
    /// Epoch the account was last written.
    pub recent_epoch: u64,
}

/// The fee or reward amount newly owed over a settlement interval:
/// floor(wrapping growth delta times liquidity, rescaled from Q64.64).
pub open spec fn owed_delta_spec(last: u128, latest: u128, liquidity: u128) -> int {
    (wsub_spec(latest, last) * liquidity) / p64()
}

/// The owed fee total after settling a growth interval. Fails exactly when
/// the updated total does not fit the accumulator, which aborts the whole
/// operation: growth deltas feed financial settlement and must never
/// saturate silently.
pub fn calculate_latest_token_fees(
    last_total_fees: u64,
    fee_growth_inside_last_x64: u128,
    fee_growth_inside_latest_x64: u128,
    liquidity: u128,
) -> (r: Result<u64, ErrorCode>)
    ensures
        r is Ok <==> last_total_fees + owed_delta_spec(
            fee_growth_inside_last_x64,
            fee_growth_inside_latest_x64,
            liquidity,
        ) <= u64::MAX,
        r matches Ok(v) ==> v == last_total_fees + owed_delta_spec(
            fee_growth_inside_last_x64,
            fee_growth_inside_latest_x64,
            liquidity,
        ),
        r is Err ==> r == Result::<u64, ErrorCode>::Err(ErrorCode::MathOverflow),
{
    let delta_growth = crate::tick_array::wsub(
        fee_growth_inside_latest_x64,
        fee_growth_inside_last_x64,
    );
    let wide = match mul_shr_64(delta_growth, liquidity) {
        Some(v) => v,
        None => {
            return Err(ErrorCode::MathOverflow);
        },
    };
    if wide > (u64::MAX - last_total_fees) as u128 {
        return Err(ErrorCode::MathOverflow);
    }
    Ok(last_total_fees + (wide as u64))
}

impl PersonalPositionState {
    /// Structural well-formedness: the three reward slots are present.
    pub open spec fn wf(&self) -> bool {
        self.reward_infos@.len() == REWARD_NUM
    }

    /// Whether each settlement in a table of (last, owed) pairs succeeds,
    /// and what the slots become: each slot accrues its growth delta times
    /// the position's liquidity and snapshots the new growth-inside.
    pub open spec fn rewards_settle_ok(&self, growths_inside: Seq<u128>) -> bool
        recommends
            self.wf(),
            growths_inside.len() == REWARD_NUM,
    {
        forall|i: int|
            0 <= i < REWARD_NUM ==> #[trigger] self.reward_infos@[i].reward_amount_owed
                + owed_delta_spec(
                self.reward_infos@[i].growth_inside_last_x64,
                growths_inside[i],
                self.liquidity,
            ) <= u64::MAX
    }

    /// The reward slot table after a successful settlement.
    pub open spec fn rewards_settled(&self, growths_inside: Seq<u128>) -> Seq<PositionRewardInfo>
        recommends
            self.wf(),
            growths_inside.len() == REWARD_NUM,
            self.rewards_settle_ok(growths_inside),
    {
        Seq::new(
            self.reward_infos@.len(),
            |i: int|
                PositionRewardInfo {
                    growth_inside_last_x64: growths_inside[i],
                    reward_amount_owed: (self.reward_infos@[i].reward_amount_owed
                        + owed_delta_spec(
                        self.reward_infos@[i].growth_inside_last_x64,
                        growths_inside[i],
                        self.liquidity,
                    )) as u64,
                },
        )
    }

    /// Whether settling the position at the given growth-inside values
    /// fits every owed accumulator, without changing anything.
    pub fn settlement_fits(
        &self,
        fee_growth_inside_0_latest_x64: u128,
        fee_growth_inside_1_latest_x64: u128,
        reward_growths_inside: &Vec<u128>,
    ) -> (r: bool)
        requires
            self.wf(),
            reward_growths_inside@.len() == REWARD_NUM,
        ensures
            r == ({
                &&& self.token_fees_owed_0 + owed_delta_spec(
                    self.fee_growth_inside_0_last_x64,
                    fee_growth_inside_0_latest_x64,
                    self.liquidity,
                ) <= u64::MAX
                &&& self.token_fees_owed_1 + owed_delta_spec(
                    self.fee_growth_inside_1_last_x64,
                    fee_growth_inside_1_latest_x64,
                    self.liquidity,
                ) <= u64::MAX
                &&& self.rewards_settle_ok(reward_growths_inside@)
            }),
    {
        match calculate_latest_token_fees(
            self.token_fees_owed_0,
            self.fee_growth_inside_0_last_x64,
            fee_growth_inside_0_latest_x64,
            self.liquidity,
        ) {
            Ok(_) => {},
            Err(_) => {
                return false;
            },
        }
        match calculate_latest_token_fees(
            self.token_fees_owed_1,
            self.fee_growth_inside_1_last_x64,
            fee_growth_inside_1_latest_x64,
            self.liquidity,
        ) {
            Ok(_) => {},
            Err(_) => {
                return false;
            },
        }
        let mut i: usize = 0;
        while i < 3
            invariant
                self.wf(),
                reward_growths_inside@.len() == REWARD_NUM,
                i <= 3,
                forall|j: int|
                    0 <= j < i ==> #[trigger] self.reward_infos@[j].reward_amount_owed
                        + owed_delta_spec(
                        self.reward_infos@[j].growth_inside_last_x64,
                        reward_growths_inside@[j],
                        self.liquidity,
                    ) <= u64::MAX,
            decreases 3 - i,
        {
            let slot = self.reward_infos[i];
            match calculate_latest_token_fees(
                slot.reward_amount_owed,
                slot.growth_inside_last_x64,
                reward_growths_inside[i],
                self.liquidity,
            ) {
                Ok(_) => {},
                Err(_) => {
                    proof {
                        assert(self.reward_infos@[i as int].reward_amount_owed
                            + owed_delta_spec(
                            self.reward_infos@[i as int].growth_inside_last_x64,
                            reward_growths_inside@[i as int],
                            self.liquidity,
                        ) > u64::MAX);
                    }
                    return false;
                },
            }
            i += 1;
        }
        true
    }

    /// Settle the position's reward slots against new growth-inside values.
    fn update_rewards(&mut self, growths_inside: &Vec<u128>) -> (r: Result<(), ErrorCode>)
        requires
            old(self).wf(),
            growths_inside@.len() == REWARD_NUM,
        ensures
            final(self).wf(),
            r is Ok <==> old(self).rewards_settle_ok(growths_inside@),
            r is Ok ==> *final(self) == (PersonalPositionState {
                reward_infos: final(self).reward_infos,
                ..*old(self)
            }) && final(self).reward_infos@ =~= old(self).rewards_settled(growths_inside@),
            r is Err ==> r == Result::<(), ErrorCode>::Err(ErrorCode::MathOverflow),
    {
        let mut updated: Vec<PositionRewardInfo> = Vec::new();
        let mut i: usize = 0;
        while i < 3
            invariant
                self.wf(),
                *self == *old(self),
                growths_inside@.len() == REWARD_NUM,
                i <= 3,
                updated@.len() == i,
                forall|j: int|
                    0 <= j < i ==> #[trigger] self.reward_infos@[j].reward_amount_owed
                        + owed_delta_spec(
                        self.reward_infos@[j].growth_inside_last_x64,
                        growths_inside@[j],
                        self.liquidity,
                    ) <= u64::MAX,
                forall|j: int|
                    0 <= j < i ==> updated@[j] == (PositionRewardInfo {
                        growth_inside_last_x64: growths_inside@[j],
                        reward_amount_owed: (self.reward_infos@[j].reward_amount_owed
                            + owed_delta_spec(
                            self.reward_infos@[j].growth_inside_last_x64,
                            growths_inside@[j],
                            self.liquidity,
                        )) as u64,
                    }),
            decreases 3 - i,
        {
            let slot = self.reward_infos[i];
            let delta_growth = crate::tick_array::wsub(
                growths_inside[i],
                slot.growth_inside_last_x64,
            );
            let wide = match mul_shr_64(delta_growth, self.liquidity) {
                Some(v) => v,
                None => {
                    proof {
                        assert(self.reward_infos@[i as int].reward_amount_owed
                            + owed_delta_spec(
                            self.reward_infos@[i as int].growth_inside_last_x64,
                            growths_inside@[i as int],
                            self.liquidity,
                        ) > u64::MAX);
                    }
                    return Err(ErrorCode::MathOverflow);
                },
            };
            if wide > (u64::MAX - slot.reward_amount_owed) as u128 {
                proof {
                    assert(self.reward_infos@[i as int].reward_amount_owed + owed_delta_spec(
                        self.reward_infos@[i as int].growth_inside_last_x64,
                        growths_inside@[i as int],
                        self.liquidity,
                    ) > u64::MAX);
                }
                return Err(ErrorCode::MathOverflow);
            }
            updated.push(
                PositionRewardInfo {
                    growth_inside_last_x64: growths_inside[i],
                    reward_amount_owed: slot.reward_amount_owed + (wide as u64),
                },
            );
            i += 1;
        }
        self.reward_infos = updated;
        Ok(())
    }

    /// Add liquidity to the position and settle fees and rewards at the new
    /// growth-inside values: owed amounts accrue on the previous liquidity,
    /// snapshots advance, and the liquidity rises by the delta. Owed
    /// accumulators never decrease here.
    pub fn increase_liquidity(
        &mut self,
        liquidity_delta: u128,
        fee_growth_inside_0_latest_x64: u128,
        fee_growth_inside_1_latest_x64: u128,
        reward_growths_inside: &Vec<u128>,
        recent_epoch: u64,
    ) -> (r: Result<(), ErrorCode>)
        requires
            old(self).wf(),
            reward_growths_inside@.len() == REWARD_NUM,
        ensures
            final(self).wf(),
            r is Ok <==> old(self).liquidity + liquidity_delta <= u128::MAX && old(
                self,
            ).token_fees_owed_0 + owed_delta_spec(
                old(self).fee_growth_inside_0_last_x64,
                fee_growth_inside_0_latest_x64,
                old(self).liquidity,
            ) <= u64::MAX && old(self).token_fees_owed_1 + owed_delta_spec(
                old(self).fee_growth_inside_1_last_x64,
                fee_growth_inside_1_latest_x64,
                old(self).liquidity,
            ) <= u64::MAX && old(self).rewards_settle_ok(reward_growths_inside@),
            r is Ok ==> final(self).liquidity == old(self).liquidity + liquidity_delta
                && final(self).token_fees_owed_0 == old(self).token_fees_owed_0
                + owed_delta_spec(
                old(self).fee_growth_inside_0_last_x64,
                fee_growth_inside_0_latest_x64,
                old(self).liquidity,
            ) && final(self).token_fees_owed_1 == old(self).token_fees_owed_1
                + owed_delta_spec(
                old(self).fee_growth_inside_1_last_x64,
                fee_growth_inside_1_latest_x64,
                old(self).liquidity,
            ) && final(self).fee_growth_inside_0_last_x64 == fee_growth_inside_0_latest_x64
                && final(self).fee_growth_inside_1_last_x64 == fee_growth_inside_1_latest_x64
                && final(self).reward_infos@ =~= old(self).rewards_settled(
                reward_growths_inside@,
            ) && final(self).recent_epoch == recent_epoch && final(self).tick_lower_index == old(
                self,
            ).tick_lower_index && final(self).tick_upper_index == old(self).tick_upper_index
                && final(self).nft_mint == old(self).nft_mint && final(self).pool_id == old(
                self,
            ).pool_id && final(self).bump == old(self).bump,
            r is Err ==> r == Result::<(), ErrorCode>::Err(ErrorCode::MathOverflow),
    {
        self.change_liquidity(
            liquidity_delta,
            true,
            fee_growth_inside_0_latest_x64,
            fee_growth_inside_1_latest_x64,
            reward_growths_inside,
            recent_epoch,
        )
    }

    /// Remove liquidity from the position and settle fees and rewards, the
    /// counterpart of `increase_liquidity`.
    pub fn decrease_liquidity(
        &mut self,
        liquidity_delta: u128,
        fee_growth_inside_0_latest_x64: u128,
        fee_growth_inside_1_latest_x64: u128,
        reward_growths_inside: &Vec<u128>,
        recent_epoch: u64,
    ) -> (r: Result<(), ErrorCode>)
        requires
            old(self).wf(),
            reward_growths_inside@.len() == REWARD_NUM,
        ensures
            final(self).wf(),
            r is Ok <==> liquidity_delta <= old(self).liquidity && old(self).token_fees_owed_0
                + owed_delta_spec(
                old(self).fee_growth_inside_0_last_x64,
                fee_growth_inside_0_latest_x64,
                old(self).liquidity,
            ) <= u64::MAX && old(self).token_fees_owed_1 + owed_delta_spec(
                old(self).fee_growth_inside_1_last_x64,
                fee_growth_inside_1_latest_x64,
                old(self).liquidity,
            ) <= u64::MAX && old(self).rewards_settle_ok(reward_growths_inside@),
            r is Ok ==> final(self).liquidity == old(self).liquidity - liquidity_delta
                && final(self).token_fees_owed_0 == old(self).token_fees_owed_0
                + owed_delta_spec(
                old(self).fee_growth_inside_0_last_x64,
                fee_growth_inside_0_latest_x64,
                old(self).liquidity,
            ) && final(self).token_fees_owed_1 == old(self).token_fees_owed_1
                + owed_delta_spec(
                old(self).fee_growth_inside_1_last_x64,
                fee_growth_inside_1_latest_x64,
                old(self).liquidity,
            ) && final(self).fee_growth_inside_0_last_x64 == fee_growth_inside_0_latest_x64
                && final(self).fee_growth_inside_1_last_x64 == fee_growth_inside_1_latest_x64
                && final(self).reward_infos@ =~= old(self).rewards_settled(
                reward_growths_inside@,
            ) && final(self).recent_epoch == recent_epoch && final(self).tick_lower_index == old(
                self,
            ).tick_lower_index && final(self).tick_upper_index == old(self).tick_upper_index
                && final(self).nft_mint == old(self).nft_mint && final(self).pool_id == old(
                self,
            ).pool_id && final(self).bump == old(self).bump,
            r is Err ==> r == Result::<(), ErrorCode>::Err(ErrorCode::MathOverflow),
    {
        self.change_liquidity(
            liquidity_delta,
            false,
            fee_growth_inside_0_latest_x64,
            fee_growth_inside_1_latest_x64,
            reward_growths_inside,
            recent_epoch,
        )
    }

    /// Shared settlement path for liquidity increases and decreases.
    fn change_liquidity(
        &mut self,
        liquidity_delta: u128,
        add: bool,
        fee_growth_inside_0_latest_x64: u128,
        fee_growth_inside_1_latest_x64: u128,
        reward_growths_inside: &Vec<u128>,
        recent_epoch: u64,
    ) -> (r: Result<(), ErrorCode>)
        requires
            old(self).wf(),
            reward_growths_inside@.len() == REWARD_NUM,
        ensures
            final(self).wf(),
            r is Ok <==> (if add {
                old(self).liquidity + liquidity_delta <= u128::MAX
            } else {
                liquidity_delta <= old(self).liquidity
            }) && old(self).token_fees_owed_0 + owed_delta_spec(
                old(self).fee_growth_inside_0_last_x64,
                fee_growth_inside_0_latest_x64,
                old(self).liquidity,
            ) <= u64::MAX && old(self).token_fees_owed_1 + owed_delta_spec(
                old(self).fee_growth_inside_1_last_x64,
                fee_growth_inside_1_latest_x64,
                old(self).liquidity,
            ) <= u64::MAX && old(self).rewards_settle_ok(reward_growths_inside@),
            r is Ok ==> final(self).liquidity == (if add {
                old(self).liquidity + liquidity_delta
            } else {
                old(self).liquidity - liquidity_delta
            }) && final(self).token_fees_owed_0 == old(self).token_fees_owed_0
                + owed_delta_spec(
                old(self).fee_growth_inside_0_last_x64,
                fee_growth_inside_0_latest_x64,
                old(self).liquidity,
            ) && final(self).token_fees_owed_1 == old(self).token_fees_owed_1
                + owed_delta_spec(
                old(self).fee_growth_inside_1_last_x64,
                fee_growth_inside_1_latest_x64,
                old(self).liquidity,
            ) && final(self).fee_growth_inside_0_last_x64 == fee_growth_inside_0_latest_x64
                && final(self).fee_growth_inside_1_last_x64 == fee_growth_inside_1_latest_x64
                && final(self).reward_infos@ =~= old(self).rewards_settled(
                reward_growths_inside@,
            ) && final(self).recent_epoch == recent_epoch && final(self).tick_lower_index == old(
                self,
            ).tick_lower_index && final(self).tick_upper_index == old(self).tick_upper_index
                && final(self).nft_mint == old(self).nft_mint && final(self).pool_id == old(
                self,
            ).pool_id && final(self).bump == old(self).bump,
            r is Err ==> r == Result::<(), ErrorCode>::Err(ErrorCode::MathOverflow),
    {
        let new_liquidity: u128 = if add {
            match self.liquidity.checked_add(liquidity_delta) {
                Some(v) => v,
                None => {
                    return Err(ErrorCode::MathOverflow);
                },
            }
        } else {
            match self.liquidity.checked_sub(liquidity_delta) {
                Some(v) => v,
                None => {
                    return Err(ErrorCode::MathOverflow);
                },
            }
        };
        let owed_0 = match calculate_latest_token_fees(
            self.token_fees_owed_0,
            self.fee_growth_inside_0_last_x64,
            fee_growth_inside_0_latest_x64,
            self.liquidity,
        ) {
            Ok(v) => v,
            Err(e) => {
                return Err(e);
            },
        };
        let owed_1 = match calculate_latest_token_fees(
            self.token_fees_owed_1,
            self.fee_growth_inside_1_last_x64,
            fee_growth_inside_1_latest_x64,
            self.liquidity,
        ) {
            Ok(v) => v,
            Err(e) => {
                return Err(e);
            },
        };
        match self.update_rewards(reward_growths_inside) {
            Ok(()) => {},
            Err(e) => {
                return Err(e);
            },
        }
        self.token_fees_owed_0 = owed_0;
        self.token_fees_owed_1 = owed_1;
        self.fee_growth_inside_0_last_x64 = fee_growth_inside_0_latest_x64;
        self.fee_growth_inside_1_last_x64 = fee_growth_inside_1_latest_x64;
        self.liquidity = new_liquidity;
        self.recent_epoch = recent_epoch;
        Ok(())
    }
}

} // verus!
