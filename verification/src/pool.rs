//! Pool state: global liquidity and price, fee growth, the reward table, the
//! status bitmask, and the default tick-array bitmap.

use vstd::prelude::*;
use crate::bitmap::{bit_at, flip_at, flip_bit, test_bit};
use crate::bitmap_extension::{ext_bit, ext_slot_in_range, TickArrayBitmapExtension};
use crate::error::ErrorCode;
use crate::tick_array::{
    array_start_spec, tick_count_spec, valid_start_index_spec, TickArrayState,
};
use vstd::arithmetic::div_mod::{
    lemma_fundamental_div_mod, lemma_fundamental_div_mod_converse,
    lemma_mod_division_less_than_divisor,
};

verus! {

/// Number of reward slots a pool carries.
pub const REWARD_NUM: usize = 3;

/// A 32-byte account address, held as two 128-bit halves (first and second
/// 16 bytes, each little-endian).
#[derive(Clone, Copy, Debug, PartialEq, Eq, Structural)]
pub struct Address {
    pub w0: u128,
    pub w1: u128,
}

impl Address {
    /// The all-zero address, used as the "absent" marker.
    pub fn zero() -> (r: Address)
        ensures
            r == Address::spec_zero(),
    {
        Address { w0: 0, w1: 0 }
    }

    /// The all-zero address.
    pub open spec fn spec_zero() -> Address {
        Address { w0: 0, w1: 0 }
    }
}

/// Lifecycle of one reward slot. Once initialized a slot never returns to
/// `Uninitialized`; `Ended` is terminal.
#[derive(Clone, Copy, Debug, PartialEq, Eq, Structural)]
pub enum RewardState {
    /// Slot not configured.
    Uninitialized,
    /// Slot configured, emission not started.
    Initialized,
    /// Emission in progress.
    Opening,
    /// Emission period over.
    Ended,
}

impl RewardState {
    /// The stored byte for this state.
    pub open spec fn spec_u8(self) -> u8 {
        match self {
            RewardState::Uninitialized => 0,
            RewardState::Initialized => 1,
            RewardState::Opening => 2,
            RewardState::Ended => 3,
        }
    }

    /// The stored byte for this state.
    pub fn to_u8(self) -> (r: u8)
        ensures
            r == self.spec_u8(),
    {
        match self {
            RewardState::Uninitialized => 0,
            RewardState::Initialized => 1,
            RewardState::Opening => 2,
            RewardState::Ended => 3,
        }
    }
}

/// One reward emission stream of the pool.
#[derive(Clone, Copy, Debug, PartialEq, Eq, Structural)]
pub struct RewardInfo {
    /// Stored lifecycle state of the slot.
    pub reward_state: u8,
    /// Emission start time.
    pub open_time: u64,
    /// Emission end time.
    pub end_time: u64,
    /// Last time the slot accrued.
    pub last_update_time: u64,
    /// Q64.64 tokens emitted per second per unit of liquidity.
    pub emissions_per_second_x64: u128,
    /// Total reward tokens emitted so far.
    pub reward_total_emissioned: u64,
    /// Total reward tokens claimed so far.
    pub reward_claimed: u64,
    /// Mint of the reward token.
    pub token_mint: Address,
    /// Vault holding the reward tokens.
    pub token_vault: Address,
    /// Authority allowed to change the slot's parameters.
    pub authority: Address,
    /// Q64.64 total tokens earned per unit of liquidity since emission began.
    pub reward_growth_global_x64: u128,
}

impl RewardInfo {
    /// A fresh, uninitialized slot owned by `authority`.
    pub fn new(authority: Address) -> (r: RewardInfo)
        ensures
            r == RewardInfo::spec_new(authority),
    {
        RewardInfo {
            reward_state: 0,
            open_time: 0,
            end_time: 0,
            last_update_time: 0,
            emissions_per_second_x64: 0,
            reward_total_emissioned: 0,
            reward_claimed: 0,
            token_mint: Address::zero(),
            token_vault: Address::zero(),
            authority,
            reward_growth_global_x64: 0,
        }
    }

    /// A fresh, uninitialized slot owned by `authority`.
    pub open spec fn spec_new(authority: Address) -> RewardInfo {
        RewardInfo {
            reward_state: 0,
            open_time: 0,
            end_time: 0,
            last_update_time: 0,
            emissions_per_second_x64: 0,
            reward_total_emissioned: 0,
            reward_claimed: 0,
            token_mint: Address::spec_zero(),
            token_vault: Address::spec_zero(),
            authority,
            reward_growth_global_x64: 0,
        }
    }

    /// Whether the slot has ever been configured: a configured slot holds a
    /// nonzero mint, and never returns to the unconfigured state.
    pub open spec fn spec_initialized(self) -> bool {
        self.token_mint != Address::spec_zero()
    }

    /// Whether the slot has ever been configured.
    pub fn initialized(&self) -> (r: bool)
        ensures
            r == self.spec_initialized(),
    {
        !(self.token_mint.w0 == 0 && self.token_mint.w1 == 0)
    }

    /// The global reward growth of each slot, in slot order.
    pub fn get_reward_growths(reward_infos: &Vec<RewardInfo>) -> (r: Vec<u128>)
        requires
            reward_infos@.len() == REWARD_NUM,
        ensures
            r@.len() == REWARD_NUM,
            forall|i: int|
                0 <= i < REWARD_NUM ==> r@[i] == reward_infos@[i].reward_growth_global_x64,
    {
        let mut r: Vec<u128> = Vec::new();
        r.push(reward_infos[0].reward_growth_global_x64);
        r.push(reward_infos[1].reward_growth_global_x64);
        r.push(reward_infos[2].reward_growth_global_x64);
        r
    }
}

/// Operation allow-lists: owners permitted to administer reward slots, and
/// mints exempt from the freeze-authority restriction.
pub struct OperationState {
    /// Bump byte of the account.
    pub bump: u8,
    /// Addresses allowed to operate reward administration.
    pub operation_owners: Vec<Address>,
    /// Mints accepted for rewards without further checks.
    pub whitelist_mints: Vec<Address>,
}

impl OperationState {
    /// Whether `owner` is a configured, nonzero operation owner.
    pub open spec fn spec_validate_operation_owner(&self, owner: Address) -> bool {
        owner != Address::spec_zero() && self.operation_owners@.contains(owner)
    }

    /// Whether `owner` is a configured, nonzero operation owner.
    pub fn validate_operation_owner(&self, owner: Address) -> (r: bool)
        ensures
            r == self.spec_validate_operation_owner(owner),
    {
        if owner.w0 == 0 && owner.w1 == 0 {
            return false;
        }
        let mut i: usize = 0;
        while i < self.operation_owners.len()
            invariant
                i <= self.operation_owners@.len(),
                forall|j: int| 0 <= j < i ==> self.operation_owners@[j] != owner,
                owner != Address::spec_zero(),
            decreases self.operation_owners@.len() - i,
        {
            if self.operation_owners[i] == owner {
                return true;
            }
            i += 1;
        }
        false
    }
}

/// Features that the pool's status bitmask can disable, one bit each.
pub enum PoolStatusBitIndex {
    /// Opening a position or increasing liquidity.
    OpenPositionOrIncreaseLiquidity,
    /// Decreasing liquidity.
    DecreaseLiquidity,
    /// Collecting trade fees.
    CollectFee,
    /// Collecting rewards.
    CollectReward,
    /// Swapping.
    Swap,
}

impl PoolStatusBitIndex {
    /// Bit position of this feature in the status byte.
    pub open spec fn spec_value(self) -> u8 {
        match self {
            PoolStatusBitIndex::OpenPositionOrIncreaseLiquidity => 0,
            PoolStatusBitIndex::DecreaseLiquidity => 1,
            PoolStatusBitIndex::CollectFee => 2,
            PoolStatusBitIndex::CollectReward => 3,
            PoolStatusBitIndex::Swap => 4,
        }
    }

    /// Bit position of this feature in the status byte.
    pub fn value(self) -> (r: u8)
        ensures
            r == self.spec_value(),
            r < 8,
    {
        match self {
            PoolStatusBitIndex::OpenPositionOrIncreaseLiquidity => 0,
            PoolStatusBitIndex::DecreaseLiquidity => 1,
            PoolStatusBitIndex::CollectFee => 2,
            PoolStatusBitIndex::CollectReward => 3,
            PoolStatusBitIndex::Swap => 4,
        }
    }
}

/// Whether a feature bit is set (set means the feature is disabled).
#[derive(PartialEq, Eq, Structural)]
pub enum PoolStatusBitFlag {
    /// Clear the bit: the feature runs normally.
    Enable,
    /// Set the bit: the feature is disabled.
    Disable,
}

/// Whether bit `k` of the status byte is set.
pub open spec fn status_bit(status: u8, k: u8) -> bool
    recommends
        k < 8,
{
    (status >> k) & 1 == 1
}

/// The pool state: token pair metadata, current price and liquidity, fee and
/// reward accounting, the status bitmask, and the default tick-array bitmap.
pub struct PoolState {
    /// Bump byte of the pool account.
    pub bump: u8,
    /// Configuration the pool belongs to.
    pub amm_config: Address,
    /// Pool creator.
    pub owner: Address,
    /// First token mint; sorts below `token_mint_1`.
    pub token_mint_0: Address,
    /// Second token mint.
    pub token_mint_1: Address,
    /// Vault for token 0.
    pub token_vault_0: Address,
    /// Vault for token 1.
    pub token_vault_1: Address,
    /// Oracle observation account.
    pub observation_key: Address,
    /// Decimals of mint 0.
    pub mint_decimals_0: u8,
    /// Decimals of mint 1.
    pub mint_decimals_1: u8,
    /// Minimum number of ticks between initialized ticks.
    pub tick_spacing: u16,
    /// Liquidity currently in range.
    pub liquidity: u128,
    /// Current sqrt(token_1/token_0) price, Q64.64.
    pub sqrt_price_x64: u128,
    /// Current tick, consistent with `sqrt_price_x64`.
    pub tick_current: i32,
    /// Reserved bytes kept for layout compatibility.
    pub padding3: u16,
    /// Reserved bytes kept for layout compatibility.
    pub padding4: u16,
    /// Q64.64 fees of token 0 collected per unit of liquidity, wrapping.
    pub fee_growth_global_0_x64: u128,
    /// Q64.64 fees of token 1 collected per unit of liquidity, wrapping.
    pub fee_growth_global_1_x64: u128,
    /// Token 0 owed to the protocol.
    pub protocol_fees_token_0: u64,
    /// Token 1 owed to the protocol.
    pub protocol_fees_token_1: u64,
    /// Cumulative token 0 swapped in.
    pub swap_in_amount_token_0: u128,
    /// Cumulative token 1 swapped out.
    pub swap_out_amount_token_1: u128,
    /// Cumulative token 1 swapped in.
    pub swap_in_amount_token_1: u128,
    /// Cumulative token 0 swapped out.
    pub swap_out_amount_token_0: u128,
    /// Feature-disable bitmask; bit set means the feature is disabled.
    pub status: u8,
    /// Reserved bytes kept for layout compatibility: seven bytes.
    pub padding: Vec<u8>,
    /// The three reward slots.
    pub reward_infos: Vec<RewardInfo>,
    /// Default tick-array bitmap: 16 words, 1024 bits.
    pub tick_array_bitmap: Vec<u64>,
    /// Total token 0 trade fees, excluding protocol and fund fees.
    pub total_fees_token_0: u64,
    /// Token 0 trade fees already claimed.
    pub total_fees_claimed_token_0: u64,
    /// Total token 1 trade fees, excluding protocol and fund fees.
    pub total_fees_token_1: u64,
    /// Token 1 trade fees already claimed.
    pub total_fees_claimed_token_1: u64,
    /// Fund fees of token 0.
    pub fund_fees_token_0: u64,
    /// Fund fees of token 1.
    pub fund_fees_token_1: u64,
    /// Earliest time swaps are allowed.
    pub open_time: u64,
    /// Epoch the account was last written.
    pub recent_epoch: u64,
    /// Reserved words kept for layout compatibility: twenty-four words.
    pub padding1: Vec<u64>,
    /// Reserved words kept for layout compatibility: thirty-two words.
    pub padding2: Vec<u64>,
}

impl PoolState {
    /// Structural well-formedness: the reward table has its three slots, the
    /// default bitmap its sixteen words, the reserved regions their fixed
    /// sizes, and the tick spacing is nonzero.
    pub open spec fn wf(&self) -> bool {
        &&& self.reward_infos@.len() == REWARD_NUM
        &&& self.tick_array_bitmap@.len() == 16
        &&& self.tick_spacing >= 1
        &&& self.padding@.len() == 7
        &&& self.padding1@.len() == 24
        &&& self.padding2@.len() == 32
    }

    /// Every reward slot has claimed no more than was emitted.
    pub open spec fn reward_claims_bounded(&self) -> bool {
        forall|i: int|
            0 <= i < self.reward_infos@.len() ==> self.reward_infos@[i].reward_claimed
                <= self.reward_infos@[i].reward_total_emissioned
    }

    /// Set all pool fields for a newly created pool: the given identity and
    /// price, empty accounting, all features enabled, an empty bitmap, and
    /// three unconfigured reward slots owned by the creator.
    #[verifier::rlimit(30)]
    pub fn initialize(
        &mut self,
        bump: u8,
        sqrt_price_x64: u128,
        open_time: u64,
        tick: i32,
        pool_creator: Address,
        token_vault_0: Address,
        token_vault_1: Address,
        amm_config: Address,
        tick_spacing: u16,
        token_mint_0: Address,
        mint_decimals_0: u8,
        token_mint_1: Address,
        mint_decimals_1: u8,
        observation_key: Address,
        recent_epoch: u64,
    )
        requires
            tick_spacing >= 1,
        ensures
            final(self).wf(),
            final(self).reward_claims_bounded(),
            final(self).bump == bump,
            final(self).amm_config == amm_config,
            final(self).owner == pool_creator,
            final(self).token_mint_0 == token_mint_0,
            final(self).token_mint_1 == token_mint_1,
            final(self).token_vault_0 == token_vault_0,
            final(self).token_vault_1 == token_vault_1,
            final(self).observation_key == observation_key,
            final(self).mint_decimals_0 == mint_decimals_0,
            final(self).mint_decimals_1 == mint_decimals_1,
            final(self).tick_spacing == tick_spacing,
            final(self).liquidity == 0,
            final(self).sqrt_price_x64 == sqrt_price_x64,
            final(self).tick_current == tick,
            final(self).fee_growth_global_0_x64 == 0,
            final(self).fee_growth_global_1_x64 == 0,
            final(self).protocol_fees_token_0 == 0,
            final(self).protocol_fees_token_1 == 0,
            final(self).swap_in_amount_token_0 == 0,
            final(self).swap_out_amount_token_1 == 0,
            final(self).swap_in_amount_token_1 == 0,
            final(self).swap_out_amount_token_0 == 0,
            final(self).status == 0,
            forall|i: int|
                0 <= i < REWARD_NUM ==> final(self).reward_infos@[i] == RewardInfo::spec_new(
                    pool_creator,
                ),
            forall|i: int| 0 <= i < 16 ==> final(self).tick_array_bitmap@[i] == 0,
            final(self).total_fees_token_0 == 0,
            final(self).total_fees_claimed_token_0 == 0,
            final(self).total_fees_token_1 == 0,
            final(self).total_fees_claimed_token_1 == 0,
            final(self).fund_fees_token_0 == 0,
            final(self).fund_fees_token_1 == 0,
            final(self).open_time == open_time,
            final(self).recent_epoch == recent_epoch,
    {
        self.bump = bump;
        self.amm_config = amm_config;
        self.owner = pool_creator;
        self.token_mint_0 = token_mint_0;
        self.token_mint_1 = token_mint_1;
        self.mint_decimals_0 = mint_decimals_0;
        self.mint_decimals_1 = mint_decimals_1;
        self.token_vault_0 = token_vault_0;
        self.token_vault_1 = token_vault_1;
        self.tick_spacing = tick_spacing;
        self.liquidity = 0;
        self.sqrt_price_x64 = sqrt_price_x64;
        self.tick_current = tick;
        self.padding3 = 0;
        self.padding4 = 0;
        let mut rewards: Vec<RewardInfo> = Vec::new();
        rewards.push(RewardInfo::new(pool_creator));
        rewards.push(RewardInfo::new(pool_creator));
        rewards.push(RewardInfo::new(pool_creator));
        self.reward_infos = rewards;
        self.fee_growth_global_0_x64 = 0;
        self.fee_growth_global_1_x64 = 0;
        self.protocol_fees_token_0 = 0;
        self.protocol_fees_token_1 = 0;
        self.swap_in_amount_token_0 = 0;
        self.swap_out_amount_token_1 = 0;
        self.swap_in_amount_token_1 = 0;
        self.swap_out_amount_token_0 = 0;
        self.status = 0;
        let mut pad7: Vec<u8> = Vec::new();
        let mut i7: usize = 0;
        while i7 < 7
            invariant
                i7 <= 7,
                pad7@.len() == i7,
            decreases 7 - i7,
        {
            pad7.push(0);
            i7 += 1;
        }
        self.padding = pad7;
        let mut bitmap: Vec<u64> = Vec::new();
        let mut i: usize = 0;
        while i < 16
            invariant
                i <= 16,
                bitmap@.len() == i,
                forall|j: int| 0 <= j < i ==> bitmap@[j] == 0,
            decreases 16 - i,
        {
            bitmap.push(0);
            i += 1;
        }
        self.tick_array_bitmap = bitmap;
        self.total_fees_token_0 = 0;
        self.total_fees_claimed_token_0 = 0;
        self.total_fees_token_1 = 0;
        self.total_fees_claimed_token_1 = 0;
        self.fund_fees_token_0 = 0;
        self.fund_fees_token_1 = 0;
        self.open_time = open_time;
        self.recent_epoch = recent_epoch;
        let mut pad24: Vec<u64> = Vec::new();
        let mut i24: usize = 0;
        while i24 < 24
            invariant
                i24 <= 24,
                pad24@.len() == i24,
            decreases 24 - i24,
        {
            pad24.push(0);
            i24 += 1;
        }
        self.padding1 = pad24;
        let mut pad32: Vec<u64> = Vec::new();
        let mut i32x: usize = 0;
        while i32x < 32
            invariant
                i32x <= 32,
                pad32@.len() == i32x,
            decreases 32 - i32x,
        {
            pad32.push(0);
            i32x += 1;
        }
        self.padding2 = pad32;
        self.observation_key = observation_key;
    }

    /// Replace the whole status bitmask.
    pub fn set_status(&mut self, status: u8)
        ensures
            *final(self) == (PoolState { status, ..*old(self) }),
    {
        self.status = status;
    }

    /// Set or clear one feature bit, leaving every other bit unchanged.
    pub fn set_status_by_bit(&mut self, bit: PoolStatusBitIndex, flag: PoolStatusBitFlag)
        ensures
            status_bit(final(self).status, bit.spec_value()) == (flag == PoolStatusBitFlag::Disable),
            forall|k: u8|
                k < 8 && k != bit.spec_value() ==> status_bit(final(self).status, k) == status_bit(
                    old(self).status,
                    k,
                ),
            *final(self) == (PoolState { status: final(self).status, ..*old(self) }),
    {
        let v: u8 = bit.value();
        let s: u8 = 1u8 << v;
        if flag == PoolStatusBitFlag::Disable {
            let ns: u8 = self.status | s;
            proof {
                lemma_status_set_bit(self.status, v);
            }
            self.status = ns;
        } else {
            let m: u8 = 255u8 ^ s;
            let ns: u8 = self.status & m;
            proof {
                lemma_status_clear_bit(self.status, v);
            }
            self.status = ns;
        }
    }

    /// Whether the feature is currently enabled (its disable bit is clear).
    pub fn get_status_by_bit(&self, bit: PoolStatusBitIndex) -> (r: bool)
        ensures
            r == !status_bit(self.status, bit.spec_value()),
    {
        let v: u8 = bit.value();
        let status: u8 = 1u8 << v;
        let r = self.status & status == 0;
        proof {
            let w = self.status;
            assert((w & (1u8 << v) == 0) == !((w >> v) & 1 == 1)) by (bit_vector)
                requires v < 8;
        }
        r
    }

    /// Fail unless `reward_amount_owed` is covered by the slot's emitted but
    /// unclaimed rewards.
    pub fn check_unclaimed_reward(&self, index: usize, reward_amount_owed: u64) -> (r: Result<
        (),
        ErrorCode,
    >)
        requires
            self.wf(),
            index < REWARD_NUM,
            self.reward_claims_bounded(),
        ensures
            r is Ok <==> reward_amount_owed + self.reward_infos@[index as int].reward_claimed
                <= self.reward_infos@[index as int].reward_total_emissioned,
            r is Err ==> r == Result::<(), ErrorCode>::Err(ErrorCode::InsufficientClaimAmount),
    {
        let unclaimed: u64 = self.reward_infos[index].reward_total_emissioned
            - self.reward_infos[index].reward_claimed;
        if unclaimed >= reward_amount_owed {
            Ok(())
        } else {
            Err(ErrorCode::InsufficientClaimAmount)
        }
    }

    /// Add a freshly claimed amount to the slot's claimed total.
    pub fn add_reward_clamed(&mut self, index: usize, amount: u64) -> (r: Result<(), ErrorCode>)
        requires
            old(self).wf(),
            index < REWARD_NUM,
        ensures
            r is Ok <==> old(self).reward_infos@[index as int].reward_claimed + amount
                <= u64::MAX,
            r is Ok ==> *final(self) == (PoolState {
                reward_infos: final(self).reward_infos,
                ..*old(self)
            }) && final(self).reward_infos@ == old(self).reward_infos@.update(
                index as int,
                (RewardInfo {
                    reward_claimed: (old(self).reward_infos@[index as int].reward_claimed
                        + amount) as u64,
                    ..old(self).reward_infos@[index as int]
                }),
            ),
            r is Err ==> r == Result::<(), ErrorCode>::Err(ErrorCode::MathOverflow)
                && *final(self) == *old(self),
            final(self).wf(),
    {
        let cur: u64 = self.reward_infos[index].reward_claimed;
        if amount > u64::MAX - cur {
            return Err(ErrorCode::MathOverflow);
        }
        let mut slot: RewardInfo = self.reward_infos[index];
        slot.reward_claimed = cur + amount;
        self.reward_infos.set(index, slot);
        Ok(())
    }
}

/// The time up to which a slot accrues for an update at `now`: `now`, capped
/// at the slot's end time.
pub open spec fn reward_latest(r: RewardInfo, now: u64) -> u64 {
    if now < r.end_time {
        now
    } else {
        r.end_time
    }
}

/// Whether an update at `now` touches the slot at all: only configured slots
/// whose open time has passed accrue.
pub open spec fn reward_slot_active(r: RewardInfo, now: u64) -> bool {
    r.spec_initialized() && now > r.open_time
}

/// The reward growth added to an accruing slot over the update interval:
/// floor(elapsed * emissions_per_second / liquidity), in Q64.64.
pub open spec fn reward_growth_delta(r: RewardInfo, liquidity: u128, now: u64) -> int
    recommends
        liquidity > 0,
        reward_latest(r, now) >= r.last_update_time,
{
    (reward_latest(r, now) - r.last_update_time) * r.emissions_per_second_x64 / (liquidity as int)
}

/// The whole tokens emitted over the update interval:
/// ceil(elapsed * emissions_per_second / 2^64).
pub open spec fn reward_emission_delta(r: RewardInfo, now: u64) -> int
    recommends
        reward_latest(r, now) >= r.last_update_time,
{
    ((reward_latest(r, now) - r.last_update_time) * r.emissions_per_second_x64
        + crate::math::p64() - 1) / crate::math::p64()
}

/// Whether updating this slot at `now` hits a fatal arithmetic condition:
/// time running backwards, or a growth or emission accumulator overflowing.
pub open spec fn reward_update_failure(r: RewardInfo, liquidity: u128, now: u64) -> bool {
    reward_slot_active(r, now) && liquidity != 0 && {
        ||| reward_latest(r, now) < r.last_update_time
        ||| r.reward_growth_global_x64 + reward_growth_delta(r, liquidity, now) > u128::MAX
        ||| r.reward_total_emissioned + reward_emission_delta(r, now) > u64::MAX
    }
}

/// The slot after a successful update at `now` with the given pool liquidity.
pub open spec fn reward_updated(r: RewardInfo, liquidity: u128, now: u64) -> RewardInfo
    recommends
        !reward_update_failure(r, liquidity, now),
{
    if !reward_slot_active(r, now) {
        r
    } else {
        let latest = reward_latest(r, now);
        let growth = if liquidity != 0 {
            (r.reward_growth_global_x64 + reward_growth_delta(r, liquidity, now)) as u128
        } else {
            r.reward_growth_global_x64
        };
        let emissioned = if liquidity != 0 {
            (r.reward_total_emissioned + reward_emission_delta(r, now)) as u64
        } else {
            r.reward_total_emissioned
        };
        let state = if latest >= r.open_time && latest < r.end_time {
            2u8
        } else if latest == r.end_time {
            3u8
        } else {
            r.reward_state
        };
        RewardInfo {
            last_update_time: latest,
            reward_growth_global_x64: growth,
            reward_total_emissioned: emissioned,
            reward_state: state,
            ..r
        }
    }
}

/// Accruing a slot twice at the same time changes nothing the second time:
/// once the accrual clock has caught up, the elapsed interval is empty, so
/// repeated updates with the same timestamp are idempotent.
pub proof fn lemma_reward_update_idempotent(r: RewardInfo, liquidity: u128, now: u64)
    requires
        !reward_update_failure(r, liquidity, now),
    ensures
        !reward_update_failure(reward_updated(r, liquidity, now), liquidity, now),
        reward_updated(reward_updated(r, liquidity, now), liquidity, now) == reward_updated(
            r,
            liquidity,
            now,
        ),
{
    let r1 = reward_updated(r, liquidity, now);
    if reward_slot_active(r, now) {
        assert(r1.last_update_time == reward_latest(r, now));
        if liquidity != 0 {
            assert(reward_latest(r1, now) == r1.last_update_time);
            assert(reward_growth_delta(r1, liquidity, now) == 0) by {
                assert((reward_latest(r1, now) - r1.last_update_time)
                    * r1.emissions_per_second_x64 == 0) by (nonlinear_arith)
                    requires reward_latest(r1, now) == r1.last_update_time;
            }
            assert(reward_emission_delta(r1, now) == 0) by {
                assert((reward_latest(r1, now) - r1.last_update_time)
                    * r1.emissions_per_second_x64 == 0) by (nonlinear_arith)
                    requires reward_latest(r1, now) == r1.last_update_time;
                assert((crate::math::p64() - 1) / crate::math::p64() == 0);
            }
        }
    }
}

impl PoolState {
    /// The reward table as it would stand after accruing every slot up to
    /// `curr_timestamp`, without changing anything: a slot accrues only
    /// while it is configured, opened, and the pool has active liquidity;
    /// its growth grows by elapsed emission per unit of liquidity and its
    /// emitted total by the ceiling-divided whole tokens. Fails exactly when
    /// a slot hits a fatal arithmetic condition.
    pub fn compute_updated_rewards(&self, curr_timestamp: u64) -> (r: Result<
        Vec<RewardInfo>,
        ErrorCode,
    >)
        requires
            self.wf(),
        ensures
            r is Ok <==> (forall|i: int|
                0 <= i < REWARD_NUM ==> !reward_update_failure(
                    self.reward_infos@[i],
                    self.liquidity,
                    curr_timestamp,
                )),
            r matches Ok(v) ==> v@.len() == REWARD_NUM && (forall|i: int|
                0 <= i < REWARD_NUM ==> v@[i] == reward_updated(
                    self.reward_infos@[i],
                    self.liquidity,
                    curr_timestamp,
                )),
            r is Err ==> (r == Result::<Vec<RewardInfo>, ErrorCode>::Err(
                ErrorCode::InvalidTimestamp,
            ) || r == Result::<Vec<RewardInfo>, ErrorCode>::Err(ErrorCode::MathOverflow)),
            r == Result::<Vec<RewardInfo>, ErrorCode>::Err(ErrorCode::InvalidTimestamp)
                ==> (exists|i: int|
                    0 <= i < REWARD_NUM && reward_slot_active(
                        self.reward_infos@[i],
                        curr_timestamp,
                    ) && self.liquidity != 0 && reward_latest(
                        self.reward_infos@[i],
                        curr_timestamp,
                    ) < self.reward_infos@[i].last_update_time),
    {
        let mut updated: Vec<RewardInfo> = Vec::new();
        let mut i: usize = 0;
        while i < REWARD_NUM
            invariant
                self.wf(),
                i <= REWARD_NUM,
                updated@.len() == i,
                forall|j: int|
                    0 <= j < i ==> !reward_update_failure(
                        self.reward_infos@[j],
                        self.liquidity,
                        curr_timestamp,
                    ),
                forall|j: int|
                    0 <= j < i ==> updated@[j] == reward_updated(
                        self.reward_infos@[j],
                        self.liquidity,
                        curr_timestamp,
                    ),
            decreases REWARD_NUM - i,
        {
            let r = self.reward_infos[i];
            if !r.initialized() || curr_timestamp <= r.open_time {
                updated.push(r);
                i += 1;
                continue;
            }
            let latest: u64 = if curr_timestamp < r.end_time {
                curr_timestamp
            } else {
                r.end_time
            };
            let mut slot = r;
            if self.liquidity != 0 {
                if latest < r.last_update_time {
                    return Err(ErrorCode::InvalidTimestamp);
                }
                let time_delta: u64 = latest - r.last_update_time;
                let (hi, lo) = crate::math::mul_wide(
                    time_delta as u128,
                    r.emissions_per_second_x64,
                );
                let growth_delta: u128 = match crate::math::div_wide(
                    hi,
                    lo,
                    self.liquidity,
                ) {
                    Some(q) => q,
                    None => {
                        return Err(ErrorCode::MathOverflow);
                    },
                };
                if growth_delta > u128::MAX - r.reward_growth_global_x64 {
                    return Err(ErrorCode::MathOverflow);
                }
                slot.reward_growth_global_x64 = r.reward_growth_global_x64 + growth_delta;
                let emission_delta_wide: u128 = match crate::math::mul_shr_64_ceil(
                    time_delta as u128,
                    r.emissions_per_second_x64,
                ) {
                    Some(v) => v,
                    None => {
                        return Err(ErrorCode::MathOverflow);
                    },
                };
                if emission_delta_wide > (u64::MAX - r.reward_total_emissioned) as u128 {
                    return Err(ErrorCode::MathOverflow);
                }
                slot.reward_total_emissioned = r.reward_total_emissioned
                    + emission_delta_wide as u64;
            }
            slot.last_update_time = latest;
            if latest >= r.open_time && latest < r.end_time {
                slot.reward_state = 2;
            } else if latest == r.end_time {
                slot.reward_state = 3;
            }
            updated.push(slot);
            i += 1;
        }
        Ok(updated)
    }

    /// Accrue every reward slot up to `curr_timestamp` and return the updated
    /// table. A slot accrues only while it is configured, opened, and the
    /// pool has active liquidity; its growth grows by elapsed emission per
    /// unit of liquidity and its emitted total by the ceiling-divided whole
    /// tokens. On any fatal arithmetic condition nothing is changed.
    /// Repeating a call with the same timestamp changes nothing further; a
    /// timestamp older than a slot's accrual clock is rejected while the
    /// pool has active liquidity, and with none it only rewinds that
    /// slot's clock, accruing nothing.
    pub fn update_reward_infos(&mut self, curr_timestamp: u64) -> (r: Result<
        Vec<RewardInfo>,
        ErrorCode,
    >)
        requires
            old(self).wf(),
        ensures
            final(self).wf(),
            r is Ok <==> (forall|i: int|
                0 <= i < REWARD_NUM ==> !reward_update_failure(
                    old(self).reward_infos@[i],
                    old(self).liquidity,
                    curr_timestamp,
                )),
            r matches Ok(v) ==> v@ == final(self).reward_infos@
                && final(self).reward_infos@.len() == REWARD_NUM
                && (forall|i: int|
                    0 <= i < REWARD_NUM ==> final(self).reward_infos@[i] == reward_updated(
                        old(self).reward_infos@[i],
                        old(self).liquidity,
                        curr_timestamp,
                    ))
                && *final(self) == (PoolState {
                    reward_infos: final(self).reward_infos,
                    ..*old(self)
                }),
            r is Err ==> *final(self) == *old(self) && (r == Result::<
                Vec<RewardInfo>,
                ErrorCode,
            >::Err(ErrorCode::InvalidTimestamp) || r == Result::<Vec<RewardInfo>, ErrorCode>::Err(
                ErrorCode::MathOverflow,
            )),
            r == Result::<Vec<RewardInfo>, ErrorCode>::Err(ErrorCode::InvalidTimestamp)
                ==> (exists|i: int|
                    0 <= i < REWARD_NUM && reward_slot_active(
                        old(self).reward_infos@[i],
                        curr_timestamp,
                    ) && old(self).liquidity != 0 && reward_latest(
                        old(self).reward_infos@[i],
                        curr_timestamp,
                    ) < old(self).reward_infos@[i].last_update_time),
            old(self).reward_claims_bounded() ==> final(self).reward_claims_bounded(),
    {
        let updated = match self.compute_updated_rewards(curr_timestamp) {
            Ok(v) => v,
            Err(e) => {
                return Err(e);
            },
        };
        let result = clone_rewards(&updated);
        self.reward_infos = updated;
        Ok(result)
    }
}

/// An element-wise copy of a reward table.
fn clone_rewards(v: &Vec<RewardInfo>) -> (r: Vec<RewardInfo>)
    ensures
        r@ == v@,
{
    let mut r: Vec<RewardInfo> = Vec::new();
    let mut i: usize = 0;
    while i < v.len()
        invariant
            i <= v@.len(),
            r@.len() == i,
            forall|j: int| 0 <= j < i ==> r@[j] == v@[j],
        decreases v@.len() - i,
    {
        r.push(v[i]);
        i += 1;
    }
    proof {
        assert(r@ =~= v@);
    }
    r
}

/// The lowest array start index the default bitmap window represents.
pub open spec fn default_min_start(sp: int) -> int {
    if -512 * tick_count_spec(sp) < -443636 {
        array_start_spec(-443636, sp)
    } else {
        -512 * tick_count_spec(sp)
    }
}

/// One past the highest array start index the default bitmap window
/// represents.
pub open spec fn default_max_start(sp: int) -> int {
    if 512 * tick_count_spec(sp) > 443636 {
        array_start_spec(443636, sp) + tick_count_spec(sp)
    } else {
        512 * tick_count_spec(sp)
    }
}

/// Whether the array containing `tick` falls outside the default bitmap
/// window, so that only the extension can track it.
pub open spec fn overflow_default_spec(sp: int, tick: int) -> bool {
    ||| array_start_spec(tick, sp) >= default_max_start(sp)
    ||| array_start_spec(tick, sp) < default_min_start(sp)
}

/// The lowest array slot whose array intersects the valid tick range.
pub open spec fn min_array_idx(sp: int) -> int {
    (-443636) / tick_count_spec(sp)
}

/// The highest array slot whose array intersects the valid tick range.
pub open spec fn max_array_idx(sp: int) -> int {
    443636int / tick_count_spec(sp)
}

/// Whether the extension argument, when present, is well formed.
pub open spec fn ext_wf_spec(ext: Option<TickArrayBitmapExtension>) -> bool {
    match ext {
        Some(e) => e.wf(),
        None => true,
    }
}

/// The combined initialized-bit of array slot `idx`: the default bitmap
/// inside its window, the extension outside it (clear if absent).
pub open spec fn slot_bit(pool: PoolState, ext: Option<TickArrayBitmapExtension>, idx: int) -> bool {
    if -512 <= idx < 512 {
        bit_at(pool.tick_array_bitmap@, idx + 512)
    } else {
        match ext {
            Some(e) => ext_bit(e, idx),
            None => false,
        }
    }
}

/// What a successful nearest-initialized-slot search reports: either the
/// closest set slot strictly beyond the starting array in the requested
/// direction with nothing set in between, or that no slot is set from there
/// to the edge of the valid range.
pub open spec fn next_start_index_ok(
    pool: PoolState,
    ext: Option<TickArrayBitmapExtension>,
    last: int,
    zero_for_one: bool,
    result: Option<i32>,
) -> bool {
    let sp = pool.tick_spacing as int;
    let tpa = tick_count_spec(sp);
    let j0 = last / tpa;
    match result {
        Some(s) => exists|j: int|
            {
                &&& #[trigger] (j * tpa) == s
                &&& min_array_idx(sp) <= j <= max_array_idx(sp)
                &&& slot_bit(pool, ext, j)
                &&& (if zero_for_one {
                    j < j0 && (forall|j2: int|
                        j < j2 < j0 ==> !#[trigger] slot_bit(pool, ext, j2))
                } else {
                    j0 < j && (forall|j2: int|
                        j0 < j2 < j ==> !#[trigger] slot_bit(pool, ext, j2))
                })
            },
        None => if zero_for_one {
            forall|j2: int|
                min_array_idx(sp) <= j2 < j0 ==> !#[trigger] slot_bit(pool, ext, j2)
        } else {
            forall|j2: int|
                j0 < j2 <= max_array_idx(sp) ==> !#[trigger] slot_bit(pool, ext, j2)
        },
    }
}

/// Floor division of a bounded i32 by a positive divisor.
pub fn floor_div_i32(a: i32, d: i32) -> (r: i32)
    requires
        d >= 1,
        -536870912 <= a <= 536870911,
    ensures
        r == a as int / d as int,
{
    if a >= 0 {
        let q: u32 = (a as u32) / (d as u32);
        q as i32
    } else {
        let ai: u32 = (-a) as u32;
        let c: u32 = (ai + (d as u32) - 1) / (d as u32);
        proof {
            let av = ai as int;
            let t = d as int;
            let ci = c as int;
            lemma_fundamental_div_mod(av + t - 1, t);
            lemma_mod_division_less_than_divisor(av + t - 1, t);
            assert(ci * t >= av && ci * t <= av + t - 1) by (nonlinear_arith)
                requires av + t - 1 == t * ci + (av + t - 1) % t
                    && 0 <= (av + t - 1) % t < t && t >= 1 && av >= 1;
            assert((-ci) * t == -(ci * t)) by (nonlinear_arith);
            lemma_fundamental_div_mod_converse(-av, t, -ci, ci * t - av);
            assert(ci <= av) by (nonlinear_arith)
                requires ci * t <= av + t - 1 && t >= 1 && av >= 1 && 0 <= ci;
        }
        -(c as i32)
    }
}

impl PoolState {
    /// The array start index range the default bitmap represents, clamped so
    /// that it never extends past the arrays covering the valid tick range.
    pub fn tick_array_start_index_range(&self) -> (r: (i32, i32))
        requires
            self.wf(),
        ensures
            r.0 == default_min_start(self.tick_spacing as int),
            r.1 == default_max_start(self.tick_spacing as int),
    {
        let tpa: i32 = crate::tick_array::tick_count(self.tick_spacing);
        let mut max_boundary: i32 = tpa * 512;
        let mut min_boundary: i32 = -max_boundary;
        if max_boundary > 443636 {
            let s = TickArrayState::get_array_start_index(443636, self.tick_spacing);
            proof {
                let t = tpa as int;
                lemma_fundamental_div_mod(443636int, t);
                lemma_mod_division_less_than_divisor(443636int, t);
                assert((443636int / t) * t <= 443636 && (443636int / t) * t >= 443636 - t + 1)
                    by (nonlinear_arith)
                    requires 443636int == t * (443636int / t) + 443636int % t && 0 <= 443636int % t < t
                        && t >= 60;
            }
            max_boundary = s + tpa;
        }
        if min_boundary < -443636 {
            let s = TickArrayState::get_array_start_index(-443636, self.tick_spacing);
            proof {
                let t = tpa as int;
                lemma_fundamental_div_mod(-443636, t);
                lemma_mod_division_less_than_divisor(-443636, t);
                assert(((-443636) / t) * t <= -443636 && ((-443636) / t) * t >= -443636 - t + 1)
                    by (nonlinear_arith)
                    requires (-443636) == t * ((-443636) / t) + (-443636) % t
                        && 0 <= (-443636) % t < t && t >= 60;
            }
            min_boundary = s;
        }
        (min_boundary, max_boundary)
    }

    /// Whether any of the given ticks lives in an array the default bitmap
    /// cannot represent.
    pub fn is_overflow_default_tickarray_bitmap(&self, tick_indexs: Vec<i32>) -> (r: bool)
        requires
            self.wf(),
            forall|i: int|
                0 <= i < tick_indexs@.len() ==> -4500000 <= #[trigger] tick_indexs@[i] <= 4500000,
        ensures
            r == exists|i: int|
                0 <= i < tick_indexs@.len() && overflow_default_spec(
                    self.tick_spacing as int,
                    #[trigger] tick_indexs@[i] as int,
                ),
    {
        let (min_boundary, max_boundary) = self.tick_array_start_index_range();
        let mut i: usize = 0;
        while i < tick_indexs.len()
            invariant
                i <= tick_indexs@.len(),
                self.wf(),
                min_boundary == default_min_start(self.tick_spacing as int),
                max_boundary == default_max_start(self.tick_spacing as int),
                forall|k: int|
                    0 <= k < tick_indexs@.len() ==> -4500000 <= #[trigger] tick_indexs@[k]
                        <= 4500000,
                forall|k: int|
                    0 <= k < i ==> !overflow_default_spec(
                        self.tick_spacing as int,
                        #[trigger] tick_indexs@[k] as int,
                    ),
            decreases tick_indexs@.len() - i,
        {
            let start = TickArrayState::get_array_start_index(tick_indexs[i], self.tick_spacing);
            if start >= max_boundary || start < min_boundary {
                return true;
            }
            i += 1;
        }
        false
    }

    /// The bit position of a default-window array start index inside the
    /// 1024-bit default bitmap.
    pub fn get_tick_array_offset(&self, tick_array_start_index: i32) -> (r: Result<
        usize,
        ErrorCode,
    >)
        requires
            self.wf(),
            -4500000 <= tick_array_start_index <= 4500000,
            valid_start_index_spec(tick_array_start_index as int, self.tick_spacing as int)
                ==> !overflow_default_spec(
                self.tick_spacing as int,
                tick_array_start_index as int,
            ),
        ensures
            r is Ok <==> valid_start_index_spec(
                tick_array_start_index as int,
                self.tick_spacing as int,
            ),
            r matches Ok(o) ==> o == tick_array_start_index as int / tick_count_spec(
                self.tick_spacing as int,
            ) + 512 && o < 1024,
            r is Err ==> r == Result::<usize, ErrorCode>::Err(ErrorCode::InvalidTickIndex),
    {
        if !TickArrayState::check_is_valid_start_index(tick_array_start_index, self.tick_spacing) {
            return Err(ErrorCode::InvalidTickIndex);
        }
        let tpa: i32 = crate::tick_array::tick_count(self.tick_spacing);
        let idx: i32 = floor_div_i32(tick_array_start_index, tpa);
        proof {
            self.lemma_default_window_idx(tick_array_start_index as int);
        }
        Ok((idx + 512) as usize)
    }

    /// A valid start index inside the default window sits at an array slot
    /// in [-512, 512), and its slot times the array count is itself.
    proof fn lemma_default_window_idx(&self, start: int)
        requires
            self.wf(),
            valid_start_index_spec(start, self.tick_spacing as int),
            !overflow_default_spec(self.tick_spacing as int, start),
        ensures
            -512 <= start / tick_count_spec(self.tick_spacing as int) < 512,
            (start / tick_count_spec(self.tick_spacing as int)) * tick_count_spec(
                self.tick_spacing as int,
            ) == start,
    {
        let sp = self.tick_spacing as int;
        let t = tick_count_spec(sp);
        lemma_valid_start_self(start, sp);
        let j = start / t;
        assert(j * t == start);
        // The window bounds translate to slot bounds.
        lemma_fundamental_div_mod(-443636, t);
        lemma_mod_division_less_than_divisor(-443636, t);
        lemma_fundamental_div_mod(443636int, t);
        lemma_mod_division_less_than_divisor(443636int, t);
        if -512 * t < -443636 {
            assert(default_min_start(sp) == ((-443636) / t) * t);
            assert(j * t >= ((-443636) / t) * t ==> j >= (-443636) / t) by (nonlinear_arith)
                requires t >= 60;
            assert((-443636) / t >= -512) by (nonlinear_arith)
                requires (-443636) == t * ((-443636) / t) + (-443636) % t
                    && 0 <= (-443636) % t < t && t * 512 > 443636 && t >= 60;
        } else {
            assert(j * t >= -512 * t ==> j >= -512) by (nonlinear_arith)
                requires t >= 60;
        }
        if 512 * t > 443636 {
            assert(default_max_start(sp) == (443636int / t) * t + t);
            assert(j * t < (443636int / t) * t + t ==> j <= 443636int / t) by (nonlinear_arith)
                requires t >= 60;
            assert(443636int / t < 512) by (nonlinear_arith)
                requires 443636int == t * (443636int / t) + 443636int % t && 0 <= 443636int % t < t
                    && t * 512 > 443636 && t >= 60;
        } else {
            assert(j * t < 512 * t ==> j < 512) by (nonlinear_arith)
                requires t >= 60;
        }
    }
}

/// Array slots intersecting the valid tick range lie within the extension's
/// reach on either side.
pub proof fn lemma_array_idx_bounds(sp: int)
    requires
        sp >= 1,
    ensures
        -7394 <= min_array_idx(sp),
        max_array_idx(sp) <= 7393,
        min_array_idx(sp) <= -1,
        max_array_idx(sp) >= 0,
{
    let t = tick_count_spec(sp);
    lemma_fundamental_div_mod(-443636, t);
    lemma_mod_division_less_than_divisor(-443636, t);
    lemma_fundamental_div_mod(443636int, t);
    lemma_mod_division_less_than_divisor(443636int, t);
    assert(-7394 <= (-443636) / t && (-443636) / t <= -1) by (nonlinear_arith)
        requires (-443636) == t * ((-443636) / t) + (-443636) % t && 0 <= (-443636) % t < t
            && t >= 60;
    assert(0 <= 443636int / t && 443636int / t <= 7393) by (nonlinear_arith)
        requires 443636int == t * (443636int / t) + 443636int % t && 0 <= 443636int % t < t
            && t >= 60;
}

/// A valid start index's slot lies within the slots intersecting the valid
/// tick range.
pub proof fn lemma_valid_start_idx_bounds(sp: int, start: int)
    requires
        sp >= 1,
        valid_start_index_spec(start, sp),
    ensures
        min_array_idx(sp) <= start / tick_count_spec(sp) <= max_array_idx(sp),
{
    let t = tick_count_spec(sp);
    lemma_valid_start_self(start, sp);
    let j = start / t;
    lemma_fundamental_div_mod(-443636, t);
    lemma_mod_division_less_than_divisor(-443636, t);
    lemma_fundamental_div_mod(443636int, t);
    lemma_mod_division_less_than_divisor(443636int, t);
    assert(((-443636) / t) * t == -443636 - ((-443636) % t)) by (nonlinear_arith)
        requires (-443636) == t * ((-443636) / t) + (-443636) % t;
    assert(((-443636) / t) * t <= start);
    assert(j * t == start);
    assert(j * t <= 443636);
    assert(((-443636) / t) * t <= j * t ==> (-443636) / t <= j) by (nonlinear_arith)
        requires t >= 60;
    assert(j * t <= 443636int ==> j <= 443636int / t) by (nonlinear_arith)
        requires t >= 60 && 443636int == t * (443636int / t) + 443636int % t
            && 0 <= 443636int % t < t;
}

/// A valid start index that overflows the default window maps to a slot
/// outside [-512, 512); one inside it maps to a slot within.
pub proof fn lemma_window_idx(sp: int, start: int)
    requires
        sp >= 1,
        valid_start_index_spec(start, sp),
    ensures
        overflow_default_spec(sp, start) ==> !(-512 <= start / tick_count_spec(sp) < 512),
        !overflow_default_spec(sp, start) ==> -512 <= start / tick_count_spec(sp) < 512,
{
    let t = tick_count_spec(sp);
    lemma_valid_start_self(start, sp);
    let j = start / t;
    lemma_fundamental_div_mod(-443636, t);
    lemma_mod_division_less_than_divisor(-443636, t);
    lemma_fundamental_div_mod(443636int, t);
    lemma_mod_division_less_than_divisor(443636int, t);
    if overflow_default_spec(sp, start) {
        if start >= default_max_start(sp) {
            if 512 * t > 443636 {
                // Impossible: valid starts stay at or below the top tick.
                assert(start >= (443636int / t) * t + t);
                assert(j * t <= 443636);
                assert(false) by (nonlinear_arith)
                    requires j * t >= (443636int / t) * t + t && j * t <= 443636
                        && 443636int == t * (443636int / t) + 443636int % t
                        && 0 <= 443636int % t < t && t >= 60;
            } else {
                assert(j * t >= 512 * t ==> j >= 512) by (nonlinear_arith)
                    requires t >= 60;
            }
        } else {
            if -512 * t < -443636 {
                // Impossible: valid starts stay at or above the bottom
                // tick's array start.
                assert(start < ((-443636) / t) * t);
                assert(((-443636) / t) * t <= start);
            } else {
                assert(j * t < -512 * t ==> j < -512) by (nonlinear_arith)
                    requires t >= 60;
            }
        }
    } else {
        if -512 * t < -443636 {
            assert(default_min_start(sp) == ((-443636) / t) * t);
            assert(j * t >= ((-443636) / t) * t ==> j >= (-443636) / t) by (nonlinear_arith)
                requires t >= 60;
            assert((-443636) / t >= -512) by (nonlinear_arith)
                requires (-443636) == t * ((-443636) / t) + (-443636) % t
                    && 0 <= (-443636) % t < t && t * 512 > 443636 && t >= 60;
        } else {
            assert(j * t >= -512 * t ==> j >= -512) by (nonlinear_arith)
                requires t >= 60;
        }
        if 512 * t > 443636 {
            assert(default_max_start(sp) == (443636int / t) * t + t);
            assert(j * t < (443636int / t) * t + t ==> j <= 443636int / t) by (nonlinear_arith)
                requires t >= 60;
            assert(443636int / t < 512) by (nonlinear_arith)
                requires 443636int == t * (443636int / t) + 443636int % t && 0 <= 443636int % t < t
                    && t * 512 > 443636 && t >= 60;
        } else {
            assert(j * t < 512 * t ==> j < 512) by (nonlinear_arith)
                requires t >= 60;
        }
    }
}

impl PoolState {
    /// Toggle the default-bitmap bit of an array start index inside the
    /// default window.
    fn flip_tick_array_bit_internal(&mut self, tick_array_start_index: i32) -> (r: Result<
        (),
        ErrorCode,
    >)
        requires
            old(self).wf(),
            -4500000 <= tick_array_start_index <= 4500000,
            valid_start_index_spec(tick_array_start_index as int, old(self).tick_spacing as int)
                ==> !overflow_default_spec(
                old(self).tick_spacing as int,
                tick_array_start_index as int,
            ),
        ensures
            final(self).wf(),
            r is Ok <==> valid_start_index_spec(
                tick_array_start_index as int,
                old(self).tick_spacing as int,
            ),
            r is Ok ==> *final(self) == (PoolState {
                tick_array_bitmap: final(self).tick_array_bitmap,
                ..*old(self)
            }) && final(self).tick_array_bitmap@ == flip_at(
                old(self).tick_array_bitmap@,
                tick_array_start_index as int / tick_count_spec(old(self).tick_spacing as int)
                    + 512,
            ),
            r is Err ==> *final(self) == *old(self) && r == Result::<(), ErrorCode>::Err(
                ErrorCode::InvalidTickIndex,
            ),
    {
        let offset = match self.get_tick_array_offset(tick_array_start_index) {
            Ok(o) => o,
            Err(e) => {
                return Err(e);
            },
        };
        flip_bit(&mut self.tick_array_bitmap, offset);
        Ok(())
    }

    /// Toggle the initialized-bit of an array start index, in the default
    /// bitmap inside its window and in the extension outside it. The
    /// extension must be supplied when the index overflows the default
    /// window. Flipping is its own inverse: two flips of the same index
    /// restore the state.
    pub fn flip_tick_array_bit(
        &mut self,
        tickarray_bitmap_extension: &mut Option<TickArrayBitmapExtension>,
        tick_array_start_index: i32,
    ) -> (r: Result<(), ErrorCode>)
        requires
            old(self).wf(),
            ext_wf_spec(*old(tickarray_bitmap_extension)),
            -4500000 <= tick_array_start_index <= 4500000,
            valid_start_index_spec(tick_array_start_index as int, old(self).tick_spacing as int)
                && overflow_default_spec(
                old(self).tick_spacing as int,
                tick_array_start_index as int,
            ) ==> (*old(tickarray_bitmap_extension)) is Some,
        ensures
            final(self).wf(),
            ext_wf_spec(*final(tickarray_bitmap_extension)),
            final(self).tick_spacing == old(self).tick_spacing,
            ((*final(tickarray_bitmap_extension)) is Some) == ((*old(
                tickarray_bitmap_extension,
            )) is Some),
            r is Ok <==> valid_start_index_spec(
                tick_array_start_index as int,
                old(self).tick_spacing as int,
            ),
            r is Err ==> *final(self) == *old(self) && *final(tickarray_bitmap_extension) == *old(
                tickarray_bitmap_extension,
            ) && r == Result::<(), ErrorCode>::Err(ErrorCode::InvalidTickIndex),
            r is Ok ==> flip_outcome(
                *old(self),
                *old(tickarray_bitmap_extension),
                *final(self),
                *final(tickarray_bitmap_extension),
                tick_array_start_index as int / tick_count_spec(old(self).tick_spacing as int),
            ),
    {
        let ghost sp = self.tick_spacing as int;
        let mut one_tick: Vec<i32> = Vec::new();
        one_tick.push(tick_array_start_index);
        let ghost ticks_view = one_tick@;
        let overflow = self.is_overflow_default_tickarray_bitmap(one_tick);
        proof {
            lemma_array_idx_bounds(sp);
            assert(ticks_view[0] == tick_array_start_index);
            if !overflow {
                assert(!overflow_default_spec(sp, ticks_view[0] as int));
            }
        }
        if overflow {
            if !TickArrayState::check_is_valid_start_index(
                tick_array_start_index,
                self.tick_spacing,
            ) {
                return Err(ErrorCode::InvalidTickIndex);
            }
            let tpa: i32 = crate::tick_array::tick_count(self.tick_spacing);
            let idx: i32 = floor_div_i32(tick_array_start_index, tpa);
            proof {
                lemma_valid_start_self(tick_array_start_index as int, sp);
                lemma_valid_start_idx_bounds(sp, tick_array_start_index as int);
                lemma_window_idx(sp, tick_array_start_index as int);
            }
            let r: Result<(), ErrorCode> = match tickarray_bitmap_extension {
                Some(ext) => {
                    ext.flip_slot(idx);
                    Ok(())
                },
                None => {
                    proof {
                        assert(false);
                    }
                    Err(ErrorCode::InvalidTickIndex)
                },
            };
            proof {
                let pool0 = *old(self);
                let ext0 = *old(tickarray_bitmap_extension);
                let pool1 = *self;
                let ext1 = *tickarray_bitmap_extension;
                let ji = idx as int;
                assert(overflow_default_spec(sp, ticks_view[0] as int));
                assert(!(-512 <= ji < 512));
                assert(ext_slot_in_range(ji));
                assert(slot_bit(pool1, ext1, ji) == !slot_bit(pool0, ext0, ji));
                assert forall|k: int|
                    min_array_idx(sp) <= k <= max_array_idx(sp) && k != ji implies #[trigger]
                    slot_bit(pool1, ext1, k) == slot_bit(pool0, ext0, k) by {
                    if !(-512 <= k < 512) {
                        assert(ext_slot_in_range(k));
                    }
                }
            }
            r
        } else {
            proof {
                if valid_start_index_spec(tick_array_start_index as int, sp) {
                    lemma_valid_start_idx_bounds(sp, tick_array_start_index as int);
                    lemma_window_idx(sp, tick_array_start_index as int);
                    crate::bitmap::lemma_flip_at(
                        self.tick_array_bitmap@,
                        tick_array_start_index as int / tick_count_spec(sp) + 512,
                    );
                }
            }
            self.flip_tick_array_bit_internal(tick_array_start_index)
        }
    }
}

/// The array start of a valid tick is itself a valid start index, sits at or
/// below the tick, at or above the lowest valid start, and shares the tick's
/// array slot.
pub proof fn lemma_array_start_valid(tick: int, sp: int)
    requires
        sp >= 1,
        -443636 <= tick <= 443636,
    ensures
        valid_start_index_spec(array_start_spec(tick, sp), sp),
        array_start_spec(-443636, sp) <= array_start_spec(tick, sp) <= tick,
        array_start_spec(tick, sp) / tick_count_spec(sp) == tick / tick_count_spec(sp),
{
    let t = tick_count_spec(sp);
    lemma_fundamental_div_mod(tick, t);
    lemma_mod_division_less_than_divisor(tick, t);
    lemma_fundamental_div_mod(-443636, t);
    lemma_mod_division_less_than_divisor(-443636, t);
    let q = tick / t;
    let qm = (-443636) / t;
    assert(q * t == tick - tick % t) by (nonlinear_arith)
        requires tick == t * q + tick % t;
    assert(qm * t == -443636 - ((-443636) % t)) by (nonlinear_arith)
        requires (-443636) == t * qm + (-443636) % t;
    vstd::arithmetic::div_mod::lemma_div_is_ordered(-443636, tick, t);
    assert(qm * t <= q * t) by (nonlinear_arith)
        requires qm <= q && t >= 60;
    vstd::arithmetic::div_mod::lemma_mod_multiples_basic(q, t);
    vstd::arithmetic::div_mod::lemma_div_multiples_vanish(q, t);
    assert(t * q == q * t) by (nonlinear_arith);
    assert((q * t) % t == 0);
    assert((q * t) / t == q);
    if q * t < -443636 {
        // Between the lowest valid start and the lowest valid tick there is
        // no other multiple of the array size, so the start is that lowest
        // valid start.
        assert(q * t == qm * t) by (nonlinear_arith)
            requires qm <= q && t >= 60 && qm * t <= q * t && q * t < -443636
                && qm * t >= -443636 - t + 1;
    }
}

impl PoolState {
    /// The combined initialized-bit of array slot `j`, from the default
    /// bitmap inside its window and from the extension outside it. Fails
    /// exactly when the slot needs an absent extension.
    fn check_slot(&self, tickarray_bitmap_extension: &Option<TickArrayBitmapExtension>, j: i32)
        -> (r: Result<bool, ErrorCode>)
        requires
            self.wf(),
            ext_wf_spec(*tickarray_bitmap_extension),
            min_array_idx(self.tick_spacing as int) <= j <= max_array_idx(
                self.tick_spacing as int,
            ),
        ensures
            r matches Ok(b) ==> b == slot_bit(*self, *tickarray_bitmap_extension, j as int),
            r is Err ==> r == Result::<bool, ErrorCode>::Err(
                ErrorCode::MissingTickArrayBitmapExtensionAccount,
            ) && (*tickarray_bitmap_extension) is None && !(-512 <= j < 512),
            (*tickarray_bitmap_extension) is Some ==> r is Ok,
    {
        proof {
            lemma_array_idx_bounds(self.tick_spacing as int);
        }
        if j >= -512 && j < 512 {
            Ok(crate::bitmap::test_bit(&self.tick_array_bitmap, (j + 512) as usize))
        } else {
            match tickarray_bitmap_extension {
                Some(e) => Ok(e.test_slot(j)),
                None => Err(ErrorCode::MissingTickArrayBitmapExtensionAccount),
            }
        }
    }

    /// The start index of the nearest initialized tick array strictly beyond
    /// the array of `last_tick_array_start_index` in the given direction
    /// (price-decreasing when `zero_for_one`), scanning the default bitmap
    /// and the extension as one index space, or `None` once the scan passes
    /// the edge of the valid tick range.
    pub fn next_initialized_tick_array_start_index(
        &self,
        tickarray_bitmap_extension: &Option<TickArrayBitmapExtension>,
        last_tick_array_start_index: i32,
        zero_for_one: bool,
    ) -> (r: Result<Option<i32>, ErrorCode>)
        requires
            self.wf(),
            ext_wf_spec(*tickarray_bitmap_extension),
            array_start_spec(-443636, self.tick_spacing as int) <= last_tick_array_start_index
                <= 443636,
        ensures
            r is Err ==> r == Result::<Option<i32>, ErrorCode>::Err(
                ErrorCode::MissingTickArrayBitmapExtensionAccount,
            ) && (*tickarray_bitmap_extension) is None,
            (*tickarray_bitmap_extension) is Some ==> r is Ok,
            r matches Ok(o) ==> next_start_index_ok(
                *self,
                *tickarray_bitmap_extension,
                last_tick_array_start_index as int,
                zero_for_one,
                o,
            ),
    {
        let ghost sp = self.tick_spacing as int;
        proof {
            lemma_array_idx_bounds(sp);
        }
        let tpa: i32 = crate::tick_array::tick_count(self.tick_spacing);
        proof {
            let t = tpa as int;
            lemma_fundamental_div_mod(-443636, t);
            lemma_mod_division_less_than_divisor(-443636, t);
            assert(((-443636) / t) * t == -443636 - ((-443636) % t)) by (nonlinear_arith)
                requires (-443636) == t * ((-443636) / t) + (-443636) % t;
        }
        let j0: i32 = floor_div_i32(last_tick_array_start_index, tpa);
        let min_i: i32 = floor_div_i32(-443636, tpa);
        let max_i: i32 = (443636u32 / (tpa as u32)) as i32;
        proof {
            let t = tpa as int;
            vstd::arithmetic::div_mod::lemma_div_is_ordered(
                (min_i as int) * t,
                last_tick_array_start_index as int,
                t,
            );
            vstd::arithmetic::div_mod::lemma_div_multiples_vanish(min_i as int, t);
            assert(t * (min_i as int) == (min_i as int) * t) by (nonlinear_arith);
            vstd::arithmetic::div_mod::lemma_div_is_ordered(
                last_tick_array_start_index as int,
                443636int,
                t,
            );
        }
        if zero_for_one {
            let mut j: i32 = j0 - 1;
            while j >= min_i
                invariant
                    self.wf(),
                    sp == self.tick_spacing as int,
                    ext_wf_spec(*tickarray_bitmap_extension),
                    tpa == tick_count_spec(sp),
                    min_i == min_array_idx(sp),
                    max_i == max_array_idx(sp),
                    -7394 <= min_i,
                    max_i <= 7393,
                    min_array_idx(sp) <= j0 <= max_array_idx(sp),
                    j0 == last_tick_array_start_index as int / tick_count_spec(sp),
                    zero_for_one,
                    min_i - 1 <= j <= j0 - 1,
                    forall|j2: int|
                        j < j2 < j0 ==> !#[trigger] slot_bit(
                            *self,
                            *tickarray_bitmap_extension,
                            j2,
                        ),
                decreases j - min_i + 1,
            {
                let b = match self.check_slot(tickarray_bitmap_extension, j) {
                    Ok(b) => b,
                    Err(e) => {
                        return Err(e);
                    },
                };
                if b {
                    proof {
                        lemma_slot_times_count_bounds(sp, j as int);
                        let t = tick_count_spec(sp);
                        assert(((j as int) * t) / t == j as int);
                        assert(slot_bit(*self, *tickarray_bitmap_extension, j as int));
                        let ss = ((j as int) * t) as i32;
                        lemma_next_start_found(
                            *self,
                            *tickarray_bitmap_extension,
                            last_tick_array_start_index as int,
                            zero_for_one,
                            ss,
                            j as int,
                        );
                    }
                    return Ok(Some(j * tpa));
                }
                j = j - 1;
            }
            Ok(None)
        } else {
            let mut j: i32 = j0 + 1;
            while j <= max_i
                invariant
                    self.wf(),
                    sp == self.tick_spacing as int,
                    ext_wf_spec(*tickarray_bitmap_extension),
                    tpa == tick_count_spec(sp),
                    min_i == min_array_idx(sp),
                    max_i == max_array_idx(sp),
                    -7394 <= min_i,
                    max_i <= 7393,
                    min_array_idx(sp) <= j0 <= max_array_idx(sp),
                    j0 == last_tick_array_start_index as int / tick_count_spec(sp),
                    !zero_for_one,
                    j0 + 1 <= j <= max_i + 1,
                    forall|j2: int|
                        j0 < j2 < j ==> !#[trigger] slot_bit(
                            *self,
                            *tickarray_bitmap_extension,
                            j2,
                        ),
                decreases max_i - j + 1,
            {
                let b = match self.check_slot(tickarray_bitmap_extension, j) {
                    Ok(b) => b,
                    Err(e) => {
                        return Err(e);
                    },
                };
                if b {
                    proof {
                        lemma_slot_times_count_bounds(sp, j as int);
                        let t = tick_count_spec(sp);
                        assert(((j as int) * t) / t == j as int);
                        assert(slot_bit(*self, *tickarray_bitmap_extension, j as int));
                        let ss = ((j as int) * t) as i32;
                        lemma_next_start_found(
                            *self,
                            *tickarray_bitmap_extension,
                            last_tick_array_start_index as int,
                            zero_for_one,
                            ss,
                            j as int,
                        );
                    }
                    return Ok(Some(j * tpa));
                }
                j = j + 1;
            }
            Ok(None)
        }
    }

    /// The first initialized tick array at or beyond the current tick in the
    /// given direction: the current tick's own array if its bit is set, else
    /// the nearest initialized one. Fails with
    /// `InsufficientLiquidityForDirection` when none exists.
    pub fn get_first_initialized_tick_array(
        &self,
        tickarray_bitmap_extension: &Option<TickArrayBitmapExtension>,
        zero_for_one: bool,
    ) -> (r: Result<(bool, i32), ErrorCode>)
        requires
            self.wf(),
            ext_wf_spec(*tickarray_bitmap_extension),
            -443636 <= self.tick_current <= 443636,
            overflow_default_spec(self.tick_spacing as int, self.tick_current as int) ==> (
            *tickarray_bitmap_extension) is Some,
        ensures
            r matches Ok(p) ==> p.0 == slot_bit(
                *self,
                *tickarray_bitmap_extension,
                self.tick_current as int / tick_count_spec(self.tick_spacing as int),
            ),
            r matches Ok(p) ==> (if p.0 {
                p.1 == array_start_spec(self.tick_current as int, self.tick_spacing as int)
                    && slot_bit(
                    *self,
                    *tickarray_bitmap_extension,
                    self.tick_current as int / tick_count_spec(self.tick_spacing as int),
                )
            } else {
                next_start_index_ok(
                    *self,
                    *tickarray_bitmap_extension,
                    self.tick_current as int,
                    zero_for_one,
                    Some(p.1),
                )
            }),
            r is Err ==> (r == Result::<(bool, i32), ErrorCode>::Err(
                ErrorCode::MissingTickArrayBitmapExtensionAccount,
            ) && (*tickarray_bitmap_extension) is None) || (r == Result::<
                (bool, i32),
                ErrorCode,
            >::Err(ErrorCode::InsufficientLiquidityForDirection) && next_start_index_ok(
                *self,
                *tickarray_bitmap_extension,
                self.tick_current as int,
                zero_for_one,
                None,
            )),
    {
        let ghost sp = self.tick_spacing as int;
        proof {
            lemma_array_idx_bounds(sp);
            lemma_array_start_valid(self.tick_current as int, sp);
            lemma_valid_start_idx_bounds(sp, array_start_spec(self.tick_current as int, sp));
            lemma_window_idx(sp, array_start_spec(self.tick_current as int, sp));
        }
        let tpa: i32 = crate::tick_array::tick_count(self.tick_spacing);
        let start: i32 = TickArrayState::get_array_start_index(
            self.tick_current,
            self.tick_spacing,
        );
        let j: i32 = floor_div_i32(self.tick_current, tpa);
        proof {
            // The current tick's array never overflows without the
            // extension being present, so the slot lookup cannot fail
            // through an absent extension here unless the search later
            // leaves the window.
            if !(-512 <= j < 512) {
                assert(overflow_default_spec(sp, self.tick_current as int));
            }
        }
        let is_initialized = match self.check_slot(tickarray_bitmap_extension, j) {
            Ok(b) => b,
            Err(e) => {
                proof {
                    assert(false);
                }
                return Err(e);
            },
        };
        if is_initialized {
            return Ok((true, start));
        }
        match self.next_initialized_tick_array_start_index(
            tickarray_bitmap_extension,
            start,
            zero_for_one,
        ) {
            Ok(Some(s)) => Ok((false, s)),
            Ok(None) => Err(ErrorCode::InsufficientLiquidityForDirection),
            Err(e) => Err(e),
        }
    }
}

/// A slot within the valid range, times the per-array tick count, stays
/// within the i32 tick coordinate space.
pub proof fn lemma_slot_times_count_bounds(sp: int, j: int)
    requires
        sp >= 1,
        sp <= 65535,
        min_array_idx(sp) <= j <= max_array_idx(sp),
    ensures
        -4376000 <= j * tick_count_spec(sp) <= 443636,
        (j * tick_count_spec(sp)) / tick_count_spec(sp) == j,
{
    let t = tick_count_spec(sp);
    lemma_fundamental_div_mod(-443636, t);
    lemma_mod_division_less_than_divisor(-443636, t);
    lemma_fundamental_div_mod(443636int, t);
    lemma_mod_division_less_than_divisor(443636int, t);
    assert(j * t >= ((-443636) / t) * t && ((-443636) / t) * t >= -443636 - t + 1)
        by (nonlinear_arith)
        requires (-443636) / t <= j && t >= 60
            && (-443636) == t * ((-443636) / t) + (-443636) % t && 0 <= (-443636) % t < t;
    assert(j * t <= (443636int / t) * t && (443636int / t) * t <= 443636) by (nonlinear_arith)
        requires j <= 443636int / t && t >= 60
            && 443636int == t * (443636int / t) + 443636int % t && 0 <= 443636int % t < t;
    assert(t <= 3932100);
    vstd::arithmetic::div_mod::lemma_div_multiples_vanish(j, t);
    assert(t * j == j * t) by (nonlinear_arith);
}

/// Any slot the nearest-initialized-slot search returns covers part of the
/// valid tick range: its start index never falls below the array start of
/// the lowest valid tick, nor above the highest valid tick. Together with
/// the window test this keeps the search consistent with the overflow
/// predicate: a returned slot is tracked by the default bitmap exactly when
/// its start does not overflow the default window, and by the extension
/// otherwise.
pub proof fn lemma_next_start_in_valid_range(
    pool: PoolState,
    ext: Option<TickArrayBitmapExtension>,
    last: int,
    zero_for_one: bool,
    s: i32,
)
    requires
        pool.wf(),
        next_start_index_ok(pool, ext, last, zero_for_one, Some(s)),
    ensures
        array_start_spec(-443636, pool.tick_spacing as int) <= s <= 443636,
{
    let sp = pool.tick_spacing as int;
    let t = tick_count_spec(sp);
    let j = choose|j: int|
        #[trigger] (j * t) == s && min_array_idx(sp) <= j <= max_array_idx(sp) && slot_bit(
            pool,
            ext,
            j,
        ) && (if zero_for_one {
            j < last / t && (forall|j2: int| j < j2 < last / t ==> !#[trigger] slot_bit(
                pool,
                ext,
                j2,
            ))
        } else {
            last / t < j && (forall|j2: int| last / t < j2 < j ==> !#[trigger] slot_bit(
                pool,
                ext,
                j2,
            ))
        });
    lemma_fundamental_div_mod(-443636, t);
    lemma_mod_division_less_than_divisor(-443636, t);
    lemma_fundamental_div_mod(443636int, t);
    lemma_mod_division_less_than_divisor(443636int, t);
    assert(((-443636) / t) * t <= j * t) by (nonlinear_arith)
        requires (-443636) / t <= j && t >= 60;
    assert(j * t <= (443636int / t) * t && (443636int / t) * t <= 443636) by (nonlinear_arith)
        requires j <= 443636int / t && t >= 60
            && 443636int == t * (443636int / t) + 443636int % t && 0 <= 443636int % t < t;
}

/// What a successful bit flip did: the one slot's combined bit toggled,
/// every other slot in the valid range unchanged, and nothing else of the
/// pool touched.
pub open spec fn flip_outcome(
    pool0: PoolState,
    ext0: Option<TickArrayBitmapExtension>,
    pool1: PoolState,
    ext1: Option<TickArrayBitmapExtension>,
    idx: int,
) -> bool {
    let sp = pool0.tick_spacing as int;
    &&& slot_bit(pool1, ext1, idx) == !slot_bit(pool0, ext0, idx)
    &&& (forall|k: int|
        min_array_idx(sp) <= k <= max_array_idx(sp) && k != idx ==> #[trigger] slot_bit(
            pool1,
            ext1,
            k,
        ) == slot_bit(pool0, ext0, k))
    &&& pool1 == (PoolState { tick_array_bitmap: pool1.tick_array_bitmap, ..pool0 })
    &&& (if -512 <= idx < 512 {
        pool1.tick_array_bitmap@ == flip_at(pool0.tick_array_bitmap@, idx + 512) && ext1 == ext0
    } else {
        pool1.tick_array_bitmap@ == pool0.tick_array_bitmap@ && (match (ext0, ext1) {
            (Some(e0), Some(e1)) => e1.pool_id == e0.pool_id && (if idx >= 512 {
                e1.positive_tick_array_bitmap@ == flip_at(
                    e0.positive_tick_array_bitmap@,
                    idx - 512,
                ) && e1.negative_tick_array_bitmap@ == e0.negative_tick_array_bitmap@
            } else {
                e1.negative_tick_array_bitmap@ == flip_at(
                    e0.negative_tick_array_bitmap@,
                    -idx - 513,
                ) && e1.positive_tick_array_bitmap@ == e0.positive_tick_array_bitmap@
            }),
            _ => false,
        })
    })
}

/// A valid start index is exactly its own array start: dividing by the
/// per-array count and multiplying back returns it.
pub proof fn lemma_valid_start_self(start: int, sp: int)
    requires
        sp >= 1,
        valid_start_index_spec(start, sp),
    ensures
        (start / tick_count_spec(sp)) * tick_count_spec(sp) == start,
        array_start_spec(start, sp) == start,
{
    let t = tick_count_spec(sp);
    if start % t == 0 && -443636 <= start <= 443636 {
        lemma_fundamental_div_mod(start, t);
        assert((start / t) * t == start) by (nonlinear_arith)
            requires start == t * (start / t) + start % t && start % t == 0;
    } else {
        // start is the array start of the lowest valid tick.
        lemma_fundamental_div_mod(-443636, t);
        lemma_mod_division_less_than_divisor(-443636, t);
        let q = (-443636) / t;
        assert(start == q * t);
        vstd::arithmetic::div_mod::lemma_mod_multiples_basic(q, t);
        assert((q * t) % t == 0);
        lemma_fundamental_div_mod(start, t);
        assert((start / t) * t == start) by (nonlinear_arith)
            requires start == t * (start / t) + start % t && start % t == 0;
    }
}

/// The first reward slot not yet configured, or the slot count when all
/// three are in use.
pub open spec fn first_uninitialized_slot(rewards: Seq<RewardInfo>) -> int
    recommends
        rewards.len() == REWARD_NUM,
{
    if !rewards[0].spec_initialized() {
        0
    } else if !rewards[1].spec_initialized() {
        1
    } else if !rewards[2].spec_initialized() {
        2
    } else {
        3
    }
}

/// Whether one of the three slots already uses this mint.
pub open spec fn reward_mint_in_use(rewards: Seq<RewardInfo>, mint: Address) -> bool
    recommends
        rewards.len() == REWARD_NUM,
{
    ||| rewards[0].token_mint == mint
    ||| rewards[1].token_mint == mint
    ||| rewards[2].token_mint == mint
}

/// The eligibility rule for configuring reward slot `slot` with the
/// candidate mint and authority: the first slot takes any pool or
/// allow-listed mint, and any other mint only without a freeze authority;
/// the second slot must bring a pool or allow-listed mint unless one is
/// already present, in which case the freeze rule applies; the last slot is
/// reserved to the administrative authority or a configured operation
/// owner.
pub open spec fn reward_mint_allowed(
    pool: PoolState,
    op: OperationState,
    slot: int,
    mint: Address,
    freeze_authority: Option<Address>,
    authority: Address,
    admin: Address,
) -> bool {
    let pool_mint = mint == pool.token_mint_0 || mint == pool.token_mint_1
        || op.whitelist_mints@.contains(mint);
    if slot == 0 {
        pool_mint || freeze_authority is None
    } else if slot == 1 {
        let already = reward_mint_in_use(pool.reward_infos@, pool.token_mint_0)
            || reward_mint_in_use(pool.reward_infos@, pool.token_mint_1);
        if !already {
            pool_mint
        } else {
            pool_mint || freeze_authority is None
        }
    } else {
        authority == admin || op.spec_validate_operation_owner(authority)
    }
}

/// Whether `list` holds `needle`.
fn contains_address(list: &Vec<Address>, needle: Address) -> (r: bool)
    ensures
        r == list@.contains(needle),
{
    let mut i: usize = 0;
    while i < list.len()
        invariant
            i <= list@.len(),
            forall|j: int| 0 <= j < i ==> list@[j] != needle,
        decreases list@.len() - i,
    {
        if list[i] == needle {
            proof {
                assert(list@[i as int] == needle);
            }
            return true;
        }
        i += 1;
    }
    false
}

impl PoolState {
    /// Configure the first free reward slot with the given emission
    /// schedule, after checking the mint is fresh and the slot's
    /// eligibility rule accepts the candidate. On success the slot holds
    /// the new schedule with its accrual clock at the open time; on any
    /// rejection nothing changes.
    pub fn initialize_reward(
        &mut self,
        open_time: u64,
        end_time: u64,
        reward_per_second_x64: u128,
        token_mint: &Address,
        token_mint_freeze_authority: Option<Address>,
        token_vault: &Address,
        authority: &Address,
        operation_state: &OperationState,
        admin: &Address,
    ) -> (r: Result<(), ErrorCode>)
        requires
            old(self).wf(),
        ensures
            final(self).wf(),
            r is Ok <==> first_uninitialized_slot(old(self).reward_infos@) < 3
                && !reward_mint_in_use(old(self).reward_infos@, *token_mint)
                && reward_mint_allowed(
                *old(self),
                *operation_state,
                first_uninitialized_slot(old(self).reward_infos@),
                *token_mint,
                token_mint_freeze_authority,
                *authority,
                *admin,
            ),
            r is Err ==> *final(self) == *old(self),
            r == Result::<(), ErrorCode>::Err(ErrorCode::FullRewardInfo)
                <==> first_uninitialized_slot(old(self).reward_infos@) == 3,
            r == Result::<(), ErrorCode>::Err(ErrorCode::RewardTokenAlreadyInUse)
                <==> first_uninitialized_slot(old(self).reward_infos@) < 3 && reward_mint_in_use(
                old(self).reward_infos@,
                *token_mint,
            ),
            r == Result::<(), ErrorCode>::Err(ErrorCode::ExceptRewardMint)
                <==> first_uninitialized_slot(old(self).reward_infos@) < 2
                && !reward_mint_in_use(old(self).reward_infos@, *token_mint)
                && !reward_mint_allowed(
                *old(self),
                *operation_state,
                first_uninitialized_slot(old(self).reward_infos@),
                *token_mint,
                token_mint_freeze_authority,
                *authority,
                *admin,
            ),
            r == Result::<(), ErrorCode>::Err(ErrorCode::NotApproved)
                <==> first_uninitialized_slot(old(self).reward_infos@) == 2
                && !reward_mint_in_use(old(self).reward_infos@, *token_mint)
                && !reward_mint_allowed(
                *old(self),
                *operation_state,
                2,
                *token_mint,
                token_mint_freeze_authority,
                *authority,
                *admin,
            ),
            r is Ok ==> *final(self) == (PoolState {
                reward_infos: final(self).reward_infos,
                ..*old(self)
            }) && final(self).reward_infos@ == old(self).reward_infos@.update(
                first_uninitialized_slot(old(self).reward_infos@),
                (RewardInfo {
                    open_time,
                    end_time,
                    last_update_time: open_time,
                    emissions_per_second_x64: reward_per_second_x64,
                    token_mint: *token_mint,
                    token_vault: *token_vault,
                    authority: *authority,
                    ..old(self).reward_infos@[first_uninitialized_slot(
                        old(self).reward_infos@,
                    )]
                }),
            ),
            old(self).reward_claims_bounded() ==> final(self).reward_claims_bounded(),
    {
        let lowest_index: usize = if !self.reward_infos[0].initialized() {
            0
        } else if !self.reward_infos[1].initialized() {
            1
        } else if !self.reward_infos[2].initialized() {
            2
        } else {
            return Err(ErrorCode::FullRewardInfo);
        };
        if self.reward_infos[0].token_mint == *token_mint
            || self.reward_infos[1].token_mint == *token_mint
            || self.reward_infos[2].token_mint == *token_mint {
            return Err(ErrorCode::RewardTokenAlreadyInUse);
        }
        let is_pool_mint = *token_mint == self.token_mint_0 || *token_mint == self.token_mint_1
            || contains_address(&operation_state.whitelist_mints, *token_mint);
        if lowest_index == 0 {
            if !is_pool_mint && !token_mint_freeze_authority.is_none() {
                return Err(ErrorCode::ExceptRewardMint);
            }
        } else if lowest_index == 1 {
            let mint0_used = self.reward_infos[0].token_mint == self.token_mint_0
                || self.reward_infos[1].token_mint == self.token_mint_0
                || self.reward_infos[2].token_mint == self.token_mint_0;
            let mint1_used = self.reward_infos[0].token_mint == self.token_mint_1
                || self.reward_infos[1].token_mint == self.token_mint_1
                || self.reward_infos[2].token_mint == self.token_mint_1;
            if !mint0_used && !mint1_used {
                if !is_pool_mint {
                    return Err(ErrorCode::ExceptRewardMint);
                }
            } else {
                if !is_pool_mint && !token_mint_freeze_authority.is_none() {
                    return Err(ErrorCode::ExceptRewardMint);
                }
            }
        } else {
            if !(*authority == *admin || operation_state.validate_operation_owner(*authority)) {
                return Err(ErrorCode::NotApproved);
            }
        }
        let mut slot: RewardInfo = self.reward_infos[lowest_index];
        slot.last_update_time = open_time;
        slot.open_time = open_time;
        slot.end_time = end_time;
        slot.emissions_per_second_x64 = reward_per_second_x64;
        slot.token_mint = *token_mint;
        slot.token_vault = *token_vault;
        slot.authority = *authority;
        self.reward_infos.set(lowest_index, slot);
        Ok(())
    }
}

/// Create a pool at an initial square-root price: the starting tick is the
/// tick owning that price, all accounting starts at zero, every feature is
/// enabled, and the stated open time must lie in the past. The created
/// pool's current tick is consistent with its current price by
/// construction.
pub fn create_pool(
    bump: u8,
    sqrt_price_x64: u128,
    open_time: u64,
    block_timestamp: u64,
    pool_creator: Address,
    token_vault_0: Address,
    token_vault_1: Address,
    amm_config: Address,
    tick_spacing: u16,
    token_mint_0: Address,
    mint_decimals_0: u8,
    token_mint_1: Address,
    mint_decimals_1: u8,
    observation_key: Address,
    recent_epoch: u64,
) -> (r: Result<PoolState, ErrorCode>)
    requires
        tick_spacing >= 1,
    ensures
        r is Ok <==> block_timestamp > open_time && crate::tick_math::sqrt_price_spec(-443636)
            <= sqrt_price_x64 as int <= crate::tick_math::sqrt_price_spec(443636),
        r is Err ==> r == Result::<PoolState, ErrorCode>::Err(ErrorCode::InvalidTimestamp) || r
            == Result::<PoolState, ErrorCode>::Err(ErrorCode::PriceOverflow),
        r == Result::<PoolState, ErrorCode>::Err(ErrorCode::InvalidTimestamp) <==> block_timestamp
            <= open_time,
        r matches Ok(p) ==> {
            &&& p.wf()
            &&& p.reward_claims_bounded()
            &&& crate::tick_math::tick_of_price(p.tick_current as int, sqrt_price_x64 as int)
            &&& p.sqrt_price_x64 == sqrt_price_x64
            &&& p.liquidity == 0
            &&& p.status == 0
            &&& p.tick_spacing == tick_spacing
            &&& p.open_time == open_time
            &&& p.owner == pool_creator
            &&& p.token_mint_0 == token_mint_0
            &&& p.token_mint_1 == token_mint_1
            &&& p.token_vault_0 == token_vault_0
            &&& p.token_vault_1 == token_vault_1
            &&& p.amm_config == amm_config
            &&& p.observation_key == observation_key
            &&& p.recent_epoch == recent_epoch
            &&& (forall|i: int| 0 <= i < 16 ==> p.tick_array_bitmap@[i] == 0)
        },
{
    if block_timestamp <= open_time {
        return Err(ErrorCode::InvalidTimestamp);
    }
    let tick = match crate::tick_math::get_tick_at_sqrt_price(sqrt_price_x64) {
        Ok(t) => t,
        Err(_) => {
            return Err(ErrorCode::PriceOverflow);
        },
    };
    let mut pool = PoolState {
        bump: 0,
        amm_config: Address::zero(),
        owner: Address::zero(),
        token_mint_0: Address::zero(),
        token_mint_1: Address::zero(),
        token_vault_0: Address::zero(),
        token_vault_1: Address::zero(),
        observation_key: Address::zero(),
        mint_decimals_0: 0,
        mint_decimals_1: 0,
        tick_spacing: 1,
        liquidity: 0,
        sqrt_price_x64: 0,
        tick_current: 0,
        padding3: 0,
        padding4: 0,
        fee_growth_global_0_x64: 0,
        fee_growth_global_1_x64: 0,
        protocol_fees_token_0: 0,
        protocol_fees_token_1: 0,
        swap_in_amount_token_0: 0,
        swap_out_amount_token_1: 0,
        swap_in_amount_token_1: 0,
        swap_out_amount_token_0: 0,
        status: 0,
        padding: Vec::new(),
        reward_infos: Vec::new(),
        tick_array_bitmap: Vec::new(),
        total_fees_token_0: 0,
        total_fees_claimed_token_0: 0,
        total_fees_token_1: 0,
        total_fees_claimed_token_1: 0,
        fund_fees_token_0: 0,
        fund_fees_token_1: 0,
        open_time: 0,
        recent_epoch: 0,
        padding1: Vec::new(),
        padding2: Vec::new(),
    };
    pool.initialize(
        bump,
        sqrt_price_x64,
        open_time,
        tick,
        pool_creator,
        token_vault_0,
        token_vault_1,
        amm_config,
        tick_spacing,
        token_mint_0,
        mint_decimals_0,
        token_mint_1,
        mint_decimals_1,
        observation_key,
        recent_epoch,
    );
    Ok(pool)
}

/// Setting bit `v` of a byte sets it and changes no other bit.
proof fn lemma_status_set_bit(w: u8, v: u8)
    by (bit_vector)
    requires
        v < 8,
    ensures
        ((w | (1u8 << v)) >> v) & 1 == 1,
        forall|k: u8| k < 8 && k != v ==> ((w | (1u8 << v)) >> k) & 1 == (w >> k) & 1,
{
}

/// Clearing bit `v` of a byte clears it and changes no other bit.
proof fn lemma_status_clear_bit(w: u8, v: u8)
    by (bit_vector)
    requires
        v < 8,
    ensures
        ((w & (255u8 ^ (1u8 << v))) >> v) & 1 == 0,
        forall|k: u8| k < 8 && k != v ==> ((w & (255u8 ^ (1u8 << v))) >> k) & 1 == (w >> k) & 1,
{
}

/// Package the loop facts of the slot search into the search postcondition.
proof fn lemma_next_start_found(
    pool: PoolState,
    ext: Option<TickArrayBitmapExtension>,
    last: int,
    zero_for_one: bool,
    s: i32,
    j: int,
)
    requires
        j * tick_count_spec(pool.tick_spacing as int) == s,
        min_array_idx(pool.tick_spacing as int) <= j <= max_array_idx(pool.tick_spacing as int),
        slot_bit(pool, ext, j),
        zero_for_one ==> j < last / tick_count_spec(pool.tick_spacing as int) && (forall|j2: int|
            j < j2 < last / tick_count_spec(pool.tick_spacing as int) ==> !#[trigger] slot_bit(
                pool,
                ext,
                j2,
            )),
        !zero_for_one ==> last / tick_count_spec(pool.tick_spacing as int) < j && (forall|
            j2: int,
        |
            last / tick_count_spec(pool.tick_spacing as int) < j2 < j ==> !#[trigger] slot_bit(
                pool,
                ext,
                j2,
            )),
    ensures
        next_start_index_ok(pool, ext, last, zero_for_one, Some(s)),
{
}

} // verus!
