//! Applying a signed liquidity delta to a tick range: boundary tick updates,
//! bitmap maintenance, global liquidity, and the growth-inside snapshots
//! returned for position bookkeeping.

use vstd::prelude::*;
use crate::error::ErrorCode;
use crate::bitmap_extension::TickArrayBitmapExtension;
use crate::pool::{
    ext_wf_spec, min_array_idx, max_array_idx, overflow_default_spec, reward_updated,
    reward_update_failure, slot_bit, PoolState, PoolStatusBitIndex, RewardInfo, REWARD_NUM,
    status_bit,
};
use crate::position::PersonalPositionState;
use crate::tick_array::{
    add_delta_spec, growth_inside_spec, tick_count_spec, TickArrayState, TickState,
};

verus! {

/// What applying a liquidity delta at one boundary does to its tick record.
pub open spec fn tick_updated_rel(
    t0: TickState,
    t1: TickState,
    tick_current: int,
    delta: i128,
    fee_growth_global_0_x64: u128,
    fee_growth_global_1_x64: u128,
    reward_growths: Seq<u128>,
    upper: bool,
) -> bool {
    let refresh = t0.liquidity_gross == 0 && t0.tick <= tick_current;
    &&& t1.tick == t0.tick
    &&& t1.liquidity_gross == add_delta_spec(t0.liquidity_gross, delta) -> Ok_0
    &&& t1.liquidity_net == (if upper {
        t0.liquidity_net - delta
    } else {
        t0.liquidity_net + delta
    })
    &&& (if refresh {
        t1.fee_growth_outside_0_x64 == fee_growth_global_0_x64
            && t1.fee_growth_outside_1_x64 == fee_growth_global_1_x64
            && t1.reward_growths_outside_x64@ =~= reward_growths
    } else {
        t1.fee_growth_outside_0_x64 == t0.fee_growth_outside_0_x64
            && t1.fee_growth_outside_1_x64 == t0.fee_growth_outside_1_x64
            && t1.reward_growths_outside_x64 == t0.reward_growths_outside_x64
    })
}

/// Whether a boundary tick can absorb the delta without overflowing.
pub open spec fn tick_update_ok(t: TickState, delta: i128, upper: bool) -> bool {
    &&& add_delta_spec(t.liquidity_gross, delta) is Ok
    &&& i128::MIN <= (if upper {
        t.liquidity_net - delta
    } else {
        t.liquidity_net + delta
    }) <= i128::MAX
}

/// The reward growth table after accruing the pool's slots to `now`.
pub open spec fn updated_reward_growths(pool: PoolState, now: u64) -> Seq<u128> {
    Seq::new(
        pool.reward_infos@.len(),
        |i: int|
            reward_updated(pool.reward_infos@[i], pool.liquidity, now).reward_growth_global_x64,
    )
}

/// What a liquidity change reports back for position bookkeeping: whether
/// each boundary flipped between referenced and unreferenced, and the
/// growth-inside snapshots of the range after the change.
pub struct LiquidityChangeResult {
    /// The lower boundary flipped between zero and nonzero gross liquidity.
    pub tick_lower_flipped: bool,
    /// The upper boundary flipped between zero and nonzero gross liquidity.
    pub tick_upper_flipped: bool,
    /// Q64.64 token-0 fee growth inside the range, after the change.
    pub fee_growth_inside_0_x64: u128,
    /// Q64.64 token-1 fee growth inside the range, after the change.
    pub fee_growth_inside_1_x64: u128,
    /// Q64.64 reward growth inside the range per slot, after the change.
    pub reward_growths_inside: Vec<u128>,
}

/// Whether a range-level liquidity change fits without any arithmetic
/// failure: reward accrual succeeds, both boundary updates fit, and the
/// global liquidity fits when the range is active.
pub open spec fn change_ok(
    pool: PoolState,
    lt: TickState,
    ut: TickState,
    delta: i128,
    timestamp: u64,
) -> bool {
    &&& (forall|i: int|
        0 <= i < REWARD_NUM ==> !reward_update_failure(
            pool.reward_infos@[i],
            pool.liquidity,
            timestamp,
        ))
    &&& tick_update_ok(lt, delta, false)
    &&& tick_update_ok(ut, delta, true)
    &&& ((lt.tick <= pool.tick_current && pool.tick_current < ut.tick) ==> add_delta_spec(
        pool.liquidity,
        delta,
    ) is Ok)
}

/// Everything a range-level liquidity change would do, computed ahead of
/// committing anything.
struct LiquidityChangePreview {
    /// The reward table accrued to the change's timestamp.
    updated_rewards: Vec<RewardInfo>,
    /// The lower boundary record after the change.
    tick_lower: TickState,
    /// The upper boundary record after the change.
    tick_upper: TickState,
    /// The pool's active liquidity after the change.
    new_liquidity: u128,
    /// The report handed back for position bookkeeping.
    result: LiquidityChangeResult,
}

/// Compute what a range-level liquidity change would do, without changing
/// any state: accrue the reward table, update both boundary records, apply
/// the delta to the active liquidity when the range contains the current
/// tick, and compute the growth-inside snapshots of the range.
fn liquidity_change_preview(
    pool_state: &PoolState,
    lower0: &TickState,
    upper0: &TickState,
    liquidity_delta: i128,
    timestamp: u64,
) -> (r: Result<LiquidityChangePreview, ErrorCode>)
    requires
        pool_state.wf(),
        lower0.tick < upper0.tick,
    ensures
        r is Ok <==> change_ok(*pool_state, *lower0, *upper0, liquidity_delta, timestamp),
        r is Err ==> (r == Result::<LiquidityChangePreview, ErrorCode>::Err(
            ErrorCode::InvalidTimestamp,
        ) || r == Result::<LiquidityChangePreview, ErrorCode>::Err(ErrorCode::MathOverflow) || r
            == Result::<LiquidityChangePreview, ErrorCode>::Err(ErrorCode::LiquidityAddValueErr)
            || r == Result::<LiquidityChangePreview, ErrorCode>::Err(
            ErrorCode::LiquiditySubValueErr,
        )),
        r matches Ok(p) ==> {
            let growths = updated_reward_growths(*pool_state, timestamp);
            let cur = pool_state.tick_current as int;
            &&& p.updated_rewards@.len() == REWARD_NUM
            &&& (forall|i: int|
                0 <= i < REWARD_NUM ==> p.updated_rewards@[i] == reward_updated(
                    pool_state.reward_infos@[i],
                    pool_state.liquidity,
                    timestamp,
                ))
            &&& tick_updated_rel(
                *lower0,
                p.tick_lower,
                cur,
                liquidity_delta,
                pool_state.fee_growth_global_0_x64,
                pool_state.fee_growth_global_1_x64,
                growths,
                false,
            )
            &&& tick_updated_rel(
                *upper0,
                p.tick_upper,
                cur,
                liquidity_delta,
                pool_state.fee_growth_global_0_x64,
                pool_state.fee_growth_global_1_x64,
                growths,
                true,
            )
            &&& p.new_liquidity == (if lower0.tick <= pool_state.tick_current
                && pool_state.tick_current < upper0.tick {
                add_delta_spec(pool_state.liquidity, liquidity_delta) -> Ok_0
            } else {
                pool_state.liquidity
            })
            &&& p.result.tick_lower_flipped == ((p.tick_lower.liquidity_gross == 0) != (
            lower0.liquidity_gross == 0))
            &&& p.result.tick_upper_flipped == ((p.tick_upper.liquidity_gross == 0) != (
            upper0.liquidity_gross == 0))
            &&& p.result.fee_growth_inside_0_x64 == growth_inside_spec(
                p.tick_lower.tick as int,
                p.tick_lower.fee_growth_outside_0_x64,
                p.tick_upper.tick as int,
                p.tick_upper.fee_growth_outside_0_x64,
                cur,
                pool_state.fee_growth_global_0_x64,
            )
            &&& p.result.fee_growth_inside_1_x64 == growth_inside_spec(
                p.tick_lower.tick as int,
                p.tick_lower.fee_growth_outside_1_x64,
                p.tick_upper.tick as int,
                p.tick_upper.fee_growth_outside_1_x64,
                cur,
                pool_state.fee_growth_global_1_x64,
            )
            &&& p.result.reward_growths_inside@.len() == REWARD_NUM
            &&& (forall|i: int|
                0 <= i < REWARD_NUM ==> p.result.reward_growths_inside@[i] == growth_inside_spec(
                    p.tick_lower.tick as int,
                    p.tick_lower.reward_growths_outside_x64@[i],
                    p.tick_upper.tick as int,
                    p.tick_upper.reward_growths_outside_x64@[i],
                    cur,
                    growths[i],
                ))
        },
{
    let updated_rewards = match pool_state.compute_updated_rewards(timestamp) {
        Ok(v) => v,
        Err(e) => {
            return Err(e);
        },
    };
    let reward_growths = RewardInfo::get_reward_growths(&updated_rewards);
    proof {
        assert(reward_growths@ =~= updated_reward_growths(*pool_state, timestamp));
    }
    let tick_current = pool_state.tick_current;
    let fee_growth_global_0_x64 = pool_state.fee_growth_global_0_x64;
    let fee_growth_global_1_x64 = pool_state.fee_growth_global_1_x64;
    let mut lower = *lower0;
    let mut upper = *upper0;
    let flipped_lower = match lower.update(
        tick_current,
        liquidity_delta,
        fee_growth_global_0_x64,
        fee_growth_global_1_x64,
        false,
        &reward_growths,
    ) {
        Ok(f) => f,
        Err(e) => {
            return Err(e);
        },
    };
    let flipped_upper = match upper.update(
        tick_current,
        liquidity_delta,
        fee_growth_global_0_x64,
        fee_growth_global_1_x64,
        true,
        &reward_growths,
    ) {
        Ok(f) => f,
        Err(e) => {
            return Err(e);
        },
    };
    let in_range = lower0.tick <= tick_current && tick_current < upper0.tick;
    let new_liquidity: u128 = if in_range {
        match crate::tick_array::add_delta(pool_state.liquidity, liquidity_delta) {
            Ok(v) => v,
            Err(e) => {
                return Err(e);
            },
        }
    } else {
        pool_state.liquidity
    };
    let (fee_growth_inside_0_x64, fee_growth_inside_1_x64) =
        crate::tick_array::get_fee_growth_inside(
        &lower,
        &upper,
        tick_current,
        fee_growth_global_0_x64,
        fee_growth_global_1_x64,
    );
    let reward_growths_inside = crate::tick_array::get_reward_growths_inside(
        &lower,
        &upper,
        tick_current,
        &reward_growths,
    );
    Ok(
        LiquidityChangePreview {
            updated_rewards,
            tick_lower: lower,
            tick_upper: upper,
            new_liquidity,
            result: LiquidityChangeResult {
                tick_lower_flipped: flipped_lower,
                tick_upper_flipped: flipped_upper,
                fee_growth_inside_0_x64,
                fee_growth_inside_1_x64,
                reward_growths_inside,
            },
        },
    )
}

/// Apply a signed liquidity delta to a tick range: accrue rewards to the
/// timestamp, update both boundary ticks, and, when the current tick lies
/// inside the range, apply the delta to the pool's active liquidity.
/// Everything is computed ahead of committing, so a failure leaves the
/// pool and both boundary records exactly as they were.
pub fn modify_position(
    liquidity_delta: i128,
    pool_state: &mut PoolState,
    tick_lower_state: &mut TickState,
    tick_upper_state: &mut TickState,
    timestamp: u64,
) -> (r: Result<LiquidityChangeResult, ErrorCode>)
    requires
        old(pool_state).wf(),
        old(tick_lower_state).tick < old(tick_upper_state).tick,
    ensures
        final(pool_state).wf(),
        r is Ok <==> change_ok(
            *old(pool_state),
            *old(tick_lower_state),
            *old(tick_upper_state),
            liquidity_delta,
            timestamp,
        ),
        r is Err ==> *final(tick_lower_state) == *old(tick_lower_state)
            && *final(tick_upper_state) == *old(tick_upper_state)
            && *final(pool_state) == *old(pool_state),
        r is Err ==> r != Result::<LiquidityChangeResult, ErrorCode>::Err(ErrorCode::NotApproved),
        old(pool_state).reward_claims_bounded() ==> final(pool_state).reward_claims_bounded(),
        r matches Ok(res) ==> {
            let growths = updated_reward_growths(*old(pool_state), timestamp);
            &&& (forall|i: int|
                0 <= i < REWARD_NUM ==> final(pool_state).reward_infos@[i] == reward_updated(
                    old(pool_state).reward_infos@[i],
                    old(pool_state).liquidity,
                    timestamp,
                ))
            &&& tick_updated_rel(
                *old(tick_lower_state),
                *final(tick_lower_state),
                old(pool_state).tick_current as int,
                liquidity_delta,
                old(pool_state).fee_growth_global_0_x64,
                old(pool_state).fee_growth_global_1_x64,
                growths,
                false,
            )
            &&& tick_updated_rel(
                *old(tick_upper_state),
                *final(tick_upper_state),
                old(pool_state).tick_current as int,
                liquidity_delta,
                old(pool_state).fee_growth_global_0_x64,
                old(pool_state).fee_growth_global_1_x64,
                growths,
                true,
            )
            &&& res.tick_lower_flipped == ((final(tick_lower_state).liquidity_gross == 0) != (
            old(tick_lower_state).liquidity_gross == 0))
            &&& res.tick_upper_flipped == ((final(tick_upper_state).liquidity_gross == 0) != (
            old(tick_upper_state).liquidity_gross == 0))
            &&& final(pool_state).liquidity == (if old(tick_lower_state).tick <= old(pool_state).tick_current && old(pool_state).tick_current < old(tick_upper_state).tick {
                add_delta_spec(old(pool_state).liquidity, liquidity_delta) -> Ok_0
            } else {
                old(pool_state).liquidity
            })
            &&& *final(pool_state) == (PoolState {
                reward_infos: final(pool_state).reward_infos,
                liquidity: final(pool_state).liquidity,
                ..*old(pool_state)
            })
            &&& res.fee_growth_inside_0_x64 == growth_inside_spec(
                final(tick_lower_state).tick as int,
                final(tick_lower_state).fee_growth_outside_0_x64,
                final(tick_upper_state).tick as int,
                final(tick_upper_state).fee_growth_outside_0_x64,
                old(pool_state).tick_current as int,
                old(pool_state).fee_growth_global_0_x64,
            )
            &&& res.fee_growth_inside_1_x64 == growth_inside_spec(
                final(tick_lower_state).tick as int,
                final(tick_lower_state).fee_growth_outside_1_x64,
                final(tick_upper_state).tick as int,
                final(tick_upper_state).fee_growth_outside_1_x64,
                old(pool_state).tick_current as int,
                old(pool_state).fee_growth_global_1_x64,
            )
            &&& res.reward_growths_inside@.len() == REWARD_NUM
            &&& (forall|i: int|
                0 <= i < REWARD_NUM ==> res.reward_growths_inside@[i] == growth_inside_spec(
                    final(tick_lower_state).tick as int,
                    final(tick_lower_state).reward_growths_outside_x64@[i],
                    final(tick_upper_state).tick as int,
                    final(tick_upper_state).reward_growths_outside_x64@[i],
                    old(pool_state).tick_current as int,
                    growths[i],
                ))
        },
{
    let preview = match liquidity_change_preview(
        pool_state,
        tick_lower_state,
        tick_upper_state,
        liquidity_delta,
        timestamp,
    ) {
        Ok(p) => p,
        Err(e) => {
            return Err(e);
        },
    };
    pool_state.reward_infos = preview.updated_rewards;
    pool_state.liquidity = preview.new_liquidity;
    *tick_lower_state = preview.tick_lower;
    *tick_upper_state = preview.tick_upper;
    Ok(preview.result)
}

/// The boundary tick record of `tick` inside its array.
pub open spec fn boundary_tick(arr: TickArrayState, tick: int, sp: int) -> TickState {
    arr.ticks@[crate::tick_array::tick_offset_spec(tick, arr.start_tick_index as int, sp)]
}

/// A growth-outside snapshot after a boundary update: refreshed to the
/// global value when the tick first becomes referenced at or below the
/// current tick, otherwise unchanged.
pub open spec fn updated_outside(t: TickState, cur: int, old_out: u128, g: u128) -> u128 {
    if t.liquidity_gross == 0 && t.tick <= cur {
        g
    } else {
        old_out
    }
}

/// The growth inside the range after both boundary updates.
pub open spec fn inside_after(
    lt: TickState,
    ut: TickState,
    cur: int,
    lo_out: u128,
    up_out: u128,
    g: u128,
) -> u128 {
    growth_inside_spec(
        lt.tick as int,
        updated_outside(lt, cur, lo_out, g),
        ut.tick as int,
        updated_outside(ut, cur, up_out, g),
        cur,
        g,
    )
}

/// Whether a whole range-level liquidity change can be applied without any
/// arithmetic failure: both boundary records exist in their arrays, reward
/// accrual succeeds, both boundary updates fit, the global liquidity fits
/// when the range is active, and any bitmap transition has room in the
/// per-array counters.
pub open spec fn liquidity_change_ok(
    pool: PoolState,
    arrl: TickArrayState,
    arru: TickArrayState,
    tick_lower: int,
    tick_upper: int,
    delta: i128,
    timestamp: u64,
) -> bool {
    let sp = pool.tick_spacing as int;
    let lt = boundary_tick(arrl, tick_lower, sp);
    let ut = boundary_tick(arru, tick_upper, sp);
    let cur = pool.tick_current as int;
    &&& crate::tick_array::tick_in_array_spec(tick_lower, arrl.start_tick_index as int, sp)
    &&& crate::tick_array::tick_in_array_spec(tick_upper, arru.start_tick_index as int, sp)
    &&& (forall|i: int|
        0 <= i < REWARD_NUM ==> !reward_update_failure(
            pool.reward_infos@[i],
            pool.liquidity,
            timestamp,
        ))
    &&& tick_update_ok(lt, delta, false)
    &&& tick_update_ok(ut, delta, true)
    &&& ((lt.tick <= cur && cur < ut.tick) ==> add_delta_spec(pool.liquidity, delta) is Ok)
    &&& (tick_flips(lt, delta) ==> (if delta >= 0 {
        arrl.initialized_tick_count < 255
    } else {
        arrl.initialized_tick_count > 0
    }))
    &&& (tick_flips(ut, delta) ==> (if delta >= 0 {
        arru.initialized_tick_count < 255
    } else {
        arru.initialized_tick_count > 0
    }))
}

/// Whether applying the delta flips the tick between referenced and
/// unreferenced.
pub open spec fn tick_flips(t: TickState, delta: i128) -> bool {
    ((add_delta_spec(t.liquidity_gross, delta) -> Ok_0) == 0) != (t.liquidity_gross == 0)
}

/// How the combined initialized-slot bits stand after a range-level
/// liquidity change: each boundary array's slot bit toggles exactly when
/// the change crossed that array between empty and non-empty, and no other
/// slot in the valid range changes. With the per-array counters this keeps
/// the invariant that a slot's bit is set exactly when its array holds an
/// initialized tick.
pub open spec fn slots_outcome(
    pool0: PoolState,
    ext0: Option<TickArrayBitmapExtension>,
    pool1: PoolState,
    ext1: Option<TickArrayBitmapExtension>,
    jl: int,
    toggle_l: bool,
    ju: int,
    toggle_u: bool,
) -> bool {
    let sp = pool0.tick_spacing as int;
    &&& slot_bit(pool1, ext1, jl) == (slot_bit(pool0, ext0, jl) != toggle_l)
    &&& slot_bit(pool1, ext1, ju) == (slot_bit(pool0, ext0, ju) != toggle_u)
    &&& (forall|k: int|
        min_array_idx(sp) <= k <= max_array_idx(sp) && k != jl && k != ju ==> #[trigger] slot_bit(
            pool1,
            ext1,
            k,
        ) == slot_bit(pool0, ext0, k))
}

/// Burn liquidity from a tick range: update both boundary records, the
/// per-array counters, the global liquidity, and clear an array's
/// initialized-bit when its last referenced tick clears. The growth-inside
/// snapshots of the range are returned for position settlement. A failure
/// leaves every account exactly as it was.
pub fn burn_liquidity(
    pool_state: &mut PoolState,
    tick_array_lower: &mut TickArrayState,
    tick_array_upper: &mut TickArrayState,
    tickarray_bitmap_extension: &mut Option<TickArrayBitmapExtension>,
    tick_lower_index: i32,
    tick_upper_index: i32,
    liquidity: u128,
    timestamp: u64,
) -> (r: Result<LiquidityChangeResult, ErrorCode>)
    requires
        old(pool_state).wf(),
        old(tick_array_lower).wf(),
        old(tick_array_upper).wf(),
        ext_wf_spec(*old(tickarray_bitmap_extension)),
        -443636 <= tick_lower_index < tick_upper_index <= 443636,
        crate::tick_array::valid_start_index_spec(
            old(tick_array_lower).start_tick_index as int,
            old(pool_state).tick_spacing as int,
        ),
        crate::tick_array::valid_start_index_spec(
            old(tick_array_upper).start_tick_index as int,
            old(pool_state).tick_spacing as int,
        ),
        overflow_default_spec(
            old(pool_state).tick_spacing as int,
            old(tick_array_lower).start_tick_index as int,
        ) ==> (*old(tickarray_bitmap_extension)) is Some,
        overflow_default_spec(
            old(pool_state).tick_spacing as int,
            old(tick_array_upper).start_tick_index as int,
        ) ==> (*old(tickarray_bitmap_extension)) is Some,
        old(tick_array_lower).start_tick_index != old(tick_array_upper).start_tick_index,
        liquidity <= i128::MAX as u128,
        boundary_tick(
            *old(tick_array_lower),
            tick_lower_index as int,
            old(pool_state).tick_spacing as int,
        ).tick == tick_lower_index,
        boundary_tick(
            *old(tick_array_upper),
            tick_upper_index as int,
            old(pool_state).tick_spacing as int,
        ).tick == tick_upper_index,
    ensures
        final(pool_state).wf(),
        final(tick_array_lower).wf(),
        final(tick_array_upper).wf(),
        ext_wf_spec(*final(tickarray_bitmap_extension)),
        r is Ok <==> liquidity_change_ok(
            *old(pool_state),
            *old(tick_array_lower),
            *old(tick_array_upper),
            tick_lower_index as int,
            tick_upper_index as int,
            (-(liquidity as i128)) as i128,
            timestamp,
        ),
        r is Err ==> r != Result::<LiquidityChangeResult, ErrorCode>::Err(ErrorCode::NotApproved),
        r is Err ==> *final(pool_state) == *old(pool_state) && *final(tick_array_lower) == *old(tick_array_lower)
            && *final(tick_array_upper) == *old(tick_array_upper)
            && *final(tickarray_bitmap_extension) == *old(tickarray_bitmap_extension),
        old(pool_state).reward_claims_bounded() ==> final(pool_state).reward_claims_bounded(),
        r matches Ok(res) ==> {
            let sp = old(pool_state).tick_spacing as int;
            let delta = (-(liquidity as i128)) as i128;
            let lt = boundary_tick(*old(tick_array_lower), tick_lower_index as int, sp);
            let ut = boundary_tick(*old(tick_array_upper), tick_upper_index as int, sp);
            let cur = old(pool_state).tick_current as int;
            let growths = updated_reward_growths(*old(pool_state), timestamp);
            let lt1 = boundary_tick(*final(tick_array_lower), tick_lower_index as int, sp);
            let ut1 = boundary_tick(*final(tick_array_upper), tick_upper_index as int, sp);
            &&& tick_updated_rel(
                lt,
                lt1,
                cur,
                delta,
                old(pool_state).fee_growth_global_0_x64,
                old(pool_state).fee_growth_global_1_x64,
                growths,
                false,
            )
            &&& tick_updated_rel(
                ut,
                ut1,
                cur,
                delta,
                old(pool_state).fee_growth_global_0_x64,
                old(pool_state).fee_growth_global_1_x64,
                growths,
                true,
            )
            &&& res.tick_lower_flipped == tick_flips(lt, delta)
            &&& res.tick_upper_flipped == tick_flips(ut, delta)
            &&& final(pool_state).liquidity == (if lt.tick <= cur && cur < ut.tick {
                add_delta_spec(old(pool_state).liquidity, delta) -> Ok_0
            } else {
                old(pool_state).liquidity
            })
            &&& (forall|i: int|
                0 <= i < REWARD_NUM ==> final(pool_state).reward_infos@[i] == reward_updated(
                    old(pool_state).reward_infos@[i],
                    old(pool_state).liquidity,
                    timestamp,
                ))
            &&& final(tick_array_lower).initialized_tick_count == (if res.tick_lower_flipped {
                (old(tick_array_lower).initialized_tick_count - 1) as u8
            } else {
                old(tick_array_lower).initialized_tick_count
            })
            &&& final(tick_array_upper).initialized_tick_count == (if res.tick_upper_flipped {
                (old(tick_array_upper).initialized_tick_count - 1) as u8
            } else {
                old(tick_array_upper).initialized_tick_count
            })
            &&& *final(pool_state) == (PoolState {
                reward_infos: final(pool_state).reward_infos,
                liquidity: final(pool_state).liquidity,
                tick_array_bitmap: final(pool_state).tick_array_bitmap,
                ..*old(pool_state)
            })
            &&& slots_outcome(
                *old(pool_state),
                *old(tickarray_bitmap_extension),
                *final(pool_state),
                *final(tickarray_bitmap_extension),
                old(tick_array_lower).start_tick_index as int / tick_count_spec(sp),
                res.tick_lower_flipped && old(tick_array_lower).initialized_tick_count == 1,
                old(tick_array_upper).start_tick_index as int / tick_count_spec(sp),
                res.tick_upper_flipped && old(tick_array_upper).initialized_tick_count == 1,
            )
            &&& res.fee_growth_inside_0_x64 == inside_after(
                lt,
                ut,
                cur,
                lt.fee_growth_outside_0_x64,
                ut.fee_growth_outside_0_x64,
                old(pool_state).fee_growth_global_0_x64,
            )
            &&& res.fee_growth_inside_1_x64 == inside_after(
                lt,
                ut,
                cur,
                lt.fee_growth_outside_1_x64,
                ut.fee_growth_outside_1_x64,
                old(pool_state).fee_growth_global_1_x64,
            )
            &&& res.reward_growths_inside@.len() == REWARD_NUM
            &&& (forall|i: int|
                0 <= i < REWARD_NUM ==> res.reward_growths_inside@[i] == growth_inside_spec(
                    lt.tick as int,
                    updated_outside(lt, cur, lt.reward_growths_outside_x64@[i], growths[i]),
                    ut.tick as int,
                    updated_outside(ut, cur, ut.reward_growths_outside_x64@[i], growths[i]),
                    cur,
                    growths[i],
                ))
        },
{
    let ghost sp = pool_state.tick_spacing as int;
    proof {
        crate::tick_array::lemma_valid_start_range(tick_array_lower.start_tick_index as int, sp);
        crate::tick_array::lemma_valid_start_range(tick_array_upper.start_tick_index as int, sp);
    }
    let delta: i128 = -(liquidity as i128);
    let mut lower: TickState = match tick_array_lower.get_tick_state(
        tick_lower_index,
        pool_state.tick_spacing,
    ) {
        Ok(t) => t,
        Err(e) => {
            return Err(e);
        },
    };
    let mut upper: TickState = match tick_array_upper.get_tick_state(
        tick_upper_index,
        pool_state.tick_spacing,
    ) {
        Ok(t) => t,
        Err(e) => {
            return Err(e);
        },
    };
    if lower.tick >= upper.tick {
        proof {
            assert(false);
        }
        return Err(ErrorCode::TickInvalidOrder);
    }
    // Check the per-array counters can absorb a clearing transition before
    // any state is written.
    let gross_after_lower = match crate::tick_array::add_delta(lower.liquidity_gross, delta) {
        Ok(v) => v,
        Err(e) => {
            return Err(e);
        },
    };
    let gross_after_upper = match crate::tick_array::add_delta(upper.liquidity_gross, delta) {
        Ok(v) => v,
        Err(e) => {
            return Err(e);
        },
    };
    let will_flip_lower = (gross_after_lower == 0) != (lower.liquidity_gross == 0);
    let will_flip_upper = (gross_after_upper == 0) != (upper.liquidity_gross == 0);
    if will_flip_lower && tick_array_lower.initialized_tick_count == 0 {
        return Err(ErrorCode::MathOverflow);
    }
    if will_flip_upper && tick_array_upper.initialized_tick_count == 0 {
        return Err(ErrorCode::MathOverflow);
    }
    let result = match modify_position(delta, pool_state, &mut lower, &mut upper, timestamp) {
        Ok(res) => res,
        Err(e) => {
            return Err(e);
        },
    };
    match tick_array_lower.update_tick_state(tick_lower_index, pool_state.tick_spacing, lower) {
        Ok(()) => {},
        Err(e) => {
            proof {
                assert(false);
            }
            return Err(e);
        },
    }
    match tick_array_upper.update_tick_state(tick_upper_index, pool_state.tick_spacing, upper) {
        Ok(()) => {},
        Err(e) => {
            proof {
                assert(false);
            }
            return Err(e);
        },
    }
    let ghost pool_bits0 = *pool_state;
    let ghost ext_bits0 = *tickarray_bitmap_extension;
    if result.tick_lower_flipped {
        match tick_array_lower.update_initialized_tick_count(false) {
            Ok(()) => {},
            Err(e) => {
                proof {
                    assert(false);
                }
                return Err(e);
            },
        }
        if tick_array_lower.initialized_tick_count == 0 {
            match pool_state.flip_tick_array_bit(
                tickarray_bitmap_extension,
                tick_array_lower.start_tick_index,
            ) {
                Ok(()) => {},
                Err(e) => {
                    proof {
                        assert(false);
                    }
                    return Err(e);
                },
            }
        }
    }
    let ghost pool_mid = *pool_state;
    let ghost ext_mid = *tickarray_bitmap_extension;
    if result.tick_upper_flipped {
        match tick_array_upper.update_initialized_tick_count(false) {
            Ok(()) => {},
            Err(e) => {
                proof {
                    assert(false);
                }
                return Err(e);
            },
        }
        if tick_array_upper.initialized_tick_count == 0 {
            match pool_state.flip_tick_array_bit(
                tickarray_bitmap_extension,
                tick_array_upper.start_tick_index,
            ) {
                Ok(()) => {},
                Err(e) => {
                    proof {
                        assert(false);
                    }
                    return Err(e);
                },
            }
        }
    }
    proof {
        // Restate the reported outcome over the original boundary records,
        // as the contract phrases it.
        let delta2 = (-(liquidity as i128)) as i128;
        let lt = boundary_tick(*old(tick_array_lower), tick_lower_index as int, sp);
        let ut = boundary_tick(*old(tick_array_upper), tick_upper_index as int, sp);
        let cur = old(pool_state).tick_current as int;
        let growths = updated_reward_growths(*old(pool_state), timestamp);
        let lt1 = boundary_tick(*tick_array_lower, tick_lower_index as int, sp);
        let ut1 = boundary_tick(*tick_array_upper, tick_upper_index as int, sp);
        assert(lt1 == lower);
        assert(ut1 == upper);
        assert(tick_updated_rel(lt, lt1, cur, delta2,
            old(pool_state).fee_growth_global_0_x64,
            old(pool_state).fee_growth_global_1_x64, growths, false));
        assert(tick_updated_rel(ut, ut1, cur, delta2,
            old(pool_state).fee_growth_global_0_x64,
            old(pool_state).fee_growth_global_1_x64, growths, true));
        assert(result.tick_lower_flipped == tick_flips(lt, delta2));
        assert(result.tick_upper_flipped == tick_flips(ut, delta2));
        assert(pool_state.liquidity == (if lt.tick <= cur && cur < ut.tick {
            add_delta_spec(old(pool_state).liquidity, delta2) -> Ok_0
        } else {
            old(pool_state).liquidity
        }));
        assert(forall|i: int|
            0 <= i < REWARD_NUM ==> pool_state.reward_infos@[i] == reward_updated(
                old(pool_state).reward_infos@[i],
                old(pool_state).liquidity,
                timestamp,
            ));
        assert(tick_array_lower.initialized_tick_count == (if result.tick_lower_flipped {
            (old(tick_array_lower).initialized_tick_count - 1) as u8
        } else {
            old(tick_array_lower).initialized_tick_count
        }));
        assert(result.fee_growth_inside_0_x64 == inside_after(lt, ut, cur,
            lt.fee_growth_outside_0_x64, ut.fee_growth_outside_0_x64,
            old(pool_state).fee_growth_global_0_x64));
        assert(result.fee_growth_inside_1_x64 == inside_after(lt, ut, cur,
            lt.fee_growth_outside_1_x64, ut.fee_growth_outside_1_x64,
            old(pool_state).fee_growth_global_1_x64));
        assert(forall|i: int|
            0 <= i < REWARD_NUM ==> result.reward_growths_inside@[i] == growth_inside_spec(
                lt.tick as int,
                updated_outside(lt, cur, lt.reward_growths_outside_x64@[i], growths[i]),
                ut.tick as int,
                updated_outside(ut, cur, ut.reward_growths_outside_x64@[i], growths[i]),
                cur,
                growths[i],
            ));
        // The bitmap outcome: compose the (at most two) slot flips over the
        // untouched slots.
        let t = tick_count_spec(sp);
        let jl = old(tick_array_lower).start_tick_index as int / t;
        let ju = old(tick_array_upper).start_tick_index as int / t;
        crate::pool::lemma_valid_start_self(old(tick_array_lower).start_tick_index as int, sp);
        crate::pool::lemma_valid_start_self(old(tick_array_upper).start_tick_index as int, sp);
        crate::pool::lemma_valid_start_idx_bounds(
            sp,
            old(tick_array_lower).start_tick_index as int,
        );
        crate::pool::lemma_valid_start_idx_bounds(
            sp,
            old(tick_array_upper).start_tick_index as int,
        );
        assert(jl != ju) by {
            if jl == ju {
                assert(jl * t == ju * t);
            }
        }
        let fl = result.tick_lower_flipped && old(tick_array_lower).initialized_tick_count == 1;
        let fu = result.tick_upper_flipped && old(tick_array_upper).initialized_tick_count == 1;
        let p0 = *old(pool_state);
        let e0 = *old(tickarray_bitmap_extension);
        let p2 = *pool_state;
        let e2 = *tickarray_bitmap_extension;
        assert(pool_bits0.tick_array_bitmap@ == p0.tick_array_bitmap@);
        assert forall|k: int|
            min_array_idx(sp) <= k <= max_array_idx(sp) implies #[trigger] slot_bit(
            pool_bits0,
            ext_bits0,
            k,
        ) == slot_bit(p0, e0, k) by {}
        if !fl {
            assert(pool_mid == pool_bits0 && ext_mid == ext_bits0);
        }
        if !fu {
            assert(p2 == pool_mid && e2 == ext_mid);
        }
        assert(slot_bit(p2, e2, jl) == (slot_bit(p0, e0, jl) != fl));
        assert(slot_bit(p2, e2, ju) == (slot_bit(p0, e0, ju) != fu));
        assert forall|k: int|
            min_array_idx(sp) <= k <= max_array_idx(sp) && k != jl && k != ju implies #[trigger]
            slot_bit(p2, e2, k) == slot_bit(p0, e0, k) by {
            assert(slot_bit(pool_mid, ext_mid, k) == slot_bit(pool_bits0, ext_bits0, k));
            assert(slot_bit(p2, e2, k) == slot_bit(pool_mid, ext_mid, k));
        }
    }
    Ok(result)
}

/// The reward growth-inside table of a range after a liquidity change.
pub open spec fn rewards_inside_after(
    lt: TickState,
    ut: TickState,
    cur: int,
    growths: Seq<u128>,
) -> Seq<u128> {
    Seq::new(
        growths.len(),
        |i: int|
            growth_inside_spec(
                lt.tick as int,
                updated_outside(lt, cur, lt.reward_growths_outside_x64@[i], growths[i]),
                ut.tick as int,
                updated_outside(ut, cur, ut.reward_growths_outside_x64@[i], growths[i]),
                cur,
                growths[i],
            ),
    )
}

/// Whether the position can settle the fees and rewards implied by a
/// liquidity change into its owed accumulators.
pub open spec fn position_settle_ok(
    pos: PersonalPositionState,
    pool: PoolState,
    arrl: TickArrayState,
    arru: TickArrayState,
    timestamp: u64,
) -> bool {
    let sp = pool.tick_spacing as int;
    let lt = boundary_tick(arrl, pos.tick_lower_index as int, sp);
    let ut = boundary_tick(arru, pos.tick_upper_index as int, sp);
    let cur = pool.tick_current as int;
    let growths = updated_reward_growths(pool, timestamp);
    &&& pos.token_fees_owed_0 + crate::position::owed_delta_spec(
        pos.fee_growth_inside_0_last_x64,
        inside_after(
            lt,
            ut,
            cur,
            lt.fee_growth_outside_0_x64,
            ut.fee_growth_outside_0_x64,
            pool.fee_growth_global_0_x64,
        ),
        pos.liquidity,
    ) <= u64::MAX
    &&& pos.token_fees_owed_1 + crate::position::owed_delta_spec(
        pos.fee_growth_inside_1_last_x64,
        inside_after(
            lt,
            ut,
            cur,
            lt.fee_growth_outside_1_x64,
            ut.fee_growth_outside_1_x64,
            pool.fee_growth_global_1_x64,
        ),
        pos.liquidity,
    ) <= u64::MAX
    &&& pos.rewards_settle_ok(rewards_inside_after(lt, ut, cur, growths))
}

/// Mint liquidity into the position's range: update both boundary records,
/// the per-array counters and bitmap bits, the global liquidity when the
/// range is active, and settle the position's fees and rewards at the new
/// growth-inside snapshots. Rejected with `NotApproved` exactly when the
/// pool's status disables opening or increasing positions. Everything is
/// validated on a preview before committing, so a failure leaves every
/// account exactly as it was.
pub fn increase_liquidity(
    pool_state: &mut PoolState,
    personal_position: &mut PersonalPositionState,
    tick_array_lower: &mut TickArrayState,
    tick_array_upper: &mut TickArrayState,
    tickarray_bitmap_extension: &mut Option<TickArrayBitmapExtension>,
    liquidity: u128,
    timestamp: u64,
    recent_epoch: u64,
) -> (r: Result<(), ErrorCode>)
    requires
        old(pool_state).wf(),
        old(personal_position).wf(),
        old(tick_array_lower).wf(),
        old(tick_array_upper).wf(),
        ext_wf_spec(*old(tickarray_bitmap_extension)),
        -443636 <= old(personal_position).tick_lower_index < old(personal_position).tick_upper_index <= 443636,
        crate::tick_array::valid_start_index_spec(
            old(tick_array_lower).start_tick_index as int,
            old(pool_state).tick_spacing as int,
        ),
        crate::tick_array::valid_start_index_spec(
            old(tick_array_upper).start_tick_index as int,
            old(pool_state).tick_spacing as int,
        ),
        overflow_default_spec(
            old(pool_state).tick_spacing as int,
            old(tick_array_lower).start_tick_index as int,
        ) ==> (*old(tickarray_bitmap_extension)) is Some,
        overflow_default_spec(
            old(pool_state).tick_spacing as int,
            old(tick_array_upper).start_tick_index as int,
        ) ==> (*old(tickarray_bitmap_extension)) is Some,
        old(tick_array_lower).start_tick_index != old(tick_array_upper).start_tick_index,
        liquidity <= i128::MAX as u128,
        boundary_tick(
            *old(tick_array_lower),
            old(personal_position).tick_lower_index as int,
            old(pool_state).tick_spacing as int,
        ).tick == old(personal_position).tick_lower_index,
        boundary_tick(
            *old(tick_array_upper),
            old(personal_position).tick_upper_index as int,
            old(pool_state).tick_spacing as int,
        ).tick == old(personal_position).tick_upper_index,
    ensures
        final(pool_state).wf(),
        final(personal_position).wf(),
        final(tick_array_lower).wf(),
        final(tick_array_upper).wf(),
        ext_wf_spec(*final(tickarray_bitmap_extension)),
        r is Ok <==> !status_bit(old(pool_state).status, 0) && liquidity_change_ok(
            *old(pool_state),
            *old(tick_array_lower),
            *old(tick_array_upper),
            old(personal_position).tick_lower_index as int,
            old(personal_position).tick_upper_index as int,
            liquidity as i128,
            timestamp,
        ) && old(personal_position).liquidity + liquidity <= u128::MAX && position_settle_ok(
            *old(personal_position),
            *old(pool_state),
            *old(tick_array_lower),
            *old(tick_array_upper),
            timestamp,
        ),
        r == Result::<(), ErrorCode>::Err(ErrorCode::NotApproved) <==> status_bit(
            old(pool_state).status,
            0,
        ),
        r is Err ==> *final(pool_state) == *old(pool_state) && *final(personal_position) == *old(personal_position)
            && *final(tick_array_lower) == *old(tick_array_lower)
            && *final(tick_array_upper) == *old(tick_array_upper)
            && *final(tickarray_bitmap_extension) == *old(tickarray_bitmap_extension),
        r is Ok ==> {
            let sp = old(pool_state).tick_spacing as int;
            let delta = liquidity as i128;
            let lt = boundary_tick(
                *old(tick_array_lower),
                old(personal_position).tick_lower_index as int,
                sp,
            );
            let ut = boundary_tick(
                *old(tick_array_upper),
                old(personal_position).tick_upper_index as int,
                sp,
            );
            let cur = old(pool_state).tick_current as int;
            let growths = updated_reward_growths(*old(pool_state), timestamp);
            let lt1 = boundary_tick(
                *final(tick_array_lower),
                old(personal_position).tick_lower_index as int,
                sp,
            );
            let ut1 = boundary_tick(
                *final(tick_array_upper),
                old(personal_position).tick_upper_index as int,
                sp,
            );
            let fee0 = inside_after(
                lt,
                ut,
                cur,
                lt.fee_growth_outside_0_x64,
                ut.fee_growth_outside_0_x64,
                old(pool_state).fee_growth_global_0_x64,
            );
            let fee1 = inside_after(
                lt,
                ut,
                cur,
                lt.fee_growth_outside_1_x64,
                ut.fee_growth_outside_1_x64,
                old(pool_state).fee_growth_global_1_x64,
            );
            &&& tick_updated_rel(
                lt,
                lt1,
                cur,
                delta,
                old(pool_state).fee_growth_global_0_x64,
                old(pool_state).fee_growth_global_1_x64,
                growths,
                false,
            )
            &&& tick_updated_rel(
                ut,
                ut1,
                cur,
                delta,
                old(pool_state).fee_growth_global_0_x64,
                old(pool_state).fee_growth_global_1_x64,
                growths,
                true,
            )
            &&& *final(tick_array_lower) == (TickArrayState {
                ticks: final(tick_array_lower).ticks,
                initialized_tick_count: final(tick_array_lower).initialized_tick_count,
                ..*old(tick_array_lower)
            })
            &&& *final(tick_array_upper) == (TickArrayState {
                ticks: final(tick_array_upper).ticks,
                initialized_tick_count: final(tick_array_upper).initialized_tick_count,
                ..*old(tick_array_upper)
            })
            &&& final(tick_array_lower).ticks@ == old(tick_array_lower).ticks@.update(
                crate::tick_array::tick_offset_spec(
                    old(personal_position).tick_lower_index as int,
                    old(tick_array_lower).start_tick_index as int,
                    sp,
                ),
                lt1,
            )
            &&& final(tick_array_upper).ticks@ == old(tick_array_upper).ticks@.update(
                crate::tick_array::tick_offset_spec(
                    old(personal_position).tick_upper_index as int,
                    old(tick_array_upper).start_tick_index as int,
                    sp,
                ),
                ut1,
            )
            &&& final(tick_array_lower).initialized_tick_count == (if tick_flips(lt, delta) {
                (old(tick_array_lower).initialized_tick_count + 1) as u8
            } else {
                old(tick_array_lower).initialized_tick_count
            })
            &&& final(tick_array_upper).initialized_tick_count == (if tick_flips(ut, delta) {
                (old(tick_array_upper).initialized_tick_count + 1) as u8
            } else {
                old(tick_array_upper).initialized_tick_count
            })
            &&& final(pool_state).liquidity == (if lt.tick <= cur && cur < ut.tick {
                old(pool_state).liquidity + liquidity
            } else {
                old(pool_state).liquidity as int
            })
            &&& (forall|i: int|
                0 <= i < REWARD_NUM ==> final(pool_state).reward_infos@[i] == reward_updated(
                    old(pool_state).reward_infos@[i],
                    old(pool_state).liquidity,
                    timestamp,
                ))
            &&& *final(pool_state) == (PoolState {
                reward_infos: final(pool_state).reward_infos,
                liquidity: final(pool_state).liquidity,
                tick_array_bitmap: final(pool_state).tick_array_bitmap,
                ..*old(pool_state)
            })
            &&& slots_outcome(
                *old(pool_state),
                *old(tickarray_bitmap_extension),
                *final(pool_state),
                *final(tickarray_bitmap_extension),
                old(tick_array_lower).start_tick_index as int / tick_count_spec(sp),
                tick_flips(lt, delta) && old(tick_array_lower).initialized_tick_count == 0,
                old(tick_array_upper).start_tick_index as int / tick_count_spec(sp),
                tick_flips(ut, delta) && old(tick_array_upper).initialized_tick_count == 0,
            )
            &&& final(personal_position).liquidity == old(personal_position).liquidity
                + liquidity
            &&& final(personal_position).token_fees_owed_0 == old(personal_position).token_fees_owed_0 + crate::position::owed_delta_spec(
                old(personal_position).fee_growth_inside_0_last_x64,
                fee0,
                old(personal_position).liquidity,
            )
            &&& final(personal_position).token_fees_owed_1 == old(personal_position).token_fees_owed_1 + crate::position::owed_delta_spec(
                old(personal_position).fee_growth_inside_1_last_x64,
                fee1,
                old(personal_position).liquidity,
            )
            &&& final(personal_position).fee_growth_inside_0_last_x64 == fee0
            &&& final(personal_position).fee_growth_inside_1_last_x64 == fee1
            &&& final(personal_position).reward_infos@ =~= old(personal_position).rewards_settled(rewards_inside_after(lt, ut, cur, growths))
            &&& final(personal_position).recent_epoch == recent_epoch
            &&& final(personal_position).tick_lower_index == old(personal_position).tick_lower_index
            &&& final(personal_position).tick_upper_index == old(personal_position).tick_upper_index
            &&& final(personal_position).nft_mint == old(personal_position).nft_mint
            &&& final(personal_position).pool_id == old(personal_position).pool_id
        },
{
    if !pool_state.get_status_by_bit(PoolStatusBitIndex::OpenPositionOrIncreaseLiquidity) {
        return Err(ErrorCode::NotApproved);
    }
    let ghost sp = pool_state.tick_spacing as int;
    proof {
        crate::tick_array::lemma_valid_start_range(tick_array_lower.start_tick_index as int, sp);
        crate::tick_array::lemma_valid_start_range(tick_array_upper.start_tick_index as int, sp);
    }
    let tick_lower_index = personal_position.tick_lower_index;
    let tick_upper_index = personal_position.tick_upper_index;
    let delta: i128 = liquidity as i128;
    let lower: TickState = match tick_array_lower.get_tick_state(
        tick_lower_index,
        pool_state.tick_spacing,
    ) {
        Ok(t) => t,
        Err(e) => {
            return Err(e);
        },
    };
    let upper: TickState = match tick_array_upper.get_tick_state(
        tick_upper_index,
        pool_state.tick_spacing,
    ) {
        Ok(t) => t,
        Err(e) => {
            return Err(e);
        },
    };
    let gross_after_lower = match crate::tick_array::add_delta(lower.liquidity_gross, delta) {
        Ok(v) => v,
        Err(e) => {
            return Err(e);
        },
    };
    let gross_after_upper = match crate::tick_array::add_delta(upper.liquidity_gross, delta) {
        Ok(v) => v,
        Err(e) => {
            return Err(e);
        },
    };
    let will_flip_lower = (gross_after_lower == 0) != (lower.liquidity_gross == 0);
    let will_flip_upper = (gross_after_upper == 0) != (upper.liquidity_gross == 0);
    if will_flip_lower && tick_array_lower.initialized_tick_count == 255 {
        return Err(ErrorCode::MathOverflow);
    }
    if will_flip_upper && tick_array_upper.initialized_tick_count == 255 {
        return Err(ErrorCode::MathOverflow);
    }
    if liquidity > u128::MAX - personal_position.liquidity {
        return Err(ErrorCode::MathOverflow);
    }
    // Everything else is validated on a preview before any state changes.
    let preview = match liquidity_change_preview(pool_state, &lower, &upper, delta, timestamp) {
        Ok(p) => p,
        Err(e) => {
            return Err(e);
        },
    };
    proof {
        let lt = boundary_tick(*old(tick_array_lower), tick_lower_index as int, sp);
        let ut = boundary_tick(*old(tick_array_upper), tick_upper_index as int, sp);
        let cur = old(pool_state).tick_current as int;
        let growths = updated_reward_growths(*old(pool_state), timestamp);
        assert(preview.result.reward_growths_inside@ =~= rewards_inside_after(
            lt,
            ut,
            cur,
            growths,
        ));
    }
    if !personal_position.settlement_fits(
        preview.result.fee_growth_inside_0_x64,
        preview.result.fee_growth_inside_1_x64,
        &preview.result.reward_growths_inside,
    ) {
        return Err(ErrorCode::MathOverflow);
    }
    // Commit phase: none of the remaining steps can fail.
    pool_state.reward_infos = preview.updated_rewards;
    pool_state.liquidity = preview.new_liquidity;
    match personal_position.increase_liquidity(
        liquidity,
        preview.result.fee_growth_inside_0_x64,
        preview.result.fee_growth_inside_1_x64,
        &preview.result.reward_growths_inside,
        recent_epoch,
    ) {
        Ok(()) => {},
        Err(e) => {
            proof {
                assert(false);
            }
            return Err(e);
        },
    }
    match tick_array_lower.update_tick_state(
        tick_lower_index,
        pool_state.tick_spacing,
        preview.tick_lower,
    ) {
        Ok(()) => {},
        Err(e) => {
            proof {
                assert(false);
            }
            return Err(e);
        },
    }
    match tick_array_upper.update_tick_state(
        tick_upper_index,
        pool_state.tick_spacing,
        preview.tick_upper,
    ) {
        Ok(()) => {},
        Err(e) => {
            proof {
                assert(false);
            }
            return Err(e);
        },
    }
    let ghost pool_bits0 = *pool_state;
    let ghost ext_bits0 = *tickarray_bitmap_extension;
    if will_flip_lower {
        match tick_array_lower.update_initialized_tick_count(true) {
            Ok(()) => {},
            Err(e) => {
                proof {
                    assert(false);
                }
                return Err(e);
            },
        }
        if tick_array_lower.initialized_tick_count == 1 {
            match pool_state.flip_tick_array_bit(
                tickarray_bitmap_extension,
                tick_array_lower.start_tick_index,
            ) {
                Ok(()) => {},
                Err(e) => {
                    proof {
                        assert(false);
                    }
                    return Err(e);
                },
            }
        }
    }
    let ghost pool_mid = *pool_state;
    let ghost ext_mid = *tickarray_bitmap_extension;
    if will_flip_upper {
        match tick_array_upper.update_initialized_tick_count(true) {
            Ok(()) => {},
            Err(e) => {
                proof {
                    assert(false);
                }
                return Err(e);
            },
        }
        if tick_array_upper.initialized_tick_count == 1 {
            match pool_state.flip_tick_array_bit(
                tickarray_bitmap_extension,
                tick_array_upper.start_tick_index,
            ) {
                Ok(()) => {},
                Err(e) => {
                    proof {
                        assert(false);
                    }
                    return Err(e);
                },
            }
        }
    }
    proof {
        // Restate the outcome over the original boundary records and
        // compose the (at most two) slot flips over the untouched slots.
        let lt = boundary_tick(*old(tick_array_lower), tick_lower_index as int, sp);
        let ut = boundary_tick(*old(tick_array_upper), tick_upper_index as int, sp);
        let cur = old(pool_state).tick_current as int;
        let growths = updated_reward_growths(*old(pool_state), timestamp);
        assert(boundary_tick(*tick_array_lower, tick_lower_index as int, sp) == preview.tick_lower);
        assert(boundary_tick(*tick_array_upper, tick_upper_index as int, sp) == preview.tick_upper);
        assert(preview.result.reward_growths_inside@ =~= rewards_inside_after(lt, ut, cur, growths));
        assert(preview.result.fee_growth_inside_0_x64 == inside_after(
            lt,
            ut,
            cur,
            lt.fee_growth_outside_0_x64,
            ut.fee_growth_outside_0_x64,
            old(pool_state).fee_growth_global_0_x64,
        ));
        assert(preview.result.fee_growth_inside_1_x64 == inside_after(
            lt,
            ut,
            cur,
            lt.fee_growth_outside_1_x64,
            ut.fee_growth_outside_1_x64,
            old(pool_state).fee_growth_global_1_x64,
        ));
        let t = tick_count_spec(sp);
        let jl = old(tick_array_lower).start_tick_index as int / t;
        let ju = old(tick_array_upper).start_tick_index as int / t;
        crate::pool::lemma_valid_start_self(old(tick_array_lower).start_tick_index as int, sp);
        crate::pool::lemma_valid_start_self(old(tick_array_upper).start_tick_index as int, sp);
        crate::pool::lemma_valid_start_idx_bounds(
            sp,
            old(tick_array_lower).start_tick_index as int,
        );
        crate::pool::lemma_valid_start_idx_bounds(
            sp,
            old(tick_array_upper).start_tick_index as int,
        );
        assert(jl != ju) by {
            if jl == ju {
                assert(jl * t == ju * t);
            }
        }
        let fl = tick_flips(lt, delta) && old(tick_array_lower).initialized_tick_count == 0;
        let fu = tick_flips(ut, delta) && old(tick_array_upper).initialized_tick_count == 0;
        let p0 = *old(pool_state);
        let e0 = *old(tickarray_bitmap_extension);
        let p2 = *pool_state;
        let e2 = *tickarray_bitmap_extension;
        assert(pool_bits0.tick_array_bitmap@ == p0.tick_array_bitmap@);
        assert forall|k: int|
            min_array_idx(sp) <= k <= max_array_idx(sp) implies #[trigger] slot_bit(
            pool_bits0,
            ext_bits0,
            k,
        ) == slot_bit(p0, e0, k) by {}
        if !fl {
            assert(pool_mid == pool_bits0 && ext_mid == ext_bits0);
        }
        if !fu {
            assert(p2 == pool_mid && e2 == ext_mid);
        }
        assert(slot_bit(p2, e2, jl) == (slot_bit(p0, e0, jl) != fl));
        assert(slot_bit(p2, e2, ju) == (slot_bit(p0, e0, ju) != fu));
        assert forall|k: int|
            min_array_idx(sp) <= k <= max_array_idx(sp) && k != jl && k != ju implies #[trigger]
            slot_bit(p2, e2, k) == slot_bit(p0, e0, k) by {
            assert(slot_bit(pool_mid, ext_mid, k) == slot_bit(pool_bits0, ext_bits0, k));
            assert(slot_bit(p2, e2, k) == slot_bit(pool_mid, ext_mid, k));
        }
        let lt1 = boundary_tick(*tick_array_lower, tick_lower_index as int, sp);
        let ut1 = boundary_tick(*tick_array_upper, tick_upper_index as int, sp);
        assert(tick_updated_rel(lt, lt1, cur, delta,
            old(pool_state).fee_growth_global_0_x64,
            old(pool_state).fee_growth_global_1_x64, growths, false));
        assert(tick_array_lower.ticks@ == old(tick_array_lower).ticks@.update(
            crate::tick_array::tick_offset_spec(
                tick_lower_index as int,
                old(tick_array_lower).start_tick_index as int,
                sp,
            ),
            lt1,
        ));
        assert(tick_array_lower.initialized_tick_count == (if tick_flips(lt, delta) {
            (old(tick_array_lower).initialized_tick_count + 1) as u8
        } else {
            old(tick_array_lower).initialized_tick_count
        }));
        assert(pool_state.liquidity == (if lt.tick <= cur && cur < ut.tick {
            old(pool_state).liquidity + liquidity
        } else {
            old(pool_state).liquidity as int
        }));
        assert(personal_position.liquidity == old(personal_position).liquidity + liquidity);
        assert(personal_position.fee_growth_inside_0_last_x64 == inside_after(
            lt, ut, cur, lt.fee_growth_outside_0_x64, ut.fee_growth_outside_0_x64,
            old(pool_state).fee_growth_global_0_x64,
        ));
        assert(personal_position.reward_infos@ =~= old(personal_position).rewards_settled(
            rewards_inside_after(lt, ut, cur, growths),
        ));
        assert(*pool_state == (PoolState {
            reward_infos: pool_state.reward_infos,
            liquidity: pool_state.liquidity,
            tick_array_bitmap: pool_state.tick_array_bitmap,
            ..*old(pool_state)
        }));
        assert(*tick_array_lower == (TickArrayState {
            ticks: tick_array_lower.ticks,
            initialized_tick_count: tick_array_lower.initialized_tick_count,
            ..*old(tick_array_lower)
        }));
        assert(*tick_array_upper == (TickArrayState {
            ticks: tick_array_upper.ticks,
            initialized_tick_count: tick_array_upper.initialized_tick_count,
            ..*old(tick_array_upper)
        }));
        assert(tick_updated_rel(ut, ut1, cur, delta,
            old(pool_state).fee_growth_global_0_x64,
            old(pool_state).fee_growth_global_1_x64, growths, true));
        assert(personal_position.fee_growth_inside_1_last_x64 == inside_after(
            lt, ut, cur, lt.fee_growth_outside_1_x64, ut.fee_growth_outside_1_x64,
            old(pool_state).fee_growth_global_1_x64,
        ));
        assert(personal_position.recent_epoch == recent_epoch);
        assert(slots_outcome(p0, e0, p2, e2, jl, fl, ju, fu));
        assert(tick_array_upper.ticks@ == old(tick_array_upper).ticks@.update(
            crate::tick_array::tick_offset_spec(
                tick_upper_index as int,
                old(tick_array_upper).start_tick_index as int,
                sp,
            ),
            ut1,
        ));
        assert(tick_array_upper.initialized_tick_count == (if tick_flips(ut, delta) {
            (old(tick_array_upper).initialized_tick_count + 1) as u8
        } else {
            old(tick_array_upper).initialized_tick_count
        }));
        assert(forall|i: int|
            0 <= i < REWARD_NUM ==> pool_state.reward_infos@[i] == reward_updated(
                old(pool_state).reward_infos@[i],
                old(pool_state).liquidity,
                timestamp,
            ));
        assert(personal_position.token_fees_owed_0 == old(personal_position).token_fees_owed_0
            + crate::position::owed_delta_spec(
            old(personal_position).fee_growth_inside_0_last_x64,
            inside_after(lt, ut, cur, lt.fee_growth_outside_0_x64,
                ut.fee_growth_outside_0_x64, old(pool_state).fee_growth_global_0_x64),
            old(personal_position).liquidity,
        ));
        assert(personal_position.token_fees_owed_1 == old(personal_position).token_fees_owed_1
            + crate::position::owed_delta_spec(
            old(personal_position).fee_growth_inside_1_last_x64,
            inside_after(lt, ut, cur, lt.fee_growth_outside_1_x64,
                ut.fee_growth_outside_1_x64, old(pool_state).fee_growth_global_1_x64),
            old(personal_position).liquidity,
        ));
        assert(personal_position.tick_lower_index == old(personal_position).tick_lower_index
            && personal_position.tick_upper_index == old(personal_position).tick_upper_index
            && personal_position.nft_mint == old(personal_position).nft_mint
            && personal_position.pool_id == old(personal_position).pool_id);
    }
    Ok(())
}

/// The position's owed token-0 fees after settling a liquidity change.
pub open spec fn settled_fees_owed_0(
    pos: PersonalPositionState,
    pool: PoolState,
    arrl: TickArrayState,
    arru: TickArrayState,
) -> int {
    let sp = pool.tick_spacing as int;
    let lt = boundary_tick(arrl, pos.tick_lower_index as int, sp);
    let ut = boundary_tick(arru, pos.tick_upper_index as int, sp);
    let cur = pool.tick_current as int;
    pos.token_fees_owed_0 + crate::position::owed_delta_spec(
        pos.fee_growth_inside_0_last_x64,
        inside_after(
            lt,
            ut,
            cur,
            lt.fee_growth_outside_0_x64,
            ut.fee_growth_outside_0_x64,
            pool.fee_growth_global_0_x64,
        ),
        pos.liquidity,
    )
}

/// The position's owed token-1 fees after settling a liquidity change.
pub open spec fn settled_fees_owed_1(
    pos: PersonalPositionState,
    pool: PoolState,
    arrl: TickArrayState,
    arru: TickArrayState,
) -> int {
    let sp = pool.tick_spacing as int;
    let lt = boundary_tick(arrl, pos.tick_lower_index as int, sp);
    let ut = boundary_tick(arru, pos.tick_upper_index as int, sp);
    let cur = pool.tick_current as int;
    pos.token_fees_owed_1 + crate::position::owed_delta_spec(
        pos.fee_growth_inside_1_last_x64,
        inside_after(
            lt,
            ut,
            cur,
            lt.fee_growth_outside_1_x64,
            ut.fee_growth_outside_1_x64,
            pool.fee_growth_global_1_x64,
        ),
        pos.liquidity,
    )
}

/// Whether a decrease with fee collection can run to completion: when
/// decreasing is enabled, the burn and the position settlement must fit;
/// when fee collection is enabled, the pool's claimed totals must stay
/// consistent and cover the owed fees.
pub open spec fn decrease_update_ok(
    pool: PoolState,
    pos: PersonalPositionState,
    arrl: TickArrayState,
    arru: TickArrayState,
    liquidity: u128,
    timestamp: u64,
) -> bool {
    let d_en = !status_bit(pool.status, 1);
    let c_en = !status_bit(pool.status, 2);
    let owed_0 = if d_en {
        settled_fees_owed_0(pos, pool, arrl, arru)
    } else {
        pos.token_fees_owed_0 as int
    };
    let owed_1 = if d_en {
        settled_fees_owed_1(pos, pool, arrl, arru)
    } else {
        pos.token_fees_owed_1 as int
    };
    &&& (d_en ==> liquidity_change_ok(
        pool,
        arrl,
        arru,
        pos.tick_lower_index as int,
        pos.tick_upper_index as int,
        (-(liquidity as i128)) as i128,
        timestamp,
    ) && liquidity <= pos.liquidity && position_settle_ok(pos, pool, arrl, arru, timestamp))
    &&& (c_en ==> pool.total_fees_claimed_token_0 + owed_0 <= pool.total_fees_token_0
        && pool.total_fees_claimed_token_1 + owed_1 <= pool.total_fees_token_1)
}

/// Burn liquidity and settle the position, then collect its owed trade fees
/// into the pool's claimed totals, each step gated by its status bit.
/// Returns the token-0 and token-1 fee amounts collected. Everything is
/// validated on a preview before committing, so a failure leaves every
/// account exactly as it was.
pub fn decrease_liquidity_and_update_position(
    pool_state: &mut PoolState,
    personal_position: &mut PersonalPositionState,
    tick_array_lower: &mut TickArrayState,
    tick_array_upper: &mut TickArrayState,
    tickarray_bitmap_extension: &mut Option<TickArrayBitmapExtension>,
    liquidity: u128,
    timestamp: u64,
    recent_epoch: u64,
) -> (r: Result<(u64, u64), ErrorCode>)
    requires
        old(pool_state).wf(),
        old(personal_position).wf(),
        old(tick_array_lower).wf(),
        old(tick_array_upper).wf(),
        ext_wf_spec(*old(tickarray_bitmap_extension)),
        -443636 <= old(personal_position).tick_lower_index < old(personal_position).tick_upper_index <= 443636,
        crate::tick_array::valid_start_index_spec(
            old(tick_array_lower).start_tick_index as int,
            old(pool_state).tick_spacing as int,
        ),
        crate::tick_array::valid_start_index_spec(
            old(tick_array_upper).start_tick_index as int,
            old(pool_state).tick_spacing as int,
        ),
        overflow_default_spec(
            old(pool_state).tick_spacing as int,
            old(tick_array_lower).start_tick_index as int,
        ) ==> (*old(tickarray_bitmap_extension)) is Some,
        overflow_default_spec(
            old(pool_state).tick_spacing as int,
            old(tick_array_upper).start_tick_index as int,
        ) ==> (*old(tickarray_bitmap_extension)) is Some,
        old(tick_array_lower).start_tick_index != old(tick_array_upper).start_tick_index,
        liquidity <= i128::MAX as u128,
        boundary_tick(
            *old(tick_array_lower),
            old(personal_position).tick_lower_index as int,
            old(pool_state).tick_spacing as int,
        ).tick == old(personal_position).tick_lower_index,
        boundary_tick(
            *old(tick_array_upper),
            old(personal_position).tick_upper_index as int,
            old(pool_state).tick_spacing as int,
        ).tick == old(personal_position).tick_upper_index,
    ensures
        final(pool_state).wf(),
        final(personal_position).wf(),
        final(tick_array_lower).wf(),
        final(tick_array_upper).wf(),
        ext_wf_spec(*final(tickarray_bitmap_extension)),
        r is Ok <==> decrease_update_ok(
            *old(pool_state),
            *old(personal_position),
            *old(tick_array_lower),
            *old(tick_array_upper),
            liquidity,
            timestamp,
        ),
        r is Err ==> r != Result::<(u64, u64), ErrorCode>::Err(ErrorCode::NotApproved),
        r is Err ==> *final(pool_state) == *old(pool_state) && *final(personal_position) == *old(personal_position)
            && *final(tick_array_lower) == *old(tick_array_lower)
            && *final(tick_array_upper) == *old(tick_array_upper)
            && *final(tickarray_bitmap_extension) == *old(tickarray_bitmap_extension),
        old(pool_state).reward_claims_bounded() ==> final(pool_state).reward_claims_bounded(),
        r matches Ok(fees) ==> {
            let d_en = !status_bit(old(pool_state).status, 1);
            let c_en = !status_bit(old(pool_state).status, 2);
            let sp = old(pool_state).tick_spacing as int;
            let lt = boundary_tick(
                *old(tick_array_lower),
                old(personal_position).tick_lower_index as int,
                sp,
            );
            let ut = boundary_tick(
                *old(tick_array_upper),
                old(personal_position).tick_upper_index as int,
                sp,
            );
            let cur = old(pool_state).tick_current as int;
            let growths = updated_reward_growths(*old(pool_state), timestamp);
            &&& (d_en ==> final(personal_position).liquidity == old(personal_position).liquidity
                - liquidity)
            &&& (!d_en && !c_en ==> *final(personal_position) == *old(personal_position))
            &&& (d_en ==> final(personal_position).reward_infos@ =~= old(personal_position).rewards_settled(rewards_inside_after(lt, ut, cur, growths)) && (forall|i: int|
                0 <= i < REWARD_NUM ==> final(pool_state).reward_infos@[i] == reward_updated(
                    old(pool_state).reward_infos@[i],
                    old(pool_state).liquidity,
                    timestamp,
                )))
            &&& (!d_en ==> final(personal_position).reward_infos@ == old(personal_position).reward_infos@ && final(pool_state).reward_infos@ == old(pool_state).reward_infos@
                && *final(tick_array_lower) == *old(tick_array_lower)
                && *final(tick_array_upper) == *old(tick_array_upper)
                && *final(tickarray_bitmap_extension) == *old(tickarray_bitmap_extension)
                && final(pool_state).liquidity == old(pool_state).liquidity
                && final(pool_state).tick_array_bitmap == old(pool_state).tick_array_bitmap
                && final(personal_position).liquidity == old(personal_position).liquidity)
            &&& (d_en ==> {
                let sp = old(pool_state).tick_spacing as int;
                let delta = (-(liquidity as i128)) as i128;
                let lt = boundary_tick(
                    *old(tick_array_lower),
                    old(personal_position).tick_lower_index as int,
                    sp,
                );
                let ut = boundary_tick(
                    *old(tick_array_upper),
                    old(personal_position).tick_upper_index as int,
                    sp,
                );
                let cur = old(pool_state).tick_current as int;
                let growths = updated_reward_growths(*old(pool_state), timestamp);
                let lt1 = boundary_tick(
                    *final(tick_array_lower),
                    old(personal_position).tick_lower_index as int,
                    sp,
                );
                let ut1 = boundary_tick(
                    *final(tick_array_upper),
                    old(personal_position).tick_upper_index as int,
                    sp,
                );
                &&& tick_updated_rel(
                    lt,
                    lt1,
                    cur,
                    delta,
                    old(pool_state).fee_growth_global_0_x64,
                    old(pool_state).fee_growth_global_1_x64,
                    growths,
                    false,
                )
                &&& tick_updated_rel(
                    ut,
                    ut1,
                    cur,
                    delta,
                    old(pool_state).fee_growth_global_0_x64,
                    old(pool_state).fee_growth_global_1_x64,
                    growths,
                    true,
                )
                &&& final(tick_array_lower).initialized_tick_count == (if tick_flips(lt, delta) {
                    (old(tick_array_lower).initialized_tick_count - 1) as u8
                } else {
                    old(tick_array_lower).initialized_tick_count
                })
                &&& final(tick_array_upper).initialized_tick_count == (if tick_flips(ut, delta) {
                    (old(tick_array_upper).initialized_tick_count - 1) as u8
                } else {
                    old(tick_array_upper).initialized_tick_count
                })
                &&& final(pool_state).liquidity == (if lt.tick <= cur && cur < ut.tick {
                    add_delta_spec(old(pool_state).liquidity, delta) -> Ok_0
                } else {
                    old(pool_state).liquidity
                })
                &&& (forall|i: int|
                    0 <= i < REWARD_NUM ==> final(pool_state).reward_infos@[i] == reward_updated(
                        old(pool_state).reward_infos@[i],
                        old(pool_state).liquidity,
                        timestamp,
                    ))
                &&& slots_outcome(
                    *old(pool_state),
                    *old(tickarray_bitmap_extension),
                    *final(pool_state),
                    *final(tickarray_bitmap_extension),
                    old(tick_array_lower).start_tick_index as int / tick_count_spec(sp),
                    tick_flips(lt, delta) && old(tick_array_lower).initialized_tick_count == 1,
                    old(tick_array_upper).start_tick_index as int / tick_count_spec(sp),
                    tick_flips(ut, delta) && old(tick_array_upper).initialized_tick_count == 1,
                )
                &&& final(personal_position).liquidity == old(personal_position).liquidity
                    - liquidity
            })
            &&& (!c_en ==> final(pool_state).total_fees_claimed_token_0 == old(pool_state).total_fees_claimed_token_0 && final(pool_state).total_fees_claimed_token_1 == old(pool_state).total_fees_claimed_token_1 && final(pool_state).total_fees_token_0 == old(pool_state).total_fees_token_0 && final(pool_state).total_fees_token_1 == old(pool_state).total_fees_token_1)
            &&& (c_en ==> final(pool_state).total_fees_claimed_token_0 <= final(pool_state).total_fees_token_0 && final(pool_state).total_fees_claimed_token_1 <= final(pool_state).total_fees_token_1)
            &&& final(pool_state).status == old(pool_state).status
            &&& (c_en ==> final(personal_position).token_fees_owed_0 == 0 && final(personal_position).token_fees_owed_1 == 0 && final(pool_state).total_fees_claimed_token_0 == old(pool_state).total_fees_claimed_token_0 + fees.0 && final(pool_state).total_fees_claimed_token_1 == old(pool_state).total_fees_claimed_token_1 + fees.1)
            &&& final(pool_state).total_fees_token_0 == old(pool_state).total_fees_token_0
            &&& final(pool_state).total_fees_token_1 == old(pool_state).total_fees_token_1
            &&& final(pool_state).status == old(pool_state).status
            &&& (c_en ==> fees.0 == (if d_en {
                settled_fees_owed_0(
                    *old(personal_position),
                    *old(pool_state),
                    *old(tick_array_lower),
                    *old(tick_array_upper),
                )
            } else {
                old(personal_position).token_fees_owed_0 as int
            }) && fees.1 == (if d_en {
                settled_fees_owed_1(
                    *old(personal_position),
                    *old(pool_state),
                    *old(tick_array_lower),
                    *old(tick_array_upper),
                )
            } else {
                old(personal_position).token_fees_owed_1 as int
            }))
            &&& (!c_en ==> fees.0 == 0 && fees.1 == 0 && final(personal_position).token_fees_owed_0 == (if d_en {
                settled_fees_owed_0(
                    *old(personal_position),
                    *old(pool_state),
                    *old(tick_array_lower),
                    *old(tick_array_upper),
                )
            } else {
                old(personal_position).token_fees_owed_0 as int
            }) && final(personal_position).token_fees_owed_1 == (if d_en {
                settled_fees_owed_1(
                    *old(personal_position),
                    *old(pool_state),
                    *old(tick_array_lower),
                    *old(tick_array_upper),
                )
            } else {
                old(personal_position).token_fees_owed_1 as int
            }))
        },
{
    let mut latest_fees_owed_0: u64 = 0;
    let mut latest_fees_owed_1: u64 = 0;
    let decrease_enabled = pool_state.get_status_by_bit(PoolStatusBitIndex::DecreaseLiquidity);
    let collect_enabled = pool_state.get_status_by_bit(PoolStatusBitIndex::CollectFee);
    if decrease_enabled {
        let tick_lower_index = personal_position.tick_lower_index;
        let tick_upper_index = personal_position.tick_upper_index;
        if liquidity > personal_position.liquidity {
            return Err(ErrorCode::MathOverflow);
        }
        proof {
            crate::tick_array::lemma_valid_start_range(
                tick_array_lower.start_tick_index as int,
                pool_state.tick_spacing as int,
            );
            crate::tick_array::lemma_valid_start_range(
                tick_array_upper.start_tick_index as int,
                pool_state.tick_spacing as int,
            );
        }
        // Validate the settlement and the fee coverage on a preview before
        // committing anything, so a failure leaves every account untouched.
        let lower: TickState = match tick_array_lower.get_tick_state(
            tick_lower_index,
            pool_state.tick_spacing,
        ) {
            Ok(t) => t,
            Err(e) => {
                return Err(e);
            },
        };
        let upper: TickState = match tick_array_upper.get_tick_state(
            tick_upper_index,
            pool_state.tick_spacing,
        ) {
            Ok(t) => t,
            Err(e) => {
                return Err(e);
            },
        };
        let preview = match liquidity_change_preview(
            pool_state,
            &lower,
            &upper,
            -(liquidity as i128),
            timestamp,
        ) {
            Ok(p) => p,
            Err(e) => {
                return Err(e);
            },
        };
        proof {
            let lt = boundary_tick(
                *old(tick_array_lower),
                tick_lower_index as int,
                old(pool_state).tick_spacing as int,
            );
            let ut = boundary_tick(
                *old(tick_array_upper),
                tick_upper_index as int,
                old(pool_state).tick_spacing as int,
            );
            let cur = old(pool_state).tick_current as int;
            let growths = updated_reward_growths(*old(pool_state), timestamp);
            assert(preview.result.reward_growths_inside@ =~= rewards_inside_after(
                lt,
                ut,
                cur,
                growths,
            ));
            assert(preview.result.fee_growth_inside_0_x64 == inside_after(
                lt,
                ut,
                cur,
                lt.fee_growth_outside_0_x64,
                ut.fee_growth_outside_0_x64,
                old(pool_state).fee_growth_global_0_x64,
            ));
            assert(preview.result.fee_growth_inside_1_x64 == inside_after(
                lt,
                ut,
                cur,
                lt.fee_growth_outside_1_x64,
                ut.fee_growth_outside_1_x64,
                old(pool_state).fee_growth_global_1_x64,
            ));
        }
        if !personal_position.settlement_fits(
            preview.result.fee_growth_inside_0_x64,
            preview.result.fee_growth_inside_1_x64,
            &preview.result.reward_growths_inside,
        ) {
            return Err(ErrorCode::MathOverflow);
        }
        if collect_enabled {
            let settled_0 = match crate::position::calculate_latest_token_fees(
                personal_position.token_fees_owed_0,
                personal_position.fee_growth_inside_0_last_x64,
                preview.result.fee_growth_inside_0_x64,
                personal_position.liquidity,
            ) {
                Ok(v) => v,
                Err(e) => {
                    proof {
                        assert(false);
                    }
                    return Err(e);
                },
            };
            let settled_1 = match crate::position::calculate_latest_token_fees(
                personal_position.token_fees_owed_1,
                personal_position.fee_growth_inside_1_last_x64,
                preview.result.fee_growth_inside_1_x64,
                personal_position.liquidity,
            ) {
                Ok(v) => v,
                Err(e) => {
                    proof {
                        assert(false);
                    }
                    return Err(e);
                },
            };
            if pool_state.total_fees_claimed_token_0 > pool_state.total_fees_token_0
                || settled_0 > pool_state.total_fees_token_0
                - pool_state.total_fees_claimed_token_0 {
                return Err(ErrorCode::InsufficientClaimAmount);
            }
            if pool_state.total_fees_claimed_token_1 > pool_state.total_fees_token_1
                || settled_1 > pool_state.total_fees_token_1
                - pool_state.total_fees_claimed_token_1 {
                return Err(ErrorCode::InsufficientClaimAmount);
            }
        }
        let result = match burn_liquidity(
            pool_state,
            tick_array_lower,
            tick_array_upper,
            tickarray_bitmap_extension,
            tick_lower_index,
            tick_upper_index,
            liquidity,
            timestamp,
        ) {
            Ok(res) => res,
            Err(e) => {
                return Err(e);
            },
        };
        match personal_position.decrease_liquidity(
            liquidity,
            result.fee_growth_inside_0_x64,
            result.fee_growth_inside_1_x64,
            &result.reward_growths_inside,
            recent_epoch,
        ) {
            Ok(()) => {},
            Err(e) => {
                proof {
                    let lt = boundary_tick(
                        *old(tick_array_lower),
                        tick_lower_index as int,
                        old(pool_state).tick_spacing as int,
                    );
                    let ut = boundary_tick(
                        *old(tick_array_upper),
                        tick_upper_index as int,
                        old(pool_state).tick_spacing as int,
                    );
                    let cur = old(pool_state).tick_current as int;
                    let growths = updated_reward_growths(*old(pool_state), timestamp);
                    assert(result.reward_growths_inside@ =~= rewards_inside_after(
                        lt,
                        ut,
                        cur,
                        growths,
                    ));
                    assert(false);
                }
                return Err(e);
            },
        }
        proof {
            let lt = boundary_tick(
                *old(tick_array_lower),
                tick_lower_index as int,
                old(pool_state).tick_spacing as int,
            );
            let ut = boundary_tick(
                *old(tick_array_upper),
                tick_upper_index as int,
                old(pool_state).tick_spacing as int,
            );
            let cur = old(pool_state).tick_current as int;
            let growths = updated_reward_growths(*old(pool_state), timestamp);
            assert(result.reward_growths_inside@ =~= rewards_inside_after(lt, ut, cur, growths));
        }
    }
    let ghost pool_after_burn = *pool_state;
    let ghost ext_after_burn = *tickarray_bitmap_extension;
    proof {
        if decrease_enabled {
            assert(personal_position.token_fees_owed_0 == settled_fees_owed_0(
                *old(personal_position),
                *old(pool_state),
                *old(tick_array_lower),
                *old(tick_array_upper),
            ));
            assert(personal_position.token_fees_owed_1 == settled_fees_owed_1(
                *old(personal_position),
                *old(pool_state),
                *old(tick_array_lower),
                *old(tick_array_upper),
            ));
        }
        assert(pool_state.total_fees_token_0 == old(pool_state).total_fees_token_0
            && pool_state.total_fees_claimed_token_0 == old(pool_state).total_fees_claimed_token_0 && pool_state.total_fees_token_1 == old(pool_state).total_fees_token_1 && pool_state.total_fees_claimed_token_1 == old(pool_state).total_fees_claimed_token_1);
    }
    if collect_enabled {
        latest_fees_owed_0 = personal_position.token_fees_owed_0;
        latest_fees_owed_1 = personal_position.token_fees_owed_1;
        if pool_state.total_fees_claimed_token_0 > pool_state.total_fees_token_0
            || latest_fees_owed_0 > pool_state.total_fees_token_0
            - pool_state.total_fees_claimed_token_0 {
            return Err(ErrorCode::InsufficientClaimAmount);
        }
        if pool_state.total_fees_claimed_token_1 > pool_state.total_fees_token_1
            || latest_fees_owed_1 > pool_state.total_fees_token_1
            - pool_state.total_fees_claimed_token_1 {
            return Err(ErrorCode::InsufficientClaimAmount);
        }
        personal_position.token_fees_owed_0 = 0;
        personal_position.token_fees_owed_1 = 0;
        pool_state.total_fees_claimed_token_0 = pool_state.total_fees_claimed_token_0
            + latest_fees_owed_0;
        pool_state.total_fees_claimed_token_1 = pool_state.total_fees_claimed_token_1
            + latest_fees_owed_1;
    }
    proof {
        // The fee commit touches only the claimed totals, so the bitmap
        // outcome established by the burn carries over to the final state.
        if decrease_enabled {
            let sp = old(pool_state).tick_spacing as int;
            let t = tick_count_spec(sp);
            let lt = boundary_tick(
                *old(tick_array_lower),
                old(personal_position).tick_lower_index as int,
                sp,
            );
            let ut = boundary_tick(
                *old(tick_array_upper),
                old(personal_position).tick_upper_index as int,
                sp,
            );
            let delta = (-(liquidity as i128)) as i128;
            let jl = old(tick_array_lower).start_tick_index as int / t;
            let ju = old(tick_array_upper).start_tick_index as int / t;
            let fl = tick_flips(lt, delta) && old(tick_array_lower).initialized_tick_count == 1;
            let fu = tick_flips(ut, delta) && old(tick_array_upper).initialized_tick_count == 1;
            let p0 = *old(pool_state);
            let e0 = *old(tickarray_bitmap_extension);
            let p2 = *pool_state;
            let e2 = *tickarray_bitmap_extension;
            assert(slot_bit(p2, e2, jl) == (slot_bit(p0, e0, jl) != fl));
            assert(slot_bit(p2, e2, ju) == (slot_bit(p0, e0, ju) != fu));
            assert forall|k: int|
                min_array_idx(sp) <= k <= max_array_idx(sp) && k != jl && k != ju implies
                #[trigger] slot_bit(p2, e2, k) == slot_bit(p0, e0, k) by {
                assert(slot_bit(pool_after_burn, ext_after_burn, k) == slot_bit(p0, e0, k));
                assert(slot_bit(p2, e2, k) == slot_bit(pool_after_burn, ext_after_burn, k));
            }
            assert(slots_outcome(p0, e0, p2, e2, jl, fl, ju, fu));
        }
    }
    Ok((latest_fees_owed_0, latest_fees_owed_1))
}

/// Whether a whole decrease-and-collect call runs to completion: at least
/// one of its three features is enabled, the burn and settlement fit, the
/// fee accounting stays consistent, and every reward claim the position
/// will hold after settlement is covered by its slot's emitted total.
pub open spec fn decrease_all_ok(
    pool: PoolState,
    pos: PersonalPositionState,
    arrl: TickArrayState,
    arru: TickArrayState,
    liquidity: u128,
    timestamp: u64,
) -> bool {
    let d_en = !status_bit(pool.status, 1);
    let c_en = !status_bit(pool.status, 2);
    let rw_en = !status_bit(pool.status, 3);
    let sp = pool.tick_spacing as int;
    let lt = boundary_tick(arrl, pos.tick_lower_index as int, sp);
    let ut = boundary_tick(arru, pos.tick_upper_index as int, sp);
    let cur = pool.tick_current as int;
    let growths = updated_reward_growths(pool, timestamp);
    &&& (d_en || c_en || rw_en)
    &&& decrease_update_ok(pool, pos, arrl, arru, liquidity, timestamp)
    &&& (!c_en ==> pool.total_fees_claimed_token_0 <= pool.total_fees_token_0
        && pool.total_fees_claimed_token_1 <= pool.total_fees_token_1)
    &&& (rw_en ==> settled_claims_covered(pool, pos, arrl, arru, timestamp))
}

/// Whether every reward claim the position will hold after this call's
/// settlement is covered by its slot's emitted-but-unclaimed total (the
/// current claim when decreasing is disabled).
pub open spec fn settled_claims_covered(
    pool: PoolState,
    pos: PersonalPositionState,
    arrl: TickArrayState,
    arru: TickArrayState,
    timestamp: u64,
) -> bool {
    forall|i: int|
        #![trigger pool.reward_infos@[i]]
        0 <= i < REWARD_NUM ==> (pool.reward_infos@[i].spec_initialized()
            && settled_reward_owed(pool, pos, arrl, arru, timestamp, i) > 0)
            ==> settled_reward_owed(pool, pos, arrl, arru, timestamp, i)
            + pool.reward_infos@[i].reward_claimed <= settled_reward_emissioned(
            pool,
            pos,
            timestamp,
            i,
        )
}

/// The reward amount slot `i` will owe the position after this call's
/// settlement.
pub open spec fn settled_reward_owed(
    pool: PoolState,
    pos: PersonalPositionState,
    arrl: TickArrayState,
    arru: TickArrayState,
    timestamp: u64,
    i: int,
) -> u64 {
    let sp = pool.tick_spacing as int;
    let lt = boundary_tick(arrl, pos.tick_lower_index as int, sp);
    let ut = boundary_tick(arru, pos.tick_upper_index as int, sp);
    let cur = pool.tick_current as int;
    let growths = updated_reward_growths(pool, timestamp);
    if !status_bit(pool.status, 1) {
        pos.rewards_settled(rewards_inside_after(lt, ut, cur, growths))[i].reward_amount_owed
    } else {
        pos.reward_infos@[i].reward_amount_owed
    }
}

/// The emitted total slot `i` will show after this call's reward accrual.
pub open spec fn settled_reward_emissioned(
    pool: PoolState,
    pos: PersonalPositionState,
    timestamp: u64,
    i: int,
) -> u64 {
    if !status_bit(pool.status, 1) {
        reward_updated(pool.reward_infos@[i], pool.liquidity, timestamp).reward_total_emissioned
    } else {
        pool.reward_infos@[i].reward_total_emissioned
    }
}

/// One uncovered slot refutes the coverage of the whole table.
proof fn lemma_settled_claims_uncovered(
    pool: PoolState,
    pos: PersonalPositionState,
    arrl: TickArrayState,
    arru: TickArrayState,
    timestamp: u64,
    i: int,
)
    requires
        0 <= i < REWARD_NUM,
        pool.reward_infos@[i].spec_initialized(),
        settled_reward_owed(pool, pos, arrl, arru, timestamp, i) > 0,
        settled_reward_owed(pool, pos, arrl, arru, timestamp, i)
            + pool.reward_infos@[i].reward_claimed > settled_reward_emissioned(
            pool,
            pos,
            timestamp,
            i,
        ),
    ensures
        !settled_claims_covered(pool, pos, arrl, arru, timestamp),
{
    if settled_claims_covered(pool, pos, arrl, arru, timestamp) {
        assert(pool.reward_infos@[i] == pool.reward_infos@[i]);
    }
}

/// The payout one reward slot makes in a decrease-and-collect call: the
/// owed amount the position will hold after settlement, capped at the
/// slot's vault balance; zero for an unconfigured slot or when nothing is
/// owed.
pub open spec fn expected_reward_transfer(
    pool: PoolState,
    pos: PersonalPositionState,
    arrl: TickArrayState,
    arru: TickArrayState,
    timestamp: u64,
    vaults: Seq<u64>,
    i: int,
) -> u64 {
    let d_en = !status_bit(pool.status, 1);
    let sp = pool.tick_spacing as int;
    let lt = boundary_tick(arrl, pos.tick_lower_index as int, sp);
    let ut = boundary_tick(arru, pos.tick_upper_index as int, sp);
    let cur = pool.tick_current as int;
    let growths = updated_reward_growths(pool, timestamp);
    let owed = if d_en {
        pos.rewards_settled(rewards_inside_after(lt, ut, cur, growths))[i].reward_amount_owed
    } else {
        pos.reward_infos@[i].reward_amount_owed
    };
    if pool.reward_infos@[i].spec_initialized() && owed > 0 {
        if owed > vaults[i] {
            vaults[i]
        } else {
            owed
        }
    } else {
        0
    }
}

/// Decrease liquidity from a position and collect what it is owed: burn and
/// settle, collect trade fees, defensively disable fee collection when a
/// vault no longer covers the unclaimed fees, and pay out rewards capped by
/// their vault balances. Rejected with `NotApproved` exactly when
/// decreasing, fee collection and reward collection are all disabled.
/// Every stage is validated before any state changes, so a failure
/// anywhere leaves every account exactly as it was.
pub fn decrease_liquidity(
    pool_state: &mut PoolState,
    personal_position: &mut PersonalPositionState,
    tick_array_lower: &mut TickArrayState,
    tick_array_upper: &mut TickArrayState,
    tickarray_bitmap_extension: &mut Option<TickArrayBitmapExtension>,
    liquidity: u128,
    timestamp: u64,
    recent_epoch: u64,
    token_vault_0_amount: u64,
    token_vault_1_amount: u64,
    reward_vault_amounts: &Vec<u64>,
) -> (r: Result<(u64, u64, Vec<u64>), ErrorCode>)
    requires
        old(pool_state).wf(),
        old(personal_position).wf(),
        old(tick_array_lower).wf(),
        old(tick_array_upper).wf(),
        ext_wf_spec(*old(tickarray_bitmap_extension)),
        old(pool_state).reward_claims_bounded(),
        reward_vault_amounts@.len() == REWARD_NUM,
        -443636 <= old(personal_position).tick_lower_index < old(personal_position).tick_upper_index <= 443636,
        crate::tick_array::valid_start_index_spec(
            old(tick_array_lower).start_tick_index as int,
            old(pool_state).tick_spacing as int,
        ),
        crate::tick_array::valid_start_index_spec(
            old(tick_array_upper).start_tick_index as int,
            old(pool_state).tick_spacing as int,
        ),
        overflow_default_spec(
            old(pool_state).tick_spacing as int,
            old(tick_array_lower).start_tick_index as int,
        ) ==> (*old(tickarray_bitmap_extension)) is Some,
        overflow_default_spec(
            old(pool_state).tick_spacing as int,
            old(tick_array_upper).start_tick_index as int,
        ) ==> (*old(tickarray_bitmap_extension)) is Some,
        old(tick_array_lower).start_tick_index != old(tick_array_upper).start_tick_index,
        liquidity <= i128::MAX as u128,
        liquidity <= old(personal_position).liquidity,
        boundary_tick(
            *old(tick_array_lower),
            old(personal_position).tick_lower_index as int,
            old(pool_state).tick_spacing as int,
        ).tick == old(personal_position).tick_lower_index,
        boundary_tick(
            *old(tick_array_upper),
            old(personal_position).tick_upper_index as int,
            old(pool_state).tick_spacing as int,
        ).tick == old(personal_position).tick_upper_index,
    ensures
        final(pool_state).wf(),
        final(personal_position).wf(),
        final(tick_array_lower).wf(),
        final(tick_array_upper).wf(),
        ext_wf_spec(*final(tickarray_bitmap_extension)),
        r == Result::<(u64, u64, Vec<u64>), ErrorCode>::Err(ErrorCode::NotApproved) <==> (
        status_bit(old(pool_state).status, 1) && status_bit(old(pool_state).status, 2)
            && status_bit(old(pool_state).status, 3)),
        r matches Ok(out) ==> out.2@.len() == REWARD_NUM,
        r is Ok && !status_bit(old(pool_state).status, 1) ==> final(personal_position).liquidity
            == old(personal_position).liquidity - liquidity,
        r is Ok && !status_bit(old(pool_state).status, 2)
            ==> final(personal_position).token_fees_owed_0 == 0
            && final(personal_position).token_fees_owed_1 == 0,
        r is Err ==> *final(pool_state) == *old(pool_state) && *final(personal_position) == *old(personal_position)
            && *final(tick_array_lower) == *old(tick_array_lower)
            && *final(tick_array_upper) == *old(tick_array_upper)
            && *final(tickarray_bitmap_extension) == *old(tickarray_bitmap_extension),
        r matches Ok(out) ==> {
            let d_en = !status_bit(old(pool_state).status, 1);
            let c_en = !status_bit(old(pool_state).status, 2);
            let rw_en = !status_bit(old(pool_state).status, 3);
            let sp = old(pool_state).tick_spacing as int;
            let delta = (-(liquidity as i128)) as i128;
            let lt = boundary_tick(
                *old(tick_array_lower),
                old(personal_position).tick_lower_index as int,
                sp,
            );
            let ut = boundary_tick(
                *old(tick_array_upper),
                old(personal_position).tick_upper_index as int,
                sp,
            );
            let cur = old(pool_state).tick_current as int;
            let growths = updated_reward_growths(*old(pool_state), timestamp);
            let lt1 = boundary_tick(
                *final(tick_array_lower),
                old(personal_position).tick_lower_index as int,
                sp,
            );
            let ut1 = boundary_tick(
                *final(tick_array_upper),
                old(personal_position).tick_upper_index as int,
                sp,
            );
            // Collected trade fees: exactly the settled owed amounts when
            // fee collection is enabled, nothing otherwise, moved into the
            // pool's claimed totals.
            &&& out.0 == (if c_en {
                if d_en {
                    settled_fees_owed_0(
                        *old(personal_position),
                        *old(pool_state),
                        *old(tick_array_lower),
                        *old(tick_array_upper),
                    )
                } else {
                    old(personal_position).token_fees_owed_0 as int
                }
            } else {
                0
            })
            &&& out.1 == (if c_en {
                if d_en {
                    settled_fees_owed_1(
                        *old(personal_position),
                        *old(pool_state),
                        *old(tick_array_lower),
                        *old(tick_array_upper),
                    )
                } else {
                    old(personal_position).token_fees_owed_1 as int
                }
            } else {
                0
            })
            &&& final(pool_state).total_fees_claimed_token_0 == old(pool_state).total_fees_claimed_token_0 + out.0
            &&& final(pool_state).total_fees_claimed_token_1 == old(pool_state).total_fees_claimed_token_1 + out.1
            &&& final(pool_state).total_fees_token_0 == old(pool_state).total_fees_token_0
            &&& final(pool_state).total_fees_token_1 == old(pool_state).total_fees_token_1
            &&& final(personal_position).token_fees_owed_0 == (if c_en {
                0int
            } else if d_en {
                settled_fees_owed_0(
                    *old(personal_position),
                    *old(pool_state),
                    *old(tick_array_lower),
                    *old(tick_array_upper),
                )
            } else {
                old(personal_position).token_fees_owed_0 as int
            })
            &&& final(personal_position).token_fees_owed_1 == (if c_en {
                0int
            } else if d_en {
                settled_fees_owed_1(
                    *old(personal_position),
                    *old(pool_state),
                    *old(tick_array_lower),
                    *old(tick_array_upper),
                )
            } else {
                old(personal_position).token_fees_owed_1 as int
            })
            // The burn outcome when decreasing is enabled; nothing touched
            // otherwise.
            &&& (d_en ==> tick_updated_rel(
                lt,
                lt1,
                cur,
                delta,
                old(pool_state).fee_growth_global_0_x64,
                old(pool_state).fee_growth_global_1_x64,
                growths,
                false,
            ) && tick_updated_rel(
                ut,
                ut1,
                cur,
                delta,
                old(pool_state).fee_growth_global_0_x64,
                old(pool_state).fee_growth_global_1_x64,
                growths,
                true,
            ) && final(tick_array_lower).initialized_tick_count == (if tick_flips(lt, delta) {
                (old(tick_array_lower).initialized_tick_count - 1) as u8
            } else {
                old(tick_array_lower).initialized_tick_count
            }) && final(tick_array_upper).initialized_tick_count == (if tick_flips(ut, delta) {
                (old(tick_array_upper).initialized_tick_count - 1) as u8
            } else {
                old(tick_array_upper).initialized_tick_count
            }) && final(pool_state).liquidity == (if lt.tick <= cur && cur < ut.tick {
                add_delta_spec(old(pool_state).liquidity, delta) -> Ok_0
            } else {
                old(pool_state).liquidity
            }) && slots_outcome(
                *old(pool_state),
                *old(tickarray_bitmap_extension),
                *final(pool_state),
                *final(tickarray_bitmap_extension),
                old(tick_array_lower).start_tick_index as int / tick_count_spec(sp),
                tick_flips(lt, delta) && old(tick_array_lower).initialized_tick_count == 1,
                old(tick_array_upper).start_tick_index as int / tick_count_spec(sp),
                tick_flips(ut, delta) && old(tick_array_upper).initialized_tick_count == 1,
            ))
            &&& (!d_en ==> *final(tick_array_lower) == *old(tick_array_lower)
                && *final(tick_array_upper) == *old(tick_array_upper)
                && *final(tickarray_bitmap_extension) == *old(tickarray_bitmap_extension)
                && final(pool_state).liquidity == old(pool_state).liquidity
                && final(pool_state).tick_array_bitmap == old(pool_state).tick_array_bitmap
                && final(personal_position).liquidity == old(personal_position).liquidity)
            // The defensive vault check: fee collection is disabled exactly
            // when a nonempty vault no longer covers the unclaimed fees.
            &&& {
                let claimed_0_after = old(pool_state).total_fees_claimed_token_0 + out.0;
                let claimed_1_after = old(pool_state).total_fees_claimed_token_1 + out.1;
                let unclaimed_0 = old(pool_state).total_fees_token_0 - claimed_0_after;
                let unclaimed_1 = old(pool_state).total_fees_token_1 - claimed_1_after;
                let short = (unclaimed_0 >= token_vault_0_amount && token_vault_0_amount != 0)
                    || (unclaimed_1 >= token_vault_1_amount && token_vault_1_amount != 0);
                &&& status_bit(final(pool_state).status, 2) == (if short {
                    true
                } else {
                    status_bit(old(pool_state).status, 2)
                })
                &&& (forall|k: u8|
                    k < 8 && k != 2 ==> status_bit(final(pool_state).status, k) == status_bit(
                        old(pool_state).status,
                        k,
                    ))
            }
            // The reward payout: each slot pays its settled owed amount
            // capped at its vault, reducing the position's owed accumulator
            // and raising the pool's claimed total; nothing is paid when
            // reward collection is disabled.
            &&& (rw_en ==> (forall|i: int|
                0 <= i < REWARD_NUM ==> out.2@[i] == expected_reward_transfer(
                    *old(pool_state),
                    *old(personal_position),
                    *old(tick_array_lower),
                    *old(tick_array_upper),
                    timestamp,
                    reward_vault_amounts@,
                    i,
                )) && (forall|i: int|
                0 <= i < REWARD_NUM ==> #[trigger] final(personal_position).reward_infos@[i].reward_amount_owed == (if d_en {
                    old(personal_position).rewards_settled(
                        rewards_inside_after(lt, ut, cur, growths),
                    )[i].reward_amount_owed as int
                } else {
                    old(personal_position).reward_infos@[i].reward_amount_owed as int
                }) - out.2@[i]) && (forall|i: int|
                0 <= i < REWARD_NUM ==> #[trigger] final(pool_state).reward_infos@[i].reward_claimed == old(pool_state).reward_infos@[i].reward_claimed + out.2@[i]))
            &&& (!rw_en ==> (forall|i: int| 0 <= i < REWARD_NUM ==> out.2@[i] == 0)
                && (forall|i: int|
                0 <= i < REWARD_NUM ==> #[trigger] final(personal_position).reward_infos@[i].reward_amount_owed == (if d_en {
                    old(personal_position).rewards_settled(
                        rewards_inside_after(lt, ut, cur, growths),
                    )[i].reward_amount_owed as int
                } else {
                    old(personal_position).reward_infos@[i].reward_amount_owed as int
                })) && (forall|i: int|
                0 <= i < REWARD_NUM ==> #[trigger] final(pool_state).reward_infos@[i].reward_claimed == old(pool_state).reward_infos@[i].reward_claimed))
        },
        decrease_all_ok(
            *old(pool_state),
            *old(personal_position),
            *old(tick_array_lower),
            *old(tick_array_upper),
            liquidity,
            timestamp,
        ) ==> r is Ok,
{
    let d_en = pool_state.get_status_by_bit(PoolStatusBitIndex::DecreaseLiquidity);
    let c_en = pool_state.get_status_by_bit(PoolStatusBitIndex::CollectFee);
    let rw_en = pool_state.get_status_by_bit(PoolStatusBitIndex::CollectReward);
    if !d_en && !c_en && !rw_en {
        return Err(ErrorCode::NotApproved);
    }
    // Validate everything the later stages depend on before any state
    // changes, so a failure anywhere leaves every account untouched.
    if !c_en {
        if pool_state.total_fees_claimed_token_0 > pool_state.total_fees_token_0
            || pool_state.total_fees_claimed_token_1 > pool_state.total_fees_token_1 {
            return Err(ErrorCode::MathOverflow);
        }
    }
    let ghost sp = pool_state.tick_spacing as int;
    let ghost lt0 = boundary_tick(
        *old(tick_array_lower),
        old(personal_position).tick_lower_index as int,
        sp,
    );
    let ghost ut0 = boundary_tick(
        *old(tick_array_upper),
        old(personal_position).tick_upper_index as int,
        sp,
    );
    let ghost growths0 = updated_reward_growths(*old(pool_state), timestamp);
    if rw_en {
        if d_en {
            proof {
                crate::tick_array::lemma_valid_start_range(
                    tick_array_lower.start_tick_index as int,
                    sp,
                );
                crate::tick_array::lemma_valid_start_range(
                    tick_array_upper.start_tick_index as int,
                    sp,
                );
            }
            let lower: TickState = match tick_array_lower.get_tick_state(
                personal_position.tick_lower_index,
                pool_state.tick_spacing,
            ) {
                Ok(t) => t,
                Err(e) => {
                    return Err(e);
                },
            };
            let upper: TickState = match tick_array_upper.get_tick_state(
                personal_position.tick_upper_index,
                pool_state.tick_spacing,
            ) {
                Ok(t) => t,
                Err(e) => {
                    return Err(e);
                },
            };
            let preview = match liquidity_change_preview(
                pool_state,
                &lower,
                &upper,
                -(liquidity as i128),
                timestamp,
            ) {
                Ok(p) => p,
                Err(e) => {
                    return Err(e);
                },
            };
            proof {
                assert(preview.result.reward_growths_inside@ =~= rewards_inside_after(
                    lt0,
                    ut0,
                    old(pool_state).tick_current as int,
                    growths0,
                ));
            }
            let mut i: usize = 0;
            while i < 3
                invariant
                    pool_state.wf(),
                    personal_position.wf(),
                    *pool_state == *old(pool_state),
                    *personal_position == *old(personal_position),
                    tick_array_lower.wf(),
                    tick_array_upper.wf(),
                    *tick_array_lower == *old(tick_array_lower),
                    *tick_array_upper == *old(tick_array_upper),
                    *tickarray_bitmap_extension == *old(tickarray_bitmap_extension),
                    ext_wf_spec(*tickarray_bitmap_extension),
                    !status_bit(old(pool_state).status, 3),
                    !status_bit(old(pool_state).status, 1),
                    sp == pool_state.tick_spacing as int,
                    lt0 == boundary_tick(
                        *old(tick_array_lower),
                        old(personal_position).tick_lower_index as int,
                        sp,
                    ),
                    ut0 == boundary_tick(
                        *old(tick_array_upper),
                        old(personal_position).tick_upper_index as int,
                        sp,
                    ),
                    growths0 == updated_reward_growths(*old(pool_state), timestamp),
                    preview.result.reward_growths_inside@ =~= rewards_inside_after(
                        lt0,
                        ut0,
                        old(pool_state).tick_current as int,
                        growths0,
                    ),
                    preview.result.reward_growths_inside@.len() == REWARD_NUM,
                    preview.updated_rewards@.len() == REWARD_NUM,
                    forall|j: int|
                        0 <= j < REWARD_NUM ==> preview.updated_rewards@[j] == reward_updated(
                            old(pool_state).reward_infos@[j],
                            old(pool_state).liquidity,
                            timestamp,
                        ),
                    i <= 3,
                    forall|j: int|
                        0 <= j < i ==> ({
                            let owed = old(personal_position).reward_infos@[j].reward_amount_owed
                                + crate::position::owed_delta_spec(
                                old(personal_position).reward_infos@[j].growth_inside_last_x64,
                                rewards_inside_after(
                                    lt0,
                                    ut0,
                                    old(pool_state).tick_current as int,
                                    growths0,
                                )[j],
                                old(personal_position).liquidity,
                            );
                            (#[trigger] old(pool_state).reward_infos@[j].spec_initialized()
                                && owed > 0) ==> owed
                                + old(pool_state).reward_infos@[j].reward_claimed <= reward_updated(
                                old(pool_state).reward_infos@[j],
                                old(pool_state).liquidity,
                                timestamp,
                            ).reward_total_emissioned
                        }),
                decreases 3 - i,
            {
                if pool_state.reward_infos[i].initialized() {
                    let settled = match crate::position::calculate_latest_token_fees(
                        personal_position.reward_infos[i].reward_amount_owed,
                        personal_position.reward_infos[i].growth_inside_last_x64,
                        preview.result.reward_growths_inside[i],
                        personal_position.liquidity,
                    ) {
                        Ok(v) => v,
                        Err(e) => {
                            proof {
                                assert(old(personal_position).reward_infos@[i as int].reward_amount_owed
                                    + crate::position::owed_delta_spec(
                                    old(personal_position).reward_infos@[i as int].growth_inside_last_x64,
                                    rewards_inside_after(
                                        lt0,
                                        ut0,
                                        old(pool_state).tick_current as int,
                                        growths0,
                                    )[i as int],
                                    old(personal_position).liquidity,
                                ) > u64::MAX);
                                assert(!old(personal_position).rewards_settle_ok(
                                    rewards_inside_after(
                                        lt0,
                                        ut0,
                                        old(pool_state).tick_current as int,
                                        growths0,
                                    ),
                                ));
                            }
                            return Err(e);
                        },
                    };
                    let claimed = pool_state.reward_infos[i].reward_claimed;
                    let emissioned = preview.updated_rewards[i].reward_total_emissioned;
                    if settled > 0 && (claimed > emissioned || settled > emissioned - claimed) {
                        proof {
                            assert(settled == settled_reward_owed(
                                *old(pool_state),
                                *old(personal_position),
                                *old(tick_array_lower),
                                *old(tick_array_upper),
                                timestamp,
                                i as int,
                            ));
                            assert(emissioned == settled_reward_emissioned(
                                *old(pool_state),
                                *old(personal_position),
                                timestamp,
                                i as int,
                            ));
                            lemma_settled_claims_uncovered(
                                *old(pool_state),
                                *old(personal_position),
                                *old(tick_array_lower),
                                *old(tick_array_upper),
                                timestamp,
                                i as int,
                            );
                        }
                        return Err(ErrorCode::InsufficientClaimAmount);
                    }
                }
                i += 1;
            }
        } else {
            let mut i: usize = 0;
            while i < 3
                invariant
                    pool_state.wf(),
                    personal_position.wf(),
                    *pool_state == *old(pool_state),
                    *personal_position == *old(personal_position),
                    tick_array_lower.wf(),
                    tick_array_upper.wf(),
                    *tick_array_lower == *old(tick_array_lower),
                    *tick_array_upper == *old(tick_array_upper),
                    *tickarray_bitmap_extension == *old(tickarray_bitmap_extension),
                    ext_wf_spec(*tickarray_bitmap_extension),
                    !status_bit(old(pool_state).status, 3),
                    status_bit(old(pool_state).status, 1),
                    i <= 3,
                    forall|j: int|
                        0 <= j < i ==> ((#[trigger] old(pool_state).reward_infos@[j].spec_initialized()
                            && old(personal_position).reward_infos@[j].reward_amount_owed > 0)
                            ==> old(personal_position).reward_infos@[j].reward_amount_owed
                            + old(pool_state).reward_infos@[j].reward_claimed
                            <= old(pool_state).reward_infos@[j].reward_total_emissioned),
                decreases 3 - i,
            {
                let owed = personal_position.reward_infos[i].reward_amount_owed;
                if pool_state.reward_infos[i].initialized() && owed > 0 {
                    let claimed = pool_state.reward_infos[i].reward_claimed;
                    let emissioned = pool_state.reward_infos[i].reward_total_emissioned;
                    if claimed > emissioned || owed > emissioned - claimed {
                        proof {
                            assert(owed == settled_reward_owed(
                                *old(pool_state),
                                *old(personal_position),
                                *old(tick_array_lower),
                                *old(tick_array_upper),
                                timestamp,
                                i as int,
                            ));
                            lemma_settled_claims_uncovered(
                                *old(pool_state),
                                *old(personal_position),
                                *old(tick_array_lower),
                                *old(tick_array_upper),
                                timestamp,
                                i as int,
                            );
                        }
                        return Err(ErrorCode::InsufficientClaimAmount);
                    }
                }
                i += 1;
            }
        }
    }
    let (fees_0, fees_1) = match decrease_liquidity_and_update_position(
        pool_state,
        personal_position,
        tick_array_lower,
        tick_array_upper,
        tickarray_bitmap_extension,
        liquidity,
        timestamp,
        recent_epoch,
    ) {
        Ok(f) => f,
        Err(e) => {
            proof {
                assert(e != ErrorCode::NotApproved);
            }
            return Err(e);
        },
    };
    proof {
        if d_en {
            assert forall|i: int|
                0 <= i < REWARD_NUM implies #[trigger] pool_state.reward_infos@[i].reward_claimed
                == old(pool_state).reward_infos@[i].reward_claimed
                && pool_state.reward_infos@[i].spec_initialized() == old(
                pool_state,
            ).reward_infos@[i].spec_initialized() by {
                assert(pool_state.reward_infos@[i] == reward_updated(
                    old(pool_state).reward_infos@[i],
                    old(pool_state).liquidity,
                    timestamp,
                ));
            }
        }
    }
    let ghost pool_after_du = *pool_state;
    let ghost ext_after_du = *tickarray_bitmap_extension;
    match crate::collect::check_unclaimed_fees_and_vault(
        pool_state,
        token_vault_0_amount,
        token_vault_1_amount,
    ) {
        Ok(()) => {},
        Err(e) => {
            proof {
                assert(false);
            }
            return Err(e);
        },
    }
    proof {
        // The upfront validation covers exactly the claims the position now
        // holds, so the payout below cannot fail.
        if rw_en {
            assert forall|i: int|
                0 <= i < REWARD_NUM implies ((pool_state.reward_infos@[i].spec_initialized()
                && #[trigger] personal_position.reward_infos@[i].reward_amount_owed > 0)
                ==> personal_position.reward_infos@[i].reward_amount_owed
                + pool_state.reward_infos@[i].reward_claimed
                <= pool_state.reward_infos@[i].reward_total_emissioned) by {
                assert(personal_position.reward_infos@[i].reward_amount_owed
                    == settled_reward_owed(
                    *old(pool_state),
                    *old(personal_position),
                    *old(tick_array_lower),
                    *old(tick_array_upper),
                    timestamp,
                    i,
                ));
                assert(pool_state.reward_infos@[i].reward_total_emissioned
                    == settled_reward_emissioned(
                    *old(pool_state),
                    *old(personal_position),
                    timestamp,
                    i,
                ));
            }
            assert(crate::collect::reward_claims_covered(*pool_state, *personal_position));
        }
    }
    let ghost pool_after_check = *pool_state;
    let ghost pos_after_check = *personal_position;
    let reward_amounts = match crate::collect::collect_rewards(
        pool_state,
        personal_position,
        reward_vault_amounts,
    ) {
        Ok(v) => v,
        Err(e) => {
            proof {
                assert(false);
            }
            return Err(e);
        },
    };
    proof {
        // Restate the payout and the bitmap outcome over the pre-call state.
        if rw_en {
            assert forall|i: int|
                0 <= i < REWARD_NUM implies #[trigger] reward_amounts@[i]
                == expected_reward_transfer(
                *old(pool_state),
                *old(personal_position),
                *old(tick_array_lower),
                *old(tick_array_upper),
                timestamp,
                reward_vault_amounts@,
                i,
            ) by {
                // The payout read the settled owed amount against the
                // original mint, claimed total and vault balance.
                assert(reward_amounts@[i] == crate::collect::reward_transfer_amount(
                    pool_after_check,
                    pos_after_check,
                    reward_vault_amounts@,
                    i,
                ));
                assert(pos_after_check.reward_infos@[i].reward_amount_owed
                    == settled_reward_owed(
                    *old(pool_state),
                    *old(personal_position),
                    *old(tick_array_lower),
                    *old(tick_array_upper),
                    timestamp,
                    i,
                ));
                assert(pool_after_check.reward_infos@[i].spec_initialized() == old(
                    pool_state,
                ).reward_infos@[i].spec_initialized());
            }
            assert forall|i: int|
                0 <= i < REWARD_NUM implies #[trigger] personal_position.reward_infos@[i].reward_amount_owed
                == settled_reward_owed(
                *old(pool_state),
                *old(personal_position),
                *old(tick_array_lower),
                *old(tick_array_upper),
                timestamp,
                i,
            ) - reward_amounts@[i] by {
                assert(pos_after_check.reward_infos@[i].reward_amount_owed
                    == settled_reward_owed(
                    *old(pool_state),
                    *old(personal_position),
                    *old(tick_array_lower),
                    *old(tick_array_upper),
                    timestamp,
                    i,
                ));
            }
            assert forall|i: int|
                0 <= i < REWARD_NUM implies #[trigger] pool_state.reward_infos@[i].reward_claimed
                == old(pool_state).reward_infos@[i].reward_claimed + reward_amounts@[i] by {
                assert(pool_after_check.reward_infos@[i].reward_claimed == old(
                    pool_state,
                ).reward_infos@[i].reward_claimed);
            }
        }
        if !rw_en {
            assert forall|i: int|
                0 <= i < REWARD_NUM implies #[trigger] personal_position.reward_infos@[i].reward_amount_owed as int
                == (if d_en {
                old(personal_position).rewards_settled(
                    rewards_inside_after(
                        boundary_tick(
                            *old(tick_array_lower),
                            old(personal_position).tick_lower_index as int,
                            old(pool_state).tick_spacing as int,
                        ),
                        boundary_tick(
                            *old(tick_array_upper),
                            old(personal_position).tick_upper_index as int,
                            old(pool_state).tick_spacing as int,
                        ),
                        old(pool_state).tick_current as int,
                        updated_reward_growths(*old(pool_state), timestamp),
                    ),
                )[i].reward_amount_owed as int
            } else {
                old(personal_position).reward_infos@[i].reward_amount_owed as int
            }) by {
                assert(personal_position.reward_infos@[i] == pos_after_check.reward_infos@[i]);
            }
            assert forall|i: int|
                0 <= i < REWARD_NUM implies #[trigger] pool_state.reward_infos@[i].reward_claimed
                == old(pool_state).reward_infos@[i].reward_claimed by {
                assert(pool_state.reward_infos@[i] == pool_after_check.reward_infos@[i]);
                if d_en {
                    assert(pool_after_check.reward_infos@[i].reward_claimed == old(
                        pool_state,
                    ).reward_infos@[i].reward_claimed);
                }
            }
        }
        if d_en {
            let sp2 = old(pool_state).tick_spacing as int;
            let t = tick_count_spec(sp2);
            let delta = (-(liquidity as i128)) as i128;
            let lt = boundary_tick(
                *old(tick_array_lower),
                old(personal_position).tick_lower_index as int,
                sp2,
            );
            let ut = boundary_tick(
                *old(tick_array_upper),
                old(personal_position).tick_upper_index as int,
                sp2,
            );
            let jl = old(tick_array_lower).start_tick_index as int / t;
            let ju = old(tick_array_upper).start_tick_index as int / t;
            crate::pool::lemma_valid_start_idx_bounds(
                sp2,
                old(tick_array_lower).start_tick_index as int,
            );
            crate::pool::lemma_valid_start_idx_bounds(
                sp2,
                old(tick_array_upper).start_tick_index as int,
            );
            let fl = tick_flips(lt, delta) && old(tick_array_lower).initialized_tick_count == 1;
            let fu = tick_flips(ut, delta) && old(tick_array_upper).initialized_tick_count == 1;
            let p0 = *old(pool_state);
            let e0 = *old(tickarray_bitmap_extension);
            let p2 = *pool_state;
            let e2 = *tickarray_bitmap_extension;
            assert(slot_bit(p2, e2, jl) == (slot_bit(p0, e0, jl) != fl));
            assert(slot_bit(p2, e2, ju) == (slot_bit(p0, e0, ju) != fu));
            assert forall|k: int|
                min_array_idx(sp2) <= k <= max_array_idx(sp2) && k != jl && k != ju implies
                #[trigger] slot_bit(p2, e2, k) == slot_bit(p0, e0, k) by {
                assert(slot_bit(pool_after_du, ext_after_du, k) == slot_bit(p0, e0, k));
                assert(slot_bit(p2, e2, k) == slot_bit(pool_after_du, ext_after_du, k));
            }
            assert(slots_outcome(p0, e0, p2, e2, jl, fl, ju, fu));
        }
        // The defensive fee-collection switch saw exactly the claimed
        // totals after this call's fee collection.
        let claimed_0_after = old(pool_state).total_fees_claimed_token_0 + fees_0;
        let claimed_1_after = old(pool_state).total_fees_claimed_token_1 + fees_1;
        assert(pool_after_du.total_fees_claimed_token_0 == claimed_0_after
            && pool_after_du.total_fees_claimed_token_1 == claimed_1_after
            && pool_after_du.total_fees_token_0 == old(pool_state).total_fees_token_0
            && pool_after_du.total_fees_token_1 == old(pool_state).total_fees_token_1);
        let unclaimed_0 = old(pool_state).total_fees_token_0 - claimed_0_after;
        let unclaimed_1 = old(pool_state).total_fees_token_1 - claimed_1_after;
        let short = (unclaimed_0 >= token_vault_0_amount && token_vault_0_amount != 0) || (
        unclaimed_1 >= token_vault_1_amount && token_vault_1_amount != 0);
        assert(status_bit(pool_after_check.status, 2) == (if short {
            true
        } else {
            status_bit(old(pool_state).status, 2)
        }));
        assert(pool_state.status == pool_after_check.status);
        assert(forall|k: u8|
            k < 8 && k != 2 ==> status_bit(pool_after_check.status, k) == status_bit(
                old(pool_state).status,
                k,
            ));
    }
    Ok((fees_0, fees_1, reward_amounts))
}

/// The sum of the first `n` entries of a sequence of signed liquidity nets.
pub open spec fn sum_prefix(s: Seq<int>, n: int) -> int
    recommends
        0 <= n <= s.len(),
    decreases n,
{
    if n <= 0 {
        0
    } else {
        sum_prefix(s, n - 1) + s[n - 1]
    }
}

/// Updating one entry of a net sequence shifts every prefix sum that covers
/// it by the change, and leaves shorter prefixes alone.
proof fn lemma_sum_prefix_update(s: Seq<int>, i: int, v: int, n: int)
    requires
        0 <= i < s.len(),
        0 <= n <= s.len(),
    ensures
        sum_prefix(s.update(i, v), n) == sum_prefix(s, n) + (if i < n {
            v - s[i]
        } else {
            0
        }),
    decreases n,
{
    if n > 0 {
        lemma_sum_prefix_update(s, i, v, n - 1);
    }
}

/// Applying a liquidity delta to a range changes the sum of liquidity nets
/// at or below the current position by exactly the amount applied to the
/// pool's active liquidity: the lower boundary gains the delta, the upper
/// boundary loses it, so the sum over all nets up to and including the
/// current position moves by the delta exactly when the position lies
/// inside the range. Together with the contract of `modify_position` this
/// keeps the pool's liquidity equal to the sum of `liquidity_net` over all
/// ticks at or below the current tick, across any sequence of mints and
/// burns.
pub proof fn lemma_net_liquidity_sum(nets: Seq<int>, lo: int, hi: int, cur: int, delta: int)
    requires
        0 <= lo < hi < nets.len(),
        0 <= cur + 1 <= nets.len(),
    ensures
        sum_prefix(nets.update(lo, nets[lo] + delta).update(hi, nets[hi] - delta), cur + 1)
            == sum_prefix(nets, cur + 1) + (if lo <= cur && cur < hi {
            delta
        } else {
            0
        }),
{
    let s1 = nets.update(lo, nets[lo] + delta);
    lemma_sum_prefix_update(nets, lo, nets[lo] + delta, cur + 1);
    lemma_sum_prefix_update(s1, hi, nets[hi] - delta, cur + 1);
    assert(s1[hi] == nets[hi]);
}

} // verus!
