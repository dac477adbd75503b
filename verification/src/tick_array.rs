//! Tick records and tick arrays: per-boundary liquidity bookkeeping and
//! growth-outside snapshots, and the fixed-size arrays that own them.

use vstd::prelude::*;
use crate::error::ErrorCode;
use crate::pool::{Address, REWARD_NUM};
use vstd::arithmetic::div_mod::{
    lemma_fundamental_div_mod, lemma_fundamental_div_mod_converse,
    lemma_mod_division_less_than_divisor,
};

verus! {

/// Number of ticks held by one tick array.
pub const TICK_ARRAY_SIZE: i32 = 60;

/// Number of ticks held by one tick array.
pub const TICK_ARRAY_SIZE_USIZE: usize = 60;

/// Ticks covered by one array: spacing times the array size.
pub open spec fn tick_count_spec(tick_spacing: int) -> int {
    60 * tick_spacing
}

/// The start index of the array containing `tick`: `tick` rounded down to a
/// multiple of the per-array tick count.
pub open spec fn array_start_spec(tick: int, tick_spacing: int) -> int {
    (tick / tick_count_spec(tick_spacing)) * tick_count_spec(tick_spacing)
}

/// Whether `tick` is a legal array start index for this spacing: a multiple
/// of the per-array tick count within the valid tick range, or the one start
/// index just below it whose array covers the lowest valid tick.
pub open spec fn valid_start_index_spec(tick: int, tick_spacing: int) -> bool {
    ||| (tick % tick_count_spec(tick_spacing) == 0 && -443636 <= tick <= 443636)
    ||| tick == array_start_spec(-443636, tick_spacing)
}

/// One initialized price boundary: net and gross liquidity, and the
/// growth-outside snapshots used to compute in-range fee and reward growth.
#[derive(Clone, Copy, Debug)]
pub struct TickState {
    /// The tick index this record describes.
    pub tick: i32,
    /// Liquidity added when the tick is crossed left to right, removed when
    /// crossed right to left.
    pub liquidity_net: i128,
    /// Total liquidity referencing this tick from either side.
    pub liquidity_gross: u128,
    /// Q64.64 token-0 fee growth on the far side of this tick, wrapping.
    pub fee_growth_outside_0_x64: u128,
    /// Q64.64 token-1 fee growth on the far side of this tick, wrapping.
    pub fee_growth_outside_1_x64: u128,
    /// Q64.64 reward growth on the far side of this tick, per slot.
    pub reward_growths_outside_x64: [u128; 3],
}

impl TickState {
    /// A zeroed tick record at index `tick`.
    pub fn new(tick: i32) -> (r: TickState)
        ensures
            r.tick == tick,
            r.liquidity_net == 0,
            r.liquidity_gross == 0,
            r.fee_growth_outside_0_x64 == 0,
            r.fee_growth_outside_1_x64 == 0,
            r.reward_growths_outside_x64@ =~= seq![0u128, 0u128, 0u128],
    {
        TickState {
            tick,
            liquidity_net: 0,
            liquidity_gross: 0,
            fee_growth_outside_0_x64: 0,
            fee_growth_outside_1_x64: 0,
            reward_growths_outside_x64: [0, 0, 0],
        }
    }

    /// Whether the tick carries any liquidity.
    pub open spec fn spec_is_initialized(self) -> bool {
        self.liquidity_gross != 0
    }

    /// Whether the tick carries any liquidity.
    pub fn is_initialized(&self) -> (r: bool)
        ensures
            r == self.spec_is_initialized(),
    {
        self.liquidity_gross != 0
    }
}

/// Gross liquidity after applying a signed delta, or the error a failed
/// checked operation reports.
pub open spec fn add_delta_spec(x: u128, y: i128) -> Result<u128, ErrorCode> {
    if y < 0 {
        if x + y < 0 {
            Err(ErrorCode::LiquiditySubValueErr)
        } else {
            Ok((x + y) as u128)
        }
    } else {
        if x + y > u128::MAX {
            Err(ErrorCode::LiquidityAddValueErr)
        } else {
            Ok((x + y) as u128)
        }
    }
}

/// Apply a signed liquidity delta to an unsigned accumulator, failing on
/// underflow or overflow.
pub fn add_delta(x: u128, y: i128) -> (r: Result<u128, ErrorCode>)
    ensures
        r == add_delta_spec(x, y),
{
    if y < 0 {
        let m: u128 = if y == i128::MIN {
            0x8000_0000_0000_0000_0000_0000_0000_0000u128
        } else {
            (-y) as u128
        };
        if m > x {
            Err(ErrorCode::LiquiditySubValueErr)
        } else {
            Ok(x - m)
        }
    } else {
        match x.checked_add(y as u128) {
            Some(v) => Ok(v),
            None => Err(ErrorCode::LiquidityAddValueErr),
        }
    }
}

impl TickState {
    /// Apply a liquidity delta at this boundary: gross accumulates the delta,
    /// net adds it for a lower boundary and subtracts it for an upper one,
    /// and a tick at or below the current tick that first becomes referenced
    /// snapshots the global growths as its growth-outside. Returns whether
    /// the tick flipped between referenced and unreferenced.
    pub fn update(
        &mut self,
        tick_current: i32,
        liquidity_delta: i128,
        fee_growth_global_0_x64: u128,
        fee_growth_global_1_x64: u128,
        upper: bool,
        reward_growths: &Vec<u128>,
    ) -> (r: Result<bool, ErrorCode>)
        requires
            reward_growths@.len() == REWARD_NUM,
        ensures
            r is Ok <==> add_delta_spec(old(self).liquidity_gross, liquidity_delta) is Ok
                && i128::MIN <= (if upper {
                    old(self).liquidity_net - liquidity_delta
                } else {
                    old(self).liquidity_net + liquidity_delta
                }) <= i128::MAX,
            r matches Ok(flipped) ==> {
                let gross_after = add_delta_spec(old(self).liquidity_gross, liquidity_delta)
                    -> Ok_0;
                &&& flipped == ((gross_after == 0) != (old(self).liquidity_gross == 0))
                &&& final(self).liquidity_gross == gross_after
                &&& final(self).liquidity_net == (if upper {
                    old(self).liquidity_net - liquidity_delta
                } else {
                    old(self).liquidity_net + liquidity_delta
                })
                &&& final(self).tick == old(self).tick
                &&& (if old(self).liquidity_gross == 0 && old(self).tick <= tick_current {
                    final(self).fee_growth_outside_0_x64 == fee_growth_global_0_x64
                        && final(self).fee_growth_outside_1_x64 == fee_growth_global_1_x64
                        && final(self).reward_growths_outside_x64@ =~= reward_growths@
                } else {
                    final(self).fee_growth_outside_0_x64 == old(self).fee_growth_outside_0_x64
                        && final(self).fee_growth_outside_1_x64 == old(
                        self,
                    ).fee_growth_outside_1_x64
                        && final(self).reward_growths_outside_x64
                            == old(self).reward_growths_outside_x64
                })
            },
            r is Err ==> *final(self) == *old(self) && (r == Result::<bool, ErrorCode>::Err(
                ErrorCode::LiquidityAddValueErr,
            ) || r == Result::<bool, ErrorCode>::Err(ErrorCode::LiquiditySubValueErr) || r
                == Result::<bool, ErrorCode>::Err(ErrorCode::MathOverflow)),
    {
        let gross_before = self.liquidity_gross;
        let gross_after = match add_delta(gross_before, liquidity_delta) {
            Ok(v) => v,
            Err(e) => {
                return Err(e);
            },
        };
        let new_net = if upper {
            match self.liquidity_net.checked_sub(liquidity_delta) {
                Some(v) => v,
                None => {
                    return Err(ErrorCode::MathOverflow);
                },
            }
        } else {
            match self.liquidity_net.checked_add(liquidity_delta) {
                Some(v) => v,
                None => {
                    return Err(ErrorCode::MathOverflow);
                },
            }
        };
        let flipped = (gross_after == 0) != (gross_before == 0);
        if gross_before == 0 {
            if self.tick <= tick_current {
                self.fee_growth_outside_0_x64 = fee_growth_global_0_x64;
                self.fee_growth_outside_1_x64 = fee_growth_global_1_x64;
                self.reward_growths_outside_x64 = [
                    reward_growths[0],
                    reward_growths[1],
                    reward_growths[2],
                ];
                proof {
                    assert(self.reward_growths_outside_x64@ =~= reward_growths@);
                }
            }
        }
        self.liquidity_gross = gross_after;
        self.liquidity_net = new_net;
        Ok(flipped)
    }
}

/// Ticks covered by one array.
pub fn tick_count(tick_spacing: u16) -> (r: i32)
    requires
        tick_spacing >= 1,
    ensures
        r == tick_count_spec(tick_spacing as int),
        60 <= r <= 3932100,
{
    60 * (tick_spacing as i32)
}

/// A contiguous block of sixty tick records sharing one account.
pub struct TickArrayState {
    /// The pool the array belongs to.
    pub pool_id: Address,
    /// First tick covered by this array.
    pub start_tick_index: i32,
    /// The sixty tick records.
    pub ticks: Vec<TickState>,
    /// How many of the records carry liquidity.
    pub initialized_tick_count: u8,
    /// Epoch the account was last written.
    pub recent_epoch: u64,
}

impl TickArrayState {
    /// Structural well-formedness: exactly sixty tick records.
    pub open spec fn wf(&self) -> bool {
        self.ticks@.len() == 60
    }

    /// A fresh array for `pool_id` starting at `start_tick_index`, all
    /// records zeroed at their tick indices.
    pub fn new(pool_id: Address, start_tick_index: i32, tick_spacing: u16, recent_epoch: u64) -> (r:
        TickArrayState)
        requires
            tick_spacing >= 1,
            -443700 <= start_tick_index <= 443700,
        ensures
            r.wf(),
            r.pool_id == pool_id,
            r.start_tick_index == start_tick_index,
            r.initialized_tick_count == 0,
            r.recent_epoch == recent_epoch,
            forall|i: int|
                0 <= i < 60 ==> #[trigger] r.ticks@[i].tick == start_tick_index + i
                    * tick_spacing && r.ticks@[i].liquidity_net == 0
                    && r.ticks@[i].liquidity_gross == 0
                    && r.ticks@[i].fee_growth_outside_0_x64 == 0
                    && r.ticks@[i].fee_growth_outside_1_x64 == 0
                    && r.ticks@[i].reward_growths_outside_x64@ =~= seq![0u128, 0u128, 0u128],
    {
        let mut ticks: Vec<TickState> = Vec::new();
        let mut i: usize = 0;
        while i < 60
            invariant
                i <= 60,
                ticks@.len() == i,
                -443700 <= start_tick_index <= 443700,
                tick_spacing >= 1,
                forall|j: int|
                    0 <= j < i ==> #[trigger] ticks@[j].tick == start_tick_index + j
                        * tick_spacing && ticks@[j].liquidity_net == 0
                        && ticks@[j].liquidity_gross == 0
                        && ticks@[j].fee_growth_outside_0_x64 == 0
                        && ticks@[j].fee_growth_outside_1_x64 == 0
                        && ticks@[j].reward_growths_outside_x64@ =~= seq![0u128, 0u128, 0u128],
            decreases 60 - i,
        {
            proof {
                assert((i as int) * (tick_spacing as int) <= 59 * 65535) by (nonlinear_arith)
                    requires 0 <= (i as int) < 60 && 1 <= (tick_spacing as int) <= 65535;
            }
            let tick: i32 = start_tick_index + (i as i32) * (tick_spacing as i32);
            ticks.push(TickState::new(tick));
            i += 1;
        }
        TickArrayState { pool_id, start_tick_index, ticks, initialized_tick_count: 0, recent_epoch }
    }

    /// The start index of the array containing `tick_index`.
    pub fn get_array_start_index(tick_index: i32, tick_spacing: u16) -> (r: i32)
        requires
            tick_spacing >= 1,
            -536870912 <= tick_index <= 536870911,
        ensures
            r == array_start_spec(tick_index as int, tick_spacing as int),
    {
        let tpa: i32 = tick_count(tick_spacing);
        if tick_index >= 0 {
            let q: u32 = (tick_index as u32) / (tpa as u32);
            proof {
                lemma_fundamental_div_mod(tick_index as int, tpa as int);
                lemma_mod_division_less_than_divisor(tick_index as int, tpa as int);
                assert(q * tpa <= tick_index) by (nonlinear_arith)
                    requires q == tick_index as int / tpa as int && tpa >= 1 && tick_index >= 0
                        && tick_index as int == tpa as int * (q as int) + (tick_index as int)
                        % (tpa as int);
            }
            ((q as i32) * tpa)
        } else {
            let a: u32 = (-tick_index) as u32;
            let c: u32 = (a + (tpa as u32) - 1) / (tpa as u32);
            proof {
                let ai = a as int;
                let t = tpa as int;
                let ci = c as int;
                lemma_fundamental_div_mod(ai + t - 1, t);
                lemma_mod_division_less_than_divisor(ai + t - 1, t);
                // c is the ceiling of a / tpa: c*tpa >= a and c*tpa < a + tpa.
                assert(ci * t >= ai && ci * t < ai + t && ci * t <= ai + t - 1)
                    by (nonlinear_arith)
                    requires ai + t - 1 == t * ci + (ai + t - 1) % t
                        && 0 <= (ai + t - 1) % t < t && t >= 1 && ai >= 1;
                // So -a divided by tpa (rounding down) is exactly -c.
                assert((-ci) * t == -(ci * t)) by (nonlinear_arith);
                lemma_fundamental_div_mod_converse(-ai, t, -ci, ci * t - ai);
            }
            -((c * (tpa as u32)) as i32)
        }
    }

    /// Whether `tick_index` is a legal array start index for this spacing.
    pub fn check_is_valid_start_index(tick_index: i32, tick_spacing: u16) -> (r: bool)
        requires
            tick_spacing >= 1,
        ensures
            r == valid_start_index_spec(tick_index as int, tick_spacing as int),
    {
        proof {
            let t = tick_count_spec(tick_spacing as int);
            lemma_fundamental_div_mod(-443636, t);
            lemma_mod_division_less_than_divisor(-443636, t);
            let q = (-443636) / t;
            assert(q * t == -443636 - ((-443636) % t)) by (nonlinear_arith)
                requires (-443636) == t * q + (-443636) % t;
            vstd::arithmetic::div_mod::lemma_mod_multiples_basic(q, t);
        }
        if tick_index < -443636 || tick_index > 443636 {
            if tick_index > 443636 {
                return false;
            }
            let min_start = TickArrayState::get_array_start_index(-443636, tick_spacing);
            return tick_index == min_start;
        }
        let tpa: i32 = tick_count(tick_spacing);
        let rem: u32 = if tick_index >= 0 {
            (tick_index as u32) % (tpa as u32)
        } else {
            ((-tick_index) as u32) % (tpa as u32)
        };
        proof {
            let t = tpa as int;
            if tick_index >= 0 {
                assert(rem == 0 <==> tick_index as int % t == 0);
            } else {
                let ai = (-tick_index) as int;
                lemma_fundamental_div_mod(ai, t);
                lemma_mod_division_less_than_divisor(ai, t);
                if ai % t == 0 {
                    assert((-ai) == (-(ai / t)) * t + 0) by (nonlinear_arith)
                        requires ai == t * (ai / t) + ai % t && ai % t == 0;
                    lemma_fundamental_div_mod_converse(-ai, t, -(ai / t), 0);
                } else {
                    assert((-ai) == (-(ai / t) - 1) * t + (t - ai % t)) by (nonlinear_arith)
                        requires ai == t * (ai / t) + ai % t;
                    lemma_fundamental_div_mod_converse(-ai, t, -(ai / t) - 1, t - ai % t);
                }
            }
            if rem == 0 && -443636 <= tick_index <= 443636 {
                assert(valid_start_index_spec(tick_index as int, tick_spacing as int));
            }
        }
        rem == 0
    }
}

/// Subtraction modulo 2^128: growth accumulators wrap by design, and only
/// deltas between snapshots are meaningful.
pub open spec fn wsub_spec(a: u128, b: u128) -> u128 {
    if a >= b {
        (a - b) as u128
    } else {
        (a - b + 0x1_0000_0000_0000_0000_0000_0000_0000_0000int) as u128
    }
}

/// Subtraction modulo 2^128.
pub fn wsub(a: u128, b: u128) -> (r: u128)
    ensures
        r == wsub_spec(a, b),
{
    if a >= b {
        a - b
    } else {
        (u128::MAX - b) + a + 1
    }
}

/// The fee growth accumulated strictly below the lower tick, from its
/// growth-outside snapshot and the current tick position.
pub open spec fn growth_below_spec(lower_tick: int, outside: u128, tick_current: int, global: u128) -> u128 {
    if tick_current >= lower_tick {
        outside
    } else {
        wsub_spec(global, outside)
    }
}

/// The fee growth accumulated at or above the upper tick, from its
/// growth-outside snapshot and the current tick position.
pub open spec fn growth_above_spec(upper_tick: int, outside: u128, tick_current: int, global: u128) -> u128 {
    if tick_current < upper_tick {
        outside
    } else {
        wsub_spec(global, outside)
    }
}

/// The growth accumulated inside the range: global minus the growth below
/// the lower tick minus the growth above the upper tick, wrapping.
pub open spec fn growth_inside_spec(
    lower_tick: int,
    lower_outside: u128,
    upper_tick: int,
    upper_outside: u128,
    tick_current: int,
    global: u128,
) -> u128 {
    wsub_spec(
        wsub_spec(global, growth_below_spec(lower_tick, lower_outside, tick_current, global)),
        growth_above_spec(upper_tick, upper_outside, tick_current, global),
    )
}

/// The fee growth inside a tick range for both tokens, computed from the
/// boundary ticks' growth-outside snapshots with wrapping subtraction.
pub fn get_fee_growth_inside(
    tick_lower: &TickState,
    tick_upper: &TickState,
    tick_current: i32,
    fee_growth_global_0_x64: u128,
    fee_growth_global_1_x64: u128,
) -> (r: (u128, u128))
    ensures
        r.0 == growth_inside_spec(
            tick_lower.tick as int,
            tick_lower.fee_growth_outside_0_x64,
            tick_upper.tick as int,
            tick_upper.fee_growth_outside_0_x64,
            tick_current as int,
            fee_growth_global_0_x64,
        ),
        r.1 == growth_inside_spec(
            tick_lower.tick as int,
            tick_lower.fee_growth_outside_1_x64,
            tick_upper.tick as int,
            tick_upper.fee_growth_outside_1_x64,
            tick_current as int,
            fee_growth_global_1_x64,
        ),
{
    let below_0 = if tick_current >= tick_lower.tick {
        tick_lower.fee_growth_outside_0_x64
    } else {
        wsub(fee_growth_global_0_x64, tick_lower.fee_growth_outside_0_x64)
    };
    let below_1 = if tick_current >= tick_lower.tick {
        tick_lower.fee_growth_outside_1_x64
    } else {
        wsub(fee_growth_global_1_x64, tick_lower.fee_growth_outside_1_x64)
    };
    let above_0 = if tick_current < tick_upper.tick {
        tick_upper.fee_growth_outside_0_x64
    } else {
        wsub(fee_growth_global_0_x64, tick_upper.fee_growth_outside_0_x64)
    };
    let above_1 = if tick_current < tick_upper.tick {
        tick_upper.fee_growth_outside_1_x64
    } else {
        wsub(fee_growth_global_1_x64, tick_upper.fee_growth_outside_1_x64)
    };
    let inside_0 = wsub(wsub(fee_growth_global_0_x64, below_0), above_0);
    let inside_1 = wsub(wsub(fee_growth_global_1_x64, below_1), above_1);
    (inside_0, inside_1)
}

/// The reward growth inside a tick range for each reward slot, computed the
/// same way as the fee growth inside.
pub fn get_reward_growths_inside(
    tick_lower: &TickState,
    tick_upper: &TickState,
    tick_current: i32,
    reward_growths_global: &Vec<u128>,
) -> (r: Vec<u128>)
    requires
        reward_growths_global@.len() == REWARD_NUM,
    ensures
        r@.len() == REWARD_NUM,
        forall|i: int|
            0 <= i < REWARD_NUM ==> r@[i] == growth_inside_spec(
                tick_lower.tick as int,
                tick_lower.reward_growths_outside_x64@[i],
                tick_upper.tick as int,
                tick_upper.reward_growths_outside_x64@[i],
                tick_current as int,
                reward_growths_global@[i],
            ),
{
    let mut r: Vec<u128> = Vec::new();
    let mut i: usize = 0;
    while i < 3
        invariant
            i <= 3,
            r@.len() == i,
            reward_growths_global@.len() == REWARD_NUM,
            forall|j: int|
                0 <= j < i ==> r@[j] == growth_inside_spec(
                    tick_lower.tick as int,
                    tick_lower.reward_growths_outside_x64@[j],
                    tick_upper.tick as int,
                    tick_upper.reward_growths_outside_x64@[j],
                    tick_current as int,
                    reward_growths_global@[j],
                ),
        decreases 3 - i,
    {
        let global = reward_growths_global[i];
        let outside_lower = tick_lower.reward_growths_outside_x64[i];
        let outside_upper = tick_upper.reward_growths_outside_x64[i];
        let below = if tick_current >= tick_lower.tick {
            outside_lower
        } else {
            wsub(global, outside_lower)
        };
        let above = if tick_current < tick_upper.tick {
            outside_upper
        } else {
            wsub(global, outside_upper)
        };
        r.push(wsub(wsub(global, below), above));
        i += 1;
    }
    r
}

/// Whether `tick` belongs to the array starting at `start` and sits on the
/// spacing grid.
pub open spec fn tick_in_array_spec(tick: int, start: int, tick_spacing: int) -> bool {
    &&& tick % tick_spacing == 0
    &&& array_start_spec(tick, tick_spacing) == start
}

/// The record slot of `tick` within its array.
pub open spec fn tick_offset_spec(tick: int, start: int, tick_spacing: int) -> int {
    (tick - start) / tick_spacing
}

impl TickArrayState {
    /// The slot of `tick_index` in this array, or why it does not belong.
    fn tick_offset(&self, tick_index: i32, tick_spacing: u16) -> (r: Result<usize, ErrorCode>)
        requires
            self.wf(),
            tick_spacing >= 1,
            -443700 <= tick_index <= 443700,
            -4500000 <= self.start_tick_index <= 443636,
        ensures
            r is Ok <==> tick_in_array_spec(
                tick_index as int,
                self.start_tick_index as int,
                tick_spacing as int,
            ),
            r matches Ok(o) ==> 0 <= o < 60 && o == tick_offset_spec(
                tick_index as int,
                self.start_tick_index as int,
                tick_spacing as int,
            ),
            r is Err ==> r == Result::<usize, ErrorCode>::Err(ErrorCode::TickAndSpacingNotMatch)
                || r == Result::<usize, ErrorCode>::Err(ErrorCode::InvalidTickArray),
    {
        let sp: u32 = tick_spacing as u32;
        let rem: u32 = if tick_index >= 0 {
            (tick_index as u32) % sp
        } else {
            ((-tick_index) as u32) % sp
        };
        proof {
            let t = tick_spacing as int;
            let ti = tick_index as int;
            if tick_index < 0 {
                let ai = (-tick_index) as int;
                lemma_fundamental_div_mod(ai, t);
                lemma_mod_division_less_than_divisor(ai, t);
                if ai % t == 0 {
                    assert((-ai) == (-(ai / t)) * t + 0) by (nonlinear_arith)
                        requires ai == t * (ai / t) + ai % t && ai % t == 0;
                    lemma_fundamental_div_mod_converse(-ai, t, -(ai / t), 0);
                } else {
                    assert((-ai) == (-(ai / t) - 1) * t + (t - ai % t)) by (nonlinear_arith)
                        requires ai == t * (ai / t) + ai % t;
                    lemma_fundamental_div_mod_converse(-ai, t, -(ai / t) - 1, t - ai % t);
                }
            }
        }
        if rem != 0 {
            return Err(ErrorCode::TickAndSpacingNotMatch);
        }
        let start = TickArrayState::get_array_start_index(tick_index, tick_spacing);
        if start != self.start_tick_index {
            return Err(ErrorCode::InvalidTickArray);
        }
        let diff: u32 = (tick_index - self.start_tick_index) as u32;
        proof {
            let t = tick_count_spec(tick_spacing as int);
            let ti = tick_index as int;
            lemma_fundamental_div_mod(ti, t);
            lemma_mod_division_less_than_divisor(ti, t);
            assert((ti / t) * t == ti - ti % t) by (nonlinear_arith)
                requires ti == t * (ti / t) + ti % t;
            // diff is the remainder of tick by the per-array count.
            assert(diff == ti % t);
            // offset bound and divisibility transfer to the spacing grid.
            let sp = tick_spacing as int;
            lemma_fundamental_div_mod(diff as int, sp);
            lemma_mod_division_less_than_divisor(diff as int, sp);
            assert((diff as int) / sp < 60) by (nonlinear_arith)
                requires (diff as int) < 60 * sp && sp >= 1 && 0 <= (diff as int)
                    && (diff as int) == sp * ((diff as int) / sp) + (diff as int) % sp
                    && 0 <= (diff as int) % sp;
        }
        let offset: usize = (diff / sp) as usize;
        Ok(offset)
    }

    /// Read the record of `tick_index` out of this array.
    pub fn get_tick_state(&self, tick_index: i32, tick_spacing: u16) -> (r: Result<
        TickState,
        ErrorCode,
    >)
        requires
            self.wf(),
            tick_spacing >= 1,
            -443700 <= tick_index <= 443700,
            -4500000 <= self.start_tick_index <= 443636,
        ensures
            r is Ok <==> tick_in_array_spec(
                tick_index as int,
                self.start_tick_index as int,
                tick_spacing as int,
            ),
            r matches Ok(t) ==> t == self.ticks@[tick_offset_spec(
                tick_index as int,
                self.start_tick_index as int,
                tick_spacing as int,
            )] && 0 <= tick_offset_spec(
                tick_index as int,
                self.start_tick_index as int,
                tick_spacing as int,
            ) < 60,
            r is Err ==> r == Result::<TickState, ErrorCode>::Err(
                ErrorCode::TickAndSpacingNotMatch,
            ) || r == Result::<TickState, ErrorCode>::Err(ErrorCode::InvalidTickArray),
    {
        let offset = match self.tick_offset(tick_index, tick_spacing) {
            Ok(o) => o,
            Err(e) => {
                return Err(e);
            },
        };
        Ok(self.ticks[offset])
    }

    /// Write the record of `tick_index` back into this array.
    pub fn update_tick_state(&mut self, tick_index: i32, tick_spacing: u16, tick_state: TickState)
        -> (r: Result<(), ErrorCode>)
        requires
            old(self).wf(),
            tick_spacing >= 1,
            -443700 <= tick_index <= 443700,
            -4500000 <= old(self).start_tick_index <= 443636,
        ensures
            final(self).wf(),
            r is Ok <==> tick_in_array_spec(
                tick_index as int,
                old(self).start_tick_index as int,
                tick_spacing as int,
            ),
            r is Ok ==> *final(self) == (TickArrayState {
                ticks: final(self).ticks,
                ..*old(self)
            }) && final(self).ticks@ == old(self).ticks@.update(
                tick_offset_spec(
                    tick_index as int,
                    old(self).start_tick_index as int,
                    tick_spacing as int,
                ),
                tick_state,
            ) && 0 <= tick_offset_spec(
                tick_index as int,
                old(self).start_tick_index as int,
                tick_spacing as int,
            ) < 60,
            r is Err ==> *final(self) == *old(self) && (r == Result::<(), ErrorCode>::Err(
                ErrorCode::TickAndSpacingNotMatch,
            ) || r == Result::<(), ErrorCode>::Err(ErrorCode::InvalidTickArray)),
    {
        let offset = match self.tick_offset(tick_index, tick_spacing) {
            Ok(o) => o,
            Err(e) => {
                return Err(e);
            },
        };
        self.ticks.set(offset, tick_state);
        Ok(())
    }

    /// Adjust the count of records carrying liquidity, up on initialization
    /// and down on clearing.
    pub fn update_initialized_tick_count(&mut self, add: bool) -> (r: Result<(), ErrorCode>)
        ensures
            r is Ok <==> (if add {
                old(self).initialized_tick_count < 255
            } else {
                old(self).initialized_tick_count > 0
            }),
            r is Ok ==> *final(self) == (TickArrayState {
                initialized_tick_count: (if add {
                    (old(self).initialized_tick_count + 1) as u8
                } else {
                    (old(self).initialized_tick_count - 1) as u8
                }),
                ..*old(self)
            }),
            r is Err ==> *final(self) == *old(self) && r == Result::<(), ErrorCode>::Err(
                ErrorCode::MathOverflow,
            ),
    {
        if add {
            if self.initialized_tick_count == 255 {
                return Err(ErrorCode::MathOverflow);
            }
            self.initialized_tick_count = self.initialized_tick_count + 1;
        } else {
            if self.initialized_tick_count == 0 {
                return Err(ErrorCode::MathOverflow);
            }
            self.initialized_tick_count = self.initialized_tick_count - 1;
        }
        Ok(())
    }
}

/// A valid start index stays within one array length of the valid tick
/// range on either side.
pub proof fn lemma_valid_start_range(start: int, sp: int)
    requires
        1 <= sp <= 65535,
        valid_start_index_spec(start, sp),
    ensures
        -4400000 <= start <= 443636,
{
    let t = tick_count_spec(sp);
    if !(start % t == 0 && -443636 <= start <= 443636) {
        lemma_fundamental_div_mod(-443636, t);
        lemma_mod_division_less_than_divisor(-443636, t);
        assert(((-443636) / t) * t == -443636 - ((-443636) % t)) by (nonlinear_arith)
            requires (-443636) == t * ((-443636) / t) + (-443636) % t;
    }
}

/// A tick on the spacing grid inside its array sits at its own record
/// slot: the slot's tick index, as a fresh array lays the records out,
/// is the tick itself.
pub proof fn lemma_boundary_tick_index(tick: int, start: int, tick_spacing: int)
    requires
        tick_spacing >= 1,
        tick_in_array_spec(tick, start, tick_spacing),
    ensures
        start + tick_offset_spec(tick, start, tick_spacing) * tick_spacing == tick,
        0 <= tick_offset_spec(tick, start, tick_spacing) < 60,
{
    let t = tick_count_spec(tick_spacing);
    lemma_fundamental_div_mod(tick, t);
    lemma_mod_division_less_than_divisor(tick, t);
    assert((tick / t) * t == tick - tick % t) by (nonlinear_arith)
        requires tick == t * (tick / t) + tick % t;
    let diff = tick - start;
    // start is tick's own array start, so diff is tick's remainder by the
    // per-array count: nonnegative and below one array.
    assert(0 <= diff < t);
    lemma_fundamental_div_mod(diff, tick_spacing);
    lemma_mod_division_less_than_divisor(diff, tick_spacing);
    // Both tick and start are multiples of the spacing, so diff is too.
    lemma_fundamental_div_mod(tick, tick_spacing);
    lemma_mod_division_less_than_divisor(tick, tick_spacing);
    let q = tick / t;
    assert(start == q * t);
    assert(start == (q * 60) * tick_spacing) by (nonlinear_arith)
        requires start == q * t && t == 60 * tick_spacing;
    vstd::arithmetic::div_mod::lemma_mod_multiples_basic(q * 60, tick_spacing);
    assert(((q * 60) * tick_spacing) % tick_spacing == 0);
    assert(start % tick_spacing == 0);
    vstd::arithmetic::div_mod::lemma_sub_mod_noop(tick, start, tick_spacing);
    assert(diff % tick_spacing == 0) by {
        assert((tick % tick_spacing - start % tick_spacing) % tick_spacing == (tick - start)
            % tick_spacing);
        assert((0int) % tick_spacing == 0) by (nonlinear_arith)
            requires tick_spacing >= 1;
    }
    assert(start + (diff / tick_spacing) * tick_spacing == tick) by (nonlinear_arith)
        requires diff == tick_spacing * (diff / tick_spacing) + diff % tick_spacing
            && diff % tick_spacing == 0 && diff == tick - start;
    assert((diff / tick_spacing) < 60) by (nonlinear_arith)
        requires diff < t && t == 60 * tick_spacing && tick_spacing >= 1 && 0 <= diff
            && diff == tick_spacing * (diff / tick_spacing) + diff % tick_spacing
            && 0 <= diff % tick_spacing;
    vstd::arithmetic::div_mod::lemma_div_pos_is_pos(diff, tick_spacing);
}

} // verus!
