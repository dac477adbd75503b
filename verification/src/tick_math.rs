//! Conversions between tick indices and Q64.64 square-root prices.
//!
//! The price of tick t is 1.0001^t, so its square root is sqrt(1.0001)^t. The
//! whole map is generated from one Q64.64 ratio RATIO = floor(sqrt(1.0001) *
//! 2^64): going up one tick multiplies by RATIO and rescales (rounding down),
//! and the negative side is the Q64.64 reciprocal of the positive side. The
//! map is strictly monotonic over the valid tick range, and converting a
//! tick's price back to a tick returns the same tick.

use vstd::prelude::*;
use crate::error::ErrorCode;
use crate::math::{p64, p128};
use vstd::arithmetic::div_mod::{
    lemma_div_pos_is_pos, lemma_fundamental_div_mod, lemma_fundamental_div_mod_converse,
};

verus! {

/// The lowest valid tick.
pub const MIN_TICK: i32 = -443636;

/// The highest valid tick.
pub const MAX_TICK: i32 = 443636;

/// Q64.64 value of sqrt(1.0001): the one-tick price ratio.
pub const SQRT_RATIO_X64: u128 = 18447666387855959850;

/// Whether `tick` lies in the valid tick range.
pub open spec fn valid_tick(tick: int) -> bool {
    -443636 <= tick <= 443636
}

/// The Q64.64 square-root price ratio at nonnegative tick distance `k` from
/// zero: 2^64 at k = 0, and one rescaled RATIO multiplication per step, with
/// each step rounded down. Unbounded: overflow is a property of the
/// executable code, not of the map.
pub open spec fn pow_ratio(k: nat) -> nat
    decreases k,
{
    if k == 0 {
        p64() as nat
    } else {
        pow_ratio((k - 1) as nat) * (SQRT_RATIO_X64 as nat) / (p64() as nat)
    }
}

/// The Q64.64 square-root price of a tick: the ratio power for nonnegative
/// ticks, and its Q64.64 reciprocal (rounded down) for negative ticks.
pub open spec fn sqrt_price_spec(tick: int) -> int {
    if tick >= 0 {
        pow_ratio(tick as nat) as int
    } else {
        p128() / pow_ratio((-tick) as nat) as int
    }
}

/// Whether `tick` is the tick whose price interval contains `price`:
/// sqrt_price_spec(tick) <= price, strictly below the next tick's price
/// (the top tick owns everything at and above its own price).
pub open spec fn tick_of_price(tick: int, price: int) -> bool {
    &&& valid_tick(tick)
    &&& sqrt_price_spec(tick) <= price
    &&& tick == 443636 || price < sqrt_price_spec(tick + 1)
}

/// The ratio powers never fall below one, in Q64.64 terms.
pub proof fn lemma_pow_ratio_lower(k: nat)
    ensures
        pow_ratio(k) >= p64(),
    decreases k,
{
    if k > 0 {
        lemma_pow_ratio_lower((k - 1) as nat);
        let prev = pow_ratio((k - 1) as nat);
        assert(prev * (SQRT_RATIO_X64 as nat) / (p64() as nat) >= p64() as nat)
            by (nonlinear_arith)
            requires prev >= p64() as nat && SQRT_RATIO_X64 as nat >= p64() as nat
                && (p64() as nat) > 0;
    }
}

/// Each upward step strictly increases the ratio power.
pub proof fn lemma_pow_ratio_step(k: nat)
    ensures
        pow_ratio(k + 1) >= pow_ratio(k) + 1,
{
    lemma_pow_ratio_lower(k);
    let x = pow_ratio(k);
    assert(x * (SQRT_RATIO_X64 as nat) / (p64() as nat) >= x + 1) by (nonlinear_arith)
        requires x >= p64() as nat && SQRT_RATIO_X64 == 18447666387855959850
            && p64() == 0x1_0000_0000_0000_0000;
}

/// The ratio powers are strictly increasing.
pub proof fn lemma_pow_ratio_mono(k1: nat, k2: nat)
    requires
        k1 <= k2,
    ensures
        pow_ratio(k1) <= pow_ratio(k2),
        k1 < k2 ==> pow_ratio(k1) < pow_ratio(k2),
    decreases k2 - k1,
{
    if k1 < k2 {
        lemma_pow_ratio_mono(k1, (k2 - 1) as nat);
        lemma_pow_ratio_step((k2 - 1) as nat);
    }
}

/// Doubling the exponent squares a power bound: from pow(r, e) <= c * pow(b,
/// e-1) and c^2 <= c2 * b, conclude pow(r, 2e) <= c2 * pow(b, 2e-1).
proof fn lemma_pow_bound_square(r: int, b: int, e: nat, c: int, c2: int)
    requires
        1 <= e,
        0 < r,
        0 < b,
        0 < c,
        0 < c2,
        vstd::arithmetic::power::pow(r, e) <= c * vstd::arithmetic::power::pow(b, (e - 1) as nat),
        c * c <= c2 * b,
    ensures
        vstd::arithmetic::power::pow(r, 2 * e) <= c2 * vstd::arithmetic::power::pow(
            b,
            (2 * e - 1) as nat,
        ),
{
    let pe = vstd::arithmetic::power::pow(r, e);
    let pb = vstd::arithmetic::power::pow(b, (e - 1) as nat);
    vstd::arithmetic::power::lemma_pow_adds(r, e, e);
    vstd::arithmetic::power::lemma_pow_adds(b, (e - 1) as nat, (e - 1) as nat);
    vstd::arithmetic::power::lemma_pow_adds(b, 1, (2 * e - 2) as nat);
    vstd::arithmetic::power::lemma_pow1(b);
    vstd::arithmetic::power::lemma_pow_positive(r, e);
    vstd::arithmetic::power::lemma_pow_positive(b, (e - 1) as nat);
    vstd::arithmetic::power::lemma_pow_positive(b, (2 * e - 2) as nat);
    let pb2 = vstd::arithmetic::power::pow(b, (2 * e - 2) as nat);
    assert(pe * pe <= (c * pb) * (c * pb)) by (nonlinear_arith)
        requires 0 < pe && pe <= c * pb;
    assert((c * pb) * (c * pb) == (c * c) * (pb * pb)) by (nonlinear_arith);
    assert((c * c) * pb2 <= (c2 * b) * pb2) by (nonlinear_arith)
        requires c * c <= c2 * b && 0 < pb2;
    assert((c2 * b) * pb2 == c2 * (b * pb2)) by (nonlinear_arith);
}

/// Adding exponents multiplies power bounds: from pow(r, e1) <= a1 * pow(b,
/// e1-1), pow(r, e2) <= a2 * pow(b, e2-1), and a1*a2 <= a3 * b, conclude
/// pow(r, e1+e2) <= a3 * pow(b, e1+e2-1).
proof fn lemma_pow_bound_mul(r: int, b: int, e1: nat, e2: nat, a1: int, a2: int, a3: int)
    requires
        1 <= e1,
        1 <= e2,
        0 < r,
        0 < b,
        0 < a1,
        0 < a2,
        0 < a3,
        vstd::arithmetic::power::pow(r, e1) <= a1 * vstd::arithmetic::power::pow(
            b,
            (e1 - 1) as nat,
        ),
        vstd::arithmetic::power::pow(r, e2) <= a2 * vstd::arithmetic::power::pow(
            b,
            (e2 - 1) as nat,
        ),
        a1 * a2 <= a3 * b,
    ensures
        vstd::arithmetic::power::pow(r, e1 + e2) <= a3 * vstd::arithmetic::power::pow(
            b,
            (e1 + e2 - 1) as nat,
        ),
{
    let p1 = vstd::arithmetic::power::pow(r, e1);
    let p2 = vstd::arithmetic::power::pow(r, e2);
    let q1 = vstd::arithmetic::power::pow(b, (e1 - 1) as nat);
    let q2 = vstd::arithmetic::power::pow(b, (e2 - 1) as nat);
    vstd::arithmetic::power::lemma_pow_adds(r, e1, e2);
    vstd::arithmetic::power::lemma_pow_adds(b, (e1 - 1) as nat, (e2 - 1) as nat);
    vstd::arithmetic::power::lemma_pow_adds(b, 1, (e1 + e2 - 2) as nat);
    vstd::arithmetic::power::lemma_pow1(b);
    vstd::arithmetic::power::lemma_pow_positive(r, e1);
    vstd::arithmetic::power::lemma_pow_positive(r, e2);
    vstd::arithmetic::power::lemma_pow_positive(b, (e1 - 1) as nat);
    vstd::arithmetic::power::lemma_pow_positive(b, (e2 - 1) as nat);
    vstd::arithmetic::power::lemma_pow_positive(b, (e1 + e2 - 2) as nat);
    let qq = vstd::arithmetic::power::pow(b, (e1 + e2 - 2) as nat);
    assert(p1 * p2 <= (a1 * q1) * (a2 * q2)) by (nonlinear_arith)
        requires 0 < p1 && 0 < p2 && p1 <= a1 * q1 && p2 <= a2 * q2;
    assert((a1 * q1) * (a2 * q2) == (a1 * a2) * (q1 * q2)) by (nonlinear_arith);
    assert((a1 * a2) * qq <= (a3 * b) * qq) by (nonlinear_arith)
        requires a1 * a2 <= a3 * b && 0 < qq;
    assert((a3 * b) * qq == a3 * (b * qq)) by (nonlinear_arith);
}

/// Numeric bound on the full-range ratio power, built by repeated squaring:
/// RATIO^443636 <= 79226673515400910113585832633 * 2^(64 * 443635).
proof fn lemma_ratio_pow_total_bound()
    ensures
        vstd::arithmetic::power::pow(SQRT_RATIO_X64 as int, 443636)
            <= 79226673515400910113585832633 * vstd::arithmetic::power::pow(p64(), 443635),
{
    let r = SQRT_RATIO_X64 as int;
    let b = p64();
    vstd::arithmetic::power::lemma_pow1(r);
    vstd::arithmetic::power::lemma_pow0(b);
    // pow(r, 1) <= c0 * pow(b, 0) with c0 = RATIO itself.
    assert(vstd::arithmetic::power::pow(r, 1) <= 18447666387855959850
        * vstd::arithmetic::power::pow(b, 0));
    // Square eighteen times: bound RATIO^(2^i) for i = 1 .. 18.
    lemma_pow_bound_square(r, b, 1, 18447666387855959850, 18448588748116922570);
    lemma_pow_bound_square(r, b, 2, 18448588748116922570, 18450433606991734262);
    lemma_pow_bound_square(r, b, 4, 18450433606991734262, 18454123878217468678);
    lemma_pow_bound_square(r, b, 8, 18454123878217468678, 18461506635090006698);
    lemma_pow_bound_square(r, b, 16, 18461506635090006698, 18476281010653910138);
    lemma_pow_bound_square(r, b, 32, 18476281010653910138, 18505865242158250029);
    lemma_pow_bound_square(r, b, 64, 18505865242158250029, 18565175891880433497);
    lemma_pow_bound_square(r, b, 128, 18565175891880433497, 18684368066214940532);
    lemma_pow_bound_square(r, b, 256, 18684368066214940532, 18925053041275764569);
    lemma_pow_bound_square(r, b, 512, 18925053041275764569, 19415764168677886717);
    lemma_pow_bound_square(r, b, 1024, 19415764168677886717, 20435687552633177054);
    lemma_pow_bound_square(r, b, 2048, 20435687552633177054, 22639080592224302031);
    lemma_pow_bound_square(r, b, 4096, 22639080592224302031, 27784196929998397347);
    lemma_pow_bound_square(r, b, 8192, 27784196929998397347, 41848122137994978913);
    lemma_pow_bound_square(r, b, 16384, 41848122137994978913, 94936283578220337979);
    lemma_pow_bound_square(r, b, 32768, 94936283578220337979, 488590176327622142895);
    lemma_pow_bound_square(r, b, 65536, 488590176327622142895, 12941056668319211919752);
    lemma_pow_bound_square(r, b, 131072, 12941056668319211919752, 9078618265828823755685839);
    // Combine the binary digits of 443636 = 2^2 + 2^4 + 2^5 + 2^6 + 2^7
    // + 2^10 + 2^14 + 2^15 + 2^17 + 2^18.
    lemma_pow_bound_mul(r, b, 4, 16, 18450433606991734262, 18461506635090006698,
        18465199121032091049);
    lemma_pow_bound_mul(r, b, 20, 32, 18465199121032091049, 18476281010653910138,
        18494765608208560608);
    lemma_pow_bound_mul(r, b, 52, 64, 18494765608208560608, 18505865242158250029,
        18554040683992826559);
    lemma_pow_bound_mul(r, b, 116, 128, 18554040683992826559, 18565175891880433497,
        18673161368046416240);
    lemma_pow_bound_mul(r, b, 244, 1024, 18673161368046416240, 19415764168677886717,
        19654075318493208205);
    lemma_pow_bound_mul(r, b, 1268, 16384, 19654075318493208205, 41848122137994978913,
        44587063231926669746);
    lemma_pow_bound_mul(r, b, 17652, 32768, 44587063231926669746, 94936283578220337979,
        229467599376468707176);
    lemma_pow_bound_mul(r, b, 50420, 131072, 229467599376468707176, 12941056668319211919752,
        160979801921049198675828);
    lemma_pow_bound_mul(r, b, 181492, 262144, 160979801921049198675828,
        9078618265828823755685839, 79226673515400910113585832633);
}

/// The ratio power, rescaled at every step, stays below the exact power:
/// pow_ratio(j) * 2^(64 j) <= 2^64 * RATIO^j.
proof fn lemma_pow_ratio_le_pow(j: nat)
    ensures
        pow_ratio(j) * vstd::arithmetic::power::pow(p64(), j) <= p64()
            * vstd::arithmetic::power::pow(SQRT_RATIO_X64 as int, j),
    decreases j,
{
    let r = SQRT_RATIO_X64 as int;
    let b = p64();
    if j == 0 {
        vstd::arithmetic::power::lemma_pow0(b);
        vstd::arithmetic::power::lemma_pow0(r);
    } else {
        lemma_pow_ratio_le_pow((j - 1) as nat);
        let prev = pow_ratio((j - 1) as nat) as int;
        let cur = pow_ratio(j) as int;
        let pbj1 = vstd::arithmetic::power::pow(b, (j - 1) as nat);
        let prj1 = vstd::arithmetic::power::pow(r, (j - 1) as nat);
        vstd::arithmetic::power::lemma_pow_adds(b, (j - 1) as nat, 1);
        vstd::arithmetic::power::lemma_pow_adds(r, (j - 1) as nat, 1);
        vstd::arithmetic::power::lemma_pow1(b);
        vstd::arithmetic::power::lemma_pow1(r);
        vstd::arithmetic::power::lemma_pow_positive(b, (j - 1) as nat);
        vstd::arithmetic::power::lemma_pow_positive(r, (j - 1) as nat);
        // cur == floor(prev * RATIO / 2^64), so cur * 2^64 <= prev * RATIO.
        assert(cur * b <= prev * r) by (nonlinear_arith)
            requires cur == prev * r / b && 0 < b && 0 <= prev && 0 < r;
        assert(cur * (pbj1 * b) == (cur * b) * pbj1) by (nonlinear_arith);
        assert((cur * b) * pbj1 <= (prev * r) * pbj1) by (nonlinear_arith)
            requires cur * b <= prev * r && 0 < pbj1;
        assert((prev * r) * pbj1 == (prev * pbj1) * r) by (nonlinear_arith);
        assert((prev * pbj1) * r <= (b * prj1) * r) by (nonlinear_arith)
            requires prev * pbj1 <= b * prj1 && 0 < r;
        assert((b * prj1) * r == b * (prj1 * r)) by (nonlinear_arith);
    }
}

/// Every ratio power over the valid range fits well below 2^97.
pub proof fn lemma_pow_ratio_upper(k: nat)
    requires
        k <= 443636,
    ensures
        pow_ratio(k) <= 79226673515400910113585832633,
        pow_ratio(k) < 0x2_0000_0000_0000_0000_0000_0000,
{
    let a = 79226673515400910113585832633int;
    let r = SQRT_RATIO_X64 as int;
    let b = p64();
    lemma_pow_ratio_mono(k, 443636);
    lemma_pow_ratio_le_pow(443636);
    lemma_ratio_pow_total_bound();
    let pb = vstd::arithmetic::power::pow(b, 443636);
    let pb1 = vstd::arithmetic::power::pow(b, 443635);
    let pr = vstd::arithmetic::power::pow(r, 443636);
    vstd::arithmetic::power::lemma_pow_adds(b, 443635, 1);
    vstd::arithmetic::power::lemma_pow1(b);
    vstd::arithmetic::power::lemma_pow_positive(b, 443635);
    vstd::arithmetic::power::lemma_pow_positive(b, 443636);
    let n = pow_ratio(443636) as int;
    assert(b * (a * pb1) == a * (pb1 * b)) by (nonlinear_arith);
    assert(b * pr <= b * (a * pb1)) by (nonlinear_arith)
        requires pr <= a * pb1 && 0 < b;
    assert(n <= a) by (nonlinear_arith)
        requires n * pb <= a * pb && 0 < pb;
}

/// One reciprocal step is strictly decreasing: the Q64.64 reciprocal of the
/// next ratio power is strictly below the reciprocal of the current one.
proof fn lemma_recip_strict(k: nat)
    requires
        k + 1 <= 443636,
    ensures
        p128() / (pow_ratio(k + 1) as int) < p128() / (pow_ratio(k) as int),
{
    let a = pow_ratio(k) as int;
    let b = pow_ratio(k + 1) as int;
    let d = SQRT_RATIO_X64 as int - p64();
    lemma_pow_ratio_lower(k);
    lemma_pow_ratio_upper((k + 1) as nat);
    // b == a + (a*d)/2^64 exactly.
    let q = a * d / p64();
    assert(b == a + q) by {
        assert(a * SQRT_RATIO_X64 as int == a * p64() + a * d) by (nonlinear_arith)
            requires d == SQRT_RATIO_X64 as int - p64();
        vstd::arithmetic::div_mod::lemma_hoist_over_denominator(a * d, a, p64() as nat);
        assert((a * p64() + a * d) / p64() == a + (a * d) / p64());
        assert(b == (a * SQRT_RATIO_X64 as int) / p64()) by {
            assert(pow_ratio((k + 1) as nat) == pow_ratio(k) * (SQRT_RATIO_X64 as nat) / (
            p64() as nat));
        }
    }
    // q * 2^64 >= a*d - 2^64 + 1, by the division remainder bound.
    lemma_fundamental_div_mod(a * d, p64());
    vstd::arithmetic::div_mod::lemma_mod_division_less_than_divisor(a * d, p64());
    assert(q * p64() >= a * d - p64() + 1) by (nonlinear_arith)
        requires a * d == p64() * q + (a * d) % p64() && (a * d) % p64() < p64();
    // p128 * q >= a * b: the reciprocal loses at least one whole unit.
    assert(p128() * q >= a * b) by (nonlinear_arith)
        requires q * p64() >= a * d - p64() + 1 && a >= p64() && b <= p64() * (d - 1)
            && p128() == p64() * p64() && d == 922314146408234 && 0 <= q
            && b == a + q;
    // Hence floor(p128/b) < floor(p128/a).
    let q1 = p128() / b;
    lemma_fundamental_div_mod(p128(), b);
    vstd::arithmetic::div_mod::lemma_mod_division_less_than_divisor(p128(), b);
    assert(a * (q1 + 1) <= p128()) by (nonlinear_arith)
        requires p128() == b * q1 + p128() % b && 0 <= p128() % b
            && p128() * (b - a) >= a * b && 0 < a < b;
    lemma_div_pos_is_pos(p128(), b);
    vstd::arithmetic::div_mod::lemma_div_by_multiple(q1 + 1, a);
    vstd::arithmetic::div_mod::lemma_div_is_ordered(a * (q1 + 1), p128(), a);
    assert((q1 + 1) * a == a * (q1 + 1)) by (nonlinear_arith);
}

/// Adjacent ticks have strictly increasing square-root prices.
pub proof fn lemma_sqrt_price_adjacent(t: int)
    requires
        -443636 <= t < 443636,
    ensures
        sqrt_price_spec(t) < sqrt_price_spec(t + 1),
{
    if t >= 0 {
        lemma_pow_ratio_step(t as nat);
    } else if t == -1 {
        // p128 / RATIO < 2^64 because RATIO > 2^64.
        assert(pow_ratio(0) == p64() as nat);
        assert(pow_ratio(1) == pow_ratio(0) * (SQRT_RATIO_X64 as nat) / (p64() as nat));
        assert(pow_ratio(1) == SQRT_RATIO_X64 as nat) by (nonlinear_arith)
            requires pow_ratio(1) == (p64() as nat) * (SQRT_RATIO_X64 as nat) / (p64() as nat)
                && (p64() as nat) > 0;
        let r = SQRT_RATIO_X64 as int;
        lemma_fundamental_div_mod(p128(), r);
        vstd::arithmetic::div_mod::lemma_mod_division_less_than_divisor(p128(), r);
        lemma_div_pos_is_pos(p128(), r);
        assert(p128() / r < p64()) by (nonlinear_arith)
            requires p128() == r * (p128() / r) + p128() % r && 0 <= p128() % r
                && 0 <= p128() / r && r == 18447666387855959850
                && p128() == p64() * p64() && p64() == 0x1_0000_0000_0000_0000;
    } else {
        let k = (-t) as nat;
        lemma_recip_strict((k - 1) as nat);
    }
}

/// The square-root price map is strictly monotonic over the valid range.
pub proof fn lemma_sqrt_price_mono(t1: int, t2: int)
    requires
        -443636 <= t1 < t2 <= 443636,
    ensures
        sqrt_price_spec(t1) < sqrt_price_spec(t2),
    decreases t2 - t1,
{
    lemma_sqrt_price_adjacent(t1);
    if t1 + 1 < t2 {
        lemma_sqrt_price_mono(t1 + 1, t2);
    }
}

/// At most one tick owns any given price.
pub proof fn lemma_tick_of_price_unique(t1: int, t2: int, price: int)
    requires
        tick_of_price(t1, price),
        tick_of_price(t2, price),
    ensures
        t1 == t2,
{
    if t1 < t2 {
        if t1 + 1 < t2 {
            lemma_sqrt_price_mono(t1 + 1, t2);
        }
        assert(false);
    } else if t2 < t1 {
        if t2 + 1 < t1 {
            lemma_sqrt_price_mono(t2 + 1, t1);
        }
        assert(false);
    }
}

/// Converting a tick to its square-root price and back yields the same tick:
/// every valid tick owns its own price.
pub proof fn lemma_tick_price_round_trip(t: int)
    requires
        valid_tick(t),
    ensures
        tick_of_price(t, sqrt_price_spec(t)),
{
    if t < 443636 {
        lemma_sqrt_price_adjacent(t);
    }
}

/// Every valid tick's square-root price is positive and fits comfortably in
/// 128 bits.
pub proof fn lemma_sqrt_price_range(t: int)
    requires
        valid_tick(t),
    ensures
        1 <= sqrt_price_spec(t) < 0x2_0000_0000_0000_0000_0000_0000,
{
    if t >= 0 {
        lemma_pow_ratio_lower(t as nat);
        lemma_pow_ratio_upper(t as nat);
    } else {
        let k = (-t) as nat;
        let a = pow_ratio(k) as int;
        lemma_pow_ratio_lower(k);
        lemma_pow_ratio_upper(k);
        lemma_fundamental_div_mod(p128(), a);
        vstd::arithmetic::div_mod::lemma_mod_division_less_than_divisor(p128(), a);
        lemma_div_pos_is_pos(p128(), a);
        assert(1 <= p128() / a && p128() / a <= p64()) by (nonlinear_arith)
            requires p128() == a * (p128() / a) + p128() % a && 0 <= p128() % a
                && p128() % a < a && 0 <= p128() / a
                && p64() <= a <= 0x2_0000_0000_0000_0000_0000_0000
                && p128() == p64() * p64();
    }
}

/// Compute the ratio power at distance `k` by repeated rescaled
/// multiplication.
fn pow_ratio_exec(k: u32) -> (r: u128)
    requires
        k <= 443636,
    ensures
        r == pow_ratio(k as nat),
{
    let mut acc: u128 = 0x1_0000_0000_0000_0000;
    let mut i: u32 = 0;
    while i < k
        invariant
            i <= k,
            k <= 443636,
            acc == pow_ratio(i as nat),
        decreases k - i,
    {
        proof {
            lemma_pow_ratio_upper(((i + 1) as u32) as nat);
            lemma_pow_ratio_mono(i as nat, (i + 1) as nat);
            assert(pow_ratio((i + 1) as nat) == pow_ratio(i as nat) * (SQRT_RATIO_X64 as nat) / (
            p64() as nat));
        }
        let next_opt = crate::math::mul_shr_64(acc, SQRT_RATIO_X64);
        proof {
            assert((acc as int * SQRT_RATIO_X64 as int) / p64() == pow_ratio((i + 1) as nat));
        }
        let next: u128 = match next_opt {
            Some(v) => v,
            None => 0,
        };
        acc = next;
        i = i + 1;
    }
    acc
}

/// floor(2^128 / u) for u >= 2, via the u128 maximum.
fn div_p128(u: u128) -> (r: u128)
    requires
        u >= 2,
    ensures
        r as int == p128() / (u as int),
{
    let q0 = u128::MAX / u;
    let r0 = u128::MAX % u;
    proof {
        let m = u128::MAX as int;
        let ui = u as int;
        lemma_fundamental_div_mod(m, ui);
        vstd::arithmetic::div_mod::lemma_mod_division_less_than_divisor(m, ui);
        lemma_div_pos_is_pos(m, ui);
        if r0 as int == ui - 1 {
            assert(p128() == (q0 as int + 1) * ui) by (nonlinear_arith)
                requires m == ui * (q0 as int) + r0 as int && r0 as int == ui - 1
                    && p128() == m + 1;
            vstd::arithmetic::div_mod::lemma_div_by_multiple(q0 as int + 1, ui);
            // q0 + 1 fits: q0 <= (2^128 - 1) / 2.
            assert((q0 as int) * ui <= m) by (nonlinear_arith)
                requires m == ui * (q0 as int) + r0 as int && 0 <= r0 as int;
            assert(q0 as int <= m / 2) by (nonlinear_arith)
                requires (q0 as int) * ui <= m && ui >= 2 && 0 <= q0 as int && 0 <= m;
            vstd::arithmetic::div_mod::lemma_div_is_ordered(2 * (q0 as int), m, 2);
        } else {
            assert(p128() == ui * (q0 as int) + (r0 as int + 1)) by (nonlinear_arith)
                requires m == ui * (q0 as int) + r0 as int && p128() == m + 1;
            lemma_fundamental_div_mod_converse(p128(), ui, q0 as int, r0 as int + 1);
        }
    }
    if r0 == u - 1 {
        q0 + 1
    } else {
        q0
    }
}

/// The Q64.64 square-root price of a tick. Fails with `InvalidTick` exactly
/// when the tick lies outside the valid range.
pub fn get_sqrt_price_at_tick(tick: i32) -> (r: Result<u128, ErrorCode>)
    ensures
        valid_tick(tick as int) ==> r == Result::<u128, ErrorCode>::Ok(
            sqrt_price_spec(tick as int) as u128,
        ),
        !valid_tick(tick as int) ==> r == Result::<u128, ErrorCode>::Err(ErrorCode::InvalidTick),
{
    if tick < MIN_TICK || tick > MAX_TICK {
        return Err(ErrorCode::InvalidTick);
    }
    if tick >= 0 {
        proof {
            lemma_sqrt_price_range(tick as int);
        }
        Ok(pow_ratio_exec(tick as u32))
    } else {
        let denom = pow_ratio_exec((-tick) as u32);
        proof {
            lemma_pow_ratio_lower((-tick) as nat);
            lemma_sqrt_price_range(tick as int);
        }
        Ok(div_p128(denom))
    }
}

/// The tick whose price interval contains the given Q64.64 square-root
/// price, by binary search over the monotonic price map. Fails with
/// `PriceOverflow` exactly when the price lies outside the valid price range.
pub fn get_tick_at_sqrt_price(sqrt_price_x64: u128) -> (r: Result<i32, ErrorCode>)
    ensures
        r matches Ok(t) ==> tick_of_price(t as int, sqrt_price_x64 as int),
        r is Err ==> r == Result::<i32, ErrorCode>::Err(ErrorCode::PriceOverflow) && (
        (sqrt_price_x64 as int) < sqrt_price_spec(-443636) || (sqrt_price_x64 as int)
            > sqrt_price_spec(443636)),
        sqrt_price_spec(-443636) <= sqrt_price_x64 as int <= sqrt_price_spec(443636) ==> r is Ok,
        r is Ok ==> sqrt_price_spec(-443636) <= sqrt_price_x64 as int <= sqrt_price_spec(443636),
{
    let min_price = match get_sqrt_price_at_tick(MIN_TICK) {
        Ok(v) => v,
        Err(_) => 0,
    };
    let max_price = match get_sqrt_price_at_tick(MAX_TICK) {
        Ok(v) => v,
        Err(_) => 0,
    };
    proof {
        lemma_sqrt_price_range(-443636);
        lemma_sqrt_price_range(443636);
    }
    if sqrt_price_x64 < min_price || sqrt_price_x64 > max_price {
        return Err(ErrorCode::PriceOverflow);
    }
    let mut lo: i32 = MIN_TICK;
    let mut hi: i32 = MAX_TICK;
    while lo < hi
        invariant
            -443636 <= lo <= hi <= 443636,
            sqrt_price_spec(lo as int) <= sqrt_price_x64 as int,
            hi == 443636 || (sqrt_price_x64 as int) < sqrt_price_spec(hi as int + 1),
        decreases hi - lo,
    {
        let half: u32 = ((hi - lo + 1) as u32) / 2;
        let mid: i32 = lo + (half as i32);
        let mid_price = match get_sqrt_price_at_tick(mid) {
            Ok(v) => v,
            Err(_) => 0,
        };
        proof {
            lemma_sqrt_price_range(mid as int);
        }
        if mid_price <= sqrt_price_x64 {
            lo = mid;
        } else {
            hi = mid - 1;
        }
    }
    Ok(lo)
}

} // verus!
