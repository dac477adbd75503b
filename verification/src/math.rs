//! Wide fixed-point arithmetic primitives: 256-bit products of 128-bit
//! integers, shifts by the Q64.64 scale, and long division, all exact.

use vstd::prelude::*;
use vstd::arithmetic::div_mod::{
    lemma_div_pos_is_pos, lemma_fundamental_div_mod, lemma_fundamental_div_mod_converse,
};
use vstd::arithmetic::mul::{lemma_mul_inequality, lemma_mul_upper_bound};
use vstd::arithmetic::power2::pow2;

verus! {

/// 2^64 as a spec-level integer.
pub open spec fn p64() -> int {
    0x1_0000_0000_0000_0000
}

/// 2^128 as a spec-level integer.
pub open spec fn p128() -> int {
    0x1_0000_0000_0000_0000_0000_0000_0000_0000int
}

/// The 256-bit product of two 128-bit integers, as (high, low) halves.
pub fn mul_wide(a: u128, b: u128) -> (r: (u128, u128))
    ensures
        r.0 * p128() + r.1 == a * b,
        r.0 * p128() + r.1 <= (p128() - 1) * (p128() - 1),
{
    let mask: u128 = 0xffff_ffff_ffff_ffff;
    let ah: u128 = a >> 64;
    let al: u128 = a & mask;
    let bh: u128 = b >> 64;
    let bl: u128 = b & mask;
    proof {
        assert(ah == a / 0x1_0000_0000_0000_0000 && ah < 0x1_0000_0000_0000_0000
            && al == a % 0x1_0000_0000_0000_0000) by (bit_vector)
            requires ah == a >> 64 && al == a & 0xffff_ffff_ffff_ffff;
        assert(bh == b / 0x1_0000_0000_0000_0000 && bh < 0x1_0000_0000_0000_0000
            && bl == b % 0x1_0000_0000_0000_0000) by (bit_vector)
            requires bh == b >> 64 && bl == b & 0xffff_ffff_ffff_ffff;
        lemma_fundamental_div_mod(a as int, p64());
        lemma_fundamental_div_mod(b as int, p64());
        assert(al < p64() && bl < p64());
        lemma_mul_upper_bound(al as int, p64() - 1, bl as int, p64() - 1);
        lemma_mul_upper_bound(al as int, p64() - 1, bh as int, p64() - 1);
        lemma_mul_upper_bound(ah as int, p64() - 1, bl as int, p64() - 1);
        lemma_mul_upper_bound(ah as int, p64() - 1, bh as int, p64() - 1);
    }
    let ll: u128 = al * bl;
    let lh: u128 = al * bh;
    let hl: u128 = ah * bl;
    let hh: u128 = ah * bh;
    let ll_hi: u128 = ll >> 64;
    let ll_lo: u128 = ll & mask;
    let lh_hi: u128 = lh >> 64;
    let lh_lo: u128 = lh & mask;
    let hl_hi: u128 = hl >> 64;
    let hl_lo: u128 = hl & mask;
    proof {
        assert(ll_hi == ll / 0x1_0000_0000_0000_0000 && ll_hi < 0x1_0000_0000_0000_0000
            && ll_lo == ll % 0x1_0000_0000_0000_0000 && ll_lo < 0x1_0000_0000_0000_0000)
            by (bit_vector)
            requires ll_hi == ll >> 64 && ll_lo == ll & 0xffff_ffff_ffff_ffff;
        assert(lh_hi == lh / 0x1_0000_0000_0000_0000 && lh_hi < 0x1_0000_0000_0000_0000
            && lh_lo == lh % 0x1_0000_0000_0000_0000 && lh_lo < 0x1_0000_0000_0000_0000)
            by (bit_vector)
            requires lh_hi == lh >> 64 && lh_lo == lh & 0xffff_ffff_ffff_ffff;
        assert(hl_hi == hl / 0x1_0000_0000_0000_0000 && hl_hi < 0x1_0000_0000_0000_0000
            && hl_lo == hl % 0x1_0000_0000_0000_0000 && hl_lo < 0x1_0000_0000_0000_0000)
            by (bit_vector)
            requires hl_hi == hl >> 64 && hl_lo == hl & 0xffff_ffff_ffff_ffff;
        lemma_fundamental_div_mod(ll as int, p64());
        lemma_fundamental_div_mod(lh as int, p64());
        lemma_fundamental_div_mod(hl as int, p64());
    }
    let m: u128 = ll_hi + lh_lo + hl_lo;
    let m_hi: u128 = m >> 64;
    let m_lo: u128 = m & mask;
    proof {
        assert(m_hi == m / 0x1_0000_0000_0000_0000
            && m_lo == m % 0x1_0000_0000_0000_0000 && m_lo < 0x1_0000_0000_0000_0000
            && m_hi <= 3) by (bit_vector)
            requires m_hi == m >> 64 && m_lo == m & 0xffff_ffff_ffff_ffff
                && m < 0x3_0000_0000_0000_0000;
        lemma_fundamental_div_mod(m as int, p64());
    }
    proof {
        assert((m_lo << 64) == m_lo * 0x1_0000_0000_0000_0000) by (bit_vector)
            requires m_lo < 0x1_0000_0000_0000_0000;
        lemma_mul_upper_bound(m_lo as int, p64() - 1, p64(), p64());
    }
    let lo: u128 = ll_lo + (m_lo << 64);
    let hi: u128 = hh + lh_hi + hl_hi + m_hi;
    proof {
        // Reassemble: a*b == hh*2^128 + (lh + hl)*2^64 + ll.
        assert(a * b == (ah * p64() + al) * (bh * p64() + bl)) by (nonlinear_arith)
            requires a == ah * p64() + al && b == bh * p64() + bl;
        assert((ah * p64() + al) * (bh * p64() + bl)
            == (ah * bh) * p128() + (al * bh) * p64() + (ah * bl) * p64() + al * bl)
            by (nonlinear_arith);
        // Expand each 128-bit partial product into its halves.
        assert(lh * p64() == lh_hi * p128() + lh_lo * p64()) by (nonlinear_arith)
            requires lh == lh_hi * p64() + lh_lo;
        assert(hl * p64() == hl_hi * p128() + hl_lo * p64()) by (nonlinear_arith)
            requires hl == hl_hi * p64() + hl_lo;
        assert(m * p64() == m_hi * p128() + m_lo * p64()) by (nonlinear_arith)
            requires m == m_hi * p64() + m_lo;
        assert(hi * p128() + lo == a * b) by {
            assert(hi * p128() == hh * p128() + lh_hi * p128() + hl_hi * p128() + m_hi * p128())
                by (nonlinear_arith)
                requires hi == hh + lh_hi + hl_hi + m_hi;
            assert(m * p64() == ll_hi * p64() + lh_lo * p64() + hl_lo * p64())
                by (nonlinear_arith)
                requires m == ll_hi + lh_lo + hl_lo;
        }
        lemma_mul_inequality(a as int, p128() - 1, b as int);
        lemma_mul_inequality(b as int, p128() - 1, (p128() - 1) as int);
    }
    (hi, lo)
}

/// floor(a * b / 2^64) of two 128-bit integers. `None` exactly when the
/// quotient does not fit in 128 bits.
pub fn mul_shr_64(a: u128, b: u128) -> (r: Option<u128>)
    ensures
        match r {
            Some(v) => v == (a * b) / p64() && (a * b) / p64() < p128(),
            None => (a * b) / p64() >= p128(),
        },
{
    let (hi, lo) = mul_wide(a, b);
    let lo_hi: u128 = lo >> 64;
    proof {
        assert(lo_hi == lo / 0x1_0000_0000_0000_0000 && lo_hi < 0x1_0000_0000_0000_0000)
            by (bit_vector)
            requires lo_hi == lo >> 64;
        lemma_shift_64_div(hi as int, lo as int);
    }
    if hi >= 0x1_0000_0000_0000_0000 {
        proof {
            assert((hi as int * p128() + lo as int) / p64() >= p128()) by (nonlinear_arith)
                requires (hi as int) >= p64() && (lo as int) >= 0
                    && (hi as int * p128() + lo as int) / p64()
                        == (hi as int) * p64() + (lo as int) / p64();
        }
        None
    } else {
        let v: u128 = (hi << 64) | lo_hi;
        proof {
            assert((hi << 64) == hi * 0x1_0000_0000_0000_0000
                && ((hi << 64) | lo_hi) == (hi << 64) + lo_hi) by (bit_vector)
                requires hi < 0x1_0000_0000_0000_0000 && lo_hi < 0x1_0000_0000_0000_0000;
            assert((hi as int) * p64() + (lo as int) / p64() < p128()) by (nonlinear_arith)
                requires (hi as int) < p64() && (lo as int) / p64() < p64();
        }
        Some(v)
    }
}

/// ceil(a * b / 2^64) of two 128-bit integers. `None` exactly when the
/// rounded quotient does not fit in 128 bits.
pub fn mul_shr_64_ceil(a: u128, b: u128) -> (r: Option<u128>)
    ensures
        match r {
            Some(v) => v == ((a * b) + p64() - 1) / p64() && ((a * b) + p64() - 1) / p64()
                < p128(),
            None => ((a * b) + p64() - 1) / p64() >= p128(),
        },
{
    let (hi, lo) = mul_wide(a, b);
    let lo_hi: u128 = lo >> 64;
    let lo_rem: u128 = lo & 0xffff_ffff_ffff_ffff;
    proof {
        assert(lo_hi == lo / 0x1_0000_0000_0000_0000 && lo_hi < 0x1_0000_0000_0000_0000
            && lo_rem == lo % 0x1_0000_0000_0000_0000) by (bit_vector)
            requires lo_hi == lo >> 64 && lo_rem == lo & 0xffff_ffff_ffff_ffff;
        lemma_shift_64_div(hi as int, lo as int);
        lemma_ceil_div_from_floor(hi as int * p128() + lo as int, p64());
        lemma_mod_of_wide(hi as int, lo as int);
    }
    let floor_fits: bool = hi < 0x1_0000_0000_0000_0000;
    if !floor_fits {
        proof {
            assert((hi as int * p128() + lo as int) / p64() >= p128()) by (nonlinear_arith)
                requires (hi as int) >= p64() && (lo as int) >= 0
                    && (hi as int * p128() + lo as int) / p64()
                        == (hi as int) * p64() + (lo as int) / p64();
        }
        return None;
    }
    let v: u128 = (hi << 64) | lo_hi;
    proof {
        assert((hi << 64) == hi * 0x1_0000_0000_0000_0000
            && ((hi << 64) | lo_hi) == (hi << 64) + lo_hi) by (bit_vector)
            requires hi < 0x1_0000_0000_0000_0000 && lo_hi < 0x1_0000_0000_0000_0000;
        assert((hi as int) * p64() + (lo as int) / p64() < p128()) by (nonlinear_arith)
            requires (hi as int) < p64() && (lo as int) / p64() < p64();
    }
    if lo_rem == 0 {
        Some(v)
    } else {
        if v == u128::MAX {
            None
        } else {
            Some(v + 1)
        }
    }
}

/// ceil(n/d) is floor(n/d) when d divides n, and floor(n/d) + 1 otherwise.
proof fn lemma_ceil_div_from_floor(n: int, d: int)
    requires
        0 <= n,
        0 < d,
    ensures
        n % d == 0 ==> (n + d - 1) / d == n / d,
        n % d != 0 ==> (n + d - 1) / d == n / d + 1,
{
    lemma_fundamental_div_mod(n, d);
    let q = n / d;
    let m = n % d;
    if m == 0 {
        assert(n + d - 1 == q * d + (d - 1)) by (nonlinear_arith)
            requires n == d * q + m && m == 0;
        lemma_fundamental_div_mod_converse(n + d - 1, d, q, d - 1);
    } else {
        assert(n + d - 1 == (q + 1) * d + (m - 1)) by (nonlinear_arith)
            requires n == d * q + m;
        lemma_fundamental_div_mod_converse(n + d - 1, d, q + 1, m - 1);
    }
}

/// (hi*2^128 + lo) % 2^64 == lo % 2^64.
proof fn lemma_mod_of_wide(hi: int, lo: int)
    requires
        0 <= hi,
        0 <= lo < p128(),
    ensures
        (hi * p128() + lo) % p64() == lo % p64(),
{
    lemma_fundamental_div_mod(lo, p64());
    let q = lo / p64();
    let m = lo % p64();
    assert(hi * p128() + lo == (hi * p64() + q) * p64() + m) by (nonlinear_arith)
        requires lo == q * p64() + m;
    lemma_fundamental_div_mod_converse(hi * p128() + lo, p64(), hi * p64() + q, m);
}

/// floor((hi*2^128 + lo) / d) by binary long division. `None` exactly when
/// `d` is zero or the quotient does not fit in 128 bits.
pub fn div_wide(hi: u128, lo: u128, d: u128) -> (r: Option<u128>)
    ensures
        match r {
            Some(q) => d > 0 && q == (hi as int * p128() + lo as int) / (d as int)
                && (hi as int * p128() + lo as int) / (d as int) < p128(),
            None => d == 0 || (hi as int * p128() + lo as int) / (d as int) >= p128(),
        },
{
    if d == 0 {
        return None;
    }
    let ghost n: int = hi as int * p128() + lo as int;
    if hi >= d {
        proof {
            assert(n / (d as int) >= p128()) by (nonlinear_arith)
                requires n == hi as int * p128() + lo as int && (hi as int) >= (d as int)
                    && (d as int) > 0 && (lo as int) >= 0;
        }
        return None;
    }
    let mut rem: u128 = hi;
    let mut q: u128 = 0;
    let mut i: u32 = 128;
    proof {
        vstd::arithmetic::power2::lemma2_to64();
        vstd::arithmetic::power2::lemma_pow2_adds(64, 64);
        assert(pow2(128) == p128()) by (nonlinear_arith)
            requires pow2(128) == pow2(64) * pow2(64) && pow2(64) == p64();
        assert(n / pow2(128) as int == hi as int) by (nonlinear_arith)
            requires n == hi as int * p128() + lo as int && (lo as int) < p128()
                && pow2(128) == p128() && (lo as int) >= 0;
    }
    while i > 0
        invariant
            0 < d,
            rem < d,
            i <= 128,
            n == hi as int * p128() + lo as int,
            (hi as int) < (d as int),
            q as int * d as int + rem as int == n / pow2(i as nat) as int,
            (q as int) < pow2((128 - i) as nat) as int,
            pow2(128) == p128(),
        decreases i,
    {
        let sh: u32 = i - 1;
        let b: u128 = (lo >> (sh as u128)) & 1;
        proof {
            lemma_div_step(hi as int, lo as int, sh as nat);
            vstd::bits::lemma_u128_shr_is_div(lo, sh as u128);
            assert(((lo >> (sh as u128)) & 1) == (lo >> (sh as u128)) % 2) by (bit_vector);
            vstd::arithmetic::power2::lemma_pow2_pos(sh as nat);
            assert(b as int == (lo as int / pow2(sh as nat) as int) % 2);
            // 2*q + 1 stays within u128.
            vstd::arithmetic::power2::lemma2_to64();
            vstd::arithmetic::power2::lemma_pow2_adds((128 - i) as nat, 1);
            if i > 1 {
                vstd::arithmetic::power2::lemma_pow2_strictly_increases((129 - i) as nat, 128);
            }
        }
        let b2: u128 = b;
        let ghost t: int = 2 * rem as int + b2 as int;
        let new_rem: u128;
        let new_q: u128;
        if rem >= 0x8000_0000_0000_0000_0000_0000_0000_0000 {
            // 2*rem + b is at least 2^128, so it certainly exceeds d.
            new_rem = (rem - (d - rem)) + b2;
            new_q = q * 2 + 1;
            proof {
                assert(new_rem as int == t - d as int);
            }
        } else {
            let t_small: u128 = rem * 2 + b2;
            if t_small >= d {
                new_rem = t_small - d;
                new_q = q * 2 + 1;
            } else {
                new_rem = t_small;
                new_q = q * 2;
            }
        }
        proof {
            let qbit: int = if new_q as int == 2 * q as int + 1 { 1 } else { 0 };
            assert(new_q as int * d as int + new_rem as int
                == 2 * (q as int * d as int + rem as int) + b2 as int) by (nonlinear_arith)
                requires new_q as int == 2 * q as int + qbit
                    && new_rem as int == t - qbit * d as int
                    && t == 2 * rem as int + b2 as int;
            assert(2 * (n / pow2(i as nat) as int) + b2 as int
                == n / pow2((i - 1) as nat) as int);
            assert(n < d as int * p128()) by (nonlinear_arith)
                requires n == hi as int * p128() + lo as int && (hi as int) < (d as int)
                    && (lo as int) < p128() && 0 <= (hi as int);
            lemma_quotient_bound(n, d as int, new_q as int, new_rem as int, sh as nat);
        }
        rem = new_rem;
        q = new_q;
        i = sh;
    }
    proof {
        vstd::arithmetic::power2::lemma2_to64();
        vstd::arithmetic::div_mod::lemma_div_basics(n);
        lemma_fundamental_div_mod_converse(n, d as int, q as int, rem as int);
    }
    Some(q)
}

/// One step of binary long division: halving the divisor power appends the
/// next bit of the dividend.
proof fn lemma_div_step(hi: int, lo: int, sh: nat)
    requires
        0 <= hi,
        0 <= lo < p128(),
        sh < 128,
    ensures
        (hi * p128() + lo) / pow2((sh + 1) as nat) as int * 2 + (lo / pow2(sh) as int) % 2
            == (hi * p128() + lo) / pow2(sh) as int,
{
    let n = hi * p128() + lo;
    vstd::arithmetic::power2::lemma_pow2_adds(sh, 1);
    vstd::arithmetic::power2::lemma2_to64();
    vstd::arithmetic::power2::lemma_pow2_pos(sh);
    let p = pow2(sh) as int;
    // n / 2^sh splits as 2*(n / 2^(sh+1)) + bit, where bit == (n / 2^sh) % 2.
    vstd::arithmetic::div_mod::lemma_div_denominator(n, p, 2);
    assert(pow2((sh + 1) as nat) == pow2(sh) * 2);
    let a = n / p;
    lemma_fundamental_div_mod(a, 2);
    // The bit taken from n agrees with the bit taken from lo.
    lemma_low_bits_agree(hi, lo, sh);
}

/// For sh < 128, (n / 2^sh) % 2 == (lo / 2^sh) % 2 where n = hi*2^128 + lo.
proof fn lemma_low_bits_agree(hi: int, lo: int, sh: nat)
    requires
        0 <= hi,
        0 <= lo < p128(),
        sh < 128,
    ensures
        ((hi * p128() + lo) / pow2(sh) as int) % 2 == (lo / pow2(sh) as int) % 2,
{
    let n = hi * p128() + lo;
    let p = pow2(sh) as int;
    vstd::arithmetic::power2::lemma2_to64();
    vstd::arithmetic::power2::lemma_pow2_pos(sh);
    vstd::arithmetic::power2::lemma_pow2_adds(sh, (128 - sh) as nat);
    vstd::arithmetic::power2::lemma_pow2_adds((128 - sh - 1) as nat, 1);
    vstd::arithmetic::power2::lemma_pow2_pos((128 - sh) as nat);
    vstd::arithmetic::power2::lemma_pow2_pos((128 - sh - 1) as nat);
    assert(pow2(128) == p128()) by {
        vstd::arithmetic::power2::lemma2_to64();
        vstd::arithmetic::power2::lemma_pow2_adds(64, 64);
        assert(pow2(128) == pow2(64) * pow2(64));
        assert(pow2(64) * pow2(64) == p128()) by (nonlinear_arith)
            requires pow2(64) == p64();
    }
    let c = pow2((128 - sh) as nat) as int;
    lemma_fundamental_div_mod(lo, p);
    let ql = lo / p;
    let ml = lo % p;
    assert(n == (hi * c + ql) * p + ml) by (nonlinear_arith)
        requires n == hi * p128() + lo && lo == ql * p + ml && p128() == c * p;
    vstd::arithmetic::div_mod::lemma_remainder_lower(lo, p);
    lemma_fundamental_div_mod_converse(n, p, hi * c + ql, ml);
    // hi*c is even because c is a positive power of two with exponent >= 1.
    let c2 = pow2((128 - sh - 1) as nat) as int;
    assert(c == c2 * 2);
    assert(hi * c == 2 * (hi * c2)) by (nonlinear_arith)
        requires c == c2 * 2;
    vstd::arithmetic::div_mod::lemma_mod_multiples_vanish(hi * c2, ql, 2);
}

/// If n < d*2^128 and q*d + r accounts for n's top bits past position e,
/// then q fits in 128 - e bits.
proof fn lemma_quotient_bound(n: int, d: int, q: int, r: int, e: nat)
    requires
        0 < d,
        0 <= r,
        0 <= n,
        e <= 127,
        n < d * p128(),
        q * d + r == n / pow2(e) as int,
    ensures
        q < pow2((128 - e) as nat) as int,
{
    vstd::arithmetic::power2::lemma_pow2_pos(e);
    vstd::arithmetic::power2::lemma_pow2_pos((128 - e) as nat);
    vstd::arithmetic::power2::lemma_pow2_adds((128 - e) as nat, e);
    assert(pow2(128) == p128()) by {
        vstd::arithmetic::power2::lemma2_to64();
        vstd::arithmetic::power2::lemma_pow2_adds(64, 64);
        assert(pow2(64) * pow2(64) == p128()) by (nonlinear_arith)
            requires pow2(64) == p64();
    }
    let ee = pow2(e) as int;
    let pp = pow2((128 - e) as nat) as int;
    vstd::arithmetic::div_mod::lemma_remainder_lower(n, ee);
    lemma_div_pos_is_pos(n, ee);
    assert(q < pp) by (nonlinear_arith)
        requires q * d + r == n / ee && 0 <= r && 0 < d && 0 <= n / ee
            && (n / ee) * ee <= n && n < d * (pp * ee) && 0 < ee && 0 < pp;
}

/// floor(n / 2^64) of a 256-bit value n = hi*2^128 + lo equals
/// hi*2^64 + lo/2^64.
proof fn lemma_shift_64_div(hi: int, lo: int)
    requires
        0 <= hi,
        0 <= lo < p128(),
    ensures
        (hi * p128() + lo) / p64() == hi * p64() + lo / p64(),
{
    lemma_fundamental_div_mod(lo, p64());
    let q = lo / p64();
    let m = lo % p64();
    assert(hi * p128() + lo == (hi * p64() + q) * p64() + m) by (nonlinear_arith)
        requires lo == q * p64() + m;
    lemma_fundamental_div_mod_converse(hi * p128() + lo, p64(), hi * p64() + q, m);
}

} // verus!
