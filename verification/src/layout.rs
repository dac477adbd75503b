//! Byte-exact account layout: an explicit encode/decode pair over fixed,
//! validated offsets with little-endian integers, so persisted pool state
//! can be exchanged with other implementations field for field.

use vstd::prelude::*;
use crate::error::ErrorCode;
use crate::pool::{Address, PoolState, RewardInfo};

verus! {

/// Bytes of one reward record in the account layout.
pub const REWARD_INFO_LEN: usize = 169;

/// Bytes of the pool account body, after the 8-byte account discriminator.
pub const POOL_STATE_BODY_LEN: usize = 1536;

/// Byte `k` of the little-endian encoding of a 128-bit integer.
pub open spec fn u128_byte(v: u128, k: int) -> u8 {
    ((v >> (8 * k)) & 0xff) as u8
}

/// Byte `k` of the little-endian encoding of a 64-bit integer.
pub open spec fn u64_byte(v: u64, k: int) -> u8 {
    ((v >> (8 * k)) & 0xff) as u8
}

/// Byte `k` of the little-endian encoding of a 32-bit integer.
pub open spec fn u32_byte(v: u32, k: int) -> u8 {
    ((v >> (8 * k)) & 0xff) as u8
}

/// Byte `k` of the little-endian encoding of a 16-bit integer.
pub open spec fn u16_byte(v: u16, k: int) -> u8 {
    ((v >> (8 * k)) & 0xff) as u8
}

/// Byte `k` of a 32-byte address: its first half, then its second half.
pub open spec fn addr_byte(a: Address, k: int) -> u8 {
    if k < 16 {
        u128_byte(a.w0, k)
    } else {
        u128_byte(a.w1, k - 16)
    }
}

/// The 16-bit integer stored little-endian at `off`.
pub open spec fn u16_of(b: Seq<u8>, off: int) -> u16 {
    (b[off] as u16) | ((b[off + 1] as u16) << 8)
}

/// The 32-bit integer stored little-endian at `off`.
pub open spec fn u32_of(b: Seq<u8>, off: int) -> u32 {
    (b[off] as u32) | ((b[off + 1] as u32) << 8) | ((b[off + 2] as u32) << 16) | ((b[off
        + 3] as u32) << 24)
}

/// The 64-bit integer stored little-endian at `off`.
pub open spec fn u64_of(b: Seq<u8>, off: int) -> u64 {
    (b[off] as u64) | ((b[off + 1] as u64) << 8) | ((b[off + 2] as u64) << 16) | ((b[off
        + 3] as u64) << 24) | ((b[off + 4] as u64) << 32) | ((b[off + 5] as u64) << 40) | ((b[off
        + 6] as u64) << 48) | ((b[off + 7] as u64) << 56)
}

/// The 128-bit integer stored little-endian at `off`.
pub open spec fn u128_of(b: Seq<u8>, off: int) -> u128 {
    (b[off] as u128) | ((b[off + 1] as u128) << 8) | ((b[off + 2] as u128) << 16) | ((b[off
        + 3] as u128) << 24) | ((b[off + 4] as u128) << 32) | ((b[off + 5] as u128) << 40) | ((
    b[off + 6] as u128) << 48) | ((b[off + 7] as u128) << 56) | ((b[off + 8] as u128) << 64) | ((
    b[off + 9] as u128) << 72) | ((b[off + 10] as u128) << 80) | ((b[off + 11] as u128) << 88) | ((
    b[off + 12] as u128) << 96) | ((b[off + 13] as u128) << 104) | ((b[off + 14] as u128) << 112)
        | ((b[off + 15] as u128) << 120)
}

/// The 32-byte address stored at `off`.
pub open spec fn addr_of(b: Seq<u8>, off: int) -> Address {
    Address { w0: u128_of(b, off), w1: u128_of(b, off + 16) }
}

/// Reassembling the little-endian bytes of a 16-bit integer returns it.
proof fn lemma_le16_round_trip(v: u16)
    by (bit_vector)
    ensures
        ((((v >> 0) & 0xff) as u8) as u16) | (((((v >> 8) & 0xff) as u8) as u16) << 8) == v,
{
}

/// Reassembling the little-endian bytes of a 32-bit integer returns it.
proof fn lemma_le32_round_trip(v: u32)
    by (bit_vector)
    ensures
        ((((v >> 0) & 0xff) as u8) as u32) | (((((v >> 8) & 0xff) as u8) as u32) << 8) | (((((v
            >> 16) & 0xff) as u8) as u32) << 16) | (((((v >> 24) & 0xff) as u8) as u32) << 24)
            == v,
{
}

/// Reassembling the little-endian bytes of a 64-bit integer returns it.
proof fn lemma_le64_round_trip(v: u64)
    by (bit_vector)
    ensures
        ((((v >> 0) & 0xff) as u8) as u64) | (((((v >> 8) & 0xff) as u8) as u64) << 8) | (((((v
            >> 16) & 0xff) as u8) as u64) << 16) | (((((v >> 24) & 0xff) as u8) as u64) << 24) | ((
        (((v >> 32) & 0xff) as u8) as u64) << 32) | (((((v >> 40) & 0xff) as u8) as u64) << 40) | (
        ((((v >> 48) & 0xff) as u8) as u64) << 48) | (((((v >> 56) & 0xff) as u8) as u64) << 56)
            == v,
{
}

/// Reassembling the little-endian bytes of a 128-bit integer returns it.
proof fn lemma_le128_round_trip(v: u128)
    by (bit_vector)
    ensures
        ((((v >> 0) & 0xff) as u8) as u128) | (((((v >> 8) & 0xff) as u8) as u128) << 8) | (((((
        v >> 16) & 0xff) as u8) as u128) << 16) | (((((v >> 24) & 0xff) as u8) as u128) << 24) | ((
        (((v >> 32) & 0xff) as u8) as u128) << 32) | (((((v >> 40) & 0xff) as u8) as u128) << 40)
            | (((((v >> 48) & 0xff) as u8) as u128) << 48) | (((((v >> 56) & 0xff) as u8) as u128)
            << 56) | (((((v >> 64) & 0xff) as u8) as u128) << 64) | (((((v >> 72) & 0xff) as u8)
            as u128) << 72) | (((((v >> 80) & 0xff) as u8) as u128) << 80) | (((((v >> 88) & 0xff)
            as u8) as u128) << 88) | (((((v >> 96) & 0xff) as u8) as u128) << 96) | (((((v >> 104)
            & 0xff) as u8) as u128) << 104) | (((((v >> 112) & 0xff) as u8) as u128) << 112) | (((
        ((v >> 120) & 0xff) as u8) as u128) << 120) == v,
{
}

/// If sixteen consecutive bytes hold the little-endian encoding of `v`, the
/// 128-bit read at their start returns `v`.
proof fn lemma_u128_of_bytes(b: Seq<u8>, off: int, v: u128)
    requires
        forall|k: int| 0 <= k < 16 ==> #[trigger] b[off + k] == u128_byte(v, k),
    ensures
        u128_of(b, off) == v,
{
    assert(b[off + 0] == u128_byte(v, 0));
    assert(b[off + 1] == u128_byte(v, 1));
    assert(b[off + 2] == u128_byte(v, 2));
    assert(b[off + 3] == u128_byte(v, 3));
    assert(b[off + 4] == u128_byte(v, 4));
    assert(b[off + 5] == u128_byte(v, 5));
    assert(b[off + 6] == u128_byte(v, 6));
    assert(b[off + 7] == u128_byte(v, 7));
    assert(b[off + 8] == u128_byte(v, 8));
    assert(b[off + 9] == u128_byte(v, 9));
    assert(b[off + 10] == u128_byte(v, 10));
    assert(b[off + 11] == u128_byte(v, 11));
    assert(b[off + 12] == u128_byte(v, 12));
    assert(b[off + 13] == u128_byte(v, 13));
    assert(b[off + 14] == u128_byte(v, 14));
    assert(b[off + 15] == u128_byte(v, 15));
    assert(b[off] == b[off + 0]);
    lemma_le128_round_trip(v);
}

/// If eight consecutive bytes hold the little-endian encoding of `v`, the
/// 64-bit read at their start returns `v`.
proof fn lemma_u64_of_bytes(b: Seq<u8>, off: int, v: u64)
    requires
        forall|k: int| 0 <= k < 8 ==> #[trigger] b[off + k] == u64_byte(v, k),
    ensures
        u64_of(b, off) == v,
{
    assert(b[off + 0] == u64_byte(v, 0));
    assert(b[off + 1] == u64_byte(v, 1));
    assert(b[off + 2] == u64_byte(v, 2));
    assert(b[off + 3] == u64_byte(v, 3));
    assert(b[off + 4] == u64_byte(v, 4));
    assert(b[off + 5] == u64_byte(v, 5));
    assert(b[off + 6] == u64_byte(v, 6));
    assert(b[off + 7] == u64_byte(v, 7));
    assert(b[off] == b[off + 0]);
    lemma_le64_round_trip(v);
}

/// If four consecutive bytes hold the little-endian encoding of `v`, the
/// 32-bit read at their start returns `v`.
proof fn lemma_u32_of_bytes(b: Seq<u8>, off: int, v: u32)
    requires
        forall|k: int| 0 <= k < 4 ==> #[trigger] b[off + k] == u32_byte(v, k),
    ensures
        u32_of(b, off) == v,
{
    assert(b[off + 0] == u32_byte(v, 0));
    assert(b[off + 1] == u32_byte(v, 1));
    assert(b[off + 2] == u32_byte(v, 2));
    assert(b[off + 3] == u32_byte(v, 3));
    assert(b[off] == b[off + 0]);
    lemma_le32_round_trip(v);
}

/// If two consecutive bytes hold the little-endian encoding of `v`, the
/// 16-bit read at their start returns `v`.
proof fn lemma_u16_of_bytes(b: Seq<u8>, off: int, v: u16)
    requires
        forall|k: int| 0 <= k < 2 ==> #[trigger] b[off + k] == u16_byte(v, k),
    ensures
        u16_of(b, off) == v,
{
    assert(b[off + 0] == u16_byte(v, 0));
    assert(b[off + 1] == u16_byte(v, 1));
    assert(b[off] == b[off + 0]);
    lemma_le16_round_trip(v);
}

/// If thirty-two consecutive bytes hold an address, the address read at
/// their start returns it.
proof fn lemma_addr_of_bytes(b: Seq<u8>, off: int, a: Address)
    requires
        forall|k: int| 0 <= k < 32 ==> #[trigger] b[off + k] == addr_byte(a, k),
    ensures
        addr_of(b, off) == a,
{
    assert forall|k: int| 0 <= k < 16 implies #[trigger] b[off + k] == u128_byte(a.w0, k) by {}
    lemma_u128_of_bytes(b, off, a.w0);
    assert forall|k: int| 0 <= k < 16 implies #[trigger] b[off + 16 + k] == u128_byte(
        a.w1,
        k,
    ) by {
        assert(b[off + (16 + k)] == addr_byte(a, 16 + k));
    }
    lemma_u128_of_bytes(b, off + 16, a.w1);
}

/// Byte `k` of one reward record's fixed 169-byte layout.
pub open spec fn reward_byte(r: RewardInfo, k: int) -> u8 {
    if k == 0 {
        r.reward_state
    } else if k < 9 {
        u64_byte(r.open_time, k - 1)
    } else if k < 17 {
        u64_byte(r.end_time, k - 9)
    } else if k < 25 {
        u64_byte(r.last_update_time, k - 17)
    } else if k < 41 {
        u128_byte(r.emissions_per_second_x64, k - 25)
    } else if k < 49 {
        u64_byte(r.reward_total_emissioned, k - 41)
    } else if k < 57 {
        u64_byte(r.reward_claimed, k - 49)
    } else if k < 89 {
        addr_byte(r.token_mint, k - 57)
    } else if k < 121 {
        addr_byte(r.token_vault, k - 89)
    } else if k < 153 {
        addr_byte(r.authority, k - 121)
    } else {
        u128_byte(r.reward_growth_global_x64, k - 153)
    }
}

/// Whether the bytes at `off` hold exactly this reward record.
pub open spec fn reward_layout_ok(r: RewardInfo, b: Seq<u8>, off: int) -> bool {
    &&& b[off] == r.reward_state
    &&& u64_of(b, off + 1) == r.open_time
    &&& u64_of(b, off + 9) == r.end_time
    &&& u64_of(b, off + 17) == r.last_update_time
    &&& u128_of(b, off + 25) == r.emissions_per_second_x64
    &&& u64_of(b, off + 41) == r.reward_total_emissioned
    &&& u64_of(b, off + 49) == r.reward_claimed
    &&& addr_of(b, off + 57) == r.token_mint
    &&& addr_of(b, off + 89) == r.token_vault
    &&& addr_of(b, off + 121) == r.authority
    &&& u128_of(b, off + 153) == r.reward_growth_global_x64
}

/// Bytes holding the reward record's layout hold exactly its fields.
proof fn lemma_reward_bytes_layout(r: RewardInfo, b: Seq<u8>, off: int)
    requires
        forall|k: int| 0 <= k < 169 ==> #[trigger] b[off + k] == reward_byte(r, k),
    ensures
        reward_layout_ok(r, b, off),
{
    assert(b[off + 0] == reward_byte(r, 0));
    assert forall|k: int| 0 <= k < 8 implies #[trigger] b[off + 1 + k] == u64_byte(
        r.open_time,
        k,
    ) by {
        assert(b[off + (1 + k)] == reward_byte(r, 1 + k));
    }
    lemma_u64_of_bytes(b, off + 1, r.open_time);
    assert forall|k: int| 0 <= k < 8 implies #[trigger] b[off + 9 + k] == u64_byte(
        r.end_time,
        k,
    ) by {
        assert(b[off + (9 + k)] == reward_byte(r, 9 + k));
    }
    lemma_u64_of_bytes(b, off + 9, r.end_time);
    assert forall|k: int| 0 <= k < 8 implies #[trigger] b[off + 17 + k] == u64_byte(
        r.last_update_time,
        k,
    ) by {
        assert(b[off + (17 + k)] == reward_byte(r, 17 + k));
    }
    lemma_u64_of_bytes(b, off + 17, r.last_update_time);
    assert forall|k: int| 0 <= k < 16 implies #[trigger] b[off + 25 + k] == u128_byte(
        r.emissions_per_second_x64,
        k,
    ) by {
        assert(b[off + (25 + k)] == reward_byte(r, 25 + k));
    }
    lemma_u128_of_bytes(b, off + 25, r.emissions_per_second_x64);
    assert forall|k: int| 0 <= k < 8 implies #[trigger] b[off + 41 + k] == u64_byte(
        r.reward_total_emissioned,
        k,
    ) by {
        assert(b[off + (41 + k)] == reward_byte(r, 41 + k));
    }
    lemma_u64_of_bytes(b, off + 41, r.reward_total_emissioned);
    assert forall|k: int| 0 <= k < 8 implies #[trigger] b[off + 49 + k] == u64_byte(
        r.reward_claimed,
        k,
    ) by {
        assert(b[off + (49 + k)] == reward_byte(r, 49 + k));
    }
    lemma_u64_of_bytes(b, off + 49, r.reward_claimed);
    assert forall|k: int| 0 <= k < 32 implies #[trigger] b[off + 57 + k] == addr_byte(
        r.token_mint,
        k,
    ) by {
        assert(b[off + (57 + k)] == reward_byte(r, 57 + k));
    }
    lemma_addr_of_bytes(b, off + 57, r.token_mint);
    assert forall|k: int| 0 <= k < 32 implies #[trigger] b[off + 89 + k] == addr_byte(
        r.token_vault,
        k,
    ) by {
        assert(b[off + (89 + k)] == reward_byte(r, 89 + k));
    }
    lemma_addr_of_bytes(b, off + 89, r.token_vault);
    assert forall|k: int| 0 <= k < 32 implies #[trigger] b[off + 121 + k] == addr_byte(
        r.authority,
        k,
    ) by {
        assert(b[off + (121 + k)] == reward_byte(r, 121 + k));
    }
    lemma_addr_of_bytes(b, off + 121, r.authority);
    assert forall|k: int| 0 <= k < 16 implies #[trigger] b[off + 153 + k] == u128_byte(
        r.reward_growth_global_x64,
        k,
    ) by {
        assert(b[off + (153 + k)] == reward_byte(r, 153 + k));
    }
    lemma_u128_of_bytes(b, off + 153, r.reward_growth_global_x64);
}

/// Byte `i` of the pool account body: every field at its fixed offset, all
/// integers little-endian, reserved regions preserved verbatim.
pub open spec fn pool_byte(p: PoolState, i: int) -> u8
    recommends
        p.wf(),
        0 <= i < 1536,
{
    if i == 0 {
        p.bump
    } else if i < 33 {
        addr_byte(p.amm_config, i - 1)
    } else if i < 65 {
        addr_byte(p.owner, i - 33)
    } else if i < 97 {
        addr_byte(p.token_mint_0, i - 65)
    } else if i < 129 {
        addr_byte(p.token_mint_1, i - 97)
    } else if i < 161 {
        addr_byte(p.token_vault_0, i - 129)
    } else if i < 193 {
        addr_byte(p.token_vault_1, i - 161)
    } else if i < 225 {
        addr_byte(p.observation_key, i - 193)
    } else if i == 225 {
        p.mint_decimals_0
    } else if i == 226 {
        p.mint_decimals_1
    } else if i < 229 {
        u16_byte(p.tick_spacing, i - 227)
    } else if i < 245 {
        u128_byte(p.liquidity, i - 229)
    } else if i < 261 {
        u128_byte(p.sqrt_price_x64, i - 245)
    } else if i < 265 {
        u32_byte(p.tick_current as u32, i - 261)
    } else if i < 267 {
        u16_byte(p.padding3, i - 265)
    } else if i < 269 {
        u16_byte(p.padding4, i - 267)
    } else if i < 285 {
        u128_byte(p.fee_growth_global_0_x64, i - 269)
    } else if i < 301 {
        u128_byte(p.fee_growth_global_1_x64, i - 285)
    } else if i < 309 {
        u64_byte(p.protocol_fees_token_0, i - 301)
    } else if i < 317 {
        u64_byte(p.protocol_fees_token_1, i - 309)
    } else if i < 333 {
        u128_byte(p.swap_in_amount_token_0, i - 317)
    } else if i < 349 {
        u128_byte(p.swap_out_amount_token_1, i - 333)
    } else if i < 365 {
        u128_byte(p.swap_in_amount_token_1, i - 349)
    } else if i < 381 {
        u128_byte(p.swap_out_amount_token_0, i - 365)
    } else if i == 381 {
        p.status
    } else if i < 389 {
        p.padding@[i - 382]
    } else if i < 896 {
        reward_byte(p.reward_infos@[(i - 389) / 169], (i - 389) % 169)
    } else if i < 1024 {
        u64_byte(p.tick_array_bitmap@[(i - 896) / 8], (i - 896) % 8)
    } else if i < 1032 {
        u64_byte(p.total_fees_token_0, i - 1024)
    } else if i < 1040 {
        u64_byte(p.total_fees_claimed_token_0, i - 1032)
    } else if i < 1048 {
        u64_byte(p.total_fees_token_1, i - 1040)
    } else if i < 1056 {
        u64_byte(p.total_fees_claimed_token_1, i - 1048)
    } else if i < 1064 {
        u64_byte(p.fund_fees_token_0, i - 1056)
    } else if i < 1072 {
        u64_byte(p.fund_fees_token_1, i - 1064)
    } else if i < 1080 {
        u64_byte(p.open_time, i - 1072)
    } else if i < 1088 {
        u64_byte(p.recent_epoch, i - 1080)
    } else if i < 1280 {
        u64_byte(p.padding1@[(i - 1088) / 8], (i - 1088) % 8)
    } else {
        u64_byte(p.padding2@[(i - 1280) / 8], (i - 1280) % 8)
    }
}

/// Whether the byte image `b` holds exactly the pool `p`, field for field at
/// the fixed offsets.
pub open spec fn pool_layout_ok(p: PoolState, b: Seq<u8>) -> bool {
    &&& b.len() == 1536
    &&& b[0] == p.bump
    &&& addr_of(b, 1) == p.amm_config
    &&& addr_of(b, 33) == p.owner
    &&& addr_of(b, 65) == p.token_mint_0
    &&& addr_of(b, 97) == p.token_mint_1
    &&& addr_of(b, 129) == p.token_vault_0
    &&& addr_of(b, 161) == p.token_vault_1
    &&& addr_of(b, 193) == p.observation_key
    &&& b[225] == p.mint_decimals_0
    &&& b[226] == p.mint_decimals_1
    &&& u16_of(b, 227) == p.tick_spacing
    &&& u128_of(b, 229) == p.liquidity
    &&& u128_of(b, 245) == p.sqrt_price_x64
    &&& u32_of(b, 261) == p.tick_current as u32
    &&& u16_of(b, 265) == p.padding3
    &&& u16_of(b, 267) == p.padding4
    &&& u128_of(b, 269) == p.fee_growth_global_0_x64
    &&& u128_of(b, 285) == p.fee_growth_global_1_x64
    &&& u64_of(b, 301) == p.protocol_fees_token_0
    &&& u64_of(b, 309) == p.protocol_fees_token_1
    &&& u128_of(b, 317) == p.swap_in_amount_token_0
    &&& u128_of(b, 333) == p.swap_out_amount_token_1
    &&& u128_of(b, 349) == p.swap_in_amount_token_1
    &&& u128_of(b, 365) == p.swap_out_amount_token_0
    &&& b[381] == p.status
    &&& (forall|i: int| 0 <= i < 7 ==> b[382 + i] == p.padding@[i])
    &&& (forall|i: int|
        0 <= i < 3 ==> reward_layout_ok(p.reward_infos@[i], b, 389 + 169 * i))
    &&& (forall|i: int| 0 <= i < 16 ==> u64_of(b, 896 + 8 * i) == p.tick_array_bitmap@[i])
    &&& u64_of(b, 1024) == p.total_fees_token_0
    &&& u64_of(b, 1032) == p.total_fees_claimed_token_0
    &&& u64_of(b, 1040) == p.total_fees_token_1
    &&& u64_of(b, 1048) == p.total_fees_claimed_token_1
    &&& u64_of(b, 1056) == p.fund_fees_token_0
    &&& u64_of(b, 1064) == p.fund_fees_token_1
    &&& u64_of(b, 1072) == p.open_time
    &&& u64_of(b, 1080) == p.recent_epoch
    &&& (forall|i: int| 0 <= i < 24 ==> u64_of(b, 1088 + 8 * i) == p.padding1@[i])
    &&& (forall|i: int| 0 <= i < 32 ==> u64_of(b, 1280 + 8 * i) == p.padding2@[i])
}

/// Byte `k` of a 128-bit integer's little-endian encoding.
fn u128_byte_exec(v: u128, k: usize) -> (r: u8)
    requires
        k < 16,
    ensures
        r == u128_byte(v, k as int),
{
    match k {
        0 => ((v >> 0) & 0xff) as u8,
        1 => ((v >> 8) & 0xff) as u8,
        2 => ((v >> 16) & 0xff) as u8,
        3 => ((v >> 24) & 0xff) as u8,
        4 => ((v >> 32) & 0xff) as u8,
        5 => ((v >> 40) & 0xff) as u8,
        6 => ((v >> 48) & 0xff) as u8,
        7 => ((v >> 56) & 0xff) as u8,
        8 => ((v >> 64) & 0xff) as u8,
        9 => ((v >> 72) & 0xff) as u8,
        10 => ((v >> 80) & 0xff) as u8,
        11 => ((v >> 88) & 0xff) as u8,
        12 => ((v >> 96) & 0xff) as u8,
        13 => ((v >> 104) & 0xff) as u8,
        14 => ((v >> 112) & 0xff) as u8,
        _ => ((v >> 120) & 0xff) as u8,
    }
}

/// Byte `k` of a 64-bit integer's little-endian encoding.
fn u64_byte_exec(v: u64, k: usize) -> (r: u8)
    requires
        k < 8,
    ensures
        r == u64_byte(v, k as int),
{
    match k {
        0 => ((v >> 0) & 0xff) as u8,
        1 => ((v >> 8) & 0xff) as u8,
        2 => ((v >> 16) & 0xff) as u8,
        3 => ((v >> 24) & 0xff) as u8,
        4 => ((v >> 32) & 0xff) as u8,
        5 => ((v >> 40) & 0xff) as u8,
        6 => ((v >> 48) & 0xff) as u8,
        _ => ((v >> 56) & 0xff) as u8,
    }
}

/// Byte `k` of a 32-bit integer's little-endian encoding.
fn u32_byte_exec(v: u32, k: usize) -> (r: u8)
    requires
        k < 4,
    ensures
        r == u32_byte(v, k as int),
{
    match k {
        0 => ((v >> 0) & 0xff) as u8,
        1 => ((v >> 8) & 0xff) as u8,
        2 => ((v >> 16) & 0xff) as u8,
        _ => ((v >> 24) & 0xff) as u8,
    }
}

/// Byte `k` of a 16-bit integer's little-endian encoding.
fn u16_byte_exec(v: u16, k: usize) -> (r: u8)
    requires
        k < 2,
    ensures
        r == u16_byte(v, k as int),
{
    match k {
        0 => ((v >> 0) & 0xff) as u8,
        _ => ((v >> 8) & 0xff) as u8,
    }
}

/// Byte `k` of a 32-byte address.
fn addr_byte_exec(a: &Address, k: usize) -> (r: u8)
    requires
        k < 32,
    ensures
        r == addr_byte(*a, k as int),
{
    if k < 16 {
        u128_byte_exec(a.w0, k)
    } else {
        u128_byte_exec(a.w1, k - 16)
    }
}

/// Byte `k` of a reward record's 169-byte layout.
fn reward_byte_exec(r: &RewardInfo, k: usize) -> (b: u8)
    requires
        k < 169,
    ensures
        b == reward_byte(*r, k as int),
{
    if k == 0 {
        r.reward_state
    } else if k < 9 {
        u64_byte_exec(r.open_time, k - 1)
    } else if k < 17 {
        u64_byte_exec(r.end_time, k - 9)
    } else if k < 25 {
        u64_byte_exec(r.last_update_time, k - 17)
    } else if k < 41 {
        u128_byte_exec(r.emissions_per_second_x64, k - 25)
    } else if k < 49 {
        u64_byte_exec(r.reward_total_emissioned, k - 41)
    } else if k < 57 {
        u64_byte_exec(r.reward_claimed, k - 49)
    } else if k < 89 {
        addr_byte_exec(&r.token_mint, k - 57)
    } else if k < 121 {
        addr_byte_exec(&r.token_vault, k - 89)
    } else if k < 153 {
        addr_byte_exec(&r.authority, k - 121)
    } else {
        u128_byte_exec(r.reward_growth_global_x64, k - 153)
    }
}

/// Byte `i` of the pool account body.
fn pool_byte_exec(p: &PoolState, i: usize) -> (r: u8)
    requires
        p.wf(),
        i < 1536,
    ensures
        r == pool_byte(*p, i as int),
{
    if i == 0 {
        p.bump
    } else if i < 33 {
        addr_byte_exec(&p.amm_config, i - 1)
    } else if i < 65 {
        addr_byte_exec(&p.owner, i - 33)
    } else if i < 97 {
        addr_byte_exec(&p.token_mint_0, i - 65)
    } else if i < 129 {
        addr_byte_exec(&p.token_mint_1, i - 97)
    } else if i < 161 {
        addr_byte_exec(&p.token_vault_0, i - 129)
    } else if i < 193 {
        addr_byte_exec(&p.token_vault_1, i - 161)
    } else if i < 225 {
        addr_byte_exec(&p.observation_key, i - 193)
    } else if i == 225 {
        p.mint_decimals_0
    } else if i == 226 {
        p.mint_decimals_1
    } else if i < 229 {
        u16_byte_exec(p.tick_spacing, i - 227)
    } else if i < 245 {
        u128_byte_exec(p.liquidity, i - 229)
    } else if i < 261 {
        u128_byte_exec(p.sqrt_price_x64, i - 245)
    } else if i < 265 {
        #[verifier::truncate]
        let w: u32 = p.tick_current as u32;
        u32_byte_exec(w, i - 261)
    } else if i < 267 {
        u16_byte_exec(p.padding3, i - 265)
    } else if i < 269 {
        u16_byte_exec(p.padding4, i - 267)
    } else if i < 285 {
        u128_byte_exec(p.fee_growth_global_0_x64, i - 269)
    } else if i < 301 {
        u128_byte_exec(p.fee_growth_global_1_x64, i - 285)
    } else if i < 309 {
        u64_byte_exec(p.protocol_fees_token_0, i - 301)
    } else if i < 317 {
        u64_byte_exec(p.protocol_fees_token_1, i - 309)
    } else if i < 333 {
        u128_byte_exec(p.swap_in_amount_token_0, i - 317)
    } else if i < 349 {
        u128_byte_exec(p.swap_out_amount_token_1, i - 333)
    } else if i < 365 {
        u128_byte_exec(p.swap_in_amount_token_1, i - 349)
    } else if i < 381 {
        u128_byte_exec(p.swap_out_amount_token_0, i - 365)
    } else if i == 381 {
        p.status
    } else if i < 389 {
        p.padding[i - 382]
    } else if i < 896 {
        let j = (i - 389) / 169;
        let k = (i - 389) % 169;
        reward_byte_exec(&p.reward_infos[j], k)
    } else if i < 1024 {
        let j = (i - 896) / 8;
        let k = (i - 896) % 8;
        u64_byte_exec(p.tick_array_bitmap[j], k)
    } else if i < 1032 {
        u64_byte_exec(p.total_fees_token_0, i - 1024)
    } else if i < 1040 {
        u64_byte_exec(p.total_fees_claimed_token_0, i - 1032)
    } else if i < 1048 {
        u64_byte_exec(p.total_fees_token_1, i - 1040)
    } else if i < 1056 {
        u64_byte_exec(p.total_fees_claimed_token_1, i - 1048)
    } else if i < 1064 {
        u64_byte_exec(p.fund_fees_token_0, i - 1056)
    } else if i < 1072 {
        u64_byte_exec(p.fund_fees_token_1, i - 1064)
    } else if i < 1080 {
        u64_byte_exec(p.open_time, i - 1072)
    } else if i < 1088 {
        u64_byte_exec(p.recent_epoch, i - 1080)
    } else if i < 1280 {
        let j = (i - 1088) / 8;
        let k = (i - 1088) % 8;
        u64_byte_exec(p.padding1[j], k)
    } else {
        let j = (i - 1280) / 8;
        let k = (i - 1280) % 8;
        u64_byte_exec(p.padding2[j], k)
    }
}

/// Serialize the pool account body: every field at its fixed offset, all
/// integers little-endian.
pub fn pool_to_bytes(p: &PoolState) -> (r: Vec<u8>)
    requires
        p.wf(),
    ensures
        r@.len() == 1536,
        forall|i: int| 0 <= i < 1536 ==> r@[i] == pool_byte(*p, i),
        pool_layout_ok(*p, r@),
{
    let mut buf: Vec<u8> = Vec::new();
    let mut i: usize = 0;
    while i < 1536
        invariant
            p.wf(),
            i <= 1536,
            buf@.len() == i,
            forall|j: int| 0 <= j < i ==> buf@[j] == pool_byte(*p, j),
        decreases 1536 - i,
    {
        buf.push(pool_byte_exec(p, i));
        i += 1;
    }
    proof {
        lemma_pool_bytes_layout(*p, buf@);
    }
    buf
}

/// A byte image that matches the pool byte map holds the pool's layout.
#[verifier::rlimit(100)]
proof fn lemma_pool_bytes_layout(p: PoolState, b: Seq<u8>)
    requires
        p.wf(),
        b.len() == 1536,
        forall|i: int| 0 <= i < 1536 ==> #[trigger] b[i] == pool_byte(p, i),
    ensures
        pool_layout_ok(p, b),
{
    assert(b[0] == pool_byte(p, 0));
    assert(b[225] == pool_byte(p, 225));
    assert(b[226] == pool_byte(p, 226));
    assert(b[381] == pool_byte(p, 381));
    assert forall|k: int| 0 <= k < 32 implies #[trigger] b[1 + k] == addr_byte(
        p.amm_config,
        k,
    ) by {
        assert(b[1 + k] == pool_byte(p, 1 + k));
    }
    lemma_addr_of_bytes(b, 1, p.amm_config);
    assert forall|k: int| 0 <= k < 32 implies #[trigger] b[33 + k] == addr_byte(
        p.owner,
        k,
    ) by {
        assert(b[33 + k] == pool_byte(p, 33 + k));
    }
    lemma_addr_of_bytes(b, 33, p.owner);
    assert forall|k: int| 0 <= k < 32 implies #[trigger] b[65 + k] == addr_byte(
        p.token_mint_0,
        k,
    ) by {
        assert(b[65 + k] == pool_byte(p, 65 + k));
    }
    lemma_addr_of_bytes(b, 65, p.token_mint_0);
    assert forall|k: int| 0 <= k < 32 implies #[trigger] b[97 + k] == addr_byte(
        p.token_mint_1,
        k,
    ) by {
        assert(b[97 + k] == pool_byte(p, 97 + k));
    }
    lemma_addr_of_bytes(b, 97, p.token_mint_1);
    assert forall|k: int| 0 <= k < 32 implies #[trigger] b[129 + k] == addr_byte(
        p.token_vault_0,
        k,
    ) by {
        assert(b[129 + k] == pool_byte(p, 129 + k));
    }
    lemma_addr_of_bytes(b, 129, p.token_vault_0);
    assert forall|k: int| 0 <= k < 32 implies #[trigger] b[161 + k] == addr_byte(
        p.token_vault_1,
        k,
    ) by {
        assert(b[161 + k] == pool_byte(p, 161 + k));
    }
    lemma_addr_of_bytes(b, 161, p.token_vault_1);
    assert forall|k: int| 0 <= k < 32 implies #[trigger] b[193 + k] == addr_byte(
        p.observation_key,
        k,
    ) by {
        assert(b[193 + k] == pool_byte(p, 193 + k));
    }
    lemma_addr_of_bytes(b, 193, p.observation_key);
    assert forall|k: int| 0 <= k < 2 implies #[trigger] b[227 + k] == u16_byte(
        p.tick_spacing,
        k,
    ) by {
        assert(b[227 + k] == pool_byte(p, 227 + k));
    }
    lemma_u16_of_bytes(b, 227, p.tick_spacing);
    assert forall|k: int| 0 <= k < 16 implies #[trigger] b[229 + k] == u128_byte(
        p.liquidity,
        k,
    ) by {
        assert(b[229 + k] == pool_byte(p, 229 + k));
    }
    lemma_u128_of_bytes(b, 229, p.liquidity);
    assert forall|k: int| 0 <= k < 16 implies #[trigger] b[245 + k] == u128_byte(
        p.sqrt_price_x64,
        k,
    ) by {
        assert(b[245 + k] == pool_byte(p, 245 + k));
    }
    lemma_u128_of_bytes(b, 245, p.sqrt_price_x64);
    assert forall|k: int| 0 <= k < 4 implies #[trigger] b[261 + k] == u32_byte(
        p.tick_current as u32,
        k,
    ) by {
        assert(b[261 + k] == pool_byte(p, 261 + k));
    }
    lemma_u32_of_bytes(b, 261, p.tick_current as u32);
    assert forall|k: int| 0 <= k < 2 implies #[trigger] b[265 + k] == u16_byte(
        p.padding3,
        k,
    ) by {
        assert(b[265 + k] == pool_byte(p, 265 + k));
    }
    lemma_u16_of_bytes(b, 265, p.padding3);
    assert forall|k: int| 0 <= k < 2 implies #[trigger] b[267 + k] == u16_byte(
        p.padding4,
        k,
    ) by {
        assert(b[267 + k] == pool_byte(p, 267 + k));
    }
    lemma_u16_of_bytes(b, 267, p.padding4);
    assert forall|k: int| 0 <= k < 16 implies #[trigger] b[269 + k] == u128_byte(
        p.fee_growth_global_0_x64,
        k,
    ) by {
        assert(b[269 + k] == pool_byte(p, 269 + k));
    }
    lemma_u128_of_bytes(b, 269, p.fee_growth_global_0_x64);
    assert forall|k: int| 0 <= k < 16 implies #[trigger] b[285 + k] == u128_byte(
        p.fee_growth_global_1_x64,
        k,
    ) by {
        assert(b[285 + k] == pool_byte(p, 285 + k));
    }
    lemma_u128_of_bytes(b, 285, p.fee_growth_global_1_x64);
    assert forall|k: int| 0 <= k < 8 implies #[trigger] b[301 + k] == u64_byte(
        p.protocol_fees_token_0,
        k,
    ) by {
        assert(b[301 + k] == pool_byte(p, 301 + k));
    }
    lemma_u64_of_bytes(b, 301, p.protocol_fees_token_0);
    assert forall|k: int| 0 <= k < 8 implies #[trigger] b[309 + k] == u64_byte(
        p.protocol_fees_token_1,
        k,
    ) by {
        assert(b[309 + k] == pool_byte(p, 309 + k));
    }
    lemma_u64_of_bytes(b, 309, p.protocol_fees_token_1);
    assert forall|k: int| 0 <= k < 16 implies #[trigger] b[317 + k] == u128_byte(
        p.swap_in_amount_token_0,
        k,
    ) by {
        assert(b[317 + k] == pool_byte(p, 317 + k));
    }
    lemma_u128_of_bytes(b, 317, p.swap_in_amount_token_0);
    assert forall|k: int| 0 <= k < 16 implies #[trigger] b[333 + k] == u128_byte(
        p.swap_out_amount_token_1,
        k,
    ) by {
        assert(b[333 + k] == pool_byte(p, 333 + k));
    }
    lemma_u128_of_bytes(b, 333, p.swap_out_amount_token_1);
    assert forall|k: int| 0 <= k < 16 implies #[trigger] b[349 + k] == u128_byte(
        p.swap_in_amount_token_1,
        k,
    ) by {
        assert(b[349 + k] == pool_byte(p, 349 + k));
    }
    lemma_u128_of_bytes(b, 349, p.swap_in_amount_token_1);
    assert forall|k: int| 0 <= k < 16 implies #[trigger] b[365 + k] == u128_byte(
        p.swap_out_amount_token_0,
        k,
    ) by {
        assert(b[365 + k] == pool_byte(p, 365 + k));
    }
    lemma_u128_of_bytes(b, 365, p.swap_out_amount_token_0);
    assert forall|k: int| 0 <= k < 8 implies #[trigger] b[1024 + k] == u64_byte(
        p.total_fees_token_0,
        k,
    ) by {
        assert(b[1024 + k] == pool_byte(p, 1024 + k));
    }
    lemma_u64_of_bytes(b, 1024, p.total_fees_token_0);
    assert forall|k: int| 0 <= k < 8 implies #[trigger] b[1032 + k] == u64_byte(
        p.total_fees_claimed_token_0,
        k,
    ) by {
        assert(b[1032 + k] == pool_byte(p, 1032 + k));
    }
    lemma_u64_of_bytes(b, 1032, p.total_fees_claimed_token_0);
    assert forall|k: int| 0 <= k < 8 implies #[trigger] b[1040 + k] == u64_byte(
        p.total_fees_token_1,
        k,
    ) by {
        assert(b[1040 + k] == pool_byte(p, 1040 + k));
    }
    lemma_u64_of_bytes(b, 1040, p.total_fees_token_1);
    assert forall|k: int| 0 <= k < 8 implies #[trigger] b[1048 + k] == u64_byte(
        p.total_fees_claimed_token_1,
        k,
    ) by {
        assert(b[1048 + k] == pool_byte(p, 1048 + k));
    }
    lemma_u64_of_bytes(b, 1048, p.total_fees_claimed_token_1);
    assert forall|k: int| 0 <= k < 8 implies #[trigger] b[1056 + k] == u64_byte(
        p.fund_fees_token_0,
        k,
    ) by {
        assert(b[1056 + k] == pool_byte(p, 1056 + k));
    }
    lemma_u64_of_bytes(b, 1056, p.fund_fees_token_0);
    assert forall|k: int| 0 <= k < 8 implies #[trigger] b[1064 + k] == u64_byte(
        p.fund_fees_token_1,
        k,
    ) by {
        assert(b[1064 + k] == pool_byte(p, 1064 + k));
    }
    lemma_u64_of_bytes(b, 1064, p.fund_fees_token_1);
    assert forall|k: int| 0 <= k < 8 implies #[trigger] b[1072 + k] == u64_byte(
        p.open_time,
        k,
    ) by {
        assert(b[1072 + k] == pool_byte(p, 1072 + k));
    }
    lemma_u64_of_bytes(b, 1072, p.open_time);
    assert forall|k: int| 0 <= k < 8 implies #[trigger] b[1080 + k] == u64_byte(
        p.recent_epoch,
        k,
    ) by {
        assert(b[1080 + k] == pool_byte(p, 1080 + k));
    }
    lemma_u64_of_bytes(b, 1080, p.recent_epoch);
    assert forall|i: int| 0 <= i < 7 implies #[trigger] b[382 + i] == p.padding@[i] by {
        assert(b[382 + i] == pool_byte(p, 382 + i));
    }
    assert forall|i: int|
        0 <= i < 3 implies #[trigger] reward_layout_ok(
        p.reward_infos@[i],
        b,
        389 + 169 * i,
    ) by {
        assert forall|k: int|
            0 <= k < 169 implies #[trigger] b[(389 + 169 * i) + k] == reward_byte(
            p.reward_infos@[i],
            k,
        ) by {
            let idx = 389 + 169 * i + k;
            assert(b[idx] == pool_byte(p, idx));
            assert((idx - 389) / 169 == i && (idx - 389) % 169 == k) by (nonlinear_arith)
                requires idx == 389 + 169 * i + k && 0 <= k < 169 && 0 <= i;
        }
        lemma_reward_bytes_layout(p.reward_infos@[i], b, 389 + 169 * i);
    }
    assert forall|i: int|
        0 <= i < 16 implies #[trigger] u64_of(b, 896 + 8 * i) == p.tick_array_bitmap@[i] by {
        assert forall|k: int|
            0 <= k < 8 implies #[trigger] b[(896 + 8 * i) + k] == u64_byte(
            p.tick_array_bitmap@[i],
            k,
        ) by {
            let idx = 896 + 8 * i + k;
            assert(b[idx] == pool_byte(p, idx));
            assert((idx - 896) / 8 == i && (idx - 896) % 8 == k) by (nonlinear_arith)
                requires idx == 896 + 8 * i + k && 0 <= k < 8 && 0 <= i;
        }
        lemma_u64_of_bytes(b, 896 + 8 * i, p.tick_array_bitmap@[i]);
    }
    assert forall|i: int|
        0 <= i < 24 implies #[trigger] u64_of(b, 1088 + 8 * i) == p.padding1@[i] by {
        assert forall|k: int|
            0 <= k < 8 implies #[trigger] b[(1088 + 8 * i) + k] == u64_byte(
            p.padding1@[i],
            k,
        ) by {
            let idx = 1088 + 8 * i + k;
            assert(b[idx] == pool_byte(p, idx));
            assert((idx - 1088) / 8 == i && (idx - 1088) % 8 == k) by (nonlinear_arith)
                requires idx == 1088 + 8 * i + k && 0 <= k < 8 && 0 <= i;
        }
        lemma_u64_of_bytes(b, 1088 + 8 * i, p.padding1@[i]);
    }
    assert forall|i: int|
        0 <= i < 32 implies #[trigger] u64_of(b, 1280 + 8 * i) == p.padding2@[i] by {
        assert forall|k: int|
            0 <= k < 8 implies #[trigger] b[(1280 + 8 * i) + k] == u64_byte(
            p.padding2@[i],
            k,
        ) by {
            let idx = 1280 + 8 * i + k;
            assert(b[idx] == pool_byte(p, idx));
            assert((idx - 1280) / 8 == i && (idx - 1280) % 8 == k) by (nonlinear_arith)
                requires idx == 1280 + 8 * i + k && 0 <= k < 8 && 0 <= i;
        }
        lemma_u64_of_bytes(b, 1280 + 8 * i, p.padding2@[i]);
    }
}

/// One byte image holds exactly one pool state: two pools with the same
/// layout agree on every field, so encoding and decoding lose nothing.
pub proof fn lemma_pool_layout_determines_state(p1: PoolState, p2: PoolState, b: Seq<u8>)
    requires
        pool_layout_ok(p1, b),
        pool_layout_ok(p2, b),
        p1.padding@.len() == 7 && p2.padding@.len() == 7,
        p1.reward_infos@.len() == 3 && p2.reward_infos@.len() == 3,
        p1.tick_array_bitmap@.len() == 16 && p2.tick_array_bitmap@.len() == 16,
        p1.padding1@.len() == 24 && p2.padding1@.len() == 24,
        p1.padding2@.len() == 32 && p2.padding2@.len() == 32,
    ensures
        p1.bump == p2.bump,
        p1.amm_config == p2.amm_config,
        p1.owner == p2.owner,
        p1.token_mint_0 == p2.token_mint_0,
        p1.token_mint_1 == p2.token_mint_1,
        p1.token_vault_0 == p2.token_vault_0,
        p1.token_vault_1 == p2.token_vault_1,
        p1.observation_key == p2.observation_key,
        p1.mint_decimals_0 == p2.mint_decimals_0,
        p1.mint_decimals_1 == p2.mint_decimals_1,
        p1.tick_spacing == p2.tick_spacing,
        p1.liquidity == p2.liquidity,
        p1.sqrt_price_x64 == p2.sqrt_price_x64,
        p1.tick_current == p2.tick_current,
        p1.fee_growth_global_0_x64 == p2.fee_growth_global_0_x64,
        p1.fee_growth_global_1_x64 == p2.fee_growth_global_1_x64,
        p1.protocol_fees_token_0 == p2.protocol_fees_token_0,
        p1.protocol_fees_token_1 == p2.protocol_fees_token_1,
        p1.swap_in_amount_token_0 == p2.swap_in_amount_token_0,
        p1.swap_out_amount_token_1 == p2.swap_out_amount_token_1,
        p1.swap_in_amount_token_1 == p2.swap_in_amount_token_1,
        p1.swap_out_amount_token_0 == p2.swap_out_amount_token_0,
        p1.status == p2.status,
        p1.padding@ =~= p2.padding@,
        p1.reward_infos@ =~= p2.reward_infos@,
        p1.tick_array_bitmap@ =~= p2.tick_array_bitmap@,
        p1.total_fees_token_0 == p2.total_fees_token_0,
        p1.total_fees_claimed_token_0 == p2.total_fees_claimed_token_0,
        p1.total_fees_token_1 == p2.total_fees_token_1,
        p1.total_fees_claimed_token_1 == p2.total_fees_claimed_token_1,
        p1.fund_fees_token_0 == p2.fund_fees_token_0,
        p1.fund_fees_token_1 == p2.fund_fees_token_1,
        p1.open_time == p2.open_time,
        p1.recent_epoch == p2.recent_epoch,
        p1.padding1@ =~= p2.padding1@,
        p1.padding2@ =~= p2.padding2@,
{
    let t1 = p1.tick_current;
    let t2 = p2.tick_current;
    assert(((t1 as u32) as i32) == t1) by (bit_vector);
    assert(((t2 as u32) as i32) == t2) by (bit_vector);
    assert forall|i: int| 0 <= i < 3 implies p1.reward_infos@[i] == p2.reward_infos@[i] by {
        assert(reward_layout_ok(p1.reward_infos@[i], b, 389 + 169 * i));
        assert(reward_layout_ok(p2.reward_infos@[i], b, 389 + 169 * i));
    }
}

/// Read the 16-bit integer stored little-endian at `off`.
fn get_u16(b: &Vec<u8>, off: usize) -> (r: u16)
    requires
        off + 2 <= b@.len(),
    ensures
        r == u16_of(b@, off as int),
{
    let n: usize = b.len();
    (b[off] as u16) | ((b[off + 1] as u16) << 8)
}

/// Read the 32-bit integer stored little-endian at `off`.
fn get_u32(b: &Vec<u8>, off: usize) -> (r: u32)
    requires
        off + 4 <= b@.len(),
    ensures
        r == u32_of(b@, off as int),
{
    let n: usize = b.len();
    (b[off] as u32) | ((b[off + 1] as u32) << 8) | ((b[off + 2] as u32) << 16) | ((b[off
        + 3] as u32) << 24)
}

/// Read the 64-bit integer stored little-endian at `off`.
fn get_u64(b: &Vec<u8>, off: usize) -> (r: u64)
    requires
        off + 8 <= b@.len(),
    ensures
        r == u64_of(b@, off as int),
{
    let n: usize = b.len();
    (b[off] as u64) | ((b[off + 1] as u64) << 8) | ((b[off + 2] as u64) << 16) | ((b[off
        + 3] as u64) << 24) | ((b[off + 4] as u64) << 32) | ((b[off + 5] as u64) << 40) | ((b[off
        + 6] as u64) << 48) | ((b[off + 7] as u64) << 56)
}

/// Read the 128-bit integer stored little-endian at `off`.
fn get_u128(b: &Vec<u8>, off: usize) -> (r: u128)
    requires
        off + 16 <= b@.len(),
    ensures
        r == u128_of(b@, off as int),
{
    let n: usize = b.len();
    (b[off] as u128) | ((b[off + 1] as u128) << 8) | ((b[off + 2] as u128) << 16) | ((b[off
        + 3] as u128) << 24) | ((b[off + 4] as u128) << 32) | ((b[off + 5] as u128) << 40) | ((
    b[off + 6] as u128) << 48) | ((b[off + 7] as u128) << 56) | ((b[off + 8] as u128) << 64) | ((
    b[off + 9] as u128) << 72) | ((b[off + 10] as u128) << 80) | ((b[off + 11] as u128) << 88) | ((
    b[off + 12] as u128) << 96) | ((b[off + 13] as u128) << 104) | ((b[off + 14] as u128) << 112)
        | ((b[off + 15] as u128) << 120)
}

/// Read the 32-byte address stored at `off`.
fn get_addr(b: &Vec<u8>, off: usize) -> (r: Address)
    requires
        off + 32 <= b@.len(),
    ensures
        r == addr_of(b@, off as int),
{
    let n: usize = b.len();
    Address { w0: get_u128(b, off), w1: get_u128(b, off + 16) }
}

/// Read the reward record stored at `off`.
fn reward_from_bytes(b: &Vec<u8>, off: usize) -> (r: RewardInfo)
    requires
        off + 169 <= b@.len(),
    ensures
        reward_layout_ok(r, b@, off as int),
{
    let n: usize = b.len();
    RewardInfo {
        reward_state: b[off],
        open_time: get_u64(b, off + 1),
        end_time: get_u64(b, off + 9),
        last_update_time: get_u64(b, off + 17),
        emissions_per_second_x64: get_u128(b, off + 25),
        reward_total_emissioned: get_u64(b, off + 41),
        reward_claimed: get_u64(b, off + 49),
        token_mint: get_addr(b, off + 57),
        token_vault: get_addr(b, off + 89),
        authority: get_addr(b, off + 121),
        reward_growth_global_x64: get_u128(b, off + 153),
    }
}

/// Deserialize a pool account body: every field from its fixed offset,
/// reserved regions preserved. Fails exactly when the buffer does not have
/// the body's fixed size. The decoded pool re-encodes to the same bytes:
/// the layout determines the state and the state the layout.
#[verifier::rlimit(100)]
pub fn pool_from_bytes(b: &Vec<u8>) -> (r: Result<PoolState, ErrorCode>)
    ensures
        r is Ok <==> b@.len() == 1536,
        r matches Ok(p) ==> pool_layout_ok(p, b@) && p.reward_infos@.len() == 3
            && p.tick_array_bitmap@.len() == 16 && p.padding@.len() == 7 && p.padding1@.len()
            == 24 && p.padding2@.len() == 32,
        r is Err ==> r == Result::<PoolState, ErrorCode>::Err(ErrorCode::InvalidAccountData),
{
    if b.len() != 1536 {
        return Err(ErrorCode::InvalidAccountData);
    }
    let tick_current_bits = get_u32(b, 261);
    #[verifier::truncate]
    let tick_current: i32 = tick_current_bits as i32;
    proof {
        let w = tick_current_bits;
        assert(((w as i32) as u32) == w) by (bit_vector);
    }
    let mut padding: Vec<u8> = Vec::new();
    let mut i: usize = 0;
    while i < 7
        invariant
            b@.len() == 1536,
            i <= 7,
            padding@.len() == i,
            forall|j: int| 0 <= j < i ==> padding@[j] == b@[382 + j],
        decreases 7 - i,
    {
        padding.push(b[382 + i]);
        i += 1;
    }
    let mut reward_infos: Vec<RewardInfo> = Vec::new();
    reward_infos.push(reward_from_bytes(b, 389));
    reward_infos.push(reward_from_bytes(b, 558));
    reward_infos.push(reward_from_bytes(b, 727));
    let mut tick_array_bitmap: Vec<u64> = Vec::new();
    let mut i: usize = 0;
    while i < 16
        invariant
            b@.len() == 1536,
            i <= 16,
            tick_array_bitmap@.len() == i,
            forall|j: int| 0 <= j < i ==> tick_array_bitmap@[j] == u64_of(b@, 896 + 8 * j),
        decreases 16 - i,
    {
        tick_array_bitmap.push(get_u64(b, 896 + 8 * i));
        i += 1;
    }
    let mut padding1: Vec<u64> = Vec::new();
    let mut i: usize = 0;
    while i < 24
        invariant
            b@.len() == 1536,
            i <= 24,
            padding1@.len() == i,
            forall|j: int| 0 <= j < i ==> padding1@[j] == u64_of(b@, 1088 + 8 * j),
        decreases 24 - i,
    {
        padding1.push(get_u64(b, 1088 + 8 * i));
        i += 1;
    }
    let mut padding2: Vec<u64> = Vec::new();
    let mut i: usize = 0;
    while i < 32
        invariant
            b@.len() == 1536,
            i <= 32,
            padding2@.len() == i,
            forall|j: int| 0 <= j < i ==> padding2@[j] == u64_of(b@, 1280 + 8 * j),
        decreases 32 - i,
    {
        padding2.push(get_u64(b, 1280 + 8 * i));
        i += 1;
    }
    Ok(
        PoolState {
            bump: b[0],
            amm_config: get_addr(b, 1),
            owner: get_addr(b, 33),
            token_mint_0: get_addr(b, 65),
            token_mint_1: get_addr(b, 97),
            token_vault_0: get_addr(b, 129),
            token_vault_1: get_addr(b, 161),
            observation_key: get_addr(b, 193),
            mint_decimals_0: b[225],
            mint_decimals_1: b[226],
            tick_spacing: get_u16(b, 227),
            liquidity: get_u128(b, 229),
            sqrt_price_x64: get_u128(b, 245),
            tick_current,
            padding3: get_u16(b, 265),
            padding4: get_u16(b, 267),
            fee_growth_global_0_x64: get_u128(b, 269),
            fee_growth_global_1_x64: get_u128(b, 285),
            protocol_fees_token_0: get_u64(b, 301),
            protocol_fees_token_1: get_u64(b, 309),
            swap_in_amount_token_0: get_u128(b, 317),
            swap_out_amount_token_1: get_u128(b, 333),
            swap_in_amount_token_1: get_u128(b, 349),
            swap_out_amount_token_0: get_u128(b, 365),
            status: b[381],
            padding,
            reward_infos,
            tick_array_bitmap,
            total_fees_token_0: get_u64(b, 1024),
            total_fees_claimed_token_0: get_u64(b, 1032),
            total_fees_token_1: get_u64(b, 1040),
            total_fees_claimed_token_1: get_u64(b, 1048),
            fund_fees_token_0: get_u64(b, 1056),
            fund_fees_token_1: get_u64(b, 1064),
            open_time: get_u64(b, 1072),
            recent_epoch: get_u64(b, 1080),
            padding1,
            padding2,
        },
    )
}

} // verus!
