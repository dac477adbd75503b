use clmm_core::layout::{pool_from_bytes, pool_to_bytes, POOL_STATE_BODY_LEN, REWARD_INFO_LEN};
use clmm_core::pool::Address;

fn unique_addr(n: u8) -> Address {
    let mut bytes = [0u8; 32];
    for i in 0..32 {
        bytes[i] = n.wrapping_add(i as u8).wrapping_mul(31);
    }
    let mut w0: u128 = 0;
    let mut w1: u128 = 0;
    for i in 0..16 {
        w0 |= (bytes[i] as u128) << (8 * i);
        w1 |= (bytes[16 + i] as u128) << (8 * i);
    }
    Address { w0, w1 }
}

fn put_addr(data: &mut [u8], offset: usize, a: &Address) {
    data[offset..offset + 16].copy_from_slice(&a.w0.to_le_bytes());
    data[offset + 16..offset + 32].copy_from_slice(&a.w1.to_le_bytes());
}

#[test]
fn test_pool_layout() {
    let bump: u8 = 0x12;
    let amm_config = unique_addr(1);
    let owner = unique_addr(2);
    let token_mint_0 = unique_addr(3);
    let token_mint_1 = unique_addr(4);
    let token_vault_0 = unique_addr(5);
    let token_vault_1 = unique_addr(6);
    let observation_key = unique_addr(7);
    let mint_decimals_0: u8 = 0x13;
    let mint_decimals_1: u8 = 0x14;
    let tick_spacing: u16 = 0x1516;
    let liquidity: u128 = 0x11002233445566778899aabbccddeeff;
    let sqrt_price_x64: u128 = 0x11220033445566778899aabbccddeeff;
    let tick_current: i32 = 0x12345678;
    let padding3: u16 = 0x1718;
    let padding4: u16 = 0x191a;
    let fee_growth_global_0_x64: u128 = 0x11223300445566778899aabbccddeeff;
    let fee_growth_global_1_x64: u128 = 0x11223344005566778899aabbccddeeff;
    let protocol_fees_token_0: u64 = 0x123456789abcdef0;
    let protocol_fees_token_1: u64 = 0x123456789abcde0f;
    let swap_in_amount_token_0: u128 = 0x11223344550066778899aabbccddeeff;
    let swap_out_amount_token_1: u128 = 0x11223344556600778899aabbccddeeff;
    let swap_in_amount_token_1: u128 = 0x11223344556677008899aabbccddeeff;
    let swap_out_amount_token_0: u128 = 0x11223344556677880099aabbccddeeff;
    let status: u8 = 0x1b;
    let padding: [u8; 7] = [0x12, 0x13, 0x14, 0x15, 0x16, 0x17, 0x18];
    // RewardInfo
    let reward_state: u8 = 0x1c;
    let open_time: u64 = 0x123456789abc0def;
    let end_time: u64 = 0x123456789ab0cdef;
    let last_update_time: u64 = 0x123456789a0bcdef;
    let emissions_per_second_x64: u128 = 0x11223344556677889900aabbccddeeff;
    let reward_total_emissioned: u64 = 0x1234567890abcdef;
    let reward_claimed: u64 = 0x1234567809abcdef;
    let token_mint = unique_addr(8);
    let token_vault = unique_addr(9);
    let authority = unique_addr(10);
    let reward_growth_global_x64: u128 = 0x112233445566778899aa00bbccddeeff;
    let mut reward_info_data = [0u8; REWARD_INFO_LEN];

    let mut offset = 0;
    reward_info_data[offset..offset + 1].copy_from_slice(&reward_state.to_le_bytes());
    offset += 1;
    reward_info_data[offset..offset + 8].copy_from_slice(&open_time.to_le_bytes());
    offset += 8;
    reward_info_data[offset..offset + 8].copy_from_slice(&end_time.to_le_bytes());
    offset += 8;
    reward_info_data[offset..offset + 8].copy_from_slice(&last_update_time.to_le_bytes());
    offset += 8;
    reward_info_data[offset..offset + 16].copy_from_slice(&emissions_per_second_x64.to_le_bytes());
    offset += 16;
    reward_info_data[offset..offset + 8].copy_from_slice(&reward_total_emissioned.to_le_bytes());
    offset += 8;
    reward_info_data[offset..offset + 8].copy_from_slice(&reward_claimed.to_le_bytes());
    offset += 8;
    put_addr(&mut reward_info_data, offset, &token_mint);
    offset += 32;
    put_addr(&mut reward_info_data, offset, &token_vault);
    offset += 32;
    put_addr(&mut reward_info_data, offset, &authority);
    offset += 32;
    reward_info_data[offset..offset + 16].copy_from_slice(&reward_growth_global_x64.to_le_bytes());
    offset += 16;
    assert_eq!(offset, REWARD_INFO_LEN);

    let mut reward_info_datas = [0u8; REWARD_INFO_LEN * 3];
    let mut offset = 0;
    for _ in 0..3 {
        reward_info_datas[offset..offset + REWARD_INFO_LEN].copy_from_slice(&reward_info_data);
        offset += REWARD_INFO_LEN;
    }
    assert_eq!(offset, reward_info_datas.len());

    // tick_array_bitmap
    let mut tick_array_bitmap: [u64; 16] = [0u64; 16];
    let mut tick_array_bitmap_data = [0u8; 8 * 16];
    let mut offset = 0;
    for i in 0..16 {
        tick_array_bitmap[i] = u64::MAX << i;
        tick_array_bitmap_data[offset..offset + 8]
            .copy_from_slice(&tick_array_bitmap[i].to_le_bytes());
        offset += 8;
    }
    let total_fees_token_0: u64 = 0x1234567809abcdef;
    let total_fees_token_1: u64 = 0x1234567089abcdef;
    let total_fees_claimed_token_0: u64 = 0x1234560789abcdef;
    let total_fees_claimed_token_1: u64 = 0x1234506789abcdef;
    let fund_fees_token_0: u64 = 0x1234056789abcdef;
    let fund_fees_token_1: u64 = 0x1230456789abcdef;
    let pool_open_time: u64 = 0x1203456789abcdef;
    let recent_epoch: u64 = 0x1023456789abcdef;
    let mut padding1: [u64; 24] = [0u64; 24];
    let mut padding1_data = [0u8; 8 * 24];
    let mut offset = 0;
    for i in 0..24 {
        padding1[i] = u64::MAX - i as u64;
        padding1_data[offset..offset + 8].copy_from_slice(&padding1[i].to_le_bytes());
        offset += 8;
    }
    let mut padding2: [u64; 32] = [0u64; 32];
    let mut padding2_data = [0u8; 8 * 32];
    let mut offset = 0;
    for i in 24..(24 + 32) {
        padding2[i - 24] = u64::MAX - i as u64;
        padding2_data[offset..offset + 8].copy_from_slice(&padding2[i - 24].to_le_bytes());
        offset += 8;
    }
    // serialize original data
    let mut pool_data = [0u8; POOL_STATE_BODY_LEN];
    let mut offset = 0;
    pool_data[offset..offset + 1].copy_from_slice(&bump.to_le_bytes());
    offset += 1;
    put_addr(&mut pool_data, offset, &amm_config);
    offset += 32;
    put_addr(&mut pool_data, offset, &owner);
    offset += 32;
    put_addr(&mut pool_data, offset, &token_mint_0);
    offset += 32;
    put_addr(&mut pool_data, offset, &token_mint_1);
    offset += 32;
    put_addr(&mut pool_data, offset, &token_vault_0);
    offset += 32;
    put_addr(&mut pool_data, offset, &token_vault_1);
    offset += 32;
    put_addr(&mut pool_data, offset, &observation_key);
    offset += 32;
    pool_data[offset..offset + 1].copy_from_slice(&mint_decimals_0.to_le_bytes());
    offset += 1;
    pool_data[offset..offset + 1].copy_from_slice(&mint_decimals_1.to_le_bytes());
    offset += 1;
    pool_data[offset..offset + 2].copy_from_slice(&tick_spacing.to_le_bytes());
    offset += 2;
    pool_data[offset..offset + 16].copy_from_slice(&liquidity.to_le_bytes());
    offset += 16;
    pool_data[offset..offset + 16].copy_from_slice(&sqrt_price_x64.to_le_bytes());
    offset += 16;
    pool_data[offset..offset + 4].copy_from_slice(&tick_current.to_le_bytes());
    offset += 4;
    pool_data[offset..offset + 2].copy_from_slice(&padding3.to_le_bytes());
    offset += 2;
    pool_data[offset..offset + 2].copy_from_slice(&padding4.to_le_bytes());
    offset += 2;
    pool_data[offset..offset + 16].copy_from_slice(&fee_growth_global_0_x64.to_le_bytes());
    offset += 16;
    pool_data[offset..offset + 16].copy_from_slice(&fee_growth_global_1_x64.to_le_bytes());
    offset += 16;
    pool_data[offset..offset + 8].copy_from_slice(&protocol_fees_token_0.to_le_bytes());
    offset += 8;
    pool_data[offset..offset + 8].copy_from_slice(&protocol_fees_token_1.to_le_bytes());
    offset += 8;
    pool_data[offset..offset + 16].copy_from_slice(&swap_in_amount_token_0.to_le_bytes());
    offset += 16;
    pool_data[offset..offset + 16].copy_from_slice(&swap_out_amount_token_1.to_le_bytes());
    offset += 16;
    pool_data[offset..offset + 16].copy_from_slice(&swap_in_amount_token_1.to_le_bytes());
    offset += 16;
    pool_data[offset..offset + 16].copy_from_slice(&swap_out_amount_token_0.to_le_bytes());
    offset += 16;
    pool_data[offset..offset + 1].copy_from_slice(&status.to_le_bytes());
    offset += 1;
    pool_data[offset..offset + 7].copy_from_slice(&padding);
    offset += 7;
    pool_data[offset..offset + REWARD_INFO_LEN * 3].copy_from_slice(&reward_info_datas);
    offset += REWARD_INFO_LEN * 3;
    pool_data[offset..offset + 8 * 16].copy_from_slice(&tick_array_bitmap_data);
    offset += 8 * 16;
    pool_data[offset..offset + 8].copy_from_slice(&total_fees_token_0.to_le_bytes());
    offset += 8;
    pool_data[offset..offset + 8].copy_from_slice(&total_fees_claimed_token_0.to_le_bytes());
    offset += 8;
    pool_data[offset..offset + 8].copy_from_slice(&total_fees_token_1.to_le_bytes());
    offset += 8;
    pool_data[offset..offset + 8].copy_from_slice(&total_fees_claimed_token_1.to_le_bytes());
    offset += 8;
    pool_data[offset..offset + 8].copy_from_slice(&fund_fees_token_0.to_le_bytes());
    offset += 8;
    pool_data[offset..offset + 8].copy_from_slice(&fund_fees_token_1.to_le_bytes());
    offset += 8;
    pool_data[offset..offset + 8].copy_from_slice(&pool_open_time.to_le_bytes());
    offset += 8;
    pool_data[offset..offset + 8].copy_from_slice(&recent_epoch.to_le_bytes());
    offset += 8;
    pool_data[offset..offset + 8 * 24].copy_from_slice(&padding1_data);
    offset += 8 * 24;
    pool_data[offset..offset + 8 * 32].copy_from_slice(&padding2_data);
    offset += 8 * 32;

    // len check
    assert_eq!(offset, pool_data.len());

    // deserialize original data
    let unpack_data = pool_from_bytes(&pool_data.to_vec()).unwrap();

    // data check
    assert_eq!(unpack_data.bump, bump);
    assert_eq!(unpack_data.amm_config, amm_config);
    assert_eq!(unpack_data.owner, owner);
    assert_eq!(unpack_data.token_mint_0, token_mint_0);
    assert_eq!(unpack_data.token_mint_1, token_mint_1);
    assert_eq!(unpack_data.token_vault_0, token_vault_0);
    assert_eq!(unpack_data.token_vault_1, token_vault_1);
    assert_eq!(unpack_data.observation_key, observation_key);
    assert_eq!(unpack_data.mint_decimals_0, mint_decimals_0);
    assert_eq!(unpack_data.mint_decimals_1, mint_decimals_1);
    assert_eq!(unpack_data.tick_spacing, tick_spacing);
    assert_eq!(unpack_data.liquidity, liquidity);
    assert_eq!(unpack_data.sqrt_price_x64, sqrt_price_x64);
    assert_eq!(unpack_data.tick_current, tick_current);
    assert_eq!(unpack_data.padding3, padding3);
    assert_eq!(unpack_data.padding4, padding4);
    assert_eq!(unpack_data.fee_growth_global_0_x64, fee_growth_global_0_x64);
    assert_eq!(unpack_data.fee_growth_global_1_x64, fee_growth_global_1_x64);
    assert_eq!(unpack_data.protocol_fees_token_0, protocol_fees_token_0);
    assert_eq!(unpack_data.protocol_fees_token_1, protocol_fees_token_1);
    assert_eq!(unpack_data.swap_in_amount_token_0, swap_in_amount_token_0);
    assert_eq!(unpack_data.swap_out_amount_token_1, swap_out_amount_token_1);
    assert_eq!(unpack_data.swap_in_amount_token_1, swap_in_amount_token_1);
    assert_eq!(unpack_data.swap_out_amount_token_0, swap_out_amount_token_0);
    assert_eq!(unpack_data.status, status);
    assert_eq!(unpack_data.padding, padding.to_vec());

    for reward in unpack_data.reward_infos.iter() {
        assert_eq!(reward.reward_state, reward_state);
        assert_eq!(reward.open_time, open_time);
        assert_eq!(reward.end_time, end_time);
        assert_eq!(reward.last_update_time, last_update_time);
        assert_eq!(reward.emissions_per_second_x64, emissions_per_second_x64);
        assert_eq!(reward.reward_total_emissioned, reward_total_emissioned);
        assert_eq!(reward.reward_claimed, reward_claimed);
        assert_eq!(reward.token_mint, token_mint);
        assert_eq!(reward.token_vault, token_vault);
        assert_eq!(reward.authority, authority);
        assert_eq!(reward.reward_growth_global_x64, reward_growth_global_x64);
    }

    assert_eq!(unpack_data.tick_array_bitmap, tick_array_bitmap.to_vec());
    assert_eq!(unpack_data.total_fees_token_0, total_fees_token_0);
    assert_eq!(unpack_data.total_fees_claimed_token_0, total_fees_claimed_token_0);
    assert_eq!(unpack_data.total_fees_token_1, total_fees_token_1);
    assert_eq!(unpack_data.total_fees_claimed_token_1, total_fees_claimed_token_1);
    assert_eq!(unpack_data.fund_fees_token_0, fund_fees_token_0);
    assert_eq!(unpack_data.fund_fees_token_1, fund_fees_token_1);
    assert_eq!(unpack_data.open_time, pool_open_time);
    assert_eq!(unpack_data.recent_epoch, recent_epoch);
    assert_eq!(unpack_data.padding1, padding1.to_vec());
    assert_eq!(unpack_data.padding2, padding2.to_vec());

    // re-encoding reproduces the byte image exactly
    let encoded = pool_to_bytes(&unpack_data);
    assert_eq!(encoded, pool_data.to_vec());

    // a buffer of the wrong size is rejected
    assert!(pool_from_bytes(&vec![0u8; POOL_STATE_BODY_LEN - 1]).is_err());
}
