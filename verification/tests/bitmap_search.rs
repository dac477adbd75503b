use clmm_core::bitmap::test_bit;
use clmm_core::bitmap_extension::TickArrayBitmapExtension;
use clmm_core::error::ErrorCode;
use clmm_core::pool::{create_pool, Address, PoolState};

fn addr(n: u128) -> Address {
    Address { w0: n, w1: 7 }
}

fn build_pool(tick_current: i32, tick_spacing: u16) -> PoolState {
    let mut pool = create_pool(
        0,
        clmm_core::tick_math::get_sqrt_price_at_tick(tick_current).unwrap(),
        0,
        1,
        addr(1),
        addr(2),
        addr(3),
        addr(4),
        tick_spacing,
        addr(5),
        6,
        addr(6),
        6,
        addr(7),
        0,
    )
    .unwrap();
    pool.tick_current = tick_current;
    pool
}

fn flip_helper(
    pool: &mut PoolState,
    ext: &mut Option<TickArrayBitmapExtension>,
    starts: Vec<i32>,
) {
    for start in starts {
        pool.flip_tick_array_bit(ext, start).unwrap();
    }
}

#[test]
fn get_arrary_start_index_negative() {
    let mut pool = build_pool(0, 10);
    let mut no_ext: Option<TickArrayBitmapExtension> = None;
    pool.flip_tick_array_bit(&mut no_ext, -600).unwrap();
    assert!(test_bit(&pool.tick_array_bitmap, 511));

    pool.flip_tick_array_bit(&mut no_ext, -1200).unwrap();
    assert!(test_bit(&pool.tick_array_bitmap, 510));

    pool.flip_tick_array_bit(&mut no_ext, -1800).unwrap();
    assert!(test_bit(&pool.tick_array_bitmap, 509));

    pool.flip_tick_array_bit(&mut no_ext, -38400).unwrap();
    assert!(test_bit(
        &pool.tick_array_bitmap,
        pool.get_tick_array_offset(-38400).unwrap()
    ));
    pool.flip_tick_array_bit(&mut no_ext, -39000).unwrap();
    assert!(test_bit(
        &pool.tick_array_bitmap,
        pool.get_tick_array_offset(-39000).unwrap()
    ));
    pool.flip_tick_array_bit(&mut no_ext, -307200).unwrap();
    assert!(test_bit(
        &pool.tick_array_bitmap,
        pool.get_tick_array_offset(-307200).unwrap()
    ));
}

#[test]
fn get_arrary_start_index_positive() {
    let mut pool = build_pool(0, 10);
    let mut no_ext: Option<TickArrayBitmapExtension> = None;
    pool.flip_tick_array_bit(&mut no_ext, 0).unwrap();
    assert_eq!(pool.get_tick_array_offset(0).unwrap(), 512);
    assert!(test_bit(
        &pool.tick_array_bitmap,
        pool.get_tick_array_offset(0).unwrap()
    ));

    pool.flip_tick_array_bit(&mut no_ext, 600).unwrap();
    assert_eq!(pool.get_tick_array_offset(600).unwrap(), 513);
    assert!(test_bit(
        &pool.tick_array_bitmap,
        pool.get_tick_array_offset(600).unwrap()
    ));

    pool.flip_tick_array_bit(&mut no_ext, 1200).unwrap();
    assert!(test_bit(
        &pool.tick_array_bitmap,
        pool.get_tick_array_offset(1200).unwrap()
    ));

    pool.flip_tick_array_bit(&mut no_ext, 38400).unwrap();
    assert!(test_bit(
        &pool.tick_array_bitmap,
        pool.get_tick_array_offset(38400).unwrap()
    ));

    pool.flip_tick_array_bit(&mut no_ext, 306600).unwrap();
    assert_eq!(pool.get_tick_array_offset(306600).unwrap(), 1023);
    assert!(test_bit(
        &pool.tick_array_bitmap,
        pool.get_tick_array_offset(306600).unwrap()
    ));
}

#[test]
fn default_tick_array_start_index_range_test() {
    let mut pool = build_pool(0, 60);
    assert!(!pool.is_overflow_default_tickarray_bitmap(vec![-443580]));
    assert!(!pool.is_overflow_default_tickarray_bitmap(vec![443580]));

    pool.tick_spacing = 10;
    assert!(!pool.is_overflow_default_tickarray_bitmap(vec![-307200]));
    assert!(pool.is_overflow_default_tickarray_bitmap(vec![-307201]));
    assert!(pool.is_overflow_default_tickarray_bitmap(vec![307200]));
    assert!(!pool.is_overflow_default_tickarray_bitmap(vec![307199]));

    pool.tick_spacing = 1;
    assert!(!pool.is_overflow_default_tickarray_bitmap(vec![-30720]));
    assert!(pool.is_overflow_default_tickarray_bitmap(vec![-30721]));
    assert!(pool.is_overflow_default_tickarray_bitmap(vec![30720]));
    assert!(!pool.is_overflow_default_tickarray_bitmap(vec![30719]));
}

#[test]
fn get_first_initialized_tick_array_test() {
    let tick_spacing: i32 = 1;
    let tick_current = tick_spacing * 60 * 511 - 1;
    let mut pool = build_pool(tick_current, tick_spacing as u16);
    let mut ext = Some(TickArrayBitmapExtension::initialize(addr(1)));
    flip_helper(
        &mut pool,
        &mut ext,
        vec![
            -tick_spacing * 60 * 513,
            tick_spacing * 60 * 511,
            tick_spacing * 60 * 512,
        ],
    );

    let (is_first_initialized, start_index) =
        pool.get_first_initialized_tick_array(&ext, true).unwrap();
    assert!(!is_first_initialized);
    assert_eq!(start_index, -tick_spacing * 60 * 513);

    let (is_first_initialized, start_index) =
        pool.get_first_initialized_tick_array(&ext, false).unwrap();
    assert!(!is_first_initialized);
    assert_eq!(start_index, tick_spacing * 60 * 511);

    pool.tick_current = tick_spacing * 60 * 511;
    let (is_first_initialized, start_index) =
        pool.get_first_initialized_tick_array(&ext, true).unwrap();
    assert!(is_first_initialized);
    assert_eq!(start_index, tick_spacing * 60 * 511);

    pool.tick_current = tick_spacing * 60 * 512;
    let (is_first_initialized, start_index) =
        pool.get_first_initialized_tick_array(&ext, true).unwrap();
    assert!(is_first_initialized);
    assert_eq!(start_index, tick_spacing * 60 * 512);
}

#[test]
fn from_pool_bitmap_to_extension_negative_bitmap() {
    let tick_spacing: i32 = 1;
    let tick_current = tick_spacing * 60 * 511;
    let mut pool = build_pool(tick_current, tick_spacing as u16);
    let mut ext = Some(TickArrayBitmapExtension::initialize(addr(1)));
    flip_helper(
        &mut pool,
        &mut ext,
        vec![
            -tick_spacing * 60 * 7394,
            -tick_spacing * 60 * 1000,
            -tick_spacing * 60 * 513,
            tick_spacing * 60 * 510,
        ],
    );

    let start_index = pool
        .next_initialized_tick_array_start_index(&ext, pool.tick_current, true)
        .unwrap();
    assert_eq!(start_index.unwrap(), tick_spacing * 60 * 510);

    pool.tick_current = tick_spacing * 60 * 510;
    let start_index = pool
        .next_initialized_tick_array_start_index(&ext, pool.tick_current, true)
        .unwrap();
    assert_eq!(start_index.unwrap(), -tick_spacing * 60 * 513);

    pool.tick_current = -tick_spacing * 60 * 513;
    let start_index = pool
        .next_initialized_tick_array_start_index(&ext, pool.tick_current, true)
        .unwrap();
    assert_eq!(start_index.unwrap(), -tick_spacing * 60 * 1000);

    pool.tick_current = -tick_spacing * 60 * 7393;
    let start_index = pool
        .next_initialized_tick_array_start_index(&ext, pool.tick_current, true)
        .unwrap();
    assert_eq!(start_index.unwrap(), -tick_spacing * 60 * 7394);

    pool.tick_current = -tick_spacing * 60 * 7394;
    let start_index = pool
        .next_initialized_tick_array_start_index(&ext, pool.tick_current, true)
        .unwrap();
    assert!(start_index.is_none());
}

#[test]
fn from_pool_bitmap_to_extension_positive_bitmap() {
    let tick_spacing: i32 = 1;
    let mut pool = build_pool(0, tick_spacing as u16);
    let mut ext = Some(TickArrayBitmapExtension::initialize(addr(1)));
    flip_helper(
        &mut pool,
        &mut ext,
        vec![
            tick_spacing * 60 * 510,
            tick_spacing * 60 * 511,
            tick_spacing * 60 * 512,
            tick_spacing * 60 * 7393,
        ],
    );

    let start_index = pool
        .next_initialized_tick_array_start_index(&ext, pool.tick_current, false)
        .unwrap();
    assert_eq!(start_index.unwrap(), tick_spacing * 60 * 510);

    pool.tick_current = tick_spacing * 60 * 510;
    let start_index = pool
        .next_initialized_tick_array_start_index(&ext, pool.tick_current, false)
        .unwrap();
    assert_eq!(start_index.unwrap(), tick_spacing * 60 * 511);

    pool.tick_current = tick_spacing * 60 * 511;
    let start_index = pool
        .next_initialized_tick_array_start_index(&ext, pool.tick_current, false)
        .unwrap();
    assert_eq!(start_index.unwrap(), tick_spacing * 60 * 512);

    pool.tick_current = tick_spacing * 60 * 7393;
    let start_index = pool
        .next_initialized_tick_array_start_index(&ext, pool.tick_current, false)
        .unwrap();
    assert!(start_index.is_none());
}

#[test]
fn from_extension_negative_bitmap_to_extension_positive_bitmap() {
    let tick_spacing: i32 = 1;
    let tick_current = -tick_spacing * 60 * 999;
    let mut pool = build_pool(tick_current, tick_spacing as u16);
    let mut ext = Some(TickArrayBitmapExtension::initialize(addr(1)));
    flip_helper(
        &mut pool,
        &mut ext,
        vec![
            -tick_spacing * 60 * 1000,
            tick_spacing * 60 * 512,
            tick_spacing * 60 * 1000,
        ],
    );

    let start_index = pool
        .next_initialized_tick_array_start_index(&ext, pool.tick_current, false)
        .unwrap();
    assert_eq!(start_index.unwrap(), tick_spacing * 60 * 512);
}

#[test]
fn from_extension_positive_bitmap_to_extension_negative_bitmap() {
    let tick_spacing: i32 = 1;
    let tick_current = tick_spacing * 60 * 999;
    let mut pool = build_pool(tick_current, tick_spacing as u16);
    let mut ext = Some(TickArrayBitmapExtension::initialize(addr(1)));
    flip_helper(
        &mut pool,
        &mut ext,
        vec![
            -tick_spacing * 60 * 1000,
            -tick_spacing * 60 * 513,
            tick_spacing * 60 * 1000,
        ],
    );

    let start_index = pool
        .next_initialized_tick_array_start_index(&ext, pool.tick_current, true)
        .unwrap();
    assert_eq!(start_index.unwrap(), -tick_spacing * 60 * 513);
}

#[test]
fn no_initialized_tick_array() {
    let mut pool = build_pool(0, 1);
    let mut ext = Some(TickArrayBitmapExtension::initialize(addr(1)));
    flip_helper(&mut pool, &mut ext, vec![]);

    let start_index = pool
        .next_initialized_tick_array_start_index(&ext, pool.tick_current, true)
        .unwrap();
    assert!(start_index.is_none());

    let start_index = pool
        .next_initialized_tick_array_start_index(&ext, pool.tick_current, false)
        .unwrap();
    assert!(start_index.is_none());
}

#[test]
fn min_tick_max_tick_initialized_test() {
    let tick_spacing: i32 = 1;
    let mut pool = build_pool(0, tick_spacing as u16);
    let mut ext = Some(TickArrayBitmapExtension::initialize(addr(1)));
    flip_helper(
        &mut pool,
        &mut ext,
        vec![-tick_spacing * 60 * 7394, tick_spacing * 60 * 7393],
    );

    let start_index = pool
        .next_initialized_tick_array_start_index(&ext, -tick_spacing * 60 * 7394, false)
        .unwrap();
    assert_eq!(start_index.unwrap(), tick_spacing * 60 * 7393);
}

#[test]
fn flip_same_bit_twice_restores_bitmap() {
    let mut pool = build_pool(0, 10);
    let before = pool.tick_array_bitmap.clone();
    let mut no_ext: Option<TickArrayBitmapExtension> = None;
    pool.flip_tick_array_bit(&mut no_ext, -600).unwrap();
    assert_ne!(pool.tick_array_bitmap, before);
    pool.flip_tick_array_bit(&mut no_ext, -600).unwrap();
    assert_eq!(pool.tick_array_bitmap, before);
}

#[test]
fn lowest_default_slot_and_extension_routing() {
    let mut pool = build_pool(0, 10);
    let mut ext = Some(TickArrayBitmapExtension::initialize(addr(1)));
    // The lowest start index the default bitmap represents sets its lowest
    // bit.
    pool.flip_tick_array_bit(&mut ext, -307200).unwrap();
    assert!(test_bit(&pool.tick_array_bitmap, 0));
    // One tick below that boundary overflows into the extension.
    assert!(pool.is_overflow_default_tickarray_bitmap(vec![-307201]));
    // A whole array start below the boundary is tracked by the extension and
    // leaves the default bitmap untouched.
    let default_before = pool.tick_array_bitmap.clone();
    pool.flip_tick_array_bit(&mut ext, -307800).unwrap();
    assert_eq!(pool.tick_array_bitmap, default_before);
    let e = ext.as_ref().unwrap();
    assert!(e.test_slot(-307800 / 600));
}

#[test]
fn invalid_start_index_is_rejected() {
    let mut pool = build_pool(0, 10);
    let mut no_ext: Option<TickArrayBitmapExtension> = None;
    assert_eq!(
        pool.flip_tick_array_bit(&mut no_ext, -601),
        Err(ErrorCode::InvalidTickIndex)
    );
    assert_eq!(
        pool.get_tick_array_offset(7),
        Err(ErrorCode::InvalidTickIndex)
    );
}

#[test]
fn search_without_extension_reports_missing_account() {
    let pool = build_pool(0, 1);
    let no_ext: Option<TickArrayBitmapExtension> = None;
    assert_eq!(
        pool.next_initialized_tick_array_start_index(&no_ext, 0, true),
        Err(ErrorCode::MissingTickArrayBitmapExtensionAccount)
    );
}
