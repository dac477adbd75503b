//! Core engine of a concentrated-liquidity pool: tick/price fixed-point math,
//! tick-indexed liquidity accounting, fee and reward growth tracking, and the
//! two-tier bitmap that locates initialized tick arrays.

pub mod bitmap;
pub mod bitmap_extension;
pub mod collect;
pub mod error;
pub mod layout;
pub mod liquidity;
pub mod math;
pub mod pool;
pub mod position;
pub mod tick_array;
pub mod tick_math;
