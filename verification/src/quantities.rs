//! Frequencies and times as bit patterns of single precision values.
use vstd::prelude::*;

verus! {

/// 2.5 Hz.
pub const HZ_2_5: u32 = 0x4020_0000;

/// 3 Hz.
pub const HZ_3: u32 = 0x4040_0000;

/// 4 Hz.
pub const HZ_4: u32 = 0x4080_0000;

/// 5 Hz.
pub const HZ_5: u32 = 0x40a0_0000;

/// 6 Hz.
pub const HZ_6: u32 = 0x40c0_0000;

/// 6.25 Hz.
pub const HZ_6_25: u32 = 0x40c8_0000;

/// 10 Hz.
pub const HZ_10: u32 = 0x4120_0000;

/// 50 Hz.
pub const HZ_50: u32 = 0x4248_0000;

/// 200 Hz.
pub const HZ_200: u32 = 0x4348_0000;

/// 950 Hz.
pub const HZ_950: u32 = 0x446d_8000;

/// 1000 Hz.
pub const HZ_1000: u32 = 0x447a_0000;

/// 3000 Hz.
pub const HZ_3000: u32 = 0x453b_8000;

/// 5000 Hz.
pub const HZ_5000: u32 = 0x459c_4000;

/// 6000 Hz.
pub const HZ_6000: u32 = 0x45bb_8000;

/// 0.04 s.
pub const SECONDS_0_04: u32 = 0x3d23_d70a;

/// 0.08 s.
pub const SECONDS_0_08: u32 = 0x3da3_d70a;

/// 0.12 s.
pub const SECONDS_0_12: u32 = 0x3df5_c28f;

/// 0.396 s.
pub const SECONDS_0_396: u32 = 0x3eca_c083;

/// 15 s.
pub const SECONDS_15: u32 = 0x4170_0000;

} // verus!
