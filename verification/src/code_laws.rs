//! What holds of the (174, 91) code as a whole.
use vstd::prelude::*;
use crate::fec::{
    accepted, check_fails, check_parity, checked_bit, crc_bit, crc_remainder, crc_step, dot,
    encoded, extend, failures, payload_crc, row_bit, with_crc,
};
use crate::tables::{check_bits, generator, GENERATOR, NM};

verus! {

/// The information bits on which codeword bit `j` depends, as a row.
pub open spec fn column(j: int) -> u128 {
    if j < 91 {
        1u128 << ((90 - j) as u128)
    } else if j < 174 {
        GENERATOR@[j - 91]
    } else {
        0
    }
}

spec fn columns(row: [usize; 7]) -> u128 {
    column(row@[0] as int) ^ column(row@[1] as int) ^ column(row@[2] as int) ^ column(
        row@[3] as int,
    ) ^ column(row@[4] as int) ^ column(row@[5] as int) ^ column(row@[6] as int)
}

proof fn lemma_units()
    by (bit_vector)
    ensures
        1u128 << 0u128 == 0x1,
        1u128 << 1u128 == 0x2,
        1u128 << 2u128 == 0x4,
        1u128 << 3u128 == 0x8,
        1u128 << 4u128 == 0x10,
        1u128 << 5u128 == 0x20,
        1u128 << 6u128 == 0x40,
        1u128 << 7u128 == 0x80,
        1u128 << 8u128 == 0x100,
        1u128 << 9u128 == 0x200,
        1u128 << 10u128 == 0x400,
        1u128 << 11u128 == 0x800,
        1u128 << 12u128 == 0x1000,
        1u128 << 13u128 == 0x2000,
        1u128 << 14u128 == 0x4000,
        1u128 << 15u128 == 0x8000,
        1u128 << 16u128 == 0x10000,
        1u128 << 17u128 == 0x20000,
        1u128 << 18u128 == 0x40000,
        1u128 << 19u128 == 0x80000,
        1u128 << 20u128 == 0x100000,
        1u128 << 21u128 == 0x200000,
        1u128 << 22u128 == 0x400000,
        1u128 << 23u128 == 0x800000,
        1u128 << 24u128 == 0x1000000,
        1u128 << 25u128 == 0x2000000,
        1u128 << 26u128 == 0x4000000,
        1u128 << 27u128 == 0x8000000,
        1u128 << 28u128 == 0x10000000,
        1u128 << 29u128 == 0x20000000,
        1u128 << 30u128 == 0x40000000,
        1u128 << 31u128 == 0x80000000,
        1u128 << 32u128 == 0x100000000,
        1u128 << 33u128 == 0x200000000,
        1u128 << 34u128 == 0x400000000,
        1u128 << 35u128 == 0x800000000,
        1u128 << 36u128 == 0x1000000000,
        1u128 << 37u128 == 0x2000000000,
        1u128 << 38u128 == 0x4000000000,
        1u128 << 39u128 == 0x8000000000,
        1u128 << 40u128 == 0x10000000000,
        1u128 << 41u128 == 0x20000000000,
        1u128 << 42u128 == 0x40000000000,
        1u128 << 43u128 == 0x80000000000,
        1u128 << 44u128 == 0x100000000000,
        1u128 << 45u128 == 0x200000000000,
        1u128 << 46u128 == 0x400000000000,
        1u128 << 47u128 == 0x800000000000,
        1u128 << 48u128 == 0x1000000000000,
        1u128 << 49u128 == 0x2000000000000,
        1u128 << 50u128 == 0x4000000000000,
        1u128 << 51u128 == 0x8000000000000,
        1u128 << 52u128 == 0x10000000000000,
        1u128 << 53u128 == 0x20000000000000,
        1u128 << 54u128 == 0x40000000000000,
        1u128 << 55u128 == 0x80000000000000,
        1u128 << 56u128 == 0x100000000000000,
        1u128 << 57u128 == 0x200000000000000,
        1u128 << 58u128 == 0x400000000000000,
        1u128 << 59u128 == 0x800000000000000,
        1u128 << 60u128 == 0x1000000000000000,
        1u128 << 61u128 == 0x2000000000000000,
        1u128 << 62u128 == 0x4000000000000000,
        1u128 << 63u128 == 0x8000000000000000,
        1u128 << 64u128 == 0x10000000000000000,
        1u128 << 65u128 == 0x20000000000000000,
        1u128 << 66u128 == 0x40000000000000000,
        1u128 << 67u128 == 0x80000000000000000,
        1u128 << 68u128 == 0x100000000000000000,
        1u128 << 69u128 == 0x200000000000000000,
        1u128 << 70u128 == 0x400000000000000000,
        1u128 << 71u128 == 0x800000000000000000,
        1u128 << 72u128 == 0x1000000000000000000,
        1u128 << 73u128 == 0x2000000000000000000,
        1u128 << 74u128 == 0x4000000000000000000,
        1u128 << 75u128 == 0x8000000000000000000,
        1u128 << 76u128 == 0x10000000000000000000,
        1u128 << 77u128 == 0x20000000000000000000,
        1u128 << 78u128 == 0x40000000000000000000,
        1u128 << 79u128 == 0x80000000000000000000,
        1u128 << 80u128 == 0x100000000000000000000,
        1u128 << 81u128 == 0x200000000000000000000,
        1u128 << 82u128 == 0x400000000000000000000,
        1u128 << 83u128 == 0x800000000000000000000,
        1u128 << 84u128 == 0x1000000000000000000000,
        1u128 << 85u128 == 0x2000000000000000000000,
        1u128 << 86u128 == 0x4000000000000000000000,
        1u128 << 87u128 == 0x8000000000000000000000,
        1u128 << 88u128 == 0x10000000000000000000000,
        1u128 << 89u128 == 0x20000000000000000000000,
        1u128 << 90u128 == 0x40000000000000000000000,
{
}

proof fn lemma_generator_columns_cancel()
    by (bit_vector)
    ensures
        0x8000000000000000000000u128 ^ 0x1000000000000000u128 ^ 0x100000000u128 ^ 0x1u128 ^ 0x4194e708df98f57a84f93feu128 ^ 0x4fed27f7020cafe81a3c1du128 ^ 0x4d6a3576afb83f94055afe2u128 == 0,
        0x4000000000000000000000u128 ^ 0x800000000000000u128 ^ 0x80000000u128 ^ 0x3b0e132712e12c99aa49899u128 ^ 0x2447e19efa1fdef752757dau128 ^ 0x1b49f2b968fef266f83cf43u128 == 0,
        0x2000000000000000000000u128 ^ 0x80000000000000000u128 ^ 0x40000000u128 ^ 0x6e132c817d93be320850deeu128 ^ 0x37fc1d0a2e1b81ad2e0934u128 ^ 0x6f6cedd1df72062cdab04dau128 == 0,
        0x1000000000000000000000u128 ^ 0x400000000000000u128 ^ 0x20000000u128 ^ 0xd9fa0bc2c6696e99f63fb1u128 ^ 0x4fed27f7020cafe81a3c1du128 ^ 0x86172c31c465c151ec03acu128 == 0,
        0x800000000000000000000u128 ^ 0x40000000000000000u128 ^ 0x10000000u128 ^ 0x100u128 ^ 0x3b0e132712e12c99aa49899u128 ^ 0x4fed27f7020cafe81a3c1du128 ^ 0x3f70c11862c1e6662bea584u128 == 0,
        0x2000000000000000000000u128 ^ 0x800000000000000u128 ^ 0x8000000u128 ^ 0x3be66608dc439f6ae1ea45u128 ^ 0x1331d736efc5ae715d94a44u128 ^ 0x128fb156e2019787738a001u128 == 0,
        0x4000000000000000000000u128 ^ 0x200000000000000u128 ^ 0x4000000u128 ^ 0x2000u128 ^ 0x14db157f1e501b7a7f0d4edu128 ^ 0x62121b44ff42d8e289b1d0cu128 ^ 0x72c90e3bc112c398b6be9e1u128 == 0,
        0x400000000000000000000u128 ^ 0x100000000000000u128 ^ 0x2000000u128 ^ 0x302a7d7af9aecb69d86461fu128 ^ 0x2b238fc38150390f005895cu128 ^ 0x1b49f2b968fef266f83cf43u128 == 0,
        0x200000000000000000000u128 ^ 0x80000000000000u128 ^ 0x1000000u128 ^ 0x7103cc7218877693c425748u128 ^ 0x62121b44ff42d8e289b1d0cu128 ^ 0x1331d736efc5ae715d94a44u128 == 0,
        0x100000000000000000000u128 ^ 0x40000000000000u128 ^ 0x1000000u128 ^ 0x10u128 ^ 0x3bae4e047407136ed72b18cu128 ^ 0x2b238fc38150390f005895cu128 ^ 0x109dc1c7f1572a61c7738c0u128 == 0,
        0x80000000000000000000u128 ^ 0x20000000000000u128 ^ 0x800000u128 ^ 0x585c08814615fccb909a43eu128 ^ 0x7fde65c06541a0fd7da3d97u128 ^ 0x278a6d4121545c36e5399a9u128 == 0,
        0x40000000000000000000u128 ^ 0x10000000000000u128 ^ 0x400000u128 ^ 0xc5064918fe3056fae2f519u128 ^ 0x50336597f6d7e4fa9332093u128 ^ 0x5c6701067834e195391d58au128 == 0,
        0x800000000000000000000u128 ^ 0x8000000000000u128 ^ 0x200000u128 ^ 0x200u128 ^ 0x3b238f418150390f00d895cu128 ^ 0x4ed896b98fd7705c36fb5cu128 ^ 0x3f4e062a192d4e0ac1b7000u128 == 0,
        0x20000000000000000000u128 ^ 0x4000000000000u128 ^ 0x100000u128 ^ 0x8u128 ^ 0x585c08814615fccb909a43eu128 ^ 0x1d9ba0bc2c6616e99f61fb1u128 ^ 0x45c5a83d6a33ea220efbb87u128 == 0,
        0x10000000000000000000u128 ^ 0x2000000000000u128 ^ 0x100000000u128 ^ 0x3353950ac7c992d15fb38b8u128 ^ 0x1d9ba0bc2c6616e99f61fb1u128 ^ 0x2ec935b6eb8f8428c0d2709u128 == 0,
        0x40000000000000000000000u128 ^ 0x400000000000000u128 ^ 0x80000u128 ^ 0x3353950ac7c992d15fb38b8u128 ^ 0x62121b44ff42d8e289b1d0cu128 ^ 0x11418e4e788b4a33d6825b4u128 == 0,
        0x8000000000000000000u128 ^ 0x1000000000000u128 ^ 0x40000u128 ^ 0x6ffb9ca0a68d0d9a58e138u128 ^ 0x35aa85205337a3aaef4ae13u128 ^ 0x3355bcea594f73734a84f2bu128 == 0,
        0x4000000000000000000u128 ^ 0x40000000000000u128 ^ 0x20000u128 ^ 0x400u128 ^ 0xada441831b645ccc4a4b97u128 ^ 0x78130a23f4a48654723a676u128 ^ 0x72c90e3bc112c398b6be9e1u128 == 0,
        0x100000000000000000000u128 ^ 0x800000000000u128 ^ 0x10000u128 ^ 0x14d44e069ef40eb32a44d87u128 ^ 0x3a9c22339d13bc166210097u128 ^ 0x2e586c3503efb2a54844d10u128 == 0,
        0x400000000000u128 ^ 0x1000000000u128 ^ 0x8000000u128 ^ 0x2789379bfd28e5f30deb5cau128 ^ 0x7e6be6791e34fd4cddd0a09u128 ^ 0x4ac0a43416ba451c6eb45d5u128 ^ 0x132275d6f5a25ca33e8fa16u128 == 0,
        0x800000000000000000000u128 ^ 0x200000000000u128 ^ 0x100000u128 ^ 0x4ce2391ce86cbe9e42704a0u128 ^ 0x623a5529eb810c3b0b349b0u128 ^ 0x2e586c3503efb2a54844d10u128 == 0,
        0x2000000000000000000u128 ^ 0x80000000000000u128 ^ 0x8000u128 ^ 0x4u128 ^ 0xc8cdba88cbb2b10dda78f4u128 ^ 0x4ed896b98fd7705c36fb5cu128 ^ 0x86172c31c465c151ec03acu128 == 0,
        0x1000000000000000000u128 ^ 0x20000000000000u128 ^ 0x4000u128 ^ 0x3b238f418150390f00d895cu128 ^ 0x413a11f7205b3afbab75affu128 ^ 0x7a198eb6a30b03f4aba93a3u128 == 0,
        0x800000000000000000u128 ^ 0x100000000000u128 ^ 0x200000u128 ^ 0x4194e708df98f57a84f93feu128 ^ 0x128fb156e2019787738a001u128 ^ 0x531b5e5e3d9862fdf5733ffu128 == 0,
        0x20000000000000000000000u128 ^ 0x80000000000u128 ^ 0x20000u128 ^ 0xc8cdba88cbb2b10dda78f4u128 ^ 0x1fd96742d5f4d86397037dfu128 ^ 0x3355bcea594f73734a84f2bu128 == 0,
        0x400000000000000000u128 ^ 0x400000000000u128 ^ 0x2000u128 ^ 0x100u128 ^ 0x55f0cbe24265ba3ab8a254du128 ^ 0x3a9c22339d13bc166210097u128 ^ 0x6f6cedd1df72062cdab04dau128 == 0,
        0x200000000000000000u128 ^ 0x100000000000u128 ^ 0x200000000u128 ^ 0x15a80725e0762d3695edee8u128 ^ 0x237918f7f22b81a60c0a20cu128 ^ 0x36d11dd2125cacb099e7ce4u128 == 0,
        0x8000000000000000000u128 ^ 0x10000000000000u128 ^ 0x20000000u128 ^ 0x4ce2391ce86cbe9e42704a0u128 ^ 0x5c7f78db183b94fd8503c60u128 ^ 0x109dc1c7f1572a61c7738c0u128 == 0,
        0x100000000000000000u128 ^ 0x1000000000000u128 ^ 0x1000u128 ^ 0x475d0d09ed99c85eb38c676u128 ^ 0x78130a23f4a48654723a676u128 ^ 0x3f4e062a192d4e0ac1b7000u128 == 0,
        0x1000000000000000000u128 ^ 0x100000000000000u128 ^ 0x100000000u128 ^ 0x40000u128 ^ 0x14d44e069ef40eb32a44d87u128 ^ 0x5e14fa32984e4bbf44b0852u128 ^ 0x4ac0a43416ba451c6eb45d5u128 == 0,
        0x800000000000000000u128 ^ 0x80000000000000u128 ^ 0x10000000u128 ^ 0x6e132c817d93be320850deeu128 ^ 0x24d380b56329fb2f66e483bu128 ^ 0x4ac0a43416ba451c6eb45d5u128 == 0,
        0x20000000000000000000u128 ^ 0x1000000000000000u128 ^ 0x1000u128 ^ 0x14db157f1e501b7a7f0d4edu128 ^ 0x220808ac0c0cb7cae6eb809u128 ^ 0x36d11dd2125cacb099e7ce4u128 == 0,
        0x10000000000000000000000u128 ^ 0x800000000000u128 ^ 0x800u128 ^ 0x4d252d14770be54e1924216u128 ^ 0x237918f7f22b81a60c0a20cu128 ^ 0x7e5c35e3852864e8152e81au128 == 0,
        0x1000000000000000000u128 ^ 0x200000000000u128 ^ 0x400u128 ^ 0x55f0cbe24265ba3ab8a254du128 ^ 0x2d7f53d6665bbdde4eccd48u128 ^ 0x788f8834243c07e4f66ec05u128 == 0,
        0x1000000000000000000000u128 ^ 0x40000000000u128 ^ 0x200000000u128 ^ 0x2u128 ^ 0x7103cc7218877693c425748u128 ^ 0x7fde65c06541a0fd7da3d97u128 ^ 0xfdda9b27dc6964eb986addu128 == 0,
        0x80000000000000000000u128 ^ 0x20000000000u128 ^ 0x40000000u128 ^ 0x15a80725e0762d3695edee8u128 ^ 0x623a5529eb810c3b0b349b0u128 ^ 0x779a520c0bf701099ed9758u128 == 0,
        0x40000000000000000000u128 ^ 0x10000000000u128 ^ 0x8000000u128 ^ 0x4ed896b98fd7705c36fb5cu128 ^ 0x15a80725e0762d3695edee8u128 ^ 0x11418e4e788b4a33d6825b4u128 == 0,
        0x80000000000000000u128 ^ 0x8000000000u128 ^ 0x8000u128 ^ 0x6f43a40f94160a9cb8d0517u128 ^ 0x3f70c11862c1e6662bea584u128 ^ 0x50336597f6d7e4fa9332093u128 == 0,
        0x40000000000000000u128 ^ 0x4000000000u128 ^ 0x400000u128 ^ 0x2u128 ^ 0x3bae4e047407136ed72b18cu128 ^ 0x7e6be6791e34fd4cddd0a09u128 ^ 0x45c5a83d6a33ea220efbb87u128 == 0,
        0x800000000000000000u128 ^ 0x200000000000u128 ^ 0x4000000u128 ^ 0x800u128 ^ 0x475d0d09ed99c85eb38c676u128 ^ 0x15c72491f96ea8f16a9bfd0u128 ^ 0x529a219814f560af99171a6u128 == 0,
        0x400000000000000000u128 ^ 0x2000000000u128 ^ 0x4000u128 ^ 0x7103cc7218877693c425748u128 ^ 0x15c72491f96ea8f16a9bfd0u128 ^ 0x64c4ece3e1e9dc62aeba898u128 == 0,
        0x100000000000000u128 ^ 0x200u128 ^ 0x447e18efa5fdef152757dau128 ^ 0x50c56946a713ff49527b642u128 ^ 0x64c4ece3e1e9dc62aeba898u128 ^ 0x3046642baca5fddaaeb4b00u128 == 0,
        0x20000000000000000000u128 ^ 0x2000000000000000u128 ^ 0x100u128 ^ 0xc8cdba88cbb2b10dda78f4u128 ^ 0x5e14fa32984e4bbf44b0852u128 ^ 0x529a219814f560af99171a6u128 == 0,
        0x8000000000000000000000u128 ^ 0x4000000000000000u128 ^ 0x800000u128 ^ 0x475d0d09ed99c85eb38c676u128 ^ 0x5c7f78db183b94fd8503c60u128 ^ 0x132275d6f5a25ca33e8fa16u128 == 0,
        0x40000000000000000000000u128 ^ 0x8000000000000000000000u128 ^ 0x8000000000u128 ^ 0x400000000u128 ^ 0x20u128 ^ 0x24d380b56329fb2f66e483bu128 ^ 0x6cd380b56329f36f66e481bu128 == 0,
        0x20000000000000000u128 ^ 0x10000000000u128 ^ 0x800000000u128 ^ 0x1u128 ^ 0x37fc1d0a2e1b81ad2e0934u128 ^ 0xca26842df273ed46b663e8u128 ^ 0xfdda9b27dc6964eb986addu128 == 0,
        0x8000000000u128 ^ 0x80u128 ^ 0x14d44e069ef40eb32a44d87u128 ^ 0x2447e19efa1fdef752757dau128 ^ 0x3f4e062a192d4e0ac1b7000u128 ^ 0xfdda9b27dc6964eb986addu128 == 0,
        0x1000000000000000000000u128 ^ 0x20000000000u128 ^ 0x400u128 ^ 0x302a7d7af9aecb69d86461fu128 ^ 0x220808ac0c0cb7cae6eb809u128 ^ 0x132275d6f5a25ca33e8fa16u128 == 0,
        0x100000000000000000u128 ^ 0x1000000000u128 ^ 0x1000000u128 ^ 0xd9fa0bc2c6696e99f63fb1u128 ^ 0x3dd9c59780c36a3321d74b1u128 ^ 0x3046642baca5fddaaeb4b00u128 == 0,
        0x20000000000000000u128 ^ 0x4000000000000u128 ^ 0x4000u128 ^ 0xada441831b645ccc4a4b97u128 ^ 0x35aa85205337a3aaef4ae13u128 ^ 0x3f70c11862c1e6662bea584u128 == 0,
        0x20000000000000000000000u128 ^ 0x10000000000000000u128 ^ 0x4000000000000u128 ^ 0x40000000u128 ^ 0x20000000u128 ^ 0x2447e19efa1fdef752757dau128 ^ 0x447e18efa5fdef152757dau128 == 0,
        0x10000000000000000u128 ^ 0x8000000000000u128 ^ 0x800000000u128 ^ 0x4d252d14770be54e1924216u128 ^ 0x5e14fa32984e4bbf44b0852u128 ^ 0x1331d736efc5ae715d94a44u128 == 0,
        0x2000000000000000000u128 ^ 0x40000000000u128 ^ 0x1000000000u128 ^ 0x4d252d14770be54e1924216u128 ^ 0x35aa85205337a3aaef4ae13u128 ^ 0x788f8834243c07e4f66ec05u128 == 0,
        0x2000000000000000000000u128 ^ 0x400000000000000u128 ^ 0x40u128 ^ 0x6ffb9ca0a68d0d9a58e138u128 ^ 0x413a11f7205b3afbab75affu128 ^ 0x45c5a83d6a33ea220efbb87u128 == 0,
        0x8000000000000000u128 ^ 0x80000000000u128 ^ 0x200000u128 ^ 0x40u128 ^ 0x7fde65c06541a0fd7da3d97u128 ^ 0x6f43a40f94160a9cb8d0517u128 ^ 0x109dc1c7f1572a61c7738c0u128 == 0,
        0x400000000000000000000u128 ^ 0x2000000000u128 ^ 0x10000000u128 ^ 0x78130a23f4a48654723a676u128 ^ 0x5fd96762d5f0d8639703fdfu128 ^ 0x278a6d4121545c36e5399a9u128 == 0,
        0x200000000000000000u128 ^ 0x4000000000u128 ^ 0x800000u128 ^ 0xada441831b645ccc4a4b97u128 ^ 0x3a9c22339d13bc166210097u128 ^ 0x3046642baca5fddaaeb4b00u128 == 0,
        0x10000000000000000000000u128 ^ 0x40000000000000000000u128 ^ 0x80000000000u128 ^ 0x2000u128 ^ 0xd9fa0bc2c6696e99f63fb1u128 ^ 0x1d9ba0bc2c6616e99f61fb1u128 == 0,
        0x1000000000000000u128 ^ 0x400000u128 ^ 0x447e18efa5fdef152757dau128 ^ 0x5d91b92d5e23e62fa662669u128 ^ 0x278a6d4121545c36e5399a9u128 ^ 0x7e5c35e3852864e8152e81au128 == 0,
        0x80000000000000000000u128 ^ 0x1000000000000u128 ^ 0x2000000u128 ^ 0x4u128 ^ 0x3be66608dc439f6ae1ea45u128 ^ 0x2d7f53d6665bbdde4eccd48u128 ^ 0x2ec935b6eb8f8428c0d2709u128 == 0,
        0x4000000000000000000000u128 ^ 0x10000000000000u128 ^ 0x10000u128 ^ 0x585c08814615fccb909a43eu128 ^ 0x24d380b56329fb2f66e483bu128 ^ 0x788f8834243c07e4f66ec05u128 == 0,
        0x20000000000000000000000u128 ^ 0x2000000000u128 ^ 0x20u128 ^ 0x3bae4e047407136ed72b18cu128 ^ 0x2d7f53d6665bbdde4eccd48u128 ^ 0x36d11dd2125cacb099e7ce4u128 == 0,
        0x10000000000000000000u128 ^ 0x800000000u128 ^ 0x10u128 ^ 0x6ffb9ca0a68d0d9a58e138u128 ^ 0x623a5529eb810c3b0b349b0u128 ^ 0x64c4ece3e1e9dc62aeba898u128 == 0,
        0x200000000000000000000u128 ^ 0x800000000000u128 ^ 0x200u128 ^ 0x1u128 ^ 0x2789379bfd28e5f30deb5cau128 ^ 0x779a520c0bf701099ed9758u128 ^ 0x50336597f6d7e4fa9332093u128 == 0,
        0x100000000000000000u128 ^ 0x200000000000000u128 ^ 0x100000u128 ^ 0x6e132c817d93be320850deeu128 ^ 0x237918f7f22b81a60c0a20cu128 ^ 0x4d6a3576afb83f94055afe2u128 == 0,
        0x100000000000000000000u128 ^ 0x40000000000u128 ^ 0x8u128 ^ 0x4194e708df98f57a84f93feu128 ^ 0x50c56946a713ff49527b642u128 ^ 0x11418e4e788b4a33d6825b4u128 == 0,
        0x4000000000000000u128 ^ 0x200000000000000u128 ^ 0x10u128 ^ 0x3be66608dc439f6ae1ea45u128 ^ 0x5fd96762d5f0d8639703fdfu128 ^ 0x5c6701067834e195391d58au128 == 0,
        0x2000000000000000u128 ^ 0x20000000000u128 ^ 0x80000000u128 ^ 0x20u128 ^ 0xca26842df273ed46b663e8u128 ^ 0x50c56946a713ff49527b642u128 ^ 0x5c6701067834e195391d58au128 == 0,
        0x200000000000000000000u128 ^ 0x4000000000u128 ^ 0x2000000u128 ^ 0x80u128 ^ 0x4ce2391ce86cbe9e42704a0u128 ^ 0x1fd96742d5f4d86397037dfu128 ^ 0x531b5e5e3d9862fdf5733ffu128 == 0,
        0x200000000000000000u128 ^ 0x400000000u128 ^ 0x40u128 ^ 0x3b0e132712e12c99aa49899u128 ^ 0x15c72491f96ea8f16a9bfd0u128 ^ 0x2ec935b6eb8f8428c0d2709u128 == 0,
        0x8000000000000000u128 ^ 0x800000000000000u128 ^ 0x80000u128 ^ 0xc5064918fe3056fae2f519u128 ^ 0x220808ac0c0cb7cae6eb809u128 ^ 0x2e586c3503efb2a54844d10u128 == 0,
        0x8000000000000000u128 ^ 0x4000000000000000u128 ^ 0x80u128 ^ 0x8u128 ^ 0x55f0cbe24265ba3ab8a254du128 ^ 0x86172c31c465c151ec03acu128 ^ 0x5d91b92d5e23e62fa662669u128 == 0,
        0x40000000000000000000000u128 ^ 0x20000000000000000u128 ^ 0x400000000000u128 ^ 0x800u128 ^ 0x1fd96742d5f4d86397037dfu128 ^ 0x5fd96762d5f0d8639703fdfu128 == 0,
        0x4000000000000000000u128 ^ 0x10000000000000000u128 ^ 0x4u128 ^ 0xc5064918fe3056fae2f519u128 ^ 0x413a11f7205b3afbab75affu128 ^ 0x4d6a3576afb83f94055afe2u128 == 0,
        0x10000000000u128 ^ 0x400000000u128 ^ 0x14db157f1e501b7a7f0d4edu128 ^ 0x7a198eb6a30b03f4aba93a3u128 ^ 0x531b5e5e3d9862fdf5733ffu128 ^ 0x3dd9c59780c36a3321d74b1u128 == 0,
        0x400000000000000000u128 ^ 0x40000000000000u128 ^ 0x40000u128 ^ 0x128fb156e2019787738a001u128 ^ 0x6cd380b56329f36f66e481bu128 ^ 0x7e5c35e3852864e8152e81au128 == 0,
        0x8000000000000000000u128 ^ 0x100000000000u128 ^ 0x8000u128 ^ 0x7e6be6791e34fd4cddd0a09u128 ^ 0xca26842df273ed46b663e8u128 ^ 0x72c90e3bc112c398b6be9e1u128 == 0,
        0x10000000000000000000000u128 ^ 0x80000000000000000u128 ^ 0x2000000000000000u128 ^ 0x80000u128 ^ 0x3b238f418150390f00d895cu128 ^ 0x2b238fc38150390f005895cu128 == 0,
        0x400000000000000000000u128 ^ 0x8000000000000u128 ^ 0x2u128 ^ 0x3353950ac7c992d15fb38b8u128 ^ 0x5c7f78db183b94fd8503c60u128 ^ 0x6f6cedd1df72062cdab04dau128 == 0,
        0x10000000000000000000u128 ^ 0x200000000u128 ^ 0x80000000u128 ^ 0x20000u128 ^ 0x2789379bfd28e5f30deb5cau128 ^ 0x5d91b92d5e23e62fa662669u128 ^ 0x7a198eb6a30b03f4aba93a3u128 == 0,
        0x2000000000000000000u128 ^ 0x2000000000000u128 ^ 0x1000u128 ^ 0x779a520c0bf701099ed9758u128 ^ 0x1b49f2b968fef266f83cf43u128 ^ 0x6cd380b56329f36f66e481bu128 == 0,
        0x40000000000000000u128 ^ 0x20000000000000u128 ^ 0x4000000u128 ^ 0x302a7d7af9aecb69d86461fu128 ^ 0x37fc1d0a2e1b81ad2e0934u128 ^ 0x3355bcea594f73734a84f2bu128 == 0,
        0x4000000000000000000u128 ^ 0x2000000000000u128 ^ 0x10000u128 ^ 0x6f43a40f94160a9cb8d0517u128 ^ 0x529a219814f560af99171a6u128 ^ 0x3dd9c59780c36a3321d74b1u128 == 0,
{
}

proof fn lemma_orthogonal(m: int)
    requires
        0 <= m < 83,
    ensures
        columns(NM@[m]) == 0,
{
    lemma_units();
    lemma_generator_columns_cancel();
    assert(forall|x: u128| #[trigger] (x ^ 0u128) == x) by (bit_vector);
}

proof fn lemma_row_bits(r: u128, s: u128, k: int)
    requires
        0 <= k < 91,
    ensures
        row_bit(r ^ s, k) == (row_bit(r, k) != row_bit(s, k)),
        !row_bit(0, k),
{
    let shift = (90 - k) as u128;
    assert(((r ^ s) >> shift) & 1 == ((r >> shift) & 1) ^ ((s >> shift) & 1) && (r >> shift) & 1
        <= 1 && (s >> shift) & 1 <= 1 && (0u128 >> shift) & 1 == 0 && 0u128 ^ 1u128 == 1 && 1u128
        ^ 0u128 == 1 && 1u128 ^ 1u128 == 0 && 0u128 ^ 0u128 == 0) by (bit_vector);
}

proof fn lemma_unit_bit(j: int, k: int)
    requires
        0 <= j < 91,
        0 <= k < 91,
    ensures
        row_bit(column(j), k) == (j == k),
{
    let a = (90 - j) as u128;
    let b = (90 - k) as u128;
    assert(a <= 90 && b <= 90 ==> ((((1u128 << a) >> b) & 1 == 1) <==> a == b)) by (bit_vector);
}

proof fn lemma_dot_rows(bits: Seq<bool>, r: u128, s: u128, n: nat)
    requires
        n <= 91,
    ensures
        dot(bits, r ^ s, n) == (dot(bits, r, n) != dot(bits, s, n)),
        !dot(bits, 0, n),
    decreases n,
{
    if n > 0 {
        lemma_dot_rows(bits, r, s, (n - 1) as nat);
        lemma_row_bits(r, s, n - 1);
    }
}

proof fn lemma_dot_unit(bits: Seq<bool>, j: int, n: nat)
    requires
        0 <= j < 91,
        n <= 91,
    ensures
        dot(bits, column(j), n) == (j < n && bits[j]),
    decreases n,
{
    if n > 0 {
        lemma_dot_unit(bits, j, (n - 1) as nat);
        lemma_unit_bit(j, n - 1);
    }
}

/// Every bit of a codeword is a parity of its information bits.
pub proof fn codeword_bits_are_parities(information: Seq<bool>, j: int)
    requires
        information.len() == 91,
        0 <= j < 174,
    ensures
        extend(information)[j] == dot(information, column(j), 91),
{
    if j < 91 {
        lemma_dot_unit(information, j, 91);
    } else {
        reveal(generator);
    }
}

/// Every codeword passes every parity check.
pub proof fn codewords_pass_every_check(information: Seq<bool>, m: int)
    requires
        information.len() == 91,
        0 <= m < 83,
    ensures
        !check_fails(extend(information), m),
{
    reveal(check_bits);
    let row = NM@[m];
    let word = extend(information);
    assert forall|e: int| 0 <= e < 7 implies #[trigger] checked_bit(word, row@[e]) == dot(
        information,
        column(row@[e] as int),
        91,
    ) by {
        if row@[e] < 174 {
            codeword_bits_are_parities(information, row@[e] as int);
        } else {
            lemma_dot_rows(information, 0, 0, 91);
        }
    }
    let c = |e: int| column(row@[e] as int);
    lemma_dot_rows(information, c(0), c(1), 91);
    lemma_dot_rows(information, c(0) ^ c(1), c(2), 91);
    lemma_dot_rows(information, c(0) ^ c(1) ^ c(2), c(3), 91);
    lemma_dot_rows(information, c(0) ^ c(1) ^ c(2) ^ c(3), c(4), 91);
    lemma_dot_rows(information, c(0) ^ c(1) ^ c(2) ^ c(3) ^ c(4), c(5), 91);
    lemma_dot_rows(information, c(0) ^ c(1) ^ c(2) ^ c(3) ^ c(4) ^ c(5), c(6), 91);
    lemma_orthogonal(m);
    assert(check_parity(word, row@, 7) == dot(information, columns(row), 91)) by {
        reveal_with_fuel(check_parity, 8);
    }
}

/// What the encoder produces passes every parity check and the CRC, and starts
/// with the payload.
pub proof fn encoded_payloads_are_accepted(message: Seq<bool>)
    requires
        message.len() == 77,
    ensures
        accepted(encoded(message)),
        encoded(message).len() == 174,
        encoded(message).take(77) == message,
{
    let word = encoded(message);
    assert(word.take(77) =~= message);
    lemma_no_failures(with_crc(message), 83);
}

proof fn lemma_no_failures(information: Seq<bool>, m: nat)
    requires
        information.len() == 91,
        m <= 83,
    ensures
        failures(extend(information), m) == 0,
    decreases m,
{
    if m > 0 {
        lemma_no_failures(information, (m - 1) as nat);
        codewords_pass_every_check(information, m - 1);
    }
}

/// Bitwise sum of two words.
pub open spec fn word_xor(a: Seq<bool>, b: Seq<bool>) -> Seq<bool> {
    Seq::new(a.len(), |i: int| a[i] != b[i])
}

proof fn lemma_dot_words(a: Seq<bool>, b: Seq<bool>, row: u128, n: nat)
    requires
        a.len() == b.len(),
        n <= a.len(),
    ensures
        dot(word_xor(a, b), row, n) == (dot(a, row, n) != dot(b, row, n)),
    decreases n,
{
    if n > 0 {
        lemma_dot_words(a, b, row, (n - 1) as nat);
    }
}

/// The code is linear: the sum of two codewords is the codeword of the summed
/// information bits.
pub proof fn code_is_linear(a: Seq<bool>, b: Seq<bool>)
    requires
        a.len() == 91,
        b.len() == 91,
    ensures
        extend(word_xor(a, b)) == word_xor(extend(a), extend(b)),
{
    assert forall|i: int| 0 <= i < 83 implies dot(word_xor(a, b), generator(i), 91) == (dot(
        a,
        generator(i),
        91,
    ) != dot(b, generator(i), 91)) by {
        lemma_dot_words(a, b, generator(i), 91);
    }
    assert(extend(word_xor(a, b)) =~= word_xor(extend(a), extend(b)));
}

proof fn lemma_dot_selects(bits: Seq<bool>, row: u128, k: int, n: nat)
    requires
        0 <= k < bits.len(),
        n <= bits.len(),
        forall|i: int| 0 <= i < bits.len() ==> #[trigger] bits[i] == (i == k),
    ensures
        dot(bits, row, n) == (k < n && row_bit(row, k)),
    decreases n,
{
    if n > 0 {
        lemma_dot_selects(bits, row, k, (n - 1) as nat);
    }
}

/// The generator matrix rows belong to the code.
pub proof fn lemma_unit_row_is_codeword(k: int)
    requires
        0 <= k < 91,
    ensures
        crate::osd::is_codeword(crate::osd::unit_row(k)),
{
    let row = crate::osd::unit_row(k);
    let information = row.take(91);
    assert forall|j: int| 0 <= j < 174 implies row[j] == extend(information)[j] by {
        if j >= 91 {
            lemma_dot_selects(information, generator(j - 91), k, 91);
        }
    }
    assert(row =~= extend(information));
}

/// Shifting a summed bit into a summed remainder sums what the shifts give.
proof fn lemma_crc_step(r: u16, s: u16, a: bool, b: bool)
    ensures
        crc_step(r ^ s, a != b) == crc_step(r, a) ^ crc_step(s, b),
{
    let x = if a {
        1u16
    } else {
        0u16
    };
    let y = if b {
        1u16
    } else {
        0u16
    };
    let z = if a != b {
        1u16
    } else {
        0u16
    };
    assert(z == x ^ y) by {
        assert(0u16 ^ 0u16 == 0 && 1u16 ^ 0u16 == 1 && 0u16 ^ 1u16 == 1 && 1u16 ^ 1u16 == 0)
            by (bit_vector);
    }
    assert((x == 0 || x == 1) && (y == 0 || y == 1) ==> {
        let t = (((r ^ s) << 1) | (x ^ y)) & 0x3fff;
        let u = ((r << 1) | x) & 0x3fff;
        let v = ((s << 1) | y) & 0x3fff;
        (if (r ^ s) & 0x2000 != 0 {
            t ^ 0x2757
        } else {
            t
        }) == (if r & 0x2000 != 0 {
            u ^ 0x2757
        } else {
            u
        }) ^ (if s & 0x2000 != 0 {
            v ^ 0x2757
        } else {
            v
        })
    }) by (bit_vector);
}

proof fn lemma_crc_remainder(a: Seq<bool>, b: Seq<bool>)
    requires
        a.len() == b.len(),
    ensures
        crc_remainder(word_xor(a, b)) == crc_remainder(a) ^ crc_remainder(b),
    decreases a.len(),
{
    if a.len() == 0 {
        assert(0u16 ^ 0u16 == 0) by (bit_vector);
    } else {
        let c = word_xor(a, b);
        assert(c.drop_last() =~= word_xor(a.drop_last(), b.drop_last()));
        lemma_crc_remainder(a.drop_last(), b.drop_last());
        lemma_crc_step(
            crc_remainder(a.drop_last()),
            crc_remainder(b.drop_last()),
            a.last(),
            b.last(),
        );
    }
}

proof fn lemma_crc_bits(r: u16, s: u16, i: int)
    requires
        0 <= i < 14,
    ensures
        crc_bit(r ^ s, i) == (crc_bit(r, i) != crc_bit(s, i)),
{
    let shift = (13 - i) as u16;
    assert(shift <= 13 ==> (((r ^ s) & (1u16 << shift) != 0) == ((r & (1u16 << shift) != 0) != (s & (
    1u16 << shift) != 0)))) by (bit_vector);
}

/// Encoding is linear: the sum of two encodings is the encoding of the summed payloads.
pub proof fn encoding_is_linear(a: Seq<bool>, b: Seq<bool>)
    requires
        a.len() == 77,
        b.len() == 77,
    ensures
        encoded(word_xor(a, b)) == word_xor(encoded(a), encoded(b)),
{
    let zeros = Seq::new(19, |i: int| false);
    assert(word_xor(a, b) + zeros =~= word_xor(a + zeros, b + zeros));
    lemma_crc_remainder(a + zeros, b + zeros);
    assert forall|i: int| 0 <= i < 14 implies crc_bit(payload_crc(word_xor(a, b)), i) == (crc_bit(
        payload_crc(a),
        i,
    ) != crc_bit(payload_crc(b), i)) by {
        lemma_crc_bits(payload_crc(a), payload_crc(b), i);
    }
    assert(with_crc(word_xor(a, b)) =~= word_xor(with_crc(a), with_crc(b)));
    code_is_linear(with_crc(a), with_crc(b));
}

} // verus!
