use vstd::prelude::*;

verus! {

/// Parity rows of the systematic (174, 91) generator matrix. Bit `90 - k` of a
/// row tells whether information bit `k` enters that parity bit.
pub const GENERATOR: [u128; 83] = [
    0x4194e708df98f57a84f93fe,
    0x3b0e132712e12c99aa49899,
    0x6e132c817d93be320850dee,
    0x0d9fa0bc2c6696e99f63fb1,
    0x04fed27f7020cafe81a3c1d,
    0x03be66608dc439f6ae1ea45,
    0x14db157f1e501b7a7f0d4ed,
    0x302a7d7af9aecb69d86461f,
    0x7103cc7218877693c425748,
    0x3bae4e047407136ed72b18c,
    0x585c08814615fccb909a43e,
    0x0c5064918fe3056fae2f519,
    0x3b238f418150390f00d895c,
    0x7fde65c06541a0fd7da3d97,
    0x3353950ac7c992d15fb38b8,
    0x62121b44ff42d8e289b1d0c,
    0x06ffb9ca0a68d0d9a58e138,
    0x0ada441831b645ccc4a4b97,
    0x14d44e069ef40eb32a44d87,
    0x2789379bfd28e5f30deb5ca,
    0x4ce2391ce86cbe9e42704a0,
    0x0c8cdba88cbb2b10dda78f4,
    0x04ed896b98fd7705c36fb5c,
    0x2447e19efa1fdef752757da,
    0x413a11f7205b3afbab75aff,
    0x55f0cbe24265ba3ab8a254d,
    0x15a80725e0762d3695edee8,
    0x623a5529eb810c3b0b349b0,
    0x475d0d09ed99c85eb38c676,
    0x3a9c22339d13bc166210097,
    0x037fc1d0a2e1b81ad2e0934,
    0x1d9ba0bc2c6616e99f61fb1,
    0x4d252d14770be54e1924216,
    0x5e14fa32984e4bbf44b0852,
    0x1331d736efc5ae715d94a44,
    0x237918f7f22b81a60c0a20c,
    0x1fd96742d5f4d86397037df,
    0x6f43a40f94160a9cb8d0517,
    0x7e6be6791e34fd4cddd0a09,
    0x78130a23f4a48654723a676,
    0x220808ac0c0cb7cae6eb809,
    0x0447e18efa5fdef152757da,
    0x5c7f78db183b94fd8503c60,
    0x2d7f53d6665bbdde4eccd48,
    0x24d380b56329fb2f66e483b,
    0x0ca26842df273ed46b663e8,
    0x128fb156e2019787738a001,
    0x2b238fc38150390f005895c,
    0x15c72491f96ea8f16a9bfd0,
    0x35aa85205337a3aaef4ae13,
    0x50c56946a713ff49527b642,
    0x086172c31c465c151ec03ac,
    0x779a520c0bf701099ed9758,
    0x3f4e062a192d4e0ac1b7000,
    0x1b49f2b968fef266f83cf43,
    0x5fd96762d5f0d8639703fdf,
    0x3f70c11862c1e6662bea584,
    0x50336597f6d7e4fa9332093,
    0x5d91b92d5e23e62fa662669,
    0x6f6cedd1df72062cdab04da,
    0x6cd380b56329f36f66e481b,
    0x4d6a3576afb83f94055afe2,
    0x72c90e3bc112c398b6be9e1,
    0x278a6d4121545c36e5399a9,
    0x45c5a83d6a33ea220efbb87,
    0x11418e4e788b4a33d6825b4,
    0x109dc1c7f1572a61c7738c0,
    0x2ec935b6eb8f8428c0d2709,
    0x3355bcea594f73734a84f2b,
    0x4ac0a43416ba451c6eb45d5,
    0x5c6701067834e195391d58a,
    0x7a198eb6a30b03f4aba93a3,
    0x36d11dd2125cacb099e7ce4,
    0x531b5e5e3d9862fdf5733ff,
    0x2e586c3503efb2a54844d10,
    0x788f8834243c07e4f66ec05,
    0x0fdda9b27dc6964eb986add,
    0x7e5c35e3852864e8152e81a,
    0x529a219814f560af99171a6,
    0x64c4ece3e1e9dc62aeba898,
    0x3dd9c59780c36a3321d74b1,
    0x132275d6f5a25ca33e8fa16,
    0x3046642baca5fddaaeb4b00,
];

/// The codeword bits of each parity check. Short rows are padded with 174.
pub const NM: [[usize; 7]; 83] = [
    [3, 30, 58, 90, 91, 95, 152],
    [4, 31, 59, 92, 114, 145, 174],
    [5, 23, 60, 93, 121, 150, 174],
    [6, 32, 61, 94, 95, 142, 174],
    [7, 24, 62, 82, 92, 95, 147],
    [5, 31, 63, 96, 125, 137, 174],
    [4, 33, 64, 77, 97, 106, 153],
    [8, 34, 65, 98, 138, 145, 174],
    [9, 35, 66, 99, 106, 125, 174],
    [10, 36, 66, 86, 100, 138, 157],
    [11, 37, 67, 101, 104, 154, 174],
    [12, 38, 68, 102, 148, 161, 174],
    [7, 39, 69, 81, 103, 113, 144],
    [13, 40, 70, 87, 101, 122, 155],
    [14, 41, 58, 105, 122, 158, 174],
    [0, 32, 71, 105, 106, 156, 174],
    [15, 42, 72, 107, 140, 159, 174],
    [16, 36, 73, 80, 108, 130, 153],
    [10, 43, 74, 109, 120, 165, 174],
    [44, 54, 63, 110, 129, 160, 172],
    [7, 45, 70, 111, 118, 165, 174],
    [17, 35, 75, 88, 112, 113, 142],
    [18, 37, 76, 103, 115, 162, 174],
    [19, 46, 69, 91, 137, 164, 174],
    [1, 47, 73, 112, 127, 159, 174],
    [20, 44, 77, 82, 116, 120, 150],
    [21, 46, 57, 117, 126, 163, 174],
    [15, 38, 61, 111, 133, 157, 174],
    [22, 42, 78, 119, 130, 144, 174],
    [18, 34, 58, 72, 109, 124, 160],
    [19, 35, 62, 93, 135, 160, 174],
    [13, 30, 78, 97, 131, 163, 174],
    [2, 43, 79, 123, 126, 168, 174],
    [18, 45, 80, 116, 134, 166, 174],
    [6, 48, 57, 89, 99, 104, 167],
    [11, 49, 60, 117, 118, 143, 174],
    [12, 50, 63, 113, 117, 156, 174],
    [23, 51, 75, 128, 147, 148, 174],
    [24, 52, 68, 89, 100, 129, 155],
    [19, 45, 64, 79, 119, 139, 169],
    [20, 53, 76, 99, 139, 170, 174],
    [34, 81, 132, 141, 170, 173, 174],
    [13, 29, 82, 112, 124, 169, 174],
    [3, 28, 67, 119, 133, 172, 174],
    [0, 3, 51, 56, 85, 135, 151],
    [25, 50, 55, 90, 121, 136, 167],
    [51, 83, 109, 114, 144, 167, 174],
    [6, 49, 80, 98, 131, 172, 174],
    [22, 54, 66, 94, 171, 173, 174],
    [25, 40, 76, 108, 140, 147, 174],
    [1, 26, 40, 60, 61, 114, 132],
    [26, 39, 55, 123, 124, 125, 174],
    [17, 48, 54, 123, 140, 166, 174],
    [5, 32, 84, 107, 115, 155, 174],
    [27, 47, 69, 84, 104, 128, 157],
    [8, 53, 62, 130, 146, 154, 174],
    [21, 52, 67, 108, 120, 173, 174],
    [2, 12, 47, 77, 94, 122, 174],
    [30, 68, 132, 149, 154, 168, 174],
    [11, 42, 65, 88, 96, 134, 158],
    [4, 38, 74, 101, 135, 166, 174],
    [1, 53, 85, 100, 134, 163, 174],
    [14, 55, 86, 107, 118, 170, 174],
    [9, 43, 81, 90, 110, 143, 148],
    [22, 33, 70, 93, 126, 152, 174],
    [10, 48, 87, 91, 141, 156, 174],
    [28, 33, 86, 96, 146, 161, 174],
    [29, 49, 59, 85, 136, 141, 161],
    [9, 52, 65, 83, 111, 127, 164],
    [21, 56, 84, 92, 139, 158, 174],
    [27, 31, 71, 102, 131, 165, 174],
    [27, 28, 83, 87, 116, 142, 149],
    [0, 25, 44, 79, 127, 146, 174],
    [16, 26, 88, 102, 115, 152, 174],
    [50, 56, 97, 162, 164, 171, 174],
    [20, 36, 72, 137, 151, 168, 174],
    [15, 46, 75, 129, 136, 153, 174],
    [2, 23, 29, 71, 103, 138, 174],
    [8, 39, 89, 105, 133, 150, 174],
    [14, 57, 59, 73, 110, 149, 162],
    [17, 41, 78, 143, 145, 151, 174],
    [24, 37, 64, 98, 121, 159, 174],
    [16, 41, 74, 128, 169, 171, 174],
];

/// The three parity checks of each codeword bit.
pub const MN: [[usize; 3]; 174] = [
    [15, 44, 72],
    [24, 50, 61],
    [32, 57, 77],
    [0, 43, 44],
    [1, 6, 60],
    [2, 5, 53],
    [3, 34, 47],
    [4, 12, 20],
    [7, 55, 78],
    [8, 63, 68],
    [9, 18, 65],
    [10, 35, 59],
    [11, 36, 57],
    [13, 31, 42],
    [14, 62, 79],
    [16, 27, 76],
    [17, 73, 82],
    [21, 52, 80],
    [22, 29, 33],
    [23, 30, 39],
    [25, 40, 75],
    [26, 56, 69],
    [28, 48, 64],
    [2, 37, 77],
    [4, 38, 81],
    [45, 49, 72],
    [50, 51, 73],
    [54, 70, 71],
    [43, 66, 71],
    [42, 67, 77],
    [0, 31, 58],
    [1, 5, 70],
    [3, 15, 53],
    [6, 64, 66],
    [7, 29, 41],
    [8, 21, 30],
    [9, 17, 75],
    [10, 22, 81],
    [11, 27, 60],
    [12, 51, 78],
    [13, 49, 50],
    [14, 80, 82],
    [16, 28, 59],
    [18, 32, 63],
    [19, 25, 72],
    [20, 33, 39],
    [23, 26, 76],
    [24, 54, 57],
    [34, 52, 65],
    [35, 47, 67],
    [36, 45, 74],
    [37, 44, 46],
    [38, 56, 68],
    [40, 55, 61],
    [19, 48, 52],
    [45, 51, 62],
    [44, 69, 74],
    [26, 34, 79],
    [0, 14, 29],
    [1, 67, 79],
    [2, 35, 50],
    [3, 27, 50],
    [4, 30, 55],
    [5, 19, 36],
    [6, 39, 81],
    [7, 59, 68],
    [8, 9, 48],
    [10, 43, 56],
    [11, 38, 58],
    [12, 23, 54],
    [13, 20, 64],
    [15, 70, 77],
    [16, 29, 75],
    [17, 24, 79],
    [18, 60, 82],
    [21, 37, 76],
    [22, 40, 49],
    [6, 25, 57],
    [28, 31, 80],
    [32, 39, 72],
    [17, 33, 47],
    [12, 41, 63],
    [4, 25, 42],
    [46, 68, 71],
    [53, 54, 69],
    [44, 61, 67],
    [9, 62, 66],
    [13, 65, 71],
    [21, 59, 73],
    [34, 38, 78],
    [0, 45, 63],
    [0, 23, 65],
    [1, 4, 69],
    [2, 30, 64],
    [3, 48, 57],
    [0, 3, 4],
    [5, 59, 66],
    [6, 31, 74],
    [7, 47, 81],
    [8, 34, 40],
    [9, 38, 61],
    [10, 13, 60],
    [11, 70, 73],
    [12, 22, 77],
    [10, 34, 54],
    [14, 15, 78],
    [6, 8, 15],
    [16, 53, 62],
    [17, 49, 56],
    [18, 29, 46],
    [19, 63, 79],
    [20, 27, 68],
    [21, 24, 42],
    [12, 21, 36],
    [1, 46, 50],
    [22, 53, 73],
    [25, 33, 71],
    [26, 35, 36],
    [20, 35, 62],
    [28, 39, 43],
    [18, 25, 56],
    [2, 45, 81],
    [13, 14, 57],
    [32, 51, 52],
    [29, 42, 51],
    [5, 8, 51],
    [26, 32, 64],
    [24, 68, 72],
    [37, 54, 82],
    [19, 38, 76],
    [17, 28, 55],
    [31, 47, 70],
    [41, 50, 58],
    [27, 43, 78],
    [33, 59, 61],
    [30, 44, 60],
    [45, 67, 76],
    [5, 23, 75],
    [7, 9, 77],
    [39, 40, 69],
    [16, 49, 52],
    [41, 65, 67],
    [3, 21, 71],
    [35, 63, 80],
    [12, 28, 46],
    [1, 7, 80],
    [55, 66, 72],
    [4, 37, 49],
    [11, 37, 63],
    [58, 71, 79],
    [2, 25, 78],
    [44, 75, 80],
    [0, 64, 73],
    [6, 17, 76],
    [10, 55, 58],
    [13, 38, 53],
    [15, 36, 65],
    [9, 27, 54],
    [14, 59, 69],
    [16, 24, 81],
    [19, 29, 30],
    [11, 66, 67],
    [22, 74, 79],
    [26, 31, 61],
    [23, 68, 74],
    [18, 20, 70],
    [33, 52, 60],
    [34, 45, 46],
    [32, 58, 75],
    [39, 42, 82],
    [40, 41, 62],
    [48, 74, 82],
    [19, 43, 47],
    [41, 48, 56],
];

/// Parity row `i` of the generator matrix.
#[verifier::opaque]
pub open spec fn generator(i: int) -> u128 {
    GENERATOR@[i]
}

/// The codeword bits of parity check `m`.
#[verifier::opaque]
pub open spec fn check_bits(m: int) -> Seq<usize> {
    NM@[m]@
}

/// The parity checks of codeword bit `n`.
#[verifier::opaque]
pub open spec fn bit_checks(n: int) -> Seq<usize> {
    MN@[n]@
}

pub fn generator_row(i: usize) -> (r: u128)
    requires
        i < 83,
    ensures
        r == generator(i as int),
{
    reveal(generator);
    GENERATOR[i]
}

pub fn check_row(m: usize) -> (r: [usize; 7])
    requires
        m < 83,
    ensures
        r@ == check_bits(m as int),
{
    reveal(check_bits);
    NM[m]
}

pub fn bit_row(n: usize) -> (r: [usize; 3])
    requires
        n < 174,
    ensures
        r@ == bit_checks(n as int),
{
    reveal(bit_checks);
    MN[n]
}

/// The two views of the code agree: a bit that a check names lists that check.
pub proof fn lemma_tables_agree(m: int, e: int)
    requires
        0 <= m < 83,
        0 <= e < 7,
        check_bits(m)[e] < 174,
    ensures
        bit_checks(check_bits(m)[e] as int).contains(m as usize),
{
    reveal(check_bits);
    reveal(bit_checks);
    let bit = NM@[m]@[e] as int;
    assert(MN@[bit]@[0] == m || MN@[bit]@[1] == m || MN@[bit]@[2] == m);
    let k: int = if MN@[bit]@[0] == m { 0 } else if MN@[bit]@[1] == m { 1 } else { 2 };
    assert(bit_checks(bit)[k] == m as usize);
}

} // verus!
