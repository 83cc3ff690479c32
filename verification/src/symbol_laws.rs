//! How codewords are sent as tones.
use vstd::prelude::*;
use crate::search::{ft4_bit_matches, ft4_sync_bit, ft4_sync_matches, sync_matches};
use crate::symbols::{ft4_tone, ft8_tone, FT4_GRAY, FT4_SYNC, FT8_GRAY, FT8_SYNC};

verus! {

/// One where two bits differ.
pub open spec fn differs(a: bool, b: bool) -> int {
    if a != b {
        1
    } else {
        0
    }
}

/// Where the `k`th three bits of a codeword are sent in FT8: behind one or two blocks of sync
/// tones.
pub open spec fn ft8_place(k: int) -> int {
    if k < 29 {
        k + 7
    } else {
        k + 14
    }
}

/// Where the `k`th two bits of a codeword are sent in FT4: behind the ramp and one to three
/// blocks of sync tones.
pub open spec fn ft4_place(k: int) -> int {
    if k < 29 {
        k + 5
    } else if k < 58 {
        k + 9
    } else {
        k + 13
    }
}

/// Three bits are sent by one tone of eight. They determine the tone, zeros the lowest, and
/// tones next to each other differ in one bit.
pub proof fn ft8_tones_are_gray(a: Seq<bool>, b: Seq<bool>, k: int)
    requires
        0 <= k < 58,
        a.len() == 174,
        b.len() == 174,
    ensures
        ({
            let s = ft8_tone(a, ft8_place(k));
            let t = ft8_tone(b, ft8_place(k));
            let changed = differs(a[3 * k], b[3 * k]) + differs(a[3 * k + 1], b[3 * k + 1])
                + differs(a[3 * k + 2], b[3 * k + 2]);
            &&& s < 8
            &&& s == t <==> changed == 0
            &&& t == s + 1 || s == t + 1 ==> changed == 1
            &&& !a[3 * k] && !a[3 * k + 1] && !a[3 * k + 2] ==> s == 0
            &&& !a[3 * k] && !a[3 * k + 1] && a[3 * k + 2] ==> s == 1
            &&& !a[3 * k] && a[3 * k + 1] && a[3 * k + 2] ==> s == 2
            &&& a[3 * k] && a[3 * k + 1] && !a[3 * k + 2] ==> s == 4
        }),
{
    assert(FT8_GRAY@ =~= seq![0u8, 1, 3, 2, 5, 6, 4, 7]);
}

/// Two bits are sent by one tone of four. They determine the tone, zeros the lowest, and
/// tones next to each other differ in one bit.
pub proof fn ft4_tones_are_gray(a: Seq<bool>, b: Seq<bool>, k: int)
    requires
        0 <= k < 87,
        a.len() == 174,
        b.len() == 174,
    ensures
        ({
            let s = ft4_tone(a, ft4_place(k));
            let t = ft4_tone(b, ft4_place(k));
            let changed = differs(a[2 * k], b[2 * k]) + differs(a[2 * k + 1], b[2 * k + 1]);
            &&& s < 4
            &&& s == t <==> changed == 0
            &&& t == s + 1 || s == t + 1 ==> changed == 1
            &&& !a[2 * k] && !a[2 * k + 1] ==> s == 0
            &&& !a[2 * k] && a[2 * k + 1] ==> s == 1
        }),
{
    assert(FT4_GRAY@ =~= seq![0u8, 1, 3, 2]);
}

/// Every FT8 transmission has the same seven tones at its start, its middle and its end.
pub proof fn ft8_sync_is_fixed(word: Seq<bool>, i: int)
    requires
        0 <= i < 7,
    ensures
        ft8_tone(word, i) == seq![3u8, 1, 4, 0, 6, 5, 2][i],
        ft8_tone(word, 36 + i) == ft8_tone(word, i),
        ft8_tone(word, 72 + i) == ft8_tone(word, i),
{
    assert(FT8_SYNC@ =~= seq![3u8, 1, 4, 0, 6, 5, 2]);
}

/// Every FT4 transmission has four blocks of four tones, each with every tone once, and the
/// lowest tone at both ends.
pub proof fn ft4_sync_is_fixed(word: Seq<bool>, i: int)
    requires
        0 <= i < 4,
    ensures
        ft4_tone(word, 0) == 0,
        ft4_tone(word, 104) == 0,
        ft4_tone(word, 1 + i) == seq![0u8, 1, 3, 2][i],
        ft4_tone(word, 34 + i) == seq![1u8, 0, 2, 3][i],
        ft4_tone(word, 67 + i) == seq![2u8, 3, 1, 0][i],
        ft4_tone(word, 100 + i) == seq![3u8, 2, 0, 1][i],
{
    assert(FT4_SYNC@[0]@ =~= seq![0u8, 1, 3, 2]);
    assert(FT4_SYNC@[1]@ =~= seq![1u8, 0, 2, 3]);
    assert(FT4_SYNC@[2]@ =~= seq![2u8, 3, 1, 0]);
    assert(FT4_SYNC@[3]@ =~= seq![3u8, 2, 0, 1]);
}

// ---------------------------------------------------------------------------
// Synchronization
// ---------------------------------------------------------------------------

/// The places below `n` where a sync tone of FT8 is sent and is the strongest heard.
pub open spec fn ft8_matching(peaks: Seq<u8>, word: Seq<bool>, n: int) -> Set<int> {
    Set::new(
        |p: int|
            0 <= p < n && (p < 7 || 36 <= p < 43 || 72 <= p < 79) && peaks[p] == ft8_tone(word, p),
    )
}

/// The sync symbols of an FT8 signal are counted that were heard as every transmission sends
/// them.
pub proof fn ft8_matches_are_counted(peaks: Seq<u8>, word: Seq<bool>, n: nat)
    requires
        n <= 79,
    ensures
        ft8_matching(peaks, word, n as int).finite(),
        sync_matches(peaks, n) == ft8_matching(peaks, word, n as int).len(),
    decreases n,
{
    let now = ft8_matching(peaks, word, n as int);
    if n == 0 {
        assert(now =~= Set::empty());
    } else {
        ft8_matches_are_counted(peaks, word, (n - 1) as nat);
        let before = ft8_matching(peaks, word, n - 1);
        let p = n - 1;
        if (p < 7 || 36 <= p < 43 || 72 <= p < 79) && peaks[p] == ft8_tone(word, p) {
            assert(now =~= before.insert(p));
        } else {
            assert(now =~= before);
        }
    }
}

/// Where sync symbol `j` of FT4 is sent, not counting the first ramp.
pub open spec fn ft4_sync_place(j: int) -> int {
    if j < 4 {
        j
    } else if j < 8 {
        j + 29
    } else if j < 12 {
        j + 58
    } else {
        j + 87
    }
}

/// The first sync symbols of FT4 that were heard as they are sent.
pub open spec fn ft4_matching(peaks: Seq<u8>, word: Seq<bool>, n: int) -> Set<int> {
    Set::new(
        |j: int|
            0 <= j < n && peaks[ft4_sync_place(j)] == ft4_tone(word, ft4_sync_place(j) + 1),
    )
}

/// The sync symbols of an FT4 signal are counted that were heard as every transmission sends
/// them.
pub proof fn ft4_matches_are_counted(peaks: Seq<u8>, word: Seq<bool>, n: nat)
    requires
        n <= 16,
    ensures
        ft4_matching(peaks, word, n as int).finite(),
        ft4_sync_matches(peaks, n) == ft4_matching(peaks, word, n as int).len(),
    decreases n,
{
    let now = ft4_matching(peaks, word, n as int);
    if n == 0 {
        assert(now =~= Set::empty());
    } else {
        ft4_matches_are_counted(peaks, word, (n - 1) as nat);
        let before = ft4_matching(peaks, word, n - 1);
        let j = n - 1;
        assert(ft4_sync_place(j) == j / 4 * 33 + j % 4);
        if peaks[ft4_sync_place(j)] == ft4_tone(word, ft4_sync_place(j) + 1) {
            assert(now =~= before.insert(j));
        } else {
            assert(now =~= before);
        }
    }
}

/// The two bits that a sync symbol of FT4 stands for are those that its tone would carry.
pub proof fn sync_bits_spell_their_tones(j: int)
    requires
        0 <= j < 16,
    ensures
        FT4_GRAY@[(if ft4_sync_bit(2 * j) {
            2int
        } else {
            0
        }) + (if ft4_sync_bit(2 * j + 1) {
            1int
        } else {
            0
        })] == FT4_SYNC@[j / 4]@[j % 4],
{
    assert(FT4_GRAY@ =~= seq![0u8, 1, 3, 2]);
    assert(FT4_SYNC@[0]@ =~= seq![0u8, 1, 3, 2]);
    assert(FT4_SYNC@[1]@ =~= seq![1u8, 0, 2, 3]);
    assert(FT4_SYNC@[2]@ =~= seq![2u8, 3, 1, 0]);
    assert(FT4_SYNC@[3]@ =~= seq![3u8, 2, 0, 1]);
    assert((2 * j) / 8 == j / 4 && (2 * j + 1) / 8 == j / 4);
    assert((2 * j) / 2 == j && (2 * j + 1) / 2 == j);
}

/// The first sync bits of FT4 that are as the tones would carry them.
pub open spec fn ft4_right_bits(bits: Seq<bool>, n: int) -> Set<int> {
    Set::new(
        |j: int| 0 <= j < n && bits[2 * ft4_sync_place(j / 2) + j % 2] == ft4_sync_bit(j),
    )
}

/// The sync bits of an FT4 signal are counted that are right.
pub proof fn ft4_bits_are_counted(bits: Seq<bool>, n: nat)
    requires
        n <= 32,
    ensures
        ft4_right_bits(bits, n as int).finite(),
        ft4_bit_matches(bits, n) == ft4_right_bits(bits, n as int).len(),
    decreases n,
{
    let now = ft4_right_bits(bits, n as int);
    if n == 0 {
        assert(now =~= Set::empty());
    } else {
        ft4_bits_are_counted(bits, (n - 1) as nat);
        let before = ft4_right_bits(bits, n - 1);
        let j = n - 1;
        assert(ft4_sync_place(j / 2) == j / 8 * 33 + j / 2 % 4);
        if bits[2 * ft4_sync_place(j / 2) + j % 2] == ft4_sync_bit(j) {
            assert(now =~= before.insert(j));
        } else {
            assert(now =~= before);
        }
    }
}

} // verus!
