//! Symbol layouts for demodulation and internal signal subtraction.
use vstd::prelude::*;

verus! {

/// The FT4 scrambling sequence.
pub const SCRAMBLE: [u8; 77] = [
    0, 1, 0, 0, 1, 0, 1, 0, 0, 1, 0, 1, 1, 1, 1, 0, 1, 0, 0, 0, 1, 0, 0, 1, 1, 0, 1, 1, 0, 1, 0,
    0, 1, 0, 1, 1, 0, 0, 0, 0, 1, 0, 0, 0, 1, 0, 1, 0, 0, 1, 1, 1, 1, 0, 0, 1, 0, 1, 0, 1, 0, 1,
    0, 1, 1, 0, 1, 1, 1, 1, 1, 0, 0, 0, 1, 0, 1,
];

/// The FT8 synchronization block.
pub const FT8_SYNC: [u8; 7] = [3, 1, 4, 0, 6, 5, 2];

/// FT8 tone of each three bit group.
pub const FT8_GRAY: [u8; 8] = [0, 1, 3, 2, 5, 6, 4, 7];

/// The four FT4 synchronization blocks.
pub const FT4_SYNC: [[u8; 4]; 4] = [[0, 1, 3, 2], [1, 0, 2, 3], [2, 3, 1, 0], [3, 2, 0, 1]];

/// FT4 tone of each two bit group.
pub const FT4_GRAY: [u8; 4] = [0, 1, 3, 2];

/// A payload with the bits of the scrambling sequence inverted.
pub open spec fn scrambled(message: Seq<bool>) -> Seq<bool> {
    Seq::new(77, |i: int| message[i] != (SCRAMBLE@[i] == 1))
}

/// The number that three bits spell, most significant first.
pub open spec fn three_bits(word: Seq<bool>, at: int) -> int {
    (if word[at] { 4int } else { 0 }) + (if word[at + 1] { 2int } else { 0 }) + (if word[at + 2] {
        1int
    } else {
        0
    })
}

/// The number that two bits spell, most significant first.
pub open spec fn two_bits(word: Seq<bool>, at: int) -> int {
    (if word[at] { 2int } else { 0 }) + (if word[at + 1] { 1int } else { 0 })
}

/// The FT8 tone at place `p`: blocks of seven sync tones start every 36 places,
/// and each 29 tones between them carry three bits each.
pub open spec fn ft8_tone(word: Seq<bool>, p: int) -> u8 {
    if p % 36 < 7 {
        FT8_SYNC@[p % 36]
    } else {
        FT8_GRAY@[three_bits(word, 3 * (29 * (p / 36) + p % 36 - 7))]
    }
}

/// The FT4 tone at place `p`: a zero ramp at both ends, and in between blocks of
/// four sync tones every 33 places with 29 tones of two bits each after them.
pub open spec fn ft4_tone(word: Seq<bool>, p: int) -> u8 {
    let q = p - 1;
    if p == 0 || p == 104 {
        0
    } else if q % 33 < 4 {
        FT4_SYNC@[q / 33]@[q % 33]
    } else {
        FT4_GRAY@[two_bits(word, 2 * (29 * (q / 33) + q % 33 - 4))]
    }
}

/// XOR the FT4 scrambling sequence. The same operation restores source bits.
pub fn scramble_ft4(message: &[bool; 77]) -> (r: [bool; 77])
    ensures
        r@ == scrambled(message@),
{
    let mut out: [bool; 77] = [false; 77];
    let mut i: usize = 0;
    while i < 77
        invariant
            i <= 77,
            out@.len() == 77,
            forall|k: int| 0 <= k < i ==> out@[k] == scrambled(message@)[k],
        decreases 77 - i,
    {
        let flip: bool = SCRAMBLE[i] == 1;
        out[i] = message[i] != flip;
        i = i + 1;
    }
    assert(out@ =~= scrambled(message@));
    out
}

/// FT8's 79 sync/data symbols, using the reference's Gray mapping.
pub fn ft8(codeword: &[bool; 174]) -> (r: [u8; 79])
    ensures
        r@ == Seq::new(79, |p: int| ft8_tone(codeword@, p)),
        forall|p: int| 0 <= p < 79 ==> #[trigger] r@[p] < 8,
{
    let mut tones: [u8; 79] = [0; 79];
    let mut p: usize = 0;
    while p < 79
        invariant
            p <= 79,
            tones@.len() == 79,
            forall|k: int| 0 <= k < p ==> #[trigger] tones@[k] == ft8_tone(codeword@, k),
            forall|k: int| 0 <= k < p ==> #[trigger] tones@[k] < 8,
        decreases 79 - p,
    {
        let offset: usize = p % 36;
        if offset < 7 {
            tones[p] = FT8_SYNC[offset];
        } else {
            let at: usize = 3 * (29 * (p / 36) + offset - 7);
            let high: usize = if codeword[at] { 4 } else { 0 };
            let middle: usize = if codeword[at + 1] { 2 } else { 0 };
            let low: usize = if codeword[at + 2] { 1 } else { 0 };
            tones[p] = FT8_GRAY[high + middle + low];
        }
        p = p + 1;
    }
    assert(tones@ =~= Seq::new(79, |p: int| ft8_tone(codeword@, p)));
    tones
}

/// FT4's 103 sync/data symbols with a zero-valued ramp symbol at each end.
pub fn ft4(codeword: &[bool; 174]) -> (r: [u8; 105])
    ensures
        r@ == Seq::new(105, |p: int| ft4_tone(codeword@, p)),
        forall|p: int| 0 <= p < 105 ==> #[trigger] r@[p] < 4,
{
    let mut tones: [u8; 105] = [0; 105];
    let mut q: usize = 0;
    while q < 103
        invariant
            q <= 103,
            tones@.len() == 105,
            tones@[104] == 0,
            forall|k: int| 0 <= k <= q ==> #[trigger] tones@[k] == ft4_tone(codeword@, k),
            forall|k: int| 0 <= k <= q ==> #[trigger] tones@[k] < 4,
        decreases 103 - q,
    {
        let offset: usize = q % 33;
        if offset < 4 {
            tones[q + 1] = FT4_SYNC[q / 33][offset];
        } else {
            let at: usize = 2 * (29 * (q / 33) + offset - 4);
            let high: usize = if codeword[at] { 2 } else { 0 };
            let low: usize = if codeword[at + 1] { 1 } else { 0 };
            tones[q + 1] = FT4_GRAY[high + low];
        }
        q = q + 1;
    }
    assert(tones@ =~= Seq::new(105, |p: int| ft4_tone(codeword@, p)));
    tones
}

/// Scrambling twice gives back the source bits.
pub proof fn scrambling_restores(message: Seq<bool>)
    requires
        message.len() == 77,
    ensures
        scrambled(scrambled(message)) == message,
{
    assert(scrambled(scrambled(message)) =~= message);
}

/// The FT8 tones determine the codeword.
pub proof fn ft8_tones_determine_the_codeword(a: Seq<bool>, b: Seq<bool>)
    requires
        a.len() == 174,
        b.len() == 174,
        forall|p: int| 0 <= p < 79 ==> #[trigger] ft8_tone(a, p) == ft8_tone(b, p),
    ensures
        a == b,
{
    assert forall|k: int| 0 <= k < 174 implies a[k] == b[k] by {
        let group = k / 3;
        let p = 36 * (group / 29) + 7 + group % 29;
        assert(p / 36 == group / 29 && p % 36 == 7 + group % 29);
        assert(ft8_tone(a, p) == ft8_tone(b, p));
        assert(three_bits(a, 3 * group) == three_bits(b, 3 * group));
    }
    assert(a =~= b);
}

/// The FT4 tones determine the codeword.
pub proof fn ft4_tones_determine_the_codeword(a: Seq<bool>, b: Seq<bool>)
    requires
        a.len() == 174,
        b.len() == 174,
        forall|p: int| 0 <= p < 105 ==> #[trigger] ft4_tone(a, p) == ft4_tone(b, p),
    ensures
        a == b,
{
    assert forall|k: int| 0 <= k < 174 implies a[k] == b[k] by {
        let group = k / 2;
        let q = 33 * (group / 29) + 4 + group % 29;
        assert(q / 33 == group / 29 && q % 33 == 4 + group % 29);
        assert(ft4_tone(a, q + 1) == ft4_tone(b, q + 1));
        assert(two_bits(a, 2 * group) == two_bits(b, 2 * group));
    }
    assert(a =~= b);
}

} // verus!
