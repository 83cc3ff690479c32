//! That WAV files are read as they were written.
use vstd::arithmetic::power2::{lemma2_to64, lemma_pow2_adds, lemma_pow2_pos, pow2};
use vstd::prelude::*;
use crate::audio_input::{mono_at, Channel, Mono};
use crate::wav::{
    at_most, chunks_from, format_of, frame_size, has_tag, integer_sample, layout_of, long_at,
    raw_sample, sample_at, signed, with_chunk, word_at, Chunks, Layout, SampleEncoding, WavFormat,
    WavReader, DATA, FMT, GUID_SUFFIX,
};

verus! {

// ---------------------------------------------------------------------------
// Files
// ---------------------------------------------------------------------------

/// A number of two bytes, low byte first.
pub open spec fn two_bytes(n: int) -> Seq<u8> {
    seq![(n % 0x100) as u8, (n / 0x100) as u8]
}

/// A number of four bytes, low byte first.
pub open spec fn four_bytes(n: int) -> Seq<u8> {
    seq![
        (n % 0x100) as u8,
        (n / 0x100 % 0x100) as u8,
        (n / 0x1_0000 % 0x100) as u8,
        (n / 0x100_0000) as u8,
    ]
}

pub struct ChunkModel {
    pub tag: Seq<u8>,
    pub payload: Seq<u8>,
}

/// A chunk as it is written: its tag, its size, its payload, and a byte more where that is
/// odd.
pub open spec fn chunk_bytes(c: ChunkModel) -> Seq<u8> {
    c.tag + four_bytes(c.payload.len() as int) + c.payload + (if c.payload.len() % 2 == 1 {
        seq![0u8]
    } else {
        Seq::empty()
    })
}

pub open spec fn all_bytes(chunks: Seq<ChunkModel>) -> Seq<u8>
    decreases chunks.len(),
{
    if chunks.len() == 0 {
        Seq::empty()
    } else {
        all_bytes(chunks.drop_last()) + chunk_bytes(chunks.last())
    }
}

/// A file of chunks.
pub open spec fn file_of(chunks: Seq<ChunkModel>) -> Seq<u8> {
    seq![82u8, 73, 70, 70] + four_bytes(all_bytes(chunks).len() as int + 4) + seq![87u8, 65, 86, 69]
        + all_bytes(chunks)
}

pub open spec fn is_fmt(c: ChunkModel) -> bool {
    c.tag == seq![102u8, 109, 116, 32]
}

pub open spec fn is_data(c: ChunkModel) -> bool {
    c.tag == seq![100u8, 97, 116, 97]
}

/// One chunk of the format and one of the data, at these places among any others.
pub open spec fn is_recording(chunks: Seq<ChunkModel>, f: int, d: int) -> bool {
    &&& 0 <= f < chunks.len()
    &&& 0 <= d < chunks.len()
    &&& f != d
    &&& forall|k: int|
        0 <= k < chunks.len() ==> (#[trigger] chunks[k]).tag.len() == 4 && (is_fmt(chunks[k]) <==> k
            == f) && (is_data(chunks[k]) <==> k == d)
    &&& all_bytes(chunks).len() + 4 <= u32::MAX
}

/// Where a chunk starts.
pub open spec fn chunk_start(chunks: Seq<ChunkModel>, k: int) -> int {
    12 + all_bytes(chunks.take(k)).len() as int
}

proof fn lemma_four_bytes(n: int, bytes: Seq<u8>, at: int)
    requires
        0 <= n <= u32::MAX,
        0 <= at,
        at + 4 <= bytes.len(),
        bytes.subrange(at, at + 4) == four_bytes(n),
    ensures
        long_at(bytes, at) == n,
{
    let b = bytes.subrange(at, at + 4);
    assert(b[0] == bytes[at] && b[1] == bytes[at + 1] && b[2] == bytes[at + 2] && b[3] == bytes[at
        + 3]);
}

proof fn lemma_two_bytes(n: int, bytes: Seq<u8>, at: int)
    requires
        0 <= n <= 0xffff,
        0 <= at,
        at + 2 <= bytes.len(),
        bytes.subrange(at, at + 2) == two_bytes(n),
    ensures
        word_at(bytes, at) == n,
{
    let b = bytes.subrange(at, at + 2);
    assert(b[0] == bytes[at] && b[1] == bytes[at + 1]);
}

proof fn lemma_starts(chunks: Seq<ChunkModel>, k: int)
    requires
        0 <= k < chunks.len(),
    ensures
        chunk_start(chunks, k + 1) == chunk_start(chunks, k) + chunk_bytes(chunks[k]).len(),
        all_bytes(chunks.take(k + 1)) == all_bytes(chunks.take(k)) + chunk_bytes(chunks[k]),
{
    assert(chunks.take(k + 1).drop_last() =~= chunks.take(k));
}

proof fn lemma_front(chunks: Seq<ChunkModel>, k: int)
    requires
        0 <= k <= chunks.len(),
    ensures
        all_bytes(chunks.take(k)).len() <= all_bytes(chunks).len(),
        all_bytes(chunks).take(all_bytes(chunks.take(k)).len() as int) == all_bytes(chunks.take(k)),
    decreases chunks.len() - k,
{
    if k == chunks.len() {
        assert(chunks.take(k) =~= chunks);
        assert(all_bytes(chunks).take(all_bytes(chunks).len() as int) =~= all_bytes(chunks));
    } else {
        lemma_front(chunks, k + 1);
        lemma_starts(chunks, k);
        let longer = all_bytes(chunks.take(k + 1));
        let shorter = all_bytes(chunks.take(k));
        assert(all_bytes(chunks).take(shorter.len() as int) =~= longer.take(shorter.len() as int));
        assert(longer.take(shorter.len() as int) =~= shorter);
    }
}

/// The bytes of a chunk stand at its start.
proof fn lemma_chunk_in_file(chunks: Seq<ChunkModel>, k: int)
    requires
        0 <= k < chunks.len(),
    ensures
        ({
            let file = file_of(chunks);
            let start = chunk_start(chunks, k);
            let bytes = chunk_bytes(chunks[k]);
            &&& start + bytes.len() <= file.len()
            &&& file.subrange(start, start + bytes.len()) == bytes
        }),
{
    lemma_front(chunks, k + 1);
    lemma_starts(chunks, k);
    let file = file_of(chunks);
    let start = chunk_start(chunks, k);
    let bytes = chunk_bytes(chunks[k]);
    let all = all_bytes(chunks);
    let longer = all_bytes(chunks.take(k + 1));
    assert(file.skip(12) =~= all);
    assert forall|i: int| 0 <= i < bytes.len() implies file[start + i] == bytes[i] by {
        assert(file[start + i] == file.skip(12)[start - 12 + i]);
        assert(all[start - 12 + i] == all.take(longer.len() as int)[start - 12 + i]);
        assert(longer[start - 12 + i] == bytes[i]);
    }
    assert(file.subrange(start, start + bytes.len()) =~= bytes);
}

/// What is known before chunk `k`.
spec fn known_before(chunks: Seq<ChunkModel>, f: int, d: int, format: WavFormat, k: int) -> Chunks {
    Chunks {
        format: if f < k {
            Some(format)
        } else {
            None
        },
        data: if d < k {
            Some(((chunk_start(chunks, d) + 8) as u64, chunks[d].payload.len() as u64))
        } else {
            None
        },
    }
}

/// What stands in a file at the start of one of its chunks.
proof fn lemma_chunk_parts(chunks: Seq<ChunkModel>, k: int)
    requires
        0 <= k < chunks.len(),
        chunks[k].tag.len() == 4,
        chunks[k].payload.len() <= u32::MAX,
    ensures
        ({
            let file = file_of(chunks);
            let at = chunk_start(chunks, k);
            let c = chunks[k];
            let size = c.payload.len() as int;
            let part = at_most(size, 40);
            &&& at + 8 + size <= file.len()
            &&& long_at(file, at + 4) == size
            &&& file.subrange(at + 8, at + 8 + size) == c.payload
            &&& file.subrange(at + 8, at + 8 + part) == c.payload.take(part)
            &&& c.tag == seq![file[at], file[at + 1], file[at + 2], file[at + 3]]
        }),
{
    let file = file_of(chunks);
    let c = chunks[k];
    let at = chunk_start(chunks, k);
    let bytes = chunk_bytes(c);
    let size = c.payload.len() as int;
    lemma_chunk_in_file(chunks, k);
    let here = file.subrange(at, at + bytes.len());
    assert(file.subrange(at + 4, at + 8) =~= here.subrange(4, 8));
    assert(bytes.subrange(4, 8) =~= four_bytes(size));
    lemma_four_bytes(size, file, at + 4);
    assert(file.subrange(at + 8, at + 8 + size) =~= here.subrange(8, 8 + size));
    assert(bytes.subrange(8, 8 + size) =~= c.payload);
    let part = at_most(size, 40);
    assert(file.subrange(at + 8, at + 8 + part) =~= file.subrange(at + 8, at + 8 + size).take(part));
    assert(bytes.take(4) =~= c.tag);
    assert(here.take(4) =~= seq![file[at], file[at + 1], file[at + 2], file[at + 3]]);
}

/// What a chunk adds.
proof fn lemma_chunk_adds(chunks: Seq<ChunkModel>, f: int, d: int, format: WavFormat, k: int)
    requires
        is_recording(chunks, f, d),
        format_of(
            chunks[f].payload.take(at_most(chunks[f].payload.len() as int, 40)),
            chunks[f].payload.len() as u64,
        ) == Ok::<WavFormat, Seq<char>>(format),
        0 <= k < chunks.len(),
        chunks[k].payload.len() <= u32::MAX,
    ensures
        with_chunk(
            file_of(chunks),
            chunk_start(chunks, k),
            chunk_start(chunks, k) + 8,
            chunks[k].payload.len() as int,
            known_before(chunks, f, d, format, k),
        ) == Ok::<Chunks, Seq<char>>(known_before(chunks, f, d, format, k + 1)),
{
    let file = file_of(chunks);
    let c = chunks[k];
    let at = chunk_start(chunks, k);
    assert(c.tag.len() == 4);
    lemma_chunk_parts(chunks, k);
    let here = seq![file[at], file[at + 1], file[at + 2], file[at + 3]];
    assert(has_tag(file, at, FMT) == is_fmt(c)) by {
        assert(FMT@ =~= seq![102u8, 109, 116, 32]);
        if has_tag(file, at, FMT) {
            assert(here =~= seq![102u8, 109, 116, 32]);
        }
    }
    assert(has_tag(file, at, DATA) == is_data(c)) by {
        assert(DATA@ =~= seq![100u8, 97, 116, 97]);
        if has_tag(file, at, DATA) {
            assert(here =~= seq![100u8, 97, 116, 97]);
        }
    }
    assert(is_fmt(c) <==> k == f);
    assert(is_data(c) <==> k == d);
}

proof fn lemma_walk(chunks: Seq<ChunkModel>, f: int, d: int, format: WavFormat, k: int)
    requires
        is_recording(chunks, f, d),
        format_of(
            chunks[f].payload.take(at_most(chunks[f].payload.len() as int, 40)),
            chunks[f].payload.len() as u64,
        ) == Ok::<WavFormat, Seq<char>>(format),
        0 <= k <= chunks.len(),
    ensures
        chunks_from(
            file_of(chunks),
            chunk_start(chunks, k),
            file_of(chunks).len() as int,
            known_before(chunks, f, d, format, k),
        ) == Ok::<Chunks, Seq<char>>(known_before(chunks, f, d, format, chunks.len() as int)),
    decreases chunks.len() - k,
{
    let file = file_of(chunks);
    let end = file.len() as int;
    assert(end == 12 + all_bytes(chunks).len());
    if k == chunks.len() {
        assert(chunks.take(k) =~= chunks);
    } else {
        let size = chunks[k].payload.len() as int;
        lemma_starts(chunks, k);
        lemma_front(chunks, k + 1);
        assert(chunks[k].tag.len() == 4);
        assert(chunk_bytes(chunks[k]).len() == 8 + size + size % 2);
        lemma_chunk_parts(chunks, k);
        lemma_chunk_adds(chunks, f, d, format, k);
        assert(at_most(chunk_start(chunks, k) + 8 + size + size % 2, end) == chunk_start(
            chunks,
            k + 1,
        ));
        lemma_walk(chunks, f, d, format, k + 1);
    }
}

/// A file is read as it was written, whatever other chunks it has before, between and behind
/// the two that matter, of odd or even size: with its format, and with all frames of its
/// data.
pub proof fn recordings_are_read_back(
    chunks: Seq<ChunkModel>,
    f: int,
    d: int,
    format: WavFormat,
    frames: nat,
)
    requires
        is_recording(chunks, f, d),
        format_of(
            chunks[f].payload.take(at_most(chunks[f].payload.len() as int, 40)),
            chunks[f].payload.len() as u64,
        ) == Ok::<WavFormat, Seq<char>>(format),
        chunks[d].payload.len() == frames * (format.channels * (format.bits_per_sample / 8)),
        format.channels * (format.bits_per_sample / 8) > 0,
    ensures
        layout_of(file_of(chunks)) == Ok::<Layout, Seq<char>>(
            Layout {
                format,
                start: (chunk_start(chunks, d) + 8) as u64,
                count: frames as u64,
            },
        ),
        file_of(chunks).subrange(
            chunk_start(chunks, d) + 8,
            chunk_start(chunks, d) + 8 + chunks[d].payload.len(),
        ) == chunks[d].payload,
{
    let file = file_of(chunks);
    let size = all_bytes(chunks).len() as int + 4;
    assert(file.subrange(4, 8) =~= four_bytes(size));
    lemma_four_bytes(size, file, 4);
    assert(chunks.take(0) =~= Seq::empty());
    assert(chunk_start(chunks, 0) == 12);
    lemma_walk(chunks, f, d, format, 0);
    assert(chunks[d].tag.len() == 4);
    lemma_chunk_in_file(chunks, d);
    lemma_chunk_parts(chunks, d);
    let block = frame_size(format);
    let n = frames as int;
    assert(n * block / block == n && n * block % block == 0) by (nonlinear_arith)
        requires
            block > 0,
            n >= 0,
    ;
    assert(n <= n * block) by (nonlinear_arith)
        requires
            block > 0,
            n >= 0,
    ;
}

/// The plain description of a format.
pub open spec fn plain_format(f: WavFormat) -> Seq<u8> {
    let block = f.channels * (f.bits_per_sample / 8);
    two_bytes(
        if f.encoding == SampleEncoding::Float {
            3
        } else {
            1
        },
    ) + two_bytes(f.channels as int) + four_bytes(f.sample_rate as int) + four_bytes(
        f.sample_rate * block,
    ) + two_bytes(block) + two_bytes(f.bits_per_sample as int)
}

/// Every format that is accepted is read back from its plain description: one or two
/// channels, 12 to 192 kHz, integers of 8, 16, 24 or 32 bits, or floats of 32.
pub proof fn plain_formats_are_read_back(f: WavFormat)
    requires
        12000 <= f.sample_rate <= 192000,
        1 <= f.channels <= 2,
        f.bits_per_sample == 8 || f.bits_per_sample == 16 || f.bits_per_sample == 24
            || f.bits_per_sample == 32,
        f.encoding == SampleEncoding::Float ==> f.bits_per_sample == 32,
        f.valid_bits_per_sample == f.bits_per_sample,
    ensures
        plain_format(f).len() == 16,
        format_of(plain_format(f), 16) == Ok::<WavFormat, Seq<char>>(f),
{
    let b = plain_format(f);
    let block = f.channels * (f.bits_per_sample / 8);
    let c = f.channels as int;
    let w = (f.bits_per_sample / 8) as int;
    let rate = f.sample_rate as int;
    assert(1 <= c * w <= 8) by (nonlinear_arith)
        requires
            1 <= c <= 2,
            1 <= w <= 4,
    ;
    assert(0 <= rate * block <= 192000 * 8) by (nonlinear_arith)
        requires
            0 <= rate <= 192000,
            1 <= block <= 8,
    ;
    let tag = if f.encoding == SampleEncoding::Float {
        3int
    } else {
        1
    };
    assert(b.subrange(0, 2) =~= two_bytes(tag));
    assert(b.subrange(2, 4) =~= two_bytes(c));
    assert(b.subrange(4, 8) =~= four_bytes(rate));
    assert(b.subrange(8, 12) =~= four_bytes(rate * block));
    assert(b.subrange(12, 14) =~= two_bytes(block));
    assert(b.subrange(14, 16) =~= two_bytes(f.bits_per_sample as int));
    lemma_two_bytes(tag, b, 0);
    lemma_two_bytes(c, b, 2);
    lemma_four_bytes(rate, b, 4);
    lemma_four_bytes(rate * block, b, 8);
    lemma_two_bytes(block, b, 12);
    lemma_two_bytes(f.bits_per_sample as int, b, 14);
}

/// What follows in an extended description: its size, the valid bits, the speakers, and the
/// number of the encoding in the fixed rest of an identifier.
pub open spec fn extension(f: WavFormat, speakers: int) -> Seq<u8> {
    two_bytes(22) + two_bytes(f.valid_bits_per_sample as int) + four_bytes(speakers) + four_bytes(
        if f.encoding == SampleEncoding::Float {
            3
        } else {
            1
        },
    ) + seq![0u8, 0, 16, 0, 128, 0, 0, 170, 0, 56, 155, 113]
}

/// The extended description of a format.
pub open spec fn extended_format(f: WavFormat, speakers: int) -> Seq<u8> {
    two_bytes(0xfffe) + plain_format(f).skip(2) + extension(f, speakers)
}

proof fn lemma_extension(f: WavFormat, speakers: int)
    ensures
        ({
            let e = extension(f, speakers);
            &&& e.len() == 24
            &&& e.subrange(0, 2) == two_bytes(22)
            &&& e.subrange(2, 4) == two_bytes(f.valid_bits_per_sample as int)
            &&& e.subrange(8, 12) == four_bytes(
                if f.encoding == SampleEncoding::Float {
                    3
                } else {
                    1
                },
            )
            &&& e.subrange(12, 24) == GUID_SUFFIX@
        }),
{
    let e = extension(f, speakers);
    assert(e.subrange(0, 2) =~= two_bytes(22));
    assert(e.subrange(2, 4) =~= two_bytes(f.valid_bits_per_sample as int));
    assert(e.subrange(8, 12) =~= four_bytes(
        if f.encoding == SampleEncoding::Float {
            3
        } else {
            1
        },
    ));
    assert(e.subrange(12, 24) =~= GUID_SUFFIX@);
}

proof fn lemma_extended_parts(f: WavFormat, speakers: int)
    requires
        plain_format(f).len() == 16,
        0 <= speakers <= u32::MAX,
    ensures
        ({
            let b = extended_format(f, speakers);
            &&& b.len() == 40
            &&& word_at(b, 0) == 0xfffe
            &&& forall|i: int| 2 <= i < 16 ==> b[i] == plain_format(f)[i]
            &&& word_at(b, 16) == 22
            &&& word_at(b, 18) == f.valid_bits_per_sample
            &&& long_at(b, 24) == (if f.encoding == SampleEncoding::Float {
                3int
            } else {
                1
            })
            &&& b.subrange(28, 40) == GUID_SUFFIX@
        }),
{
    lemma_extension(f, speakers);
    let e = extension(f, speakers);
    let b = extended_format(f, speakers);
    assert(b.subrange(0, 2) =~= two_bytes(0xfffe));
    lemma_two_bytes(0xfffe, b, 0);
    assert(b.subrange(16, 18) =~= e.subrange(0, 2));
    lemma_two_bytes(22, b, 16);
    assert(b.subrange(18, 20) =~= e.subrange(2, 4));
    lemma_two_bytes(f.valid_bits_per_sample as int, b, 18);
    assert(b.subrange(24, 28) =~= e.subrange(8, 12));
    lemma_four_bytes(
        if f.encoding == SampleEncoding::Float {
            3
        } else {
            1
        },
        b,
        24,
    );
    assert(b.subrange(28, 40) =~= e.subrange(12, 24));
}

/// Every format that is accepted is read back from its extended description, with any number
/// of valid bits up to those of a sample.
pub proof fn extended_formats_are_read_back(f: WavFormat, speakers: int)
    requires
        12000 <= f.sample_rate <= 192000,
        1 <= f.channels <= 2,
        f.bits_per_sample == 8 || f.bits_per_sample == 16 || f.bits_per_sample == 24
            || f.bits_per_sample == 32,
        1 <= f.valid_bits_per_sample <= f.bits_per_sample,
        f.encoding == SampleEncoding::Float ==> f.valid_bits_per_sample == 32,
        0 <= speakers <= u32::MAX,
    ensures
        extended_format(f, speakers).len() == 40,
        format_of(extended_format(f, speakers), 40) == Ok::<WavFormat, Seq<char>>(f),
{
    let plain = WavFormat { valid_bits_per_sample: f.bits_per_sample, ..f };
    plain_formats_are_read_back(plain);
    let p = plain_format(plain);
    assert(plain_format(f) == p);
    lemma_extended_parts(f, speakers);
    let b = extended_format(f, speakers);
    lemma_same_fields(b, p);
}

/// The fields that both descriptions share stand in the same places.
proof fn lemma_same_fields(b: Seq<u8>, p: Seq<u8>)
    requires
        forall|i: int| 2 <= i < 16 ==> b[i] == p[i],
    ensures
        word_at(b, 2) == word_at(p, 2),
        long_at(b, 4) == long_at(p, 4),
        long_at(b, 8) == long_at(p, 8),
        word_at(b, 12) == word_at(p, 12),
        word_at(b, 14) == word_at(p, 14),
{
}

/// What a format must be to be accepted, however it is described.
pub proof fn accepted_formats_are_consistent(bytes: Seq<u8>, size: u64)
    ensures
        format_of(bytes, size) matches Ok(f) ==> {
            &&& f.sample_rate == long_at(bytes, 4) && 12000 <= f.sample_rate <= 192000
            &&& f.channels == word_at(bytes, 2) && 1 <= f.channels <= 2
            &&& f.bits_per_sample == word_at(bytes, 14)
            &&& word_at(bytes, 12) * 8 == f.channels * f.bits_per_sample
            &&& long_at(bytes, 8) == f.sample_rate * word_at(bytes, 12)
            &&& 1 <= f.valid_bits_per_sample <= f.bits_per_sample
            &&& f.bits_per_sample % 8 == 0 && f.bits_per_sample <= 32
            &&& f.encoding == SampleEncoding::Float ==> f.valid_bits_per_sample == 32
            &&& word_at(bytes, 0) != 0xfffe ==> f.valid_bits_per_sample == f.bits_per_sample
        },
{
    if let Ok(f) = format_of(bytes, size) {
        let c = f.channels as int;
        let w = (f.bits_per_sample / 8) as int;
        assert(c * w * 8 == c * (w * 8)) by (nonlinear_arith);
    }
}

// ---------------------------------------------------------------------------
// Samples
// ---------------------------------------------------------------------------

/// The bytes of a sample as a number, low byte first, the first `n` of them.
pub open spec fn number_of(bytes: Seq<u8>, at: int, n: nat) -> int
    decreases n,
{
    if n == 0 {
        0
    } else {
        number_of(bytes, at, (n - 1) as nat) + bytes[at + n - 1] * pow2(8 * (n - 1) as nat)
    }
}

proof fn lemma_number_of(bytes: Seq<u8>, at: int, n: nat)
    requires
        1 <= n <= 4,
    ensures
        number_of(bytes, at, n) == raw_sample(bytes, at, n as int),
        0 <= number_of(bytes, at, n) < pow2(8 * n),
    decreases n,
{
    lemma2_to64();
    if n > 1 {
        lemma_number_of(bytes, at, (n - 1) as nat);
    } else {
        assert(number_of(bytes, at, 0) == 0);
    }
    let m = (n - 1) as nat;
    assert(m == 0 || m == 1 || m == 2 || m == 3);
    assert(bytes[at + n - 1] == bytes[at + m]);
    assert(pow2(0) == 1 && pow2(8) == 0x100 && pow2(16) == 0x1_0000 && pow2(24) == 0x100_0000
        && pow2(32) == 0x1_0000_0000);
}

/// The sign of a number is its highest bit.
proof fn lemma_sign(bytes: Seq<u8>, at: int, bits: nat)
    requires
        bits == 16 || bits == 24 || bits == 32,
    ensures
        ({
            let raw = number_of(bytes, at, bits / 8);
            signed(raw, bits as int) == (if bytes[at + bits / 8 - 1] >= 128 {
                raw - pow2(bits)
            } else {
                raw
            })
        }),
{
    lemma2_to64();
    let n = (bits / 8) as nat;
    let raw = number_of(bytes, at, n);
    let low = number_of(bytes, at, (n - 1) as nat);
    let top = bytes[at + n - 1] as int;
    lemma_number_of(bytes, at, (n - 1) as nat);
    assert(raw == low + top * pow2(8 * (n - 1) as nat));
    if bits == 16 {
        assert(pow2(15) == 0x8000 && pow2(16) == 0x1_0000 && pow2(8) == 0x100);
        assert(raw == low + top * 0x100);
        assert(raw >= 0x8000 <==> top >= 128);
    } else if bits == 24 {
        assert(pow2(23) == 0x80_0000 && pow2(24) == 0x100_0000 && pow2(16) == 0x1_0000);
        assert(raw == low + top * 0x1_0000);
        assert(raw >= 0x80_0000 <==> top >= 128);
    } else {
        assert(pow2(31) == 0x8000_0000 && pow2(32) == 0x1_0000_0000 && pow2(24) == 0x100_0000);
        assert(raw == low + top * 0x100_0000);
        assert(raw >= 0x8000_0000 <==> top >= 128);
    }
}

/// The sample that a number stands for: wider ones are two's complement, and below the valid
/// bits nothing counts. Eight bits are counted from their middle.
pub proof fn integer_samples_are_their_number(bytes: Seq<u8>, at: int, format: WavFormat)
    requires
        format.encoding == SampleEncoding::PcmInteger,
        format.bits_per_sample == 8 || format.bits_per_sample == 16 || format.bits_per_sample == 24
            || format.bits_per_sample == 32,
        1 <= format.valid_bits_per_sample <= format.bits_per_sample,
    ensures
        ({
            let bits = format.bits_per_sample as nat;
            let unit = pow2((bits - format.valid_bits_per_sample) as nat) as int;
            let raw = number_of(bytes, at, bits / 8);
            let sent = if bits == 8 {
                raw - 128
            } else if bytes[at + bits / 8 - 1] >= 128 {
                raw - pow2(bits)
            } else {
                raw
            };
            &&& sample_at(bytes, at, format) matches Ok(value)
            &&& value * unit <= sent < (value + 1) * unit
        }),
{
    lemma2_to64();
    let bits = format.bits_per_sample as nat;
    let valid = format.valid_bits_per_sample as nat;
    let pad = (bits - valid) as nat;
    let unit = pow2(pad) as int;
    lemma_pow2_pos(pad);
    lemma_number_of(bytes, at, bits / 8);
    let raw = number_of(bytes, at, bits / 8);
    assert(pow2(7) == 128 && pow2(8) == 0x100 && pow2(15) == 0x8000 && pow2(16) == 0x1_0000
        && pow2(23) == 0x80_0000 && pow2(24) == 0x100_0000 && pow2(31) == 0x8000_0000 && pow2(32)
        == 0x1_0000_0000);
    let value = integer_sample(bytes, at, format);
    if bits == 8 {
        let half = pow2((valid - 1) as nat) as int;
        lemma_pow2_adds((valid - 1) as nat, pad);
        assert(half * unit == 128);
        vstd::arithmetic::div_mod::lemma_fundamental_div_mod(raw, unit);
        let q = raw / unit;
        assert(value == q - half);
        assert((q - half) * unit == q * unit - half * unit) by (nonlinear_arith);
        assert((q - half + 1) * unit == q * unit - half * unit + unit) by (nonlinear_arith);
        assert(unit * q == q * unit) by (nonlinear_arith);
    } else {
        let sent = if bytes[at + bits / 8 - 1] >= 128 {
            raw - pow2(bits)
        } else {
            raw
        };
        lemma_sign(bytes, at, bits);
        vstd::arithmetic::div_mod::lemma_fundamental_div_mod(sent, unit);
        let q = sent / unit;
        assert((q + 1) * unit == q * unit + unit) by (nonlinear_arith);
        assert(unit * q == q * unit) by (nonlinear_arith);
    }
}

proof fn lemma_four_digits(a: int, b: int, c: int, d: int)
    requires
        0 <= a < 0x100,
        0 <= b < 0x100,
        0 <= c < 0x100,
        0 <= d < 0x100,
    ensures
        ({
            let n = a + b * 0x100 + c * 0x1_0000 + d * 0x100_0000;
            &&& n % 0x100 == a
            &&& n / 0x100 % 0x100 == b
            &&& n / 0x1_0000 % 0x100 == c
            &&& n / 0x100_0000 == d
            &&& n % 0x8000_0000 == a + b * 0x100 + c * 0x1_0000 + (d % 128) * 0x100_0000
        }),
{
    let n = a + b * 0x100 + c * 0x1_0000 + d * 0x100_0000;
    assert(n / 0x100 == b + c * 0x100 + d * 0x1_0000);
    assert(n / 0x1_0000 == c + d * 0x100);
    assert(n / 0x100_0000 == d);
    if d < 128 {
        assert(n < 0x8000_0000);
    } else {
        assert(d % 128 == d - 128);
        assert(0 <= n - 0x8000_0000 < 0x8000_0000);
    }
}

/// Floats are read bit by bit, and refused beyond minus one and one.
pub proof fn float_samples_are_their_bits(bytes: Seq<u8>, at: int, format: WavFormat)
    requires
        format.encoding == SampleEncoding::Float,
    ensures
        sample_at(bytes, at, format) is Ok <==> bytes[at + 3] % 128 < 0x3f || (bytes[at + 3] % 128
            == 0x3f && bytes[at + 2] < 128) || (bytes[at + 3] % 128 == 0x3f && bytes[at + 2] == 128
            && bytes[at + 1] == 0 && bytes[at] == 0),
        sample_at(bytes, at, format) matches Ok(value) ==> value % 0x100 == bytes[at] && value / 0x100
            % 0x100 == bytes[at + 1] && value / 0x1_0000 % 0x100 == bytes[at + 2] && value
            / 0x100_0000 == bytes[at + 3],
{
    let a = bytes[at] as int;
    let b = bytes[at + 1] as int;
    let c = bytes[at + 2] as int;
    let d = bytes[at + 3] as int;
    lemma_four_digits(a, b, c, d);
    let e = d % 128;
    let rest = a + b * 0x100 + c * 0x1_0000 + e * 0x100_0000;
    assert(rest <= 0x3f80_0000 <==> e < 0x3f || (e == 0x3f && c < 128) || (e == 0x3f && c == 128
        && b == 0 && a == 0));
}

/// Where a channel of a frame stands: frames follow each other, left before right.
pub open spec fn channel_place(wav: WavReader, right: bool, frame: int) -> int {
    let width = (wav.layout().format.bits_per_sample / 8) as int;
    wav.cursor() + frame * (width * wav.layout().format.channels) + (if right {
        width
    } else {
        0
    })
}

proof fn lemma_places(wav: WavReader, right: bool, frame: int)
    requires
        wav.layout().format.channels == 2,
    ensures
        wav.next_sample(
            2 * frame + (if right {
                1int
            } else {
                0
            }),
        ) == sample_at(wav.bytes(), channel_place(wav, right, frame), wav.layout().format),
{
    reveal(WavReader::next_sample);
    let width = (wav.layout().format.bits_per_sample / 8) as int;
    assert((2 * frame + 1) * width == frame * (width * 2) + width) by (nonlinear_arith);
    assert((2 * frame) * width == frame * (width * 2)) by (nonlinear_arith);
}

/// The mono sample of a frame is the only one, the left one, the right one, or both, as asked
/// for, each read from where it stands in the file.
pub proof fn channels_are_read_where_they_stand(wav: WavReader, channel: Channel, frame: int)
    requires
        wav.layout().format.channels == 1 || wav.layout().format.channels == 2,
    ensures
        ({
            let format = wav.layout().format;
            let left = sample_at(wav.bytes(), channel_place(wav, false, frame), format)->Ok_0 as i64;
            let right = sample_at(wav.bytes(), channel_place(wav, true, frame), format)->Ok_0 as i64;
            &&& format.channels == 1 || channel == Channel::Left ==> mono_at(wav, channel, frame)
                == Mono::One(left)
            &&& format.channels == 2 && channel == Channel::Right ==> mono_at(wav, channel, frame)
                == Mono::One(right)
            &&& format.channels == 2 && channel == Channel::Mix ==> mono_at(wav, channel, frame)
                == Mono::Both(left, right)
        }),
{
    if wav.layout().format.channels == 2 {
        lemma_places(wav, false, frame);
        lemma_places(wav, true, frame);
    } else {
        reveal(WavReader::next_sample);
        let width = (wav.layout().format.bits_per_sample / 8) as int;
        assert(frame * (width * 1) == frame * width) by (nonlinear_arith);
    }
}

} // verus!
