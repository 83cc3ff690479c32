//! RIFF/WAVE reader for decoder-compatible PCM input.
use vstd::arithmetic::power2::{lemma2_to64, lemma_pow2_unfold, pow2};
use vstd::prelude::*;
use vstd::string::*;

verus! {

pub const MAX_READ_BYTES: usize = 24_000;

#[derive(Clone, Copy, Debug, Eq, PartialEq, Structural)]
pub enum SampleEncoding {
    PcmInteger,
    Float,
}

#[derive(Clone, Copy, Debug, Eq, PartialEq, Structural)]
pub struct WavFormat {
    pub sample_rate: u32,
    pub channels: u16,
    pub encoding: SampleEncoding,
    pub bits_per_sample: u16,
    pub valid_bits_per_sample: u16,
}

// ---------------------------------------------------------------------------
// Numbers in files
// ---------------------------------------------------------------------------

/// A number of two bytes, low byte first.
pub open spec fn word_at(bytes: Seq<u8>, at: int) -> int {
    bytes[at] + bytes[at + 1] * 0x100
}

/// A number of four bytes, low byte first.
pub open spec fn long_at(bytes: Seq<u8>, at: int) -> int {
    bytes[at] + bytes[at + 1] * 0x100 + bytes[at + 2] * 0x1_0000 + bytes[at + 3] * 0x100_0000
}

fn u16_at(bytes: &[u8], at: usize) -> (r: u16)
    requires
        at + 2 <= bytes@.len(),
    ensures
        r == word_at(bytes@, at as int),
{
    bytes[at] as u16 + bytes[at + 1] as u16 * 0x100
}

fn u32_at(bytes: &[u8], at: usize) -> (r: u32)
    requires
        at + 4 <= bytes@.len(),
    ensures
        r == long_at(bytes@, at as int),
{
    bytes[at] as u32 + bytes[at + 1] as u32 * 0x100 + bytes[at + 2] as u32 * 0x1_0000 + bytes[at
        + 3] as u32 * 0x100_0000
}

/// The bytes at `at` are those of the tag.
pub open spec fn has_tag(bytes: Seq<u8>, at: int, tag: [u8; 4]) -> bool {
    bytes[at] == tag@[0] && bytes[at + 1] == tag@[1] && bytes[at + 2] == tag@[2] && bytes[at + 3]
        == tag@[3]
}

fn tagged(bytes: &[u8], at: usize, tag: [u8; 4]) -> (r: bool)
    requires
        at + 4 <= bytes@.len(),
    ensures
        r == has_tag(bytes@, at as int, tag),
{
    bytes[at] == tag[0] && bytes[at + 1] == tag[1] && bytes[at + 2] == tag[2] && bytes[at + 3]
        == tag[3]
}

pub const RIFF: [u8; 4] = [82, 73, 70, 70];

pub const WAVE: [u8; 4] = [87, 65, 86, 69];

pub const FMT: [u8; 4] = [102, 109, 116, 32];

pub const DATA: [u8; 4] = [100, 97, 116, 97];

/// The fixed part of a standard subformat identifier.
pub const GUID_SUFFIX: [u8; 12] = [
    0x00, 0x00, 0x10, 0x00, 0x80, 0x00, 0x00, 0xaa, 0x00, 0x38, 0x9b, 0x71,
];

// ---------------------------------------------------------------------------
// The format chunk
// ---------------------------------------------------------------------------

/// What is wrong with the extension of a format chunk, if anything.
pub open spec fn extension_complaint(bytes: Seq<u8>, chunk_size: u64) -> Option<Seq<char>> {
    if bytes.len() < 40 {
        Some("invalid WAVE_FORMAT_EXTENSIBLE chunk"@)
    } else if word_at(bytes, 16) < 22 || 18 + word_at(bytes, 16) > chunk_size {
        Some("invalid WAVE_FORMAT_EXTENSIBLE size"@)
    } else if bytes.subrange(28, 40) != GUID_SUFFIX@ || long_at(bytes, 24) > 0xffff {
        Some("unsupported WAVE_FORMAT_EXTENSIBLE subformat"@)
    } else {
        None
    }
}

/// The encoding of a format tag at a sample width.
pub open spec fn encoding_of(tag: int, bits: int) -> Option<SampleEncoding> {
    if tag == 1 && (bits == 8 || bits == 16 || bits == 24 || bits == 32) {
        Some(SampleEncoding::PcmInteger)
    } else if tag == 3 && bits == 32 {
        Some(SampleEncoding::Float)
    } else {
        None
    }
}

/// The format that a chunk describes. Only its first 40 bytes are read.
pub open spec fn format_of(bytes: Seq<u8>, chunk_size: u64) -> Result<WavFormat, Seq<char>> {
    let extensible = word_at(bytes, 0) == 0xfffe;
    let channels = word_at(bytes, 2);
    let rate = long_at(bytes, 4);
    let bits = word_at(bytes, 14);
    let tag = if extensible {
        long_at(bytes, 24)
    } else {
        word_at(bytes, 0)
    };
    let valid = if extensible {
        word_at(bytes, 18)
    } else {
        bits
    };
    let encoding = encoding_of(tag, bits);
    if bytes.len() < 16 {
        Err("WAV format chunk is too short"@)
    } else if !(12000 <= rate <= 192000) {
        Err("WAV sample rate must be between 12000 and 192000 Hz"@)
    } else if !(1 <= channels <= 2) {
        Err("WAV must have one or two channels"@)
    } else if extensible && extension_complaint(bytes, chunk_size) is Some {
        Err(extension_complaint(bytes, chunk_size)->0)
    } else if encoding is None {
        Err("unsupported WAV sample encoding"@)
    } else if valid == 0 || valid > bits {
        Err("invalid WAV valid-bits field"@)
    } else if encoding == Some(SampleEncoding::Float) && valid != 32 {
        Err("float WAV samples must have 32 valid bits"@)
    } else if word_at(bytes, 12) != channels * (bits / 8) || long_at(bytes, 8) != rate * (channels
        * (bits / 8)) {
        Err("inconsistent WAV byte rate or block alignment"@)
    } else {
        Ok(
            WavFormat {
                sample_rate: rate as u32,
                channels: channels as u16,
                encoding: encoding->0,
                bits_per_sample: bits as u16,
                valid_bits_per_sample: valid as u16,
            },
        )
    }
}

/// A format that the reader accepts.
pub open spec fn is_format(f: WavFormat) -> bool {
    &&& 12000 <= f.sample_rate <= 192000
    &&& 1 <= f.channels <= 2
    &&& f.bits_per_sample == 8 || f.bits_per_sample == 16 || f.bits_per_sample == 24
        || f.bits_per_sample == 32
    &&& 1 <= f.valid_bits_per_sample <= f.bits_per_sample
    &&& f.encoding == SampleEncoding::Float ==> f.bits_per_sample == 32
        && f.valid_bits_per_sample == 32
}

fn has_guid(bytes: &[u8]) -> (r: bool)
    requires
        bytes@.len() >= 40,
    ensures
        r == (bytes@.subrange(28, 40) == GUID_SUFFIX@),
{
    let mut i: usize = 0;
    while i < 12
        invariant
            i <= 12,
            bytes@.len() >= 40,
            forall|k: int| 0 <= k < i ==> bytes@.subrange(28, 40)[k] == #[trigger] GUID_SUFFIX@[k],
        decreases 12 - i,
    {
        if bytes[28 + i] != GUID_SUFFIX[i] {
            assert(bytes@.subrange(28, 40)[i as int] != GUID_SUFFIX@[i as int]);
            return false;
        }
        i = i + 1;
    }
    assert(bytes@.subrange(28, 40) =~= GUID_SUFFIX@);
    true
}

fn parse_format(bytes: &[u8], chunk_size: u64) -> (r: Result<WavFormat, String>)
    ensures
        match r {
            Ok(format) => format_of(bytes@, chunk_size) == Ok::<WavFormat, Seq<char>>(format)
                && is_format(format),
            Err(error) => format_of(bytes@, chunk_size) == Err::<WavFormat, Seq<char>>(error@),
        },
{
    if bytes.len() < 16 {
        return Err("WAV format chunk is too short".to_owned());
    }
    let original_tag: u16 = u16_at(bytes, 0);
    let channels: u16 = u16_at(bytes, 2);
    let sample_rate: u32 = u32_at(bytes, 4);
    let byte_rate: u32 = u32_at(bytes, 8);
    let block_align: u16 = u16_at(bytes, 12);
    let bits: u16 = u16_at(bytes, 14);
    if sample_rate < 12000 || sample_rate > 192000 {
        return Err("WAV sample rate must be between 12000 and 192000 Hz".to_owned());
    }
    if channels < 1 || channels > 2 {
        return Err("WAV must have one or two channels".to_owned());
    }
    let mut tag: u32 = original_tag as u32;
    let mut valid: u16 = bits;
    if original_tag == 0xfffe {
        if bytes.len() < 40 {
            return Err("invalid WAVE_FORMAT_EXTENSIBLE chunk".to_owned());
        }
        let extension: u16 = u16_at(bytes, 16);
        if extension < 22 || 18 + extension as u64 > chunk_size {
            return Err("invalid WAVE_FORMAT_EXTENSIBLE size".to_owned());
        }
        tag = u32_at(bytes, 24);
        if !has_guid(bytes) || tag > 0xffff {
            return Err("unsupported WAVE_FORMAT_EXTENSIBLE subformat".to_owned());
        }
        valid = u16_at(bytes, 18);
    }
    let encoding: SampleEncoding = if tag == 1 && (bits == 8 || bits == 16 || bits == 24 || bits
        == 32) {
        SampleEncoding::PcmInteger
    } else if tag == 3 && bits == 32 {
        SampleEncoding::Float
    } else {
        return Err("unsupported WAV sample encoding".to_owned());
    };
    if valid == 0 || valid > bits {
        return Err("invalid WAV valid-bits field".to_owned());
    }
    if encoding == SampleEncoding::Float && valid != 32 {
        return Err("float WAV samples must have 32 valid bits".to_owned());
    }
    proof {
        let c = channels as int;
        let b = (bits / 8) as int;
        let rate = sample_rate as int;
        assert(0 <= c * b <= 8) by (nonlinear_arith)
            requires
                0 <= c <= 2,
                0 <= b <= 4,
        ;
        let align = c * b;
        assert(0 <= rate * align <= 192000 * 8) by (nonlinear_arith)
            requires
                0 <= rate <= 192000,
                0 <= align <= 8,
        ;
    }
    let align: u16 = channels * (bits / 8);
    let expected: u32 = sample_rate * align as u32;
    if block_align != align || byte_rate != expected {
        return Err("inconsistent WAV byte rate or block alignment".to_owned());
    }
    Ok(
        WavFormat {
            sample_rate,
            channels,
            encoding,
            bits_per_sample: bits,
            valid_bits_per_sample: valid,
        },
    )
}

// ---------------------------------------------------------------------------
// Chunks
// ---------------------------------------------------------------------------

/// What the chunks so far have told: the format, and where the data lies.
#[derive(Clone, Copy, Debug, PartialEq, Eq)]
pub struct Chunks {
    pub format: Option<WavFormat>,
    pub data: Option<(u64, u64)>,
}

pub open spec fn at_most(a: int, b: int) -> int {
    if a < b {
        a
    } else {
        b
    }
}

/// What one chunk adds. Its payload stands at `start` and has `size` bytes.
pub open spec fn with_chunk(
    file: Seq<u8>,
    position: int,
    start: int,
    size: int,
    known: Chunks,
) -> Result<Chunks, Seq<char>> {
    if has_tag(file, position, FMT) {
        if known.format is Some {
            Err("duplicate WAV format chunk"@)
        } else {
            match format_of(file.subrange(start, start + at_most(size, 40)), size as u64) {
                Ok(format) => Ok(Chunks { format: Some(format), ..known }),
                Err(error) => Err(error),
            }
        }
    } else if has_tag(file, position, DATA) {
        if known.data is Some {
            Err("duplicate WAV data chunk"@)
        } else {
            Ok(Chunks { data: Some((start as u64, size as u64)), ..known })
        }
    } else {
        Ok(known)
    }
}

/// The chunks from `position` to `end`. Chunks of odd size are padded, but the
/// last one need not be.
pub open spec fn chunks_from(file: Seq<u8>, position: int, end: int, known: Chunks) -> Result<
    Chunks,
    Seq<char>,
>
    decreases end - position,
{
    if position >= end {
        Ok(known)
    } else if end - position < 8 {
        Err("truncated WAV chunk header"@)
    } else {
        let size = long_at(file, position + 4);
        let start = position + 8;
        if size < 0 || start + size > end {
            Err("WAV chunk exceeds RIFF length"@)
        } else {
            match with_chunk(file, position, start, size, known) {
                Ok(found) => chunks_from(
                    file,
                    at_most(start + size + size % 2, end),
                    end,
                    found,
                ),
                Err(error) => Err(error),
            }
        }
    }
}

/// What a file holds: its format, where its frames start, and how many there are.
#[derive(Clone, Copy, Debug, PartialEq, Eq)]
pub struct Layout {
    pub format: WavFormat,
    pub start: u64,
    pub count: u64,
}

/// Bytes of one frame.
pub open spec fn frame_size(format: WavFormat) -> int {
    format.channels * (format.bits_per_sample / 8)
}

/// The layout of a file.
pub open spec fn layout_of(file: Seq<u8>) -> Result<Layout, Seq<char>> {
    let end = long_at(file, 4) + 8;
    if file.len() < 12 {
        Err("failed to fill whole buffer"@)
    } else if !has_tag(file, 0, RIFF) || !has_tag(file, 8, WAVE) {
        Err("expected RIFF/WAVE audio"@)
    } else if end < 12 || end > file.len() {
        Err("truncated or invalid RIFF length"@)
    } else {
        match chunks_from(file, 12, end, Chunks { format: None, data: None }) {
            Err(error) => Err(error),
            Ok(found) => match found.format {
                None => Err("missing WAV format"@),
                Some(format) => match found.data {
                    None => Err("missing WAV data"@),
                    Some((start, size)) => if size as int % frame_size(format) != 0 {
                        Err("WAV data does not contain complete frames"@)
                    } else {
                        Ok(
                            Layout {
                                format,
                                start,
                                count: (size as int / frame_size(format)) as u64,
                            },
                        )
                    },
                },
            },
        }
    }
}

/// The chunks found so far are usable: the format is accepted, and the data lies
/// within the file.
spec fn is_usable(known: Chunks, end: int) -> bool {
    &&& known.format matches Some(format) ==> is_format(format)
    &&& known.data matches Some((start, size)) ==> start + size <= end
}

fn read_chunk(file: &[u8], position: usize, start: usize, size: usize, known: Chunks) -> (r: Result<
    Chunks,
    String,
>)
    requires
        position + 8 == start,
        start + size <= file@.len(),
        file@.len() <= u64::MAX,
        is_usable(known, file@.len() as int),
    ensures
        match r {
            Ok(found) => with_chunk(file@, position as int, start as int, size as int, known)
                == Ok::<Chunks, Seq<char>>(found) && is_usable(found, file@.len() as int),
            Err(error) => with_chunk(file@, position as int, start as int, size as int, known)
                == Err::<Chunks, Seq<char>>(error@),
        },
{
    let total: usize = file.len();
    if tagged(file, position, FMT) {
        if known.format.is_some() {
            return Err("duplicate WAV format chunk".to_owned());
        }
        let needed: usize = if size < 40 { size } else { 40 };
        match parse_format(vstd::slice::slice_subrange(file, start, start + needed), size as u64) {
            Ok(format) => Ok(Chunks { format: Some(format), data: known.data }),
            Err(error) => Err(error),
        }
    } else if tagged(file, position, DATA) {
        if known.data.is_some() {
            return Err("duplicate WAV data chunk".to_owned());
        }
        Ok(Chunks { format: known.format, data: Some((start as u64, size as u64)) })
    } else {
        Ok(known)
    }
}

fn read_chunks(file: &[u8], end: usize) -> (r: Result<Chunks, String>)
    requires
        12 <= end <= file@.len(),
        file@.len() <= u64::MAX,
    ensures
        match r {
            Ok(found) => chunks_from(
                file@,
                12,
                end as int,
                Chunks { format: None, data: None },
            ) == Ok::<Chunks, Seq<char>>(found) && is_usable(found, file@.len() as int),
            Err(error) => chunks_from(
                file@,
                12,
                end as int,
                Chunks { format: None, data: None },
            ) == Err::<Chunks, Seq<char>>(error@),
        },
{
    let mut position: usize = 12;
    let mut known: Chunks = Chunks { format: None, data: None };
    let ghost whole = chunks_from(file@, 12, end as int, known);
    while position < end
        invariant
            12 <= position <= end <= file@.len(),
            file@.len() <= u64::MAX,
            whole == chunks_from(file@, 12, end as int, Chunks { format: None, data: None }),
            whole == chunks_from(file@, position as int, end as int, known),
            is_usable(known, file@.len() as int),
        decreases end - position,
    {
        if end - position < 8 {
            return Err("truncated WAV chunk header".to_owned());
        }
        let size: u32 = u32_at(file, position + 4);
        let start: usize = position + 8;
        if size as u64 > (end - start) as u64 {
            return Err("WAV chunk exceeds RIFF length".to_owned());
        }
        match read_chunk(file, position, start, size as usize, known) {
            Ok(found) => {
                known = found;
            },
            Err(error) => {
                return Err(error);
            },
        }
        let payload_end: usize = start + size as usize;
        position = if size % 2 == 1 && payload_end < end {
            payload_end + 1
        } else {
            payload_end
        };
    }
    Ok(known)
}

// ---------------------------------------------------------------------------
// Samples
// ---------------------------------------------------------------------------

/// A number of `bits` bits in two's complement.
pub open spec fn signed(raw: int, bits: int) -> int {
    let half = pow2((bits - 1) as nat) as int;
    if raw >= half {
        raw - 2 * half
    } else {
        raw
    }
}

/// The bytes of a sample as a number, low byte first.
pub open spec fn raw_sample(bytes: Seq<u8>, at: int, size: int) -> int {
    if size == 1 {
        bytes[at] as int
    } else if size == 2 {
        word_at(bytes, at)
    } else if size == 3 {
        word_at(bytes, at) + bytes[at + 2] * 0x1_0000
    } else {
        long_at(bytes, at)
    }
}

/// The value of an integer sample without its padding bits: eight bit samples are
/// offset binary, wider ones two's complement.
pub open spec fn integer_sample(bytes: Seq<u8>, at: int, format: WavFormat) -> int {
    let bits = format.bits_per_sample as int;
    let valid = format.valid_bits_per_sample as int;
    let raw = raw_sample(bytes, at, bits / 8);
    if bits == 8 {
        raw / (pow2((bits - valid) as nat) as int) - pow2((valid - 1) as nat)
    } else {
        signed(raw, bits) / (pow2((bits - valid) as nat) as int)
    }
}

/// A single precision pattern of a value within minus one and one.
pub open spec fn is_normalized(bits: int) -> bool {
    bits % 0x8000_0000 <= 0x3f80_0000
}

/// The sample at `at`: an integer, or the bit pattern of a normalized float.
pub open spec fn sample_at(bytes: Seq<u8>, at: int, format: WavFormat) -> Result<int, Seq<char>> {
    if format.encoding == SampleEncoding::Float {
        if is_normalized(long_at(bytes, at)) {
            Ok(long_at(bytes, at))
        } else {
            Err("float WAV sample is nonfinite or outside [-1, 1]"@)
        }
    } else {
        Ok(integer_sample(bytes, at, format))
    }
}

fn power(k: u16) -> (r: i64)
    requires
        k <= 32,
    ensures
        r == pow2(k as nat),
        1 <= r <= 0x1_0000_0000,
{
    let mut value: i64 = 1;
    let mut i: u16 = 0;
    proof {
        lemma2_to64();
    }
    while i < k
        invariant
            i <= k <= 32,
            value == pow2(i as nat),
            1 <= value,
        decreases k - i,
    {
        proof {
            lemma_pow2_unfold((i + 1) as nat);
            lemma2_to64();
            if i < 31 {
                vstd::arithmetic::power2::lemma_pow2_strictly_increases(i as nat, 31);
            }
        }
        value = value * 2;
        i = i + 1;
    }
    proof {
        lemma2_to64();
        if k < 32 {
            vstd::arithmetic::power2::lemma_pow2_strictly_increases(k as nat, 32);
        }
    }
    value
}

fn floor_div(x: i64, d: i64) -> (r: i64)
    requires
        -0x1_0000_0000 <= x <= 0x1_0000_0000,
        1 <= d <= 0x1_0000_0000,
    ensures
        r == x as int / d as int,
        -0x1_0000_0000 <= r <= 0x1_0000_0000,
{
    let ghost q = x as int / d as int;
    proof {
        vstd::arithmetic::div_mod::lemma_fundamental_div_mod(x as int, d as int);
        assert(0 <= (x as int) % (d as int) < (d as int));
    }
    if x >= 0 {
        proof {
            assert(0 <= q <= x) by (nonlinear_arith)
                requires
                    0 <= x,
                    1 <= d,
                    q == x as int / d as int,
            ;
        }
        x / d
    } else {
        let n: i64 = -x;
        let up: i64 = (n + d - 1) / d;
        proof {
            let u = up as int;
            let m = n + d - 1;
            vstd::arithmetic::div_mod::lemma_fundamental_div_mod(m as int, d as int);
            let s = m as int % d as int;
            let t = x as int % d as int;
            assert(m == d * u + s && 0 <= s < d);
            assert(x == d * q + t && 0 <= t < d);
            assert(d * (q + u) == -d * 0 + (m - s) + (x - t)) by (nonlinear_arith)
                requires
                    m == d * u + s,
                    x == d * q + t,
            ;
            assert(-d < d * (q + u) < d);
            assert(q + u == 0) by (nonlinear_arith)
                requires
                    -d < d * (q + u) < d,
                    d >= 1,
            ;
            assert(0 <= u <= m) by (nonlinear_arith)
                requires
                    m == d * u + s,
                    0 <= s < d,
                    d >= 1,
                    m >= 0,
            ;
            assert(u <= n) by (nonlinear_arith)
                requires
                    n + d - 1 == d * u + s,
                    0 <= s,
                    d >= 1,
                    n >= 1,
            ;
        }
        -up
    }
}

fn raw_value(bytes: &[u8], at: usize, size: u16) -> (r: i64)
    requires
        size == 1 || size == 2 || size == 3 || size == 4,
        at + size <= bytes@.len(),
    ensures
        r == raw_sample(bytes@, at as int, size as int),
        0 <= r,
        size == 1 ==> r < 0x100,
        size == 2 ==> r < 0x1_0000,
        size == 3 ==> r < 0x100_0000,
        size == 4 ==> r < 0x1_0000_0000,
{
    let total: usize = bytes.len();
    if size == 1 {
        bytes[at] as i64
    } else if size == 2 {
        u16_at(bytes, at) as i64
    } else if size == 3 {
        u16_at(bytes, at) as i64 + bytes[at + 2] as i64 * 0x1_0000
    } else {
        u32_at(bytes, at) as i64
    }
}

fn decode_sample(bytes: &[u8], at: usize, format: WavFormat) -> (r: Result<i64, String>)
    requires
        is_format(format),
        at + format.bits_per_sample / 8 <= bytes@.len(),
    ensures
        match r {
            Ok(value) => sample_at(bytes@, at as int, format) == Ok::<int, Seq<char>>(
                value as int,
            ),
            Err(error) => sample_at(bytes@, at as int, format) == Err::<int, Seq<char>>(error@),
        },
{
    if format.encoding == SampleEncoding::Float {
        let bits: u32 = u32_at(bytes, at);
        if bits % 0x8000_0000 > 0x3f80_0000 {
            return Err("float WAV sample is nonfinite or outside [-1, 1]".to_owned());
        }
        return Ok(bits as i64);
    }
    let bits: u16 = format.bits_per_sample;
    let valid: u16 = format.valid_bits_per_sample;
    let raw: i64 = raw_value(bytes, at, bits / 8);
    let divisor: i64 = power(bits - valid);
    proof {
        lemma2_to64();
    }
    if bits == 8 {
        let offset: i64 = power(valid - 1);
        Ok(floor_div(raw, divisor) - offset)
    } else {
        let half: i64 = power(bits - 1);
        let value: i64 = if raw >= half { raw - 2 * half } else { raw };
        Ok(floor_div(value, divisor))
    }
}

// ---------------------------------------------------------------------------
// The reader
// ---------------------------------------------------------------------------

/// A WAV file, and how much of it has been read.
pub struct WavReader {
    bytes: Vec<u8>,
    layout: Layout,
    remaining: u64,
}

/// Mono 12 kHz signed 16-bit PCM.
pub open spec fn is_legacy(format: WavFormat) -> bool {
    format == (WavFormat {
        sample_rate: 12000,
        channels: 1,
        encoding: SampleEncoding::PcmInteger,
        bits_per_sample: 16,
        valid_bits_per_sample: 16,
    })
}

/// A number of 16 bits in two's complement.
pub open spec fn short_at(bytes: Seq<u8>, at: int) -> i16 {
    (if word_at(bytes, at) >= 0x8000 {
        word_at(bytes, at) - 0x1_0000
    } else {
        word_at(bytes, at)
    }) as i16
}

/// Sample `i` of those that start at a place of the file.
pub open spec fn sample_from(bytes: Seq<u8>, start: int, format: WavFormat, i: int) -> Result<
    int,
    Seq<char>,
> {
    sample_at(bytes, start + i * (format.bits_per_sample / 8), format)
}

/// Sample `i` of those is the first that is refused.
spec fn is_fault(bytes: Seq<u8>, start: int, format: WavFormat, i: int, error: Seq<char>) -> bool {
    &&& 0 <= i
    &&& sample_from(bytes, start, format, i) == Err::<int, Seq<char>>(error)
    &&& forall|k: int| 0 <= k < i ==> #[trigger] sample_from(bytes, start, format, k) is Ok
}

/// The first sample that is refused is one of the first `total`.
spec fn has_fault(
    bytes: Seq<u8>,
    start: int,
    format: WavFormat,
    total: int,
    error: Seq<char>,
) -> bool {
    exists|i: int| i < total && #[trigger] is_fault(bytes, start, format, i, error)
}

fn decode_samples(bytes: &[u8], start: usize, total: usize, format: WavFormat) -> (r: Result<
    Vec<i64>,
    String,
>)
    requires
        is_format(format),
        total <= 48000,
        start + total * (format.bits_per_sample / 8) <= bytes@.len(),
    ensures
        match r {
            Ok(samples) => samples@.len() == total && forall|i: int|
                0 <= i < total ==> sample_from(bytes@, start as int, format, i) == Ok::<
                    int,
                    Seq<char>,
                >((#[trigger] samples@[i]) as int),
            Err(error) => has_fault(bytes@, start as int, format, total as int, error@),
        },
{
    let width: usize = (format.bits_per_sample / 8) as usize;
    let length: usize = bytes.len();
    let mut samples: Vec<i64> = Vec::new();
    let mut i: usize = 0;
    while i < total
        invariant
            i <= total <= 48000,
            width == format.bits_per_sample / 8,
            1 <= width <= 4,
            is_format(format),
            start + total * width <= length,
            length == bytes@.len(),
            samples.len() == i,
            forall|k: int|
                0 <= k < i ==> sample_from(bytes@, start as int, format, k) == Ok::<
                    int,
                    Seq<char>,
                >((#[trigger] samples@[k]) as int),
            forall|k: int|
                0 <= k < i ==> #[trigger] sample_from(bytes@, start as int, format, k) is Ok,
        decreases total - i,
    {
        proof {
            assert(i * width + width <= total * width) by (nonlinear_arith)
                requires
                    i + 1 <= total,
                    1 <= width <= 4,
            ;
            assert(0 <= i * width <= 192000) by (nonlinear_arith)
                requires
                    0 <= i <= 48000,
                    1 <= width <= 4,
            ;
        }
        let at: usize = start + i * width;
        match decode_sample(bytes, at, format) {
            Ok(value) => {
                samples.push(value);
            },
            Err(error) => {
                proof {
                    let k = i as int;
                    assert(sample_from(bytes@, start as int, format, k) == Err::<int, Seq<char>>(
                        error@,
                    ));
                    assert(is_fault(bytes@, start as int, format, k, error@));
                    assert(has_fault(bytes@, start as int, format, total as int, error@));
                }
                return Err(error);
            },
        }
        i = i + 1;
    }
    Ok(samples)
}

/// A read that has succeeded: it hands out the samples of the frames that it is granted,
/// and the frames behind them are next.
pub open spec fn is_read(
    before: WavReader,
    maximum: usize,
    samples: Seq<i64>,
    after: WavReader,
) -> bool {
    let total = before.granted(maximum) * before.layout().format.channels;
    &&& after.bytes() == before.bytes()
    &&& after.layout() == before.layout()
    &&& after.remaining() == before.remaining() - before.granted(maximum)
    &&& samples.len() == total
    &&& forall|i: int|
        0 <= i < total ==> before.next_sample(i) == Ok::<int, Seq<char>>(
            (#[trigger] samples[i]) as int,
        )
}

/// Sample `i` of what is read next is the first that is refused.
pub open spec fn is_first_fault(reader: WavReader, i: int, error: Seq<char>) -> bool {
    &&& 0 <= i
    &&& reader.next_sample(i) == Err::<int, Seq<char>>(error)
    &&& forall|k: int| 0 <= k < i ==> #[trigger] reader.next_sample(k) is Ok
}

/// One of the next `total` samples is refused, the first of them with this error.
pub open spec fn is_refused(reader: WavReader, total: int, error: Seq<char>) -> bool {
    exists|i: int| i < total && #[trigger] is_first_fault(reader, i, error)
}

impl WavReader {
    pub closed spec fn bytes(&self) -> Seq<u8> {
        self.bytes@
    }

    pub closed spec fn layout(&self) -> Layout {
        self.layout
    }

    pub closed spec fn remaining(&self) -> u64 {
        self.remaining
    }

    /// Where the next frame starts.
    pub open spec fn cursor(&self) -> int {
        self.layout().start + (self.layout().count - self.remaining()) * frame_size(
            self.layout().format,
        )
    }

    pub open spec fn wf(&self) -> bool {
        &&& is_format(self.layout().format)
        &&& self.remaining() <= self.layout().count
        &&& self.layout().start + self.layout().count * frame_size(self.layout().format)
            <= self.bytes().len()
        &&& self.bytes().len() <= usize::MAX
    }

    /// Reads the layout of a file.
    pub fn new(bytes: Vec<u8>) -> (r: Result<Self, String>)
        ensures
            match r {
                Ok(reader) => {
                    &&& layout_of(bytes@) == Ok::<Layout, Seq<char>>(reader.layout())
                    &&& reader.wf()
                    &&& reader.bytes() == bytes@
                    &&& reader.remaining() == reader.layout().count
                },
                Err(error) => layout_of(bytes@) == Err::<Layout, Seq<char>>(error@),
            },
    {
        let file: &[u8] = bytes.as_slice();
        if file.len() < 12 {
            return Err("failed to fill whole buffer".to_owned());
        }
        if !tagged(file, 0, RIFF) || !tagged(file, 8, WAVE) {
            return Err("expected RIFF/WAVE audio".to_owned());
        }
        let end: u64 = u32_at(file, 4) as u64 + 8;
        if end < 12 || end > file.len() as u64 {
            return Err("truncated or invalid RIFF length".to_owned());
        }
        let found: Chunks = match read_chunks(file, end as usize) {
            Ok(found) => found,
            Err(error) => {
                return Err(error);
            },
        };
        let format: WavFormat = match found.format {
            Some(format) => format,
            None => {
                return Err("missing WAV format".to_owned());
            },
        };
        let (start, size) = match found.data {
            Some(data) => data,
            None => {
                return Err("missing WAV data".to_owned());
            },
        };
        proof {
            lemma_frame_size(format);
        }
        let block: u64 = (format.channels * (format.bits_per_sample / 8)) as u64;
        if size % block != 0 {
            return Err("WAV data does not contain complete frames".to_owned());
        }
        let count: u64 = size / block;
        proof {
            vstd::arithmetic::div_mod::lemma_fundamental_div_mod(size as int, block as int);
            let b = block as int;
            let q = count as int;
            assert(q * b == b * q) by (nonlinear_arith);
        }
        Ok(WavReader { bytes, layout: Layout { format, start, count }, remaining: count })
    }

    pub fn format(&self) -> (r: WavFormat)
        ensures
            r == self.layout().format,
    {
        self.layout.format
    }

    /// Returns the number of source frames, where a stereo pair is one frame.
    pub fn sample_count(&self) -> (r: u64)
        ensures
            r == self.layout().count,
    {
        self.layout.count
    }

    /// Reads legacy mono 12 kHz signed 16-bit PCM, at most 12000 samples at once.
    pub fn read_samples(&mut self, maximum: usize) -> (r: Result<Vec<i16>, String>)
        requires
            old(self).wf(),
        ensures
            final(self).wf(),
            final(self).bytes() == old(self).bytes(),
            final(self).layout() == old(self).layout(),
            match r {
                Ok(samples) => {
                    let n = at_most(at_most(maximum as int, 12000), old(self).remaining() as int);
                    &&& is_legacy(old(self).layout().format)
                    &&& samples@ == Seq::new(
                        n as nat,
                        |i: int| short_at(old(self).bytes(), old(self).cursor() + 2 * i),
                    )
                    &&& final(self).remaining() == old(self).remaining() - n
                },
                Err(error) => {
                    &&& !is_legacy(old(self).layout().format)
                    &&& error@ == "legacy WAV reads require mono 12000 Hz signed 16-bit PCM"@
                    &&& final(self).remaining() == old(self).remaining()
                },
            },
    {
        let format: WavFormat = self.layout.format;
        if !(format.sample_rate == 12000 && format.channels == 1 && format.encoding
            == SampleEncoding::PcmInteger && format.bits_per_sample == 16
            && format.valid_bits_per_sample == 16) {
            return Err("legacy WAV reads require mono 12000 Hz signed 16-bit PCM".to_owned());
        }
        let bounded: usize = if maximum < 12000 { maximum } else { 12000 };
        let n: usize = if (bounded as u64) < self.remaining {
            bounded
        } else {
            self.remaining as usize
        };
        proof {
            self.lemma_cursor(n as int);
            let c = format.channels as int;
            let w = (format.bits_per_sample / 8) as int;
            assert(c * w == 2) by (nonlinear_arith)
                requires
                    c == 1,
                    w == 2,
            ;
        }
        let start: usize = (self.layout.start + (self.layout.count - self.remaining) * 2) as usize;
        let mut samples: Vec<i16> = Vec::new();
        let mut i: usize = 0;
        while i < n
            invariant
                i <= n,
                n <= 12000,
                n <= self.remaining,
                self.wf(),
                frame_size(self.layout().format) == 2,
                *self == *old(self),
                start == self.cursor(),
                samples@ =~= Seq::new(
                    i as nat,
                    |i: int| short_at(self.bytes(), self.cursor() + 2 * i),
                ),
            decreases n - i,
        {
            let word: i32 = u16_at(self.bytes.as_slice(), start + 2 * i) as i32;
            let value: i32 = if word >= 0x8000 { word - 0x1_0000 } else { word };
            samples.push(value as i16);
            i = i + 1;
        }
        self.remaining = self.remaining - n as u64;
        Ok(samples)
    }

    /// Frames that one read hands out.
    pub open spec fn granted(&self, maximum: usize) -> int {
        at_most(
            at_most(
                maximum as int,
                MAX_READ_BYTES as int / frame_size(self.layout().format),
            ),
            self.remaining() as int,
        )
    }

    /// Sample `i` of the frames that are read next.
    #[verifier::opaque]
    pub open spec fn next_sample(&self, i: int) -> Result<int, Seq<char>> {
        sample_from(self.bytes(), self.cursor(), self.layout().format, i)
    }

    /// Reads frames with interleaved channels: integers without their padding
    /// bits, or bit patterns of normalized single precision values.
    pub fn read_frames(&mut self, maximum: usize) -> (r: Result<Vec<i64>, String>)
        requires
            old(self).wf(),
        ensures
            final(self).wf(),
            final(self).bytes() == old(self).bytes(),
            final(self).layout() == old(self).layout(),
            final(self).remaining() == old(self).remaining() - old(self).granted(maximum),
            match r {
                Ok(samples) => is_read(*old(self), maximum, samples@, *final(self)),
                Err(error) => is_refused(
                    *old(self),
                    old(self).granted(maximum) * old(self).layout().format.channels,
                    error@,
                ),
            },
    {
        let format: WavFormat = self.layout.format;
        proof {
            lemma_frame_size(format);
        }
        let block: usize = (format.channels * (format.bits_per_sample / 8)) as usize;
        let limit: usize = MAX_READ_BYTES / block;
        let bounded: usize = if maximum < limit { maximum } else { limit };
        let frames: usize = if (bounded as u64) < self.remaining {
            bounded
        } else {
            self.remaining as usize
        };
        proof {
            self.lemma_cursor(frames as int);
            let c = format.channels as int;
            let f = frames as int;
            assert(0 <= f <= 24000) by (nonlinear_arith)
                requires
                    0 <= f <= 24000int / (block as int),
                    block >= 1,
            ;
            assert(0 <= f * c <= 48000) by (nonlinear_arith)
                requires
                    0 <= f <= 24000,
                    1 <= c <= 2,
            ;
        }
        let start: usize = (self.layout.start + (self.layout.count - self.remaining)
            * block as u64) as usize;
        let total: usize = frames * format.channels as usize;
        let ghost before = *self;
        proof {
            reveal(WavReader::next_sample);
        }
        assert(frames == before.granted(maximum));
        assert(start == before.cursor());
        let result: Result<Vec<i64>, String> = decode_samples(
            self.bytes.as_slice(),
            start,
            total,
            format,
        );
        self.remaining = self.remaining - frames as u64;
        match result {
            Ok(samples) => {
                assert forall|k: int| 0 <= k < total implies before.next_sample(k) == Ok::<
                    int,
                    Seq<char>,
                >((#[trigger] samples@[k]) as int) by {}
                Ok(samples)
            },
            Err(error) => {
                proof {
                    let at = choose|at: int|
                        at < total && #[trigger] is_fault(
                            before.bytes(),
                            start as int,
                            format,
                            at,
                            error@,
                        );
                    assert forall|k: int| 0 <= k < at implies #[trigger] before.next_sample(
                        k,
                    ) is Ok by {
                        assert(sample_from(before.bytes(), start as int, format, k) is Ok);
                    }
                    assert(is_first_fault(before, at, error@));
                    assert(is_refused(before, total as int, error@));
                }
                Err(error)
            },
        }
    }

    /// Reads all that is left: no sample may be refused, even where none is wanted.
    pub fn check_rest(&mut self) -> (r: Result<(), String>)
        requires
            old(self).wf(),
        ensures
            final(self).wf(),
            final(self).bytes() == old(self).bytes(),
            final(self).layout() == old(self).layout(),
            ({
                let total = old(self).remaining() * old(self).layout().format.channels;
                match r {
                    Ok(_) => {
                        &&& final(self).remaining() == 0
                        &&& forall|i: int|
                            0 <= i < total ==> #[trigger] old(self).next_sample(i) is Ok
                    },
                    Err(error) => is_refused(*old(self), total, error@),
                }
            }),
    {
        let ghost first = *self;
        let ghost c = first.layout().format.channels as int;
        proof {
            assert(0 * c == 0);
        }
        while self.remaining > 0
            invariant
                self.wf(),
                first == *old(self),
                c == first.layout().format.channels,
                is_further(first, *self, first.remaining() - self.remaining()),
                self.remaining() <= first.remaining(),
                forall|i: int|
                    0 <= i < (first.remaining() - self.remaining()) * c
                        ==> #[trigger] first.next_sample(i) is Ok,
            decreases self.remaining,
        {
            let ghost before = *self;
            let ghost done = first.remaining() - before.remaining();
            let ghost more = before.granted(1024);
            proof {
                lemma_granted(before, 1024);
                assert(done * c + more * c == (done + more) * c) by (nonlinear_arith);
                assert((done + more) * c <= first.remaining() * c) by (nonlinear_arith)
                    requires
                        done + more <= first.remaining(),
                        c >= 0,
                ;
                assert(0 <= done * c) by (nonlinear_arith)
                    requires
                        done >= 0,
                        c >= 0,
                ;
            }
            match self.read_frames(1024) {
                Ok(samples) => {
                    proof {
                        assert forall|i: int| 0 <= i < (done + more) * c implies (
                        #[trigger] first.next_sample(i)) is Ok by {
                            if i >= done * c {
                                reads_go_on(first, before, done, i - done * c);
                                assert(before.next_sample(i - done * c) == Ok::<int, Seq<char>>(
                                    samples@[i - done * c] as int,
                                ));
                            }
                        }
                    }
                },
                Err(error) => {
                    proof {
                        let at = choose|at: int|
                            at < more * c && #[trigger] is_first_fault(before, at, error@);
                        reads_go_on(first, before, done, at);
                        assert forall|k: int| 0 <= k < done * c + at implies (
                        #[trigger] first.next_sample(k)) is Ok by {
                            if k >= done * c {
                                reads_go_on(first, before, done, k - done * c);
                                assert(before.next_sample(k - done * c) is Ok);
                            }
                        }
                        assert(is_first_fault(first, done * c + at, error@));
                        assert(is_refused(first, first.remaining() * c, error@));
                    }
                    return Err(error);
                },
            }
        }
        Ok(())
    }

    /// The frames granted lie within the file.
    proof fn lemma_cursor(&self, frames: int)
        requires
            self.wf(),
            0 <= frames <= self.remaining(),
        ensures
            self.layout().start <= self.cursor(),
            self.cursor() + frames * frame_size(self.layout().format) <= self.bytes().len(),
            frames * frame_size(self.layout().format) == frames * self.layout().format.channels * (
            self.layout().format.bits_per_sample / 8),
            0 <= (self.layout().count - self.remaining()) * frame_size(self.layout().format)
                <= self.bytes().len(),
    {
        lemma_frame_size(self.layout().format);
        let size = frame_size(self.layout().format);
        let done = self.layout().count - self.remaining();
        let left = self.remaining() as int;
        assert(done * size + frames * size <= (done + left) * size) by (nonlinear_arith)
            requires
                frames <= left,
                size >= 1,
        ;
        assert(0 <= done * size) by (nonlinear_arith)
            requires
                done >= 0,
                size >= 1,
        ;
        assert(0 <= frames * size) by (nonlinear_arith)
            requires
                frames >= 0,
                size >= 1,
        ;
        let c = self.layout().format.channels as int;
        let w = (self.layout().format.bits_per_sample / 8) as int;
        assert(frames * (c * w) == frames * c * w) by (nonlinear_arith);
    }
}

proof fn lemma_frame_size(format: WavFormat)
    requires
        is_format(format),
    ensures
        1 <= frame_size(format) <= 8,
{
    let c = format.channels as int;
    let w = (format.bits_per_sample / 8) as int;
    assert(1 <= c * w <= 8) by (nonlinear_arith)
        requires
            1 <= c <= 2,
            1 <= w <= 4,
    ;
}

// ---------------------------------------------------------------------------
// Reads
// ---------------------------------------------------------------------------

/// Two readers of one file, the second `frames` frames further.
pub open spec fn is_further(before: WavReader, after: WavReader, frames: int) -> bool {
    &&& after.bytes() == before.bytes()
    &&& after.layout() == before.layout()
    &&& after.remaining() == before.remaining() - frames
}

/// What is read next goes on where the frames before it end.
pub proof fn reads_go_on(before: WavReader, after: WavReader, frames: int, i: int)
    requires
        is_further(before, after, frames),
    ensures
        after.next_sample(i) == before.next_sample(frames * before.layout().format.channels + i),
{
    reveal(WavReader::next_sample);
    let c = before.layout().format.channels as int;
    let w = (before.layout().format.bits_per_sample / 8) as int;
    let size = frame_size(before.layout().format);
    let start = before.layout().start as int;
    let done = before.layout().count - before.remaining();
    assert(size == c * w);
    assert(start + (done + frames) * size + i * w == start + done * size + (frames * c + i) * w)
        by (nonlinear_arith)
        requires
            size == c * w,
    ;
}

/// A run of reads that all succeed: reader `k` is asked for at most `maxima[k]` frames,
/// hands out `blocks[k]` and is reader `k + 1` then.
pub open spec fn is_run(
    readers: Seq<WavReader>,
    maxima: Seq<usize>,
    blocks: Seq<Seq<i64>>,
) -> bool {
    &&& readers.len() == maxima.len() + 1
    &&& blocks.len() == maxima.len()
    &&& readers[0].wf()
    &&& forall|k: int|
        0 <= k < maxima.len() ==> is_read(
            #[trigger] readers[k],
            maxima[k],
            blocks[k],
            readers[k + 1],
        )
}

/// Blocks, one after the other.
pub open spec fn concatenated<A>(blocks: Seq<Seq<A>>) -> Seq<A>
    decreases blocks.len(),
{
    if blocks.len() == 0 {
        Seq::empty()
    } else {
        concatenated(blocks.drop_last()) + blocks.last()
    }
}

/// Reads of any maxima concatenate to the samples of the frames that they have passed.
pub proof fn reads_concatenate(
    readers: Seq<WavReader>,
    maxima: Seq<usize>,
    blocks: Seq<Seq<i64>>,
)
    requires
        is_run(readers, maxima, blocks),
    ensures
        ({
            let first = readers[0];
            let all = concatenated(blocks);
            let frames = first.remaining() - readers.last().remaining();
            &&& 0 <= frames <= first.remaining()
            &&& is_further(first, readers.last(), frames)
            &&& all.len() == frames * first.layout().format.channels
            &&& forall|i: int|
                0 <= i < all.len() ==> first.next_sample(i) == Ok::<int, Seq<char>>(
                    (#[trigger] all[i]) as int,
                )
        }),
    decreases maxima.len(),
{
    let first = readers[0];
    let c = first.layout().format.channels as int;
    if maxima.len() == 0 {
        assert(0 * c == 0);
    } else {
        let n = maxima.len() - 1;
        let readers_before = readers.drop_last();
        let maxima_before = maxima.drop_last();
        let blocks_before = blocks.drop_last();
        assert forall|k: int| 0 <= k < maxima_before.len() implies is_read(
            #[trigger] readers_before[k],
            maxima_before[k],
            blocks_before[k],
            readers_before[k + 1],
        ) by {
            assert(is_read(readers[k], maxima[k], blocks[k], readers[k + 1]));
        }
        reads_concatenate(readers_before, maxima_before, blocks_before);
        let last = readers[n];
        assert(readers_before.last() == last);
        assert(is_read(last, maxima[n], blocks[n], readers[n + 1]));
        let done = first.remaining() - last.remaining();
        let more = last.granted(maxima[n]);
        lemma_frame_size(first.layout().format);
        lemma_granted(last, maxima[n]);
        assert(done * c + more * c == (done + more) * c) by (nonlinear_arith);
        let before = concatenated(blocks_before);
        let all = concatenated(blocks);
        assert forall|i: int| 0 <= i < all.len() implies first.next_sample(i) == Ok::<
            int,
            Seq<char>,
        >((#[trigger] all[i]) as int) by {
            if i < before.len() {
                assert(all[i] == before[i]);
            } else {
                let k = i - before.len();
                assert(all[i] == blocks[n][k]);
                reads_go_on(first, last, done, k);
            }
        }
    }
}

pub proof fn lemma_granted(reader: WavReader, maximum: usize)
    requires
        is_format(reader.layout().format),
    ensures
        0 <= reader.granted(maximum) <= reader.remaining(),
        maximum > 0 && reader.remaining() > 0 ==> reader.granted(maximum) > 0,
{
    lemma_frame_size(reader.layout().format);
    let size = frame_size(reader.layout().format);
    assert(0 < 24000int / size) by (nonlinear_arith)
        requires
            1 <= size <= 8,
    ;
}

/// A read of anything gives nothing only at the end, and a read of nothing leaves
/// everything where it is.
pub proof fn empty_reads_come_last(
    before: WavReader,
    maximum: usize,
    samples: Seq<i64>,
    after: WavReader,
)
    requires
        before.wf(),
        is_read(before, maximum, samples, after),
    ensures
        maximum > 0 && samples.len() == 0 ==> before.remaining() == 0,
        maximum == 0 ==> samples.len() == 0 && after.remaining() == before.remaining(),
{
    lemma_granted(before, maximum);
    let c = before.layout().format.channels as int;
    let n = before.granted(maximum);
    assert(n > 0 ==> n * c > 0) by (nonlinear_arith)
        requires
            c >= 1,
    ;
    assert(0 * c == 0);
}

/// What is read of a file up to its end does not depend on the maxima of the reads.
pub proof fn maxima_do_not_matter(
    readers: Seq<WavReader>,
    maxima: Seq<usize>,
    blocks: Seq<Seq<i64>>,
    other_readers: Seq<WavReader>,
    other_maxima: Seq<usize>,
    other_blocks: Seq<Seq<i64>>,
)
    requires
        is_run(readers, maxima, blocks),
        is_run(other_readers, other_maxima, other_blocks),
        is_further(readers[0], other_readers[0], 0),
        readers.last().remaining() == 0,
        other_readers.last().remaining() == 0,
    ensures
        concatenated(blocks) == concatenated(other_blocks),
        concatenated(blocks).len() == readers[0].remaining()
            * readers[0].layout().format.channels,
{
    reads_concatenate(readers, maxima, blocks);
    reads_concatenate(other_readers, other_maxima, other_blocks);
    let a = concatenated(blocks);
    let b = concatenated(other_blocks);
    assert forall|i: int| 0 <= i < a.len() implies a[i] == b[i] by {
        reads_go_on(readers[0], other_readers[0], 0, i);
        assert(readers[0].next_sample(i) == Ok::<int, Seq<char>>(a[i] as int));
        assert(other_readers[0].next_sample(i) == Ok::<int, Seq<char>>(b[i] as int));
        assert(0 * readers[0].layout().format.channels + i == i);
    }
    assert(a =~= b);
}

} // verus!
