//! Version-one framing. Lengths are checked before payload allocation.
use vstd::prelude::*;
use vstd::string::*;
use crate::text::same;

verus! {

pub const MAX_HEADER_BYTES: usize = 8192;

pub const MAX_PCM_BYTES: usize = 24000;

/// The number of four bytes, low byte first.
pub open spec fn little_endian(b: Seq<u8>) -> int {
    b[0] + b[1] * 0x100 + b[2] * 0x1_0000 + b[3] * 0x100_0000
}

/// The length of the header that follows a length prefix.
pub fn header_length(prefix: &[u8; 4]) -> (r: Result<usize, String>)
    ensures
        match r {
            Ok(length) => length == little_endian(prefix@) && 1 <= length <= MAX_HEADER_BYTES,
            Err(error) => {
                &&& little_endian(prefix@) == 0 || little_endian(prefix@) > MAX_HEADER_BYTES
                &&& error@ == "JSON header length must be 1..8192 bytes"@
            },
        },
{
    let length: u32 = prefix[0] as u32 + prefix[1] as u32 * 0x100 + prefix[2] as u32 * 0x1_0000
        + prefix[3] as u32 * 0x100_0000;
    if length == 0 || length > MAX_HEADER_BYTES as u32 {
        return Err("JSON header length must be 1..8192 bytes".to_owned());
    }
    Ok(length as usize)
}

/// What `serde_json` reads of a header: why it is no JSON document, or the text of
/// the member named first and the nonnegative integer of the one named second.
pub uninterp spec fn parsed_header(
    bytes: Seq<u8>,
    text_name: Seq<char>,
    count_name: Seq<char>,
) -> Result<(Option<Seq<char>>, Option<u64>), Seq<char>>;

/// `serde_json::from_slice` reads the bytes as a `Value`. Of a document that it
/// accepts, this gives what `Value::get` and `as_str` find under the first name,
/// and `Value::get` and `as_u64` under the second; of any other, the message of
/// its error. The result depends on the arguments alone.
#[verifier::external_body]
pub(crate) fn parse_header(bytes: &[u8], text_name: &str, count_name: &str) -> (r: Result<
    (Option<String>, Option<u64>),
    String,
>)
    ensures
        header_view(r) == parsed_header(bytes@, text_name@, count_name@),
{
    match serde_json::from_slice::<serde_json::Value>(bytes) {
        Ok(value) => Ok(
            (
                value.get(text_name).and_then(|v| v.as_str()).map(|s| s.to_owned()),
                value.get(count_name).and_then(|v| v.as_u64()),
            ),
        ),
        Err(error) => Err(error.to_string()),
    }
}

pub open spec fn header_view(r: Result<(Option<String>, Option<u64>), String>) -> Result<
    (Option<Seq<char>>, Option<u64>),
    Seq<char>,
> {
    match r {
        Ok(members) => Ok((members.0.deep_view(), members.1)),
        Err(error) => Err(error@),
    }
}

/// Bytes of payload behind a header, or what is wrong with the header.
pub open spec fn payload_length(
    header: Result<(Option<Seq<char>>, Option<u64>), Seq<char>>,
) -> Result<nat, Seq<char>> {
    match header {
        Err(error) => Err(error),
        Ok((None, _)) => Err("header requires a string type"@),
        Ok((Some(_), None)) => Err("payload_bytes must be a nonnegative integer"@),
        Ok((Some(kind), Some(count))) => if count > MAX_PCM_BYTES || (kind != "audio"@ && count
            != 0) {
            Err("only audio may carry payload, limited to 24000 bytes"@)
        } else if kind == "audio"@ && (count == 0 || count % 2 != 0) {
            Err("audio payload must contain 1..12000 complete s16le samples"@)
        } else {
            Ok(count as nat)
        },
    }
}

/// Checks the members of a header that were read from it.
pub fn check_header(header: Result<(Option<String>, Option<u64>), String>) -> (r: Result<
    usize,
    String,
>)
    ensures
        match r {
            Ok(length) => payload_length(header_view(header)) == Ok::<nat, Seq<char>>(
                length as nat,
            ) && length <= MAX_PCM_BYTES,
            Err(error) => payload_length(header_view(header)) == Err::<nat, Seq<char>>(error@),
        },
{
    match header {
        Err(error) => Err(error),
        Ok((None, _)) => Err("header requires a string type".to_owned()),
        Ok((Some(_), None)) => Err("payload_bytes must be a nonnegative integer".to_owned()),
        Ok((Some(kind), Some(count))) => {
            let audio: bool = same(kind.as_str(), "audio");
            if count > MAX_PCM_BYTES as u64 || (!audio && count != 0) {
                Err("only audio may carry payload, limited to 24000 bytes".to_owned())
            } else if audio && (count == 0 || count % 2 != 0) {
                Err("audio payload must contain 1..12000 complete s16le samples".to_owned())
            } else {
                Ok(count as usize)
            }
        },
    }
}

/// Bytes of payload that follow the given header, or what is wrong with it.
pub fn read_header(bytes: &[u8]) -> (r: Result<usize, String>)
    ensures
        match r {
            Ok(length) => payload_length(
                parsed_header(bytes@, "type"@, "payload_bytes"@),
            ) == Ok::<nat, Seq<char>>(length as nat) && length <= MAX_PCM_BYTES,
            Err(error) => payload_length(
                parsed_header(bytes@, "type"@, "payload_bytes"@),
            ) == Err::<nat, Seq<char>>(error@),
        },
{
    check_header(parse_header(bytes, "type", "payload_bytes"))
}

/// A header behind its length prefix.
pub open spec fn framed(header: Seq<u8>) -> Seq<u8> {
    seq![
        (header.len() % 0x100) as u8,
        (header.len() / 0x100 % 0x100) as u8,
        (header.len() / 0x1_0000 % 0x100) as u8,
        (header.len() / 0x100_0000) as u8,
    ] + header
}

/// A header behind its length prefix.
pub fn prefixed(header: &[u8]) -> (r: Vec<u8>)
    requires
        header@.len() <= u32::MAX,
    ensures
        r@ == framed(header@),
{
    let length: usize = header.len();
    let mut out: Vec<u8> = Vec::new();
    out.push((length % 0x100) as u8);
    out.push((length / 0x100 % 0x100) as u8);
    out.push((length / 0x1_0000 % 0x100) as u8);
    out.push((length / 0x100_0000) as u8);
    let ghost prefix = out@;
    let mut i: usize = 0;
    while i < length
        invariant
            i <= length,
            length == header@.len(),
            out@ =~= prefix + header@.take(i as int),
        decreases length - i,
    {
        out.push(header[i]);
        i = i + 1;
    }
    assert(out@ =~= framed(header@));
    out
}

/// The frame of an outgoing header, which must not be longer than a header may be.
pub fn frame(header: &[u8]) -> (r: Result<Vec<u8>, String>)
    ensures
        match r {
            Ok(bytes) => header@.len() <= MAX_HEADER_BYTES && bytes@ == framed(header@),
            Err(error) => header@.len() > MAX_HEADER_BYTES && error@
                == "output header exceeds 8192 bytes"@,
        },
{
    if header.len() > MAX_HEADER_BYTES {
        return Err("output header exceeds 8192 bytes".to_owned());
    }
    Ok(prefixed(header))
}

/// A reader takes from a frame exactly the header that was put into it.
pub proof fn frames_are_read_back(header: Seq<u8>)
    requires
        1 <= header.len() <= u32::MAX,
    ensures
        little_endian(framed(header).take(4)) == header.len(),
        framed(header).skip(4) == header,
{
    let b = framed(header).take(4);
    assert(b[0] == (header.len() % 0x100) as u8);
    assert(b[1] == (header.len() / 0x100 % 0x100) as u8);
    assert(b[2] == (header.len() / 0x1_0000 % 0x100) as u8);
    assert(b[3] == (header.len() / 0x100_0000) as u8);
    assert(framed(header).skip(4) =~= header);
}

// ---------------------------------------------------------------------------
// Runs of frames
// ---------------------------------------------------------------------------

/// A header and the payload behind it.
#[verifier::ext_equal]
pub struct FrameModel {
    pub header: Seq<u8>,
    pub payload: Seq<u8>,
}

/// The bytes of a frame.
pub open spec fn frame_bytes(frame: FrameModel) -> Seq<u8> {
    framed(frame.header) + frame.payload
}

/// The bytes of frames, one after the other.
pub open spec fn run_bytes(frames: Seq<FrameModel>) -> Seq<u8>
    decreases frames.len(),
{
    if frames.len() == 0 {
        Seq::empty()
    } else {
        frame_bytes(frames[0]) + run_bytes(frames.skip(1))
    }
}

/// The header has an accepted length, and what it says of its payload holds.
pub open spec fn is_frame(frame: FrameModel) -> bool {
    &&& 1 <= frame.header.len() <= MAX_HEADER_BYTES
    &&& payload_length(parsed_header(frame.header, "type"@, "payload_bytes"@)) == Ok::<
        nat,
        Seq<char>,
    >(frame.payload.len())
}

pub open spec fn are_frames(frames: Seq<FrameModel>) -> bool {
    forall|i: int| 0 <= i < frames.len() ==> is_frame(#[trigger] frames[i])
}

/// Why bytes are not a run of frames.
pub enum Disruption {
    /// They end inside a frame.
    Truncated,
    /// A length prefix or a header is refused.
    Refused(Seq<char>),
}

/// The frame that bytes start with: a length prefix, a header of that length, and a payload
/// of the length that the header tells.
pub open spec fn first_frame(bytes: Seq<u8>) -> Result<FrameModel, Disruption> {
    if bytes.len() < 4 {
        Err(Disruption::Truncated)
    } else {
        let length = little_endian(bytes.take(4));
        if length == 0 || length > MAX_HEADER_BYTES {
            Err(Disruption::Refused("JSON header length must be 1..8192 bytes"@))
        } else if bytes.len() < 4 + length {
            Err(Disruption::Truncated)
        } else {
            let header = bytes.subrange(4, 4 + length);
            match payload_length(parsed_header(header, "type"@, "payload_bytes"@)) {
                Err(error) => Err(Disruption::Refused(error)),
                Ok(count) => if bytes.len() < 4 + length + count {
                    Err(Disruption::Truncated)
                } else {
                    Ok(
                        FrameModel {
                            header,
                            payload: bytes.subrange(4 + length, 4 + length + count),
                        },
                    )
                },
            }
        }
    }
}

/// The frames that bytes consist of.
pub open spec fn frames_in(bytes: Seq<u8>) -> Result<Seq<FrameModel>, Disruption>
    decreases bytes.len(),
{
    if bytes.len() == 0 {
        Ok(Seq::empty())
    } else {
        match first_frame(bytes) {
            Err(disruption) => Err(disruption),
            Ok(frame) => {
                let size = 4 + frame.header.len() + frame.payload.len();
                match frames_in(bytes.skip(size as int)) {
                    Err(disruption) => Err(disruption),
                    Ok(rest) => Ok(seq![frame] + rest),
                }
            },
        }
    }
}

/// How many bytes complete the length prefix, the header or the payload at hand of a frame
/// that is not complete.
pub open spec fn missing(bytes: Seq<u8>) -> int {
    let length = little_endian(bytes.take(4));
    let header = bytes.subrange(4, 4 + length);
    if bytes.len() < 4 {
        4 - bytes.len()
    } else if bytes.len() < 4 + length {
        4 + length - bytes.len()
    } else {
        4 + length + payload_length(parsed_header(header, "type"@, "payload_bytes"@))->Ok_0
            - bytes.len()
    }
}

/// What bytes that start with a frame amount to.
#[derive(Debug, PartialEq, Eq)]
pub enum Split {
    /// The frame is not complete: this many bytes complete the part at hand.
    More(usize),
    /// It is complete.
    Frame { header: Vec<u8>, payload: Vec<u8> },
}

/// The frame that bytes start with, how many more are to be read of it, or why it is
/// refused. A length is checked before anything of that length is asked for.
pub fn split_frame(bytes: &[u8]) -> (r: Result<Split, String>)
    ensures
        match (r, first_frame(bytes@)) {
            (Ok(Split::Frame { header, payload }), Ok(frame)) => header@ == frame.header
                && payload@ == frame.payload,
            (Ok(Split::More(count)), Err(Disruption::Truncated)) => count == missing(bytes@)
                && 0 < count <= MAX_PCM_BYTES,
            (Err(error), Err(Disruption::Refused(complaint))) => error@ == complaint,
            _ => false,
        },
{
    let count: usize = bytes.len();
    if count < 4 {
        return Ok(Split::More(4 - count));
    }
    let prefix: [u8; 4] = [bytes[0], bytes[1], bytes[2], bytes[3]];
    assert(prefix@ =~= bytes@.take(4));
    let length: usize = match header_length(&prefix) {
        Ok(length) => length,
        Err(error) => {
            return Err(error);
        },
    };
    if count - 4 < length {
        return Ok(Split::More(length - (count - 4)));
    }
    let header: &[u8] = vstd::slice::slice_subrange(bytes, 4, 4 + length);
    let size: usize = match read_header(header) {
        Ok(size) => size,
        Err(error) => {
            return Err(error);
        },
    };
    if count - 4 - length < size {
        return Ok(Split::More(size - (count - 4 - length)));
    }
    let payload: &[u8] = vstd::slice::slice_subrange(bytes, 4 + length, 4 + length + size);
    Ok(
        Split::Frame {
            header: vstd::slice::slice_to_vec(header),
            payload: vstd::slice::slice_to_vec(payload),
        },
    )
}

/// A reader that asks for what is missing reads up to the end of a frame and never beyond
/// it.
pub proof fn readers_stop_behind_a_frame(frame: FrameModel, n: int)
    requires
        is_frame(frame),
        0 <= n <= frame_bytes(frame).len(),
    ensures
        n == frame_bytes(frame).len() ==> first_frame(frame_bytes(frame).take(n)) == Ok::<
            FrameModel,
            Disruption,
        >(frame),
        n < frame_bytes(frame).len() ==> {
            let part = frame_bytes(frame).take(n);
            &&& first_frame(part) == Err::<FrameModel, Disruption>(Disruption::Truncated)
            &&& 0 < missing(part) <= frame_bytes(frame).len() - n
        },
{
    let whole = frame_bytes(frame);
    let part = whole.take(n);
    let h = frame.header.len() as int;
    frames_are_read_back(frame.header);
    if n >= 4 {
        assert(part.take(4) =~= framed(frame.header).take(4));
        if n >= 4 + h {
            assert(part.subrange(4, 4 + h) =~= framed(frame.header).skip(4));
        }
    }
    if n == whole.len() {
        lemma_first_frame(frame, Seq::empty());
        assert(part =~= whole + Seq::<u8>::empty());
    }
}

/// A frame is read back from the front of whatever starts with it.
proof fn lemma_first_frame(frame: FrameModel, rest: Seq<u8>)
    requires
        is_frame(frame),
    ensures
        first_frame(frame_bytes(frame) + rest) == Ok::<FrameModel, Disruption>(frame),
        (frame_bytes(frame) + rest).skip(
            (4 + frame.header.len() + frame.payload.len()) as int,
        ) == rest,
        frame_bytes(frame).len() == 4 + frame.header.len() + frame.payload.len(),
{
    let bytes = frame_bytes(frame) + rest;
    let h = frame.header.len() as int;
    let p = frame.payload.len() as int;
    frames_are_read_back(frame.header);
    assert(bytes.take(4) =~= framed(frame.header).take(4));
    assert(bytes.subrange(4, 4 + h) =~= framed(frame.header).skip(4));
    assert(bytes.subrange(4 + h, 4 + h + p) =~= frame.payload);
    assert(bytes.skip(4 + h + p) =~= rest);
}

/// A run of frames is read back frame by frame, whatever follows it.
pub proof fn runs_are_read_back(frames: Seq<FrameModel>, rest: Seq<u8>)
    requires
        are_frames(frames),
    ensures
        frames_in(run_bytes(frames)) == Ok::<Seq<FrameModel>, Disruption>(frames),
        frames_in(run_bytes(frames) + rest) == (match frames_in(rest) {
            Err(disruption) => Err(disruption),
            Ok(others) => Ok(frames + others),
        }),
    decreases frames.len(),
{
    if frames.len() == 0 {
        assert(run_bytes(frames) + rest =~= rest);
        assert(frames =~= Seq::empty());
        assert(frames_in(rest) matches Ok(others) ==> frames + others =~= others);
    } else {
        let others = frames.skip(1);
        assert(forall|i: int| 0 <= i < others.len() ==> #[trigger] others[i] == frames[i + 1]);
        assert(is_frame(frames[0]));
        runs_are_read_back(others, rest);
        lemma_first_frame(frames[0], run_bytes(others));
        lemma_first_frame(frames[0], run_bytes(others) + rest);
        assert(run_bytes(frames) + rest =~= frame_bytes(frames[0]) + (run_bytes(others) + rest));
        assert(seq![frames[0]] + others =~= frames);
        if let Ok(more) = frames_in(rest) {
            assert(seq![frames[0]] + (others + more) =~= frames + more);
        }
    }
}

/// Frames without payloads, as they are sent, come back as their headers.
pub proof fn sent_headers_are_read_back(headers: Seq<Seq<u8>>)
    requires
        forall|i: int|
            0 <= i < headers.len() ==> is_frame(
                (FrameModel { header: #[trigger] headers[i], payload: Seq::empty() }),
            ),
    ensures
        frames_in(headers_bytes(headers)) == Ok::<Seq<FrameModel>, Disruption>(
            bare_frames(headers),
        ),
{
    let frames = bare_frames(headers);
    assert(are_frames(frames)) by {
        assert forall|i: int| 0 <= i < frames.len() implies is_frame(#[trigger] frames[i]) by {
            assert(headers[i] == headers[i]);
        }
    }
    lemma_headers_bytes(headers);
    runs_are_read_back(frames, Seq::empty());
}

/// Headers as frames without payloads.
pub open spec fn bare_frames(headers: Seq<Seq<u8>>) -> Seq<FrameModel> {
    Seq::new(
        headers.len(),
        |i: int| FrameModel { header: headers[i], payload: Seq::empty() },
    )
}

/// Headers behind their length prefixes, one after the other.
pub open spec fn headers_bytes(headers: Seq<Seq<u8>>) -> Seq<u8>
    decreases headers.len(),
{
    if headers.len() == 0 {
        Seq::empty()
    } else {
        framed(headers[0]) + headers_bytes(headers.skip(1))
    }
}

proof fn lemma_headers_bytes(headers: Seq<Seq<u8>>)
    ensures
        run_bytes(bare_frames(headers)) == headers_bytes(headers),
    decreases headers.len(),
{
    if headers.len() > 0 {
        let frames = bare_frames(headers);
        lemma_headers_bytes(headers.skip(1));
        assert(bare_frames(headers.skip(1)) =~= frames.skip(1));
        assert(frame_bytes(frames[0]) =~= framed(headers[0]));
    }
}

/// Bytes that end inside a frame, behind any run of whole ones, are truncated: they are
/// never taken for the end of the stream.
pub proof fn truncated_frames_are_noticed(frames: Seq<FrameModel>, cut: FrameModel, n: int)
    requires
        are_frames(frames),
        is_frame(cut),
        0 < n < frame_bytes(cut).len(),
    ensures
        frames_in(run_bytes(frames) + frame_bytes(cut).take(n)) == Err::<
            Seq<FrameModel>,
            Disruption,
        >(Disruption::Truncated),
{
    let whole = frame_bytes(cut);
    let part = whole.take(n);
    let h = cut.header.len() as int;
    frames_are_read_back(cut.header);
    if n >= 4 {
        assert(part.take(4) =~= framed(cut.header).take(4));
        if n >= 4 + h {
            assert(part.subrange(4, 4 + h) =~= framed(cut.header).skip(4));
        }
    }
    runs_are_read_back(frames, part);
}

/// A length prefix of zero or over the limit is refused.
pub proof fn bad_lengths_are_refused(frames: Seq<FrameModel>, rest: Seq<u8>)
    requires
        are_frames(frames),
        rest.len() >= 4,
        little_endian(rest.take(4)) == 0 || little_endian(rest.take(4)) > MAX_HEADER_BYTES,
    ensures
        frames_in(run_bytes(frames) + rest) == Err::<Seq<FrameModel>, Disruption>(
            Disruption::Refused("JSON header length must be 1..8192 bytes"@),
        ),
{
    runs_are_read_back(frames, rest);
}

} // verus!
