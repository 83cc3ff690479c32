//! Adapters that let WAV files and framed streaming use the very same session.
use vstd::prelude::*;
use vstd::string::*;
use crate::message_encode::{number_value, only_digits};
use crate::protocol::{
    framed, frames_are_read_back, header_view, headers_bytes, little_endian, parse_header,
    parsed_header, MAX_HEADER_BYTES,
};
use crate::record::{is_text, names, nth, number_text, text_field, Field};
use crate::text::{all_digits, decimal, decimal_value, find_char, is_digit, position_of, same};

verus! {

// ---------------------------------------------------------------------------
// Frames of a WAV file
// ---------------------------------------------------------------------------

/// What is sent next of a file.
#[derive(Debug, Clone, Copy, PartialEq, Eq)]
pub enum NextFrame {
    /// Samples from the given number on.
    Audio { first: u64, count: usize },
    /// There are no more samples.
    Finish,
    /// Everything was sent.
    Over,
}

/// How far the samples of a file have been sent.
pub struct WavFrames {
    pub first: u64,
    pub finished: bool,
}

impl WavFrames {
    pub fn new() -> (r: Self)
        ensures
            r.first == 0,
            !r.finished,
    {
        WavFrames { first: 0, finished: false }
    }

    /// The frame for the `count` samples that were read next; none are left where
    /// it is zero.
    pub fn next(&mut self, count: usize) -> (r: NextFrame)
        requires
            old(self).first + count <= u64::MAX,
        ensures
            old(self).finished ==> r == NextFrame::Over && *final(self) == *old(self),
            !old(self).finished && count == 0 ==> r == NextFrame::Finish && final(self).finished
                && final(self).first == old(self).first,
            !old(self).finished && count > 0 ==> r == (NextFrame::Audio {
                first: old(self).first,
                count,
            }) && final(self).first == old(self).first + count && !final(self).finished,
    {
        if self.finished {
            NextFrame::Over
        } else if count == 0 {
            self.finished = true;
            NextFrame::Finish
        } else {
            let first: u64 = self.first;
            self.first = first + count as u64;
            NextFrame::Audio { first, count }
        }
    }
}

/// The header of an audio frame.
pub fn audio_json(first: u64, count: usize, payload_bytes: usize) -> (r: Field)
    ensures
        names(r) == seq!["type"@, "payload_bytes"@, "first_sample"@, "sample_count"@],
        is_text(nth(r, 0), "audio"@),
        nth(r, 1) == Field::Count(payload_bytes),
        is_text(nth(r, 2), decimal(first as nat)),
        nth(r, 3) == Field::Count(count),
{
    let mut entries: Vec<(&'static str, Field)> = Vec::new();
    entries.push(("type", text_field("audio")));
    entries.push(("payload_bytes", Field::Count(payload_bytes)));
    entries.push(("first_sample", number_text(first)));
    entries.push(("sample_count", Field::Count(count)));
    let r = Field::Record(entries);
    assert(names(r) =~= seq!["type"@, "payload_bytes"@, "first_sample"@, "sample_count"@]);
    r
}

/// The header of the last frame.
pub fn finish_json() -> (r: Field)
    ensures
        names(r) == seq!["type"@, "payload_bytes"@],
        is_text(nth(r, 0), "finish"@),
        nth(r, 1) == Field::Count(0),
{
    let mut entries: Vec<(&'static str, Field)> = Vec::new();
    entries.push(("type", text_field("finish")));
    entries.push(("payload_bytes", Field::Count(0)));
    let r = Field::Record(entries);
    assert(names(r) =~= seq!["type"@, "payload_bytes"@]);
    r
}

// ---------------------------------------------------------------------------
// Headers out of a byte stream
// ---------------------------------------------------------------------------

/// Collects frames that arrive in pieces of any size.
pub struct FrameAssembler {
    pub pending: Vec<u8>,
    pub header_len: Option<usize>,
}

/// Bytes that complete the prefix or the header at hand.
pub open spec fn wanted(pending: Seq<u8>, header_len: Option<usize>) -> int {
    (match header_len {
        Some(length) => length as int,
        None => 4,
    }) - pending.len()
}

pub open spec fn fewer(a: int, b: int) -> int {
    if a < b {
        a
    } else {
        b
    }
}

/// What a piece of bytes has led to.
#[derive(Debug)]
pub enum Progress {
    /// More bytes are needed.
    Partial,
    /// A header is complete.
    Header(Vec<u8>),
    /// The length is not that of a header.
    BadLength,
}

impl FrameAssembler {
    pub open spec fn wf(&self) -> bool {
        &&& wanted(self.pending@, self.header_len) > 0
        &&& self.header_len matches Some(length) ==> 1 <= length <= MAX_HEADER_BYTES
    }

    pub fn new() -> (r: Self)
        ensures
            r.wf(),
            r.pending@.len() == 0,
            r.header_len is None,
    {
        FrameAssembler { pending: Vec::new(), header_len: None }
    }

    pub open spec fn collected(&self) -> Collected {
        Collected { pending: self.pending@, header_len: self.header_len }
    }

    /// Takes in bytes. Hands out the headers that they complete, and tells whether every
    /// length was that of a header; what follows a bad one is not looked at.
    pub fn take_in(&mut self, bytes: &[u8]) -> (r: (Vec<Vec<u8>>, bool))
        requires
            old(self).wf(),
        ensures
            r.0.deep_view() == assembled(old(self).collected(), bytes@).0,
            match assembled(old(self).collected(), bytes@).1 {
                Some(state) => r.1 && final(self).wf() && final(self).collected() == state,
                None => !r.1,
            },
    {
        let ghost whole = assembled(self.collected(), bytes@);
        let mut headers: Vec<Vec<u8>> = Vec::new();
        let mut at: usize = 0;
        assert(bytes@.skip(0) =~= bytes@);
        assert(headers.deep_view() =~= Seq::empty());
        assert(headers.deep_view() + whole.0 =~= whole.0);
        while at < bytes.len()
            invariant
                at <= bytes@.len(),
                self.wf(),
                whole == assembled(old(self).collected(), bytes@),
                ({
                    let left = assembled(self.collected(), bytes@.skip(at as int));
                    headers.deep_view() + left.0 == whole.0 && left.1 == whole.1
                }),
            decreases bytes@.len() - at,
        {
            let ghost before = self.collected();
            let ghost rest = bytes@.skip(at as int);
            let ghost known = headers.deep_view();
            let part: &[u8] = vstd::slice::slice_subrange(bytes, at, bytes.len());
            assert(part@ =~= rest);
            let (used, progress) = self.push(part);
            assert(rest.skip(used as int) =~= bytes@.skip(at + used));
            proof {
                lemma_pushed(before, rest);
                if used < wanted(before.pending, before.header_len) {
                    assert(rest.take(used as int) =~= rest);
                    assert(rest.skip(used as int) =~= Seq::empty());
                }
            }
            match progress {
                Progress::Partial => {},
                Progress::Header(header) => {
                    assert(header.deep_view() =~= header@);
                    headers.push(header);
                    assert(headers.deep_view() =~= known.push(header@));
                    let ghost left = assembled(self.collected(), rest.skip(used as int));
                    assert(known.push(header@) + left.0 =~= known + (seq![header@] + left.0));
                },
                Progress::BadLength => {
                    assert(known + Seq::<Seq<u8>>::empty() =~= known);
                    return (headers, false);
                },
            }
            at = at + used;
        }
        proof {
            let none = bytes@.skip(at as int);
            assert(none =~= Seq::empty());
            assert(self.pending@ + none =~= self.pending@);
            assert(headers.deep_view() + Seq::<Seq<u8>>::empty() =~= headers.deep_view());
        }
        (headers, true)
    }

    /// Takes bytes up to the end of the prefix or header at hand; tells how many.
    pub fn push(&mut self, bytes: &[u8]) -> (r: (usize, Progress))
        requires
            old(self).wf(),
        ensures
            r.1 !is BadLength ==> final(self).wf(),
            ({
                let taken = fewer(
                    wanted(old(self).pending@, old(self).header_len),
                    bytes@.len() as int,
                );
                let all = old(self).pending@ + bytes@.take(taken);
                let complete = taken == wanted(old(self).pending@, old(self).header_len);
                &&& r.0 == taken
                &&& if !complete {
                    &&& r.1 is Partial
                    &&& final(self).pending@ == all
                    &&& final(self).header_len == old(self).header_len
                } else if old(self).header_len is None {
                    let length = little_endian(all);
                    if length == 0 || length > MAX_HEADER_BYTES {
                        r.1 is BadLength
                    } else {
                        &&& r.1 is Partial
                        &&& final(self).pending@ == Seq::<u8>::empty()
                        &&& final(self).header_len == Some(length as usize)
                    }
                } else {
                    &&& r.1 matches Progress::Header(header) && header@ == all
                    &&& final(self).pending@ == Seq::<u8>::empty()
                    &&& final(self).header_len is None
                }
            }),
    {
        let target: usize = match self.header_len {
            Some(length) => length,
            None => 4,
        };
        let missing: usize = target - self.pending.len();
        let count: usize = if missing < bytes.len() { missing } else { bytes.len() };
        let ghost before = self.pending@;
        let mut i: usize = 0;
        while i < count
            invariant
                i <= count <= bytes@.len(),
                self.pending@ =~= before + bytes@.take(i as int),
                self.header_len == old(self).header_len,
            decreases count - i,
        {
            self.pending.push(bytes[i]);
            i = i + 1;
        }
        if self.pending.len() < target {
            return (count, Progress::Partial);
        }
        if self.header_len.is_none() {
            let length: u32 = self.pending[0] as u32 + self.pending[1] as u32 * 0x100
                + self.pending[2] as u32 * 0x1_0000 + self.pending[3] as u32 * 0x100_0000;
            if length == 0 || length > MAX_HEADER_BYTES as u32 {
                return (count, Progress::BadLength);
            }
            self.pending = Vec::new();
            self.header_len = Some(length as usize);
            return (count, Progress::Partial);
        }
        let mut header: Vec<u8> = Vec::new();
        let ghost all = self.pending@;
        header.append(&mut self.pending);
        self.header_len = None;
        assert(header@ =~= all);
        assert(self.pending@ =~= Seq::<u8>::empty());
        (count, Progress::Header(header))
    }
}

/// What an assembler has collected of a frame that is not complete.
#[verifier::ext_equal]
pub struct Collected {
    pub pending: Seq<u8>,
    pub header_len: Option<usize>,
}

pub open spec fn nothing_collected() -> Collected {
    Collected { pending: Seq::empty(), header_len: None }
}

/// The prefix or the header at hand is not complete, and no header is too long.
pub open spec fn is_collected(state: Collected) -> bool {
    &&& wanted(state.pending, state.header_len) > 0
    &&& state.header_len matches Some(length) ==> 1 <= length <= MAX_HEADER_BYTES
}

/// What bytes lead to: the headers that they complete, and what is collected then; nothing
/// is where a length was not that of a header.
pub open spec fn assembled(state: Collected, bytes: Seq<u8>) -> (Seq<Seq<u8>>, Option<Collected>)
    decreases bytes.len(),
{
    let want = wanted(state.pending, state.header_len);
    if want <= 0 {
        (Seq::empty(), None)
    } else if bytes.len() < want {
        (Seq::empty(), Some(Collected { pending: state.pending + bytes, ..state }))
    } else {
        let all = state.pending + bytes.take(want);
        let rest = bytes.skip(want);
        if state.header_len is None {
            let length = little_endian(all);
            if length == 0 || length > MAX_HEADER_BYTES {
                (Seq::empty(), None)
            } else {
                assembled(
                    Collected { pending: Seq::empty(), header_len: Some(length as usize) },
                    rest,
                )
            }
        } else {
            let (headers, after) = assembled(nothing_collected(), rest);
            (seq![all] + headers, after)
        }
    }
}

/// What one piece of bytes and another behind it lead to.
pub open spec fn assembled_after(
    first: (Seq<Seq<u8>>, Option<Collected>),
    bytes: Seq<u8>,
) -> (Seq<Seq<u8>>, Option<Collected>) {
    match first.1 {
        None => first,
        Some(state) => {
            let (headers, after) = assembled(state, bytes);
            (first.0 + headers, after)
        },
    }
}

/// It does not matter how bytes are cut into pieces.
pub proof fn pieces_do_not_matter(state: Collected, a: Seq<u8>, b: Seq<u8>)
    requires
        is_collected(state),
    ensures
        assembled(state, a + b) == assembled_after(assembled(state, a), b),
        assembled(state, a).1 matches Some(after) ==> is_collected(after),
    decreases a.len(),
{
    let want = wanted(state.pending, state.header_len);
    let none = Seq::<Seq<u8>>::empty();
    if a.len() < want {
        let held = Collected { pending: state.pending + a, ..state };
        let left = wanted(held.pending, held.header_len);
        assert(left == want - a.len());
        let second = assembled(held, b);
        assert(none + second.0 =~= second.0);
        if b.len() < left {
            assert(state.pending + (a + b) =~= state.pending + a + b);
        } else {
            assert(state.pending + (a + b).take(want) =~= state.pending + a + b.take(left));
            assert((a + b).skip(want) =~= b.skip(left));
        }
    } else {
        let all = state.pending + a.take(want);
        let rest = a.skip(want);
        assert((a + b).take(want) =~= a.take(want));
        assert((a + b).skip(want) =~= rest + b);
        if state.header_len is None {
            let length = little_endian(all);
            if !(length == 0 || length > MAX_HEADER_BYTES) {
                let next = Collected { pending: Seq::empty(), header_len: Some(length as usize) };
                lemma_prefix_value(all);
                pieces_do_not_matter(next, rest, b);
            }
        } else {
            pieces_do_not_matter(nothing_collected(), rest, b);
            let first = assembled(nothing_collected(), rest);
            if let Some(held) = first.1 {
                let second = assembled(held, b);
                assert(seq![all] + (first.0 + second.0) =~= seq![all] + first.0 + second.0);
            }
        }
    }
}

/// Bytes that fall short of what is wanted are kept, and no bytes change nothing.
proof fn lemma_pushed(state: Collected, bytes: Seq<u8>)
    requires
        is_collected(state),
    ensures
        bytes.len() < wanted(state.pending, state.header_len) ==> ({
            let held = Collected { pending: state.pending + bytes, ..state };
            assembled(held, Seq::empty()) == (Seq::<Seq<u8>>::empty(), Some(held))
        }),
{
    let held = Collected { pending: state.pending + bytes, ..state };
    assert(held.pending + Seq::<u8>::empty() =~= held.pending);
}

proof fn lemma_prefix_value(prefix: Seq<u8>)
    ensures
        little_endian(prefix) >= 0,
{
}

/// Headers that were sent one after the other are handed out in order, and nothing is left
/// of them.
pub proof fn sent_headers_are_collected(headers: Seq<Seq<u8>>)
    requires
        forall|i: int|
            0 <= i < headers.len() ==> 1 <= (#[trigger] headers[i]).len() <= MAX_HEADER_BYTES,
    ensures
        assembled(nothing_collected(), headers_bytes(headers)) == (
            headers,
            Some(nothing_collected()),
        ),
    decreases headers.len(),
{
    let start = nothing_collected();
    if headers.len() == 0 {
        assert(start.pending + Seq::<u8>::empty() =~= start.pending);
        assert(headers =~= Seq::empty());
    } else {
        let header = headers[0];
        let others = headers.skip(1);
        assert(forall|i: int| 0 <= i < others.len() ==> #[trigger] others[i] == headers[i + 1]);
        sent_headers_are_collected(others);
        let bytes = headers_bytes(headers);
        let rest = headers_bytes(others);
        frames_are_read_back(header);
        assert(start.pending + bytes.take(4) =~= framed(header).take(4));
        let behind = bytes.skip(4);
        assert(behind =~= framed(header).skip(4) + rest);
        let length = header.len() as int;
        assert(Seq::<u8>::empty() + behind.take(length) =~= header);
        assert(behind.skip(length) =~= rest);
        let opened = Collected { pending: Seq::empty(), header_len: Some(length as usize) };
        assert(assembled(start, bytes) == assembled(opened, behind));
        assert(assembled(opened, behind) == (seq![header] + others, Some(start)));
        assert(seq![header] + others =~= headers);
    }
}

/// Converts server frames to JSON lines, without buffering audio or recordings.
pub struct JsonLines {
    pub frames: FrameAssembler,
    pub errors: bool,
}

/// The event tells of an error or of a failed window.
pub open spec fn tells_failure(kind: Option<Seq<char>>, status: Option<Seq<char>>) -> bool {
    kind == Some("error"@) || (kind == Some("done"@) && status == Some("failed"@))
}

/// What is wrong with an outgoing header of the given members, if anything.
pub open spec fn line_complaint(
    header: Result<(Option<Seq<char>>, Option<u64>), Seq<char>>,
) -> Option<Seq<char>> {
    match header {
        Err(error) => Some(error),
        Ok((_, count)) => if count != Some(0u64) {
            Some("unexpected binary result"@)
        } else {
            None
        },
    }
}

/// Judges an outgoing header by its members: whether it tells of a failure, or
/// what is wrong with it.
pub fn judge_line(
    header: Result<(Option<String>, Option<u64>), String>,
    status: Option<String>,
) -> (r: Result<bool, String>)
    ensures
        match r {
            Ok(failure) => {
                &&& line_complaint(header_view(header)) is None
                &&& failure == tells_failure(header_view(header)->Ok_0.0, status.deep_view())
            },
            Err(error) => line_complaint(header_view(header)) == Some(error@),
        },
{
    match header {
        Err(error) => Err(error),
        Ok((kind, count)) => {
            match count {
                Some(0) => {},
                _ => {
                    return Err("unexpected binary result".to_owned());
                },
            }
            let failed: bool = match status {
                Some(text) => same(text.as_str(), "failed"),
                None => false,
            };
            Ok(
                match kind {
                    Some(text) => same(text.as_str(), "error") || (same(text.as_str(), "done")
                        && failed),
                    None => false,
                },
            )
        },
    }
}

impl JsonLines {
    pub fn new() -> (r: Self)
        ensures
            r.frames.wf(),
            r.frames.pending@.len() == 0,
            r.frames.header_len is None,
            !r.errors,
    {
        JsonLines { frames: FrameAssembler::new(), errors: false }
    }

    /// Whether an error or a failed window went by.
    pub fn error_flag(&self) -> (r: bool)
        ensures
            r == self.errors,
    {
        self.errors
    }

    /// Checks a complete header before it is written as a line.
    pub fn line(&mut self, header: &[u8]) -> (r: Result<(), String>)
        ensures
            final(self).frames == old(self).frames,
            ({
                let members = parsed_header(header@, "type"@, "payload_bytes"@);
                let status = match parsed_header(header@, "status"@, "payload_bytes"@) {
                    Ok((text, _)) => text,
                    Err(_) => None,
                };
                match r {
                    Ok(_) => {
                        &&& line_complaint(members) is None
                        &&& final(self).errors == (old(self).errors || tells_failure(
                            members->Ok_0.0,
                            status,
                        ))
                    },
                    Err(error) => {
                        &&& line_complaint(members) == Some(error@)
                        &&& final(self).errors == old(self).errors
                    },
                }
            }),
    {
        let status: Option<String> = match parse_header(header, "status", "payload_bytes") {
            Ok((text, _)) => text,
            Err(_) => None,
        };
        match judge_line(parse_header(header, "type", "payload_bytes"), status) {
            Ok(failure) => {
                if failure {
                    self.errors = true;
                }
                Ok(())
            },
            Err(error) => Err(error),
        }
    }
}

// ---------------------------------------------------------------------------
// Offsets
// ---------------------------------------------------------------------------

/// The least whole number that is no less than `a / b`.
pub open spec fn ceiling(a: int, b: int) -> int {
    (a + b - 1) / b
}

/// Map source-frame timing to the first decoder sample at or after the boundary.
pub fn source_offset(frames: u64, rate: u32) -> (r: Result<u64, String>)
    ensures
        match r {
            Ok(offset) => rate > 0 && offset == ceiling(frames * 12000, rate as int),
            Err(error) => if rate == 0 {
                error@ == "source sample rate must be positive"@
            } else {
                ceiling(frames * 12000, rate as int) > u64::MAX && error@
                    == "slot offset exceeds decoder sample range"@
            },
        },
{
    if rate == 0 {
        return Err("source sample rate must be positive".to_owned());
    }
    let offset: u128 = (frames as u128 * 12000 + rate as u128 - 1) / rate as u128;
    if offset > u64::MAX as u128 {
        return Err("slot offset exceeds decoder sample range".to_owned());
    }
    Ok(offset as u64)
}

/// The part before the first point.
pub open spec fn whole_part(value: Seq<char>) -> Seq<char> {
    value.take(find_char(value, '.'))
}

/// The part behind the first point.
pub open spec fn fraction_part(value: Seq<char>) -> Seq<char> {
    let at = find_char(value, '.');
    if at < value.len() {
        value.skip(at + 1)
    } else {
        Seq::empty()
    }
}

/// Nonnegative decimal seconds with at most nine fractional digits.
pub open spec fn is_seconds(value: Seq<char>) -> bool {
    let fraction = fraction_part(value);
    &&& whole_part(value).len() > 0
    &&& all_digits(whole_part(value))
    &&& fraction.len() <= 9
    &&& all_digits(fraction)
    &&& find_char(value, '.') < value.len() ==> fraction.len() > 0
}

/// A fraction of a second as nanoseconds: padded with zeros to nine digits.
pub open spec fn fraction_nanos(fraction: Seq<char>) -> nat
    decreases 9 - fraction.len(),
{
    if fraction.len() >= 9 {
        decimal_value(fraction)
    } else {
        fraction_nanos(fraction.push('0'))
    }
}

/// Decimal seconds as nanoseconds.
pub open spec fn nanoseconds(value: Seq<char>) -> nat {
    decimal_value(whole_part(value)) * 1_000_000_000 + fraction_nanos(fraction_part(value))
}

proof fn lemma_digits_bound(s: Seq<char>)
    requires
        all_digits(s),
        s.len() <= 9,
    ensures
        s.len() == 0 ==> decimal_value(s) == 0,
        s.len() == 1 ==> decimal_value(s) < 10,
        s.len() == 2 ==> decimal_value(s) < 100,
        s.len() == 3 ==> decimal_value(s) < 1000,
        s.len() == 4 ==> decimal_value(s) < 10000,
        s.len() == 5 ==> decimal_value(s) < 100000,
        s.len() == 6 ==> decimal_value(s) < 1000000,
        s.len() == 7 ==> decimal_value(s) < 10000000,
        s.len() == 8 ==> decimal_value(s) < 100000000,
        s.len() == 9 ==> decimal_value(s) < 1000000000,
    decreases s.len(),
{
    if s.len() > 0 {
        assert(is_digit(s.last()));
        assert forall|i: int| 0 <= i < s.drop_last().len() implies is_digit(
            #[trigger] s.drop_last()[i],
        ) by {
            assert(is_digit(s[i]));
        }
        lemma_digits_bound(s.drop_last());
    }
}

fn fraction_value(fraction: &str) -> (r: u64)
    requires
        all_digits(fraction@),
        fraction@.len() <= 9,
    ensures
        r == fraction_nanos(fraction@),
        r < 1_000_000_000,
{
    proof {
        lemma_digits_bound(fraction@);
    }
    let mut value: u64 = match number_value(fraction) {
        Some(value) => value,
        None => 0,
    };
    let mut places: usize = fraction.unicode_len();
    let ghost mut padded = fraction@;
    while places < 9
        invariant
            places <= 9,
            places == padded.len(),
            all_digits(padded),
            value == decimal_value(padded),
            fraction_nanos(fraction@) == fraction_nanos(padded),
            value < 1_000_000_000,
            places == 0 ==> value < 1,
            places == 1 ==> value < 10,
            places == 2 ==> value < 100,
            places == 3 ==> value < 1000,
            places == 4 ==> value < 10000,
            places == 5 ==> value < 100000,
            places == 6 ==> value < 1000000,
            places == 7 ==> value < 10000000,
            places == 8 ==> value < 100000000,
        decreases 9 - places,
    {
        proof {
            let next = padded.push('0');
            assert(next.drop_last() =~= padded);
            assert(next.last() == '0');
            padded = next;
        }
        value = value * 10;
        places = places + 1;
    }
    value
}

/// Convert nonnegative decimal seconds to a count of 12 kHz samples.
/// Accepts up to nine fractional digits, using exact integer arithmetic and
/// rounding upward to the first sample at or after the requested boundary.
/// The returned value is samples, not nanoseconds.
pub fn seconds_offset(value: &str) -> (r: Result<u64, String>)
    ensures
        match r {
            Ok(offset) => is_seconds(value@) && offset == ceiling(
                nanoseconds(value@) as int * 12000,
                1_000_000_000,
            ),
            Err(error) => if !is_seconds(value@) {
                error@
                    == "slot offset seconds must be nonnegative decimal seconds with at most 9 fractional digits"@
            } else if decimal_value(whole_part(value@)) > u64::MAX {
                error@ == "slot offset seconds exceeds range"@
            } else {
                ceiling(nanoseconds(value@) as int * 12000, 1_000_000_000) > u64::MAX && error@
                    == "slot offset exceeds decoder sample range"@
            },
        },
{
    let n: usize = value.unicode_len();
    let at: usize = position_of(value, '.', 0);
    let whole: &str = value.substring_char(0, at);
    let fraction: &str = if at < n {
        value.substring_char(at + 1, n)
    } else {
        ""
    };
    proof {
        reveal_strlit("");
        assert(whole@ =~= whole_part(value@));
        assert(fraction@ =~= fraction_part(value@));
    }
    let places: usize = fraction.unicode_len();
    if whole.unicode_len() == 0 || !only_digits(whole) || places > 9 || !only_digits(fraction) || (
    at < n && places == 0) {
        return Err(
            "slot offset seconds must be nonnegative decimal seconds with at most 9 fractional digits".to_owned(),
        );
    }
    let seconds: u64 = match number_value(whole) {
        Some(seconds) => seconds,
        None => {
            return Err("slot offset seconds exceeds range".to_owned());
        },
    };
    let nanos: u128 = seconds as u128 * 1_000_000_000 + fraction_value(fraction) as u128;
    let offset: u128 = (nanos * 12000 + 999_999_999) / 1_000_000_000;
    if offset > u64::MAX as u128 {
        return Err("slot offset exceeds decoder sample range".to_owned());
    }
    Ok(offset as u64)
}

/// The sample that a source boundary maps to is the first one at or after it.
pub proof fn offsets_round_up(frames: int, rate: int)
    requires
        frames >= 0,
        rate > 0,
    ensures
        ceiling(frames * 12000, rate) * rate >= frames * 12000,
        (ceiling(frames * 12000, rate) - 1) * rate < frames * 12000,
{
    let a = frames * 12000;
    vstd::arithmetic::div_mod::lemma_fundamental_div_mod(a + rate - 1, rate);
    let q = ceiling(a, rate);
    assert(q * rate == rate * q && (q - 1) * rate == rate * q - rate) by (nonlinear_arith);
}

} // verus!
