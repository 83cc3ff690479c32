//! Channel selection and the timeline of conversion to 12 kHz.
use vstd::prelude::*;
use vstd::string::*;
use crate::wav::{
    concatenated, is_further, is_refused, lemma_granted, reads_go_on, WavFormat, WavReader,
};

verus! {

pub const OUTPUT_RATE: u32 = 12_000;

pub const FILTER_PHASES: u32 = 256;

#[derive(Clone, Copy, Debug, Eq, PartialEq, Structural)]
pub enum Channel {
    Left,
    Right,
    Mix,
}

/// The samples of a frame that make up one mono sample.
#[derive(Clone, Copy, Debug, Eq, PartialEq, Structural)]
pub enum Pick {
    One(usize),
    /// Their mean.
    Both(usize, usize),
}

/// Where the mono sample of a frame stands among interleaved samples.
pub fn select_channel(channels: u16, channel: Channel, frame: usize) -> (r: Pick)
    requires
        2 * frame + 1 <= usize::MAX,
    ensures
        r == (if channels == 1 {
            Pick::One(frame)
        } else {
            match channel {
                Channel::Left => Pick::One((2 * frame) as usize),
                Channel::Right => Pick::One((2 * frame + 1) as usize),
                Channel::Mix => Pick::Both((2 * frame) as usize, (2 * frame + 1) as usize),
            }
        }),
{
    if channels == 1 {
        return Pick::One(frame);
    }
    match channel {
        Channel::Left => Pick::One(2 * frame),
        Channel::Right => Pick::One(2 * frame + 1),
        Channel::Mix => Pick::Both(2 * frame, 2 * frame + 1),
    }
}

/// How a file is converted: how many samples come out, how many have, and
/// whether they come straight from the file.
pub struct Conversion {
    pub sample_count: u64,
    pub emitted: u64,
    pub bypass: bool,
}

/// How many samples one read gives: at most one second, and no more than are left.
pub open spec fn granted(sample_count: int, emitted: int, maximum: int) -> int {
    let bounded = if maximum < 12000 {
        maximum
    } else {
        12000
    };
    if bounded < sample_count - emitted {
        bounded
    } else {
        sample_count - emitted
    }
}

/// How many samples have come out after reads of the given maxima.
pub open spec fn emitted_after(sample_count: int, maxima: Seq<nat>) -> int
    decreases maxima.len(),
{
    if maxima.len() == 0 {
        0
    } else {
        let before = emitted_after(sample_count, maxima.drop_last());
        before + granted(sample_count, before, maxima.last() as int)
    }
}

/// Whatever the maxima of the reads, no more samples come out than there are, and a read of
/// anything gives nothing only when all are out: reads until then add up to the sample
/// count.
pub proof fn reads_add_up(sample_count: nat, maxima: Seq<nat>)
    ensures
        0 <= emitted_after(sample_count as int, maxima) <= sample_count,
        forall|maximum: nat|
            maximum > 0 && #[trigger] granted(
                sample_count as int,
                emitted_after(sample_count as int, maxima),
                maximum as int,
            ) == 0 ==> emitted_after(sample_count as int, maxima) == sample_count,
    decreases maxima.len(),
{
    if maxima.len() > 0 {
        reads_add_up(sample_count, maxima.drop_last());
    }
}

/// Reads of at least one sample each, one for every sample, bring them all.
pub proof fn enough_reads_bring_all(sample_count: nat, maxima: Seq<nat>)
    requires
        forall|i: int| 0 <= i < maxima.len() ==> #[trigger] maxima[i] > 0,
    ensures
        emitted_after(sample_count as int, maxima) >= (if maxima.len() < sample_count {
            maxima.len()
        } else {
            sample_count
        }),
    decreases maxima.len(),
{
    reads_add_up(sample_count, maxima);
    if maxima.len() > 0 {
        let front = maxima.drop_last();
        reads_add_up(sample_count, front);
        assert(forall|i: int| 0 <= i < front.len() ==> front[i] == maxima[i]);
        assert(maxima.last() > 0);
        enough_reads_bring_all(sample_count, front);
    }
}

impl Conversion {
    /// What is wrong with a conversion, if anything.
    pub open spec fn complaint(format: WavFormat, frames: u64, channel: Channel) -> Option<
        Seq<char>,
    > {
        if format.channels == 1 && channel == Channel::Right {
            Some("right channel requested from a mono WAV"@)
        } else if frames * 12000 > u64::MAX {
            Some("converted WAV duration is too large"@)
        } else {
            None
        }
    }

    pub fn new(format: WavFormat, frames: u64, channel: Channel) -> (r: Result<Self, String>)
        requires
            format.sample_rate > 0,
        ensures
            match r {
                Ok(conversion) => {
                    &&& Conversion::complaint(format, frames, channel) is None
                    &&& conversion.sample_count == frames * 12000 / (format.sample_rate as int)
                    &&& conversion.emitted == 0
                    &&& conversion.bypass == (format.sample_rate == 12000)
                },
                Err(error) => Conversion::complaint(format, frames, channel) == Some(error@),
            },
    {
        if format.channels == 1 && channel == Channel::Right {
            return Err("right channel requested from a mono WAV".to_owned());
        }
        if frames > u64::MAX / 12000 {
            return Err("converted WAV duration is too large".to_owned());
        }
        Ok(
            Conversion {
                sample_count: frames * 12000 / format.sample_rate as u64,
                emitted: 0,
                bypass: format.sample_rate == OUTPUT_RATE,
            },
        )
    }

    /// How many samples one read gives: at most one second, and no more than are
    /// left.
    pub fn grant(&self, maximum: usize) -> (r: usize)
        requires
            self.emitted <= self.sample_count,
        ensures
            r == granted(self.sample_count as int, self.emitted as int, maximum as int),
            r <= maximum,
            r <= 12000,
            r <= self.sample_count - self.emitted,
    {
        let bounded: usize = if maximum < 12000 { maximum } else { 12000 };
        let left: u64 = self.sample_count - self.emitted;
        if (bounded as u64) < left {
            bounded
        } else {
            left as usize
        }
    }

    /// Accounts for samples that were read.
    pub fn advance(&mut self, count: usize)
        requires
            old(self).emitted + count <= old(self).sample_count,
        ensures
            final(self).emitted == old(self).emitted + count,
            final(self).sample_count == old(self).sample_count,
            final(self).bypass == old(self).bypass,
    {
        self.emitted = self.emitted + count as u64;
    }
}

/// The place in the source of the next converted sample: a whole number of source
/// samples, and the rest in units of one over the output rate. Integer positions
/// prevent timing drift on long recordings.
pub struct SincClock {
    pub rate: u32,
    pub position: u64,
    pub phase: u32,
}

/// Source samples on each side that a converted sample depends on.
pub open spec fn radius_of(rate: u32) -> int {
    (40 * rate + 11_999) / 12_000
}

impl SincClock {
    /// The place in units of one over the output rate.
    pub open spec fn place(&self) -> int {
        self.position * 12_000 + self.phase
    }

    pub open spec fn wf(&self) -> bool {
        self.phase < 12_000 && self.rate <= 192_000
    }

    pub fn new(rate: u32) -> (r: Self)
        requires
            rate <= 192_000,
        ensures
            r.wf(),
            r.rate == rate,
            r.place() == 0,
    {
        SincClock { rate, position: 0, phase: 0 }
    }

    /// Source samples on each side that a converted sample depends on: 40 output
    /// samples, rounded up.
    pub fn radius(&self) -> (r: usize)
        requires
            self.wf(),
        ensures
            r == radius_of(self.rate),
            r <= 640,
    {
        ((40 * self.rate + 11_999) / 12_000) as usize
    }

    /// The filter phase below the place, and the rest in units of one over the
    /// output rate.
    pub fn filter_phase(&self) -> (r: (usize, u32))
        requires
            self.wf(),
        ensures
            r.0 < FILTER_PHASES,
            r.1 < 12_000,
            r.0 * 12_000 + r.1 == self.phase * FILTER_PHASES,
    {
        let scaled: u32 = self.phase * FILTER_PHASES;
        ((scaled / OUTPUT_RATE) as usize, scaled % OUTPUT_RATE)
    }

    /// Moves on by one converted sample.
    pub fn advance(&mut self)
        requires
            old(self).wf(),
            old(self).position <= u64::MAX - 17,
        ensures
            final(self).wf(),
            final(self).rate == old(self).rate,
            final(self).place() == old(self).place() + old(self).rate,
    {
        let sum: u32 = self.phase + self.rate;
        self.position = self.position + (sum / OUTPUT_RATE) as u64;
        self.phase = sum % OUTPUT_RATE;
    }
}

/// The place after `n` converted samples.
pub open spec fn place_after(rate: nat, n: nat) -> nat
    decreases n,
{
    if n == 0 {
        0
    } else {
        place_after(rate, (n - 1) as nat) + rate
    }
}

/// There is no drift: sample `n` stands exactly at `n * rate / 12000` of the
/// source.
pub proof fn places_do_not_drift(rate: nat, n: nat)
    ensures
        place_after(rate, n) == n * rate,
    decreases n,
{
    if n > 0 {
        let m = (n - 1) as nat;
        places_do_not_drift(rate, m);
        assert(n * rate == m * rate + rate) by (nonlinear_arith)
            requires
                n == m + 1,
        ;
    } else {
        assert(n * rate == 0) by (nonlinear_arith)
            requires
                n == 0,
        ;
    }
}

// ---------------------------------------------------------------------------
// Files that need no conversion
// ---------------------------------------------------------------------------

/// A mono sample: one sample of a frame, or two of which it is the mean.
#[derive(Clone, Copy, Debug, Eq, PartialEq)]
pub enum Mono {
    One(i64),
    Both(i64, i64),
}

/// The sample at a place of what is read next.
pub open spec fn value_at(wav: WavReader, i: int) -> i64 {
    wav.next_sample(i)->Ok_0 as i64
}

/// The mono sample of a frame of what is read next.
pub open spec fn mono_at(wav: WavReader, channel: Channel, frame: int) -> Mono {
    if wav.layout().format.channels == 1 {
        Mono::One(value_at(wav, frame))
    } else {
        match channel {
            Channel::Left => Mono::One(value_at(wav, 2 * frame)),
            Channel::Right => Mono::One(value_at(wav, 2 * frame + 1)),
            Channel::Mix => Mono::Both(value_at(wav, 2 * frame), value_at(wav, 2 * frame + 1)),
        }
    }
}

/// The conversion leaves samples as they are, and what is left of it is what is left of the
/// file.
pub open spec fn is_plain(conversion: Conversion, wav: WavReader) -> bool {
    &&& conversion.bypass
    &&& conversion.emitted <= conversion.sample_count
    &&& conversion.sample_count - conversion.emitted == wav.remaining()
}

/// Frames that one read of a plain file hands out.
pub open spec fn frames_granted(conversion: Conversion, wav: WavReader, maximum: usize) -> int {
    wav.granted(
        granted(
            conversion.sample_count as int,
            conversion.emitted as int,
            maximum as int,
        ) as usize,
    )
}

/// The mono samples of the next `frames` frames, which are passed then.
pub open spec fn is_selection(
    before: WavReader,
    channel: Channel,
    frames: int,
    block: Seq<Mono>,
    after: WavReader,
) -> bool {
    &&& 0 <= frames <= before.remaining()
    &&& is_further(before, after, frames)
    &&& block.len() == frames
    &&& forall|f: int| 0 <= f < frames ==> #[trigger] block[f] == mono_at(before, channel, f)
    &&& forall|i: int|
        0 <= i < frames * before.layout().format.channels ==> #[trigger] before.next_sample(i) is Ok
}

fn selected(samples: &Vec<i64>, channels: u16, channel: Channel) -> (r: Vec<Mono>)
    requires
        channels == 1 || channels == 2,
        samples.len() % channels as usize == 0,
        samples.len() <= 48000,
    ensures
        r@.len() == samples.len() / channels as usize,
        forall|f: int|
            0 <= f < r@.len() ==> #[trigger] r@[f] == (if channels == 1 {
                Mono::One(samples@[f])
            } else {
                match channel {
                    Channel::Left => Mono::One(samples@[2 * f]),
                    Channel::Right => Mono::One(samples@[2 * f + 1]),
                    Channel::Mix => Mono::Both(samples@[2 * f], samples@[2 * f + 1]),
                }
            }),
{
    let frames: usize = samples.len() / channels as usize;
    let mut out: Vec<Mono> = Vec::new();
    let mut frame: usize = 0;
    while frame < frames
        invariant
            frame <= frames <= 48000,
            channels == 1 || channels == 2,
            frames * channels == samples.len(),
            out.len() == frame,
            forall|f: int|
                0 <= f < frame ==> #[trigger] out@[f] == (if channels == 1 {
                    Mono::One(samples@[f])
                } else {
                    match channel {
                        Channel::Left => Mono::One(samples@[2 * f]),
                        Channel::Right => Mono::One(samples@[2 * f + 1]),
                        Channel::Mix => Mono::Both(samples@[2 * f], samples@[2 * f + 1]),
                    }
                }),
        decreases frames - frame,
    {
        out.push(
            match select_channel(channels, channel, frame) {
                Pick::One(at) => Mono::One(samples[at]),
                Pick::Both(left, right) => Mono::Both(samples[left], samples[right]),
            },
        );
        frame = frame + 1;
    }
    out
}

/// Reads the mono samples of a file that needs no conversion: at most one second, and
/// nothing once all are out.
pub fn read_plain(
    wav: &mut WavReader,
    conversion: &mut Conversion,
    channel: Channel,
    maximum: usize,
) -> (r: Result<Vec<Mono>, String>)
    requires
        old(wav).wf(),
        is_plain(*old(conversion), *old(wav)),
    ensures
        final(wav).wf(),
        final(wav).bytes() == old(wav).bytes(),
        final(wav).layout() == old(wav).layout(),
        match r {
            Ok(block) => {
                let frames = frames_granted(*old(conversion), *old(wav), maximum);
                &&& is_selection(*old(wav), channel, frames, block@, *final(wav))
                &&& is_plain(*final(conversion), *final(wav))
                &&& final(conversion).sample_count == old(conversion).sample_count
                &&& frames <= 12000 && frames <= maximum
            },
            Err(error) => {
                &&& *final(conversion) == *old(conversion)
                &&& is_refused(
                    *old(wav),
                    frames_granted(*old(conversion), *old(wav), maximum)
                        * old(wav).layout().format.channels,
                    error@,
                )
            },
        },
{
    let ghost before = *wav;
    let channels: u16 = wav.format().channels;
    let wanted: usize = conversion.grant(maximum);
    let samples: Vec<i64> = match wav.read_frames(wanted) {
        Ok(samples) => samples,
        Err(error) => {
            return Err(error);
        },
    };
    proof {
        lemma_granted(before, wanted);
        let n = before.granted(wanted);
        let c = channels as int;
        assert(n * c <= 24000 && n * c % c == 0 && n * c / c == n) by (nonlinear_arith)
            requires
                0 <= n <= 12000,
                c == 1 || c == 2,
        ;
    }
    let block: Vec<Mono> = selected(&samples, channels, channel);
    conversion.advance(block.len());
    proof {
        assert forall|i: int|
            0 <= i < before.granted(wanted) * before.layout().format.channels implies (
        #[trigger] before.next_sample(i)) is Ok by {
            assert(before.next_sample(i) == Ok::<int, Seq<char>>(samples@[i] as int));
        }
        assert forall|f: int| 0 <= f < block@.len() implies #[trigger] block@[f] == mono_at(
            before,
            channel,
            f,
        ) by {
            if channels == 1 {
                assert(before.next_sample(f) == Ok::<int, Seq<char>>(samples@[f] as int));
            } else {
                assert(before.next_sample(2 * f) == Ok::<int, Seq<char>>(samples@[2 * f] as int));
                assert(before.next_sample(2 * f + 1) == Ok::<int, Seq<char>>(
                    samples@[2 * f + 1] as int,
                ));
            }
        }
    }
    Ok(block)
}

/// A file at the output rate is plain from the start.
pub proof fn files_at_the_output_rate_are_plain(conversion: Conversion, wav: WavReader)
    requires
        wav.remaining() == wav.layout().count,
        conversion.sample_count == wav.layout().count * 12000 / 12000,
        conversion.emitted == 0,
        conversion.bypass,
    ensures
        is_plain(conversion, wav),
        conversion.sample_count == wav.layout().count,
{
}

/// A run of selections: reader `k` hands out `blocks[k]` and is reader `k + 1` then.
pub open spec fn is_selected_run(
    readers: Seq<WavReader>,
    channel: Channel,
    blocks: Seq<Seq<Mono>>,
) -> bool {
    &&& readers.len() == blocks.len() + 1
    &&& forall|k: int|
        0 <= k < blocks.len() ==> is_selection(
            #[trigger] readers[k],
            channel,
            blocks[k].len() as int,
            blocks[k],
            readers[k + 1],
        )
}

/// Mono samples go on where the frames before them end.
proof fn lemma_mono_further(
    before: WavReader,
    after: WavReader,
    frames: int,
    channel: Channel,
    k: int,
)
    requires
        is_further(before, after, frames),
        1 <= before.layout().format.channels <= 2,
    ensures
        mono_at(after, channel, k) == mono_at(before, channel, frames + k),
{
    if before.layout().format.channels == 1 {
        reads_go_on(before, after, frames, k);
        assert(frames * 1 + k == frames + k);
    } else {
        reads_go_on(before, after, frames, 2 * k);
        reads_go_on(before, after, frames, 2 * k + 1);
        assert(frames * 2 + 2 * k == 2 * (frames + k));
        assert(frames * 2 + (2 * k + 1) == 2 * (frames + k) + 1);
    }
}

/// Reads of a plain file concatenate to the mono samples of the frames that they have
/// passed: their maxima do not matter.
pub proof fn plain_reads_concatenate(
    readers: Seq<WavReader>,
    channel: Channel,
    blocks: Seq<Seq<Mono>>,
)
    requires
        is_selected_run(readers, channel, blocks),
        1 <= readers[0].layout().format.channels <= 2,
    ensures
        ({
            let first = readers[0];
            let all = concatenated(blocks);
            &&& all.len() == first.remaining() - readers.last().remaining()
            &&& is_further(first, readers.last(), all.len() as int)
            &&& all == Seq::new(all.len(), |f: int| mono_at(first, channel, f))
        }),
    decreases blocks.len(),
{
    let first = readers[0];
    let all = concatenated(blocks);
    if blocks.len() > 0 {
        let n = blocks.len() - 1;
        let readers_before = readers.drop_last();
        let blocks_before = blocks.drop_last();
        assert forall|k: int| 0 <= k < blocks_before.len() implies is_selection(
            #[trigger] readers_before[k],
            channel,
            blocks_before[k].len() as int,
            blocks_before[k],
            readers_before[k + 1],
        ) by {
            assert(is_selection(
                readers[k],
                channel,
                blocks[k].len() as int,
                blocks[k],
                readers[k + 1],
            ));
        }
        plain_reads_concatenate(readers_before, channel, blocks_before);
        let last = readers[n];
        assert(readers_before.last() == last);
        assert(is_selection(last, channel, blocks[n].len() as int, blocks[n], readers[n + 1]));
        let before = concatenated(blocks_before);
        let done = before.len() as int;
        assert forall|f: int| 0 <= f < all.len() implies all[f] == mono_at(first, channel, f) by {
            if f < done {
                assert(all[f] == before[f]);
            } else {
                let k = f - done;
                assert(all[f] == blocks[n][k]);
                lemma_mono_further(first, last, done, channel, k);
            }
        }
    }
    assert(all =~= Seq::new(all.len(), |f: int| mono_at(first, channel, f)));
}

/// A read of anything hands out nothing only once every sample is out, and further reads
/// hand out nothing either; a read of nothing hands out nothing and passes nothing.
pub proof fn plain_reads_end(conversion: Conversion, wav: WavReader, maximum: usize)
    requires
        wav.wf(),
        is_plain(conversion, wav),
    ensures
        maximum > 0 && frames_granted(conversion, wav, maximum) == 0 ==> conversion.emitted
            == conversion.sample_count,
        conversion.emitted == conversion.sample_count ==> frames_granted(
            conversion,
            wav,
            maximum,
        ) == 0,
        maximum == 0 ==> frames_granted(conversion, wav, maximum) == 0,
{
    let wanted = granted(
        conversion.sample_count as int,
        conversion.emitted as int,
        maximum as int,
    ) as usize;
    lemma_granted(wav, wanted);
}

} // verus!
