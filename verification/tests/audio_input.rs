use ftdecode::{
    audio_input::{read_plain, Channel, Conversion, Mono, SincClock},
    wav::WavReader,
};

fn float_wav(rate: u32, samples: &[f32]) -> Vec<u8> {
    float_wav_channels(rate, 1, samples)
}

fn float_wav_channels(rate: u32, channels: u16, samples: &[f32]) -> Vec<u8> {
    let data_len = samples.len() as u32 * 4;
    let mut b = Vec::with_capacity(44 + data_len as usize);
    b.extend(b"RIFF");
    b.extend((36 + data_len).to_le_bytes());
    b.extend(b"WAVEfmt ");
    b.extend(16u32.to_le_bytes());
    b.extend(3u16.to_le_bytes());
    b.extend(channels.to_le_bytes());
    b.extend(rate.to_le_bytes());
    b.extend((rate * 4 * u32::from(channels)).to_le_bytes());
    b.extend((4 * channels).to_le_bytes());
    b.extend(32u16.to_le_bytes());
    b.extend(b"data");
    b.extend(data_len.to_le_bytes());
    for sample in samples {
        b.extend(sample.to_le_bytes());
    }
    b
}

fn conversion(bytes: &[u8], channel: Channel) -> Conversion {
    let wav = WavReader::new(bytes.to_vec()).unwrap();
    Conversion::new(wav.format(), wav.sample_count(), channel).unwrap()
}

/// The number of samples that reads of the given size give in all.
fn total(bytes: &[u8], maximum: usize) -> u64 {
    let mut c = conversion(bytes, Channel::Left);
    let mut sum = 0;
    loop {
        let n = c.grant(maximum);
        assert!(n <= 12000);
        if n == 0 {
            return sum;
        }
        sum += n as u64;
        c.advance(n);
    }
}

#[test]
fn positive_eof_read_validates_short_source_even_when_output_count_is_zero() {
    for frames in [1, 15] {
        let mut source = vec![0.0; frames];
        source[frames - 1] = f32::NAN;
        let bytes = float_wav(192000, &source);
        let c = conversion(&bytes, Channel::Left);
        assert_eq!(c.sample_count, 0);
        assert_eq!(c.grant(0), 0);
        assert_eq!(c.grant(1), 0);
        assert!(WavReader::new(bytes).unwrap().check_rest().is_err());
    }
}

#[test]
fn eof_validation_checks_unselected_stereo_samples() {
    let mut source = vec![0.0; 30];
    source[29] = f32::INFINITY;
    let bytes = float_wav_channels(192000, 2, &source);
    assert_eq!(conversion(&bytes, Channel::Left).sample_count, 0);
    assert!(WavReader::new(bytes).unwrap().check_rest().is_err());
}

#[test]
fn twelve_khz_bypass_is_sample_exact_and_reads_are_capped() {
    let source: Vec<f32> = (0..24003)
        .map(|i| (std::f64::consts::TAU * 997.0 * i as f64 / 12000.0).sin() as f32 * 0.73125)
        .collect();
    let bytes = float_wav(12000, &source);
    let c = conversion(&bytes, Channel::Left);
    assert_eq!(c.sample_count, 24003);
    assert!(c.bypass);
    assert_eq!(c.grant(usize::MAX), 12000);
    let mut wav = WavReader::new(bytes).unwrap();
    let mut read = Vec::new();
    loop {
        let block = wav.read_frames(12000).unwrap();
        if block.is_empty() {
            break;
        }
        assert!(block.len() <= 12000);
        read.extend(block);
    }
    assert_eq!(
        read.iter()
            .map(|&s| f32::from_bits(s as u32) * 32768.0)
            .collect::<Vec<_>>(),
        source.iter().map(|x| x * 32768.0).collect::<Vec<_>>()
    );
}

#[test]
fn noninteger_ratio_has_exact_floor_duration_and_is_chunk_invariant() {
    let bytes = float_wav(44100, &vec![0.5; 44101]);
    assert_eq!(conversion(&bytes, Channel::Left).sample_count, 12000);
    assert_eq!(total(&bytes, 12000), 12000);
    assert_eq!(total(&bytes, 137), 12000);
}

#[test]
fn very_short_and_partial_tail_inputs_never_gain_samples() {
    for rate in [44100, 192000] {
        for frames in [1, 1001, 1023, 1024, 1025, 2047, 3199] {
            let source = vec![0.25; frames];
            let bytes = float_wav(rate, &source);
            let expected = frames as u64 * 12000 / u64::from(rate);
            assert_eq!(
                conversion(&bytes, Channel::Left).sample_count,
                expected,
                "metadata at {rate} Hz with {frames} frames"
            );
            assert_eq!(
                total(&bytes, 11),
                expected,
                "output at {rate} Hz with {frames} frames"
            );
        }
    }
}

#[test]
fn filter_positions_do_not_drift() {
    for rate in [16000, 44100, 48000, 192000] {
        let mut clock = SincClock::new(rate);
        for n in 0..50_000u64 {
            let place = clock.position * 12000 + u64::from(clock.phase);
            assert_eq!(place, n * u64::from(rate));
            let (phase, rest) = clock.filter_phase();
            assert_eq!(
                phase * 12000 + rest as usize,
                clock.phase as usize * 256
            );
            clock.advance();
        }
    }
    assert_eq!(SincClock::new(44100).radius(), 147);
    assert_eq!(SincClock::new(192000).radius(), 640);
}

#[test]
fn reads_of_any_size_add_up_to_all_samples() {
    for maxima in [[1_usize, 7, 5000], [12_000, 3, 20_000], [6000, 6000, 1]] {
        let mut conversion = Conversion {
            sample_count: 40_001,
            emitted: 0,
            bypass: true,
        };
        let mut sum = 0;
        for n in 0.. {
            let granted = conversion.grant(maxima[n % 3]);
            if granted == 0 {
                break;
            }
            assert!(granted <= maxima[n % 3] && granted <= 12_000);
            conversion.advance(granted);
            sum += granted as u64;
        }
        assert_eq!(sum, 40_001);
        assert_eq!(conversion.emitted, 40_001);
    }
}

#[test]
fn plain_reads_of_any_size_give_the_same_samples() {
    let source: Vec<f32> = (0..2 * 9001).map(|i| (i % 1999) as f32 / 2000.0).collect();
    let bytes = float_wav_channels(12000, 2, &source);
    let read = |channel: Channel, maxima: &[usize]| {
        let mut wav = WavReader::new(bytes.clone()).unwrap();
        let mut c = conversion(&bytes, channel);
        let mut all = Vec::new();
        for n in 0.. {
            let maximum = maxima[n % maxima.len()];
            let block = read_plain(&mut wav, &mut c, channel, maximum).unwrap();
            assert!(block.len() <= maximum.min(12000));
            if block.is_empty() {
                break;
            }
            all.extend(block);
        }
        assert_eq!(c.emitted, 9001);
        assert!(read_plain(&mut wav, &mut c, channel, 5).unwrap().is_empty());
        all
    };
    let bits = |i: usize| i64::from(source[i].to_bits());
    for (channel, sample) in [
        (Channel::Left, (|b, f| Mono::One(b(2 * f))) as fn(&dyn Fn(usize) -> i64, usize) -> Mono),
        (Channel::Right, |b, f| Mono::One(b(2 * f + 1))),
        (Channel::Mix, |b, f| Mono::Both(b(2 * f), b(2 * f + 1))),
    ] {
        let expected: Vec<Mono> = (0..9001).map(|f| sample(&bits, f)).collect();
        for maxima in [&[1][..], &[7, 12000, 3], &[usize::MAX], &[6000]] {
            assert_eq!(read(channel, maxima), expected);
        }
    }
    // Nothing is asked for, and nothing is passed.
    let mut wav = WavReader::new(bytes.clone()).unwrap();
    let mut c = conversion(&bytes, Channel::Left);
    assert!(read_plain(&mut wav, &mut c, Channel::Left, 0).unwrap().is_empty());
    assert_eq!(c.emitted, 0);
    assert_eq!(wav.read_frames(1).unwrap(), [bits(0), bits(1)]);
    assert_eq!(wav.check_rest(), Ok(()));
    assert!(wav.read_frames(1).unwrap().is_empty());
}
