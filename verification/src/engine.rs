//! Shared decoder types. Audio is mono 12 kHz, in raw PCM amplitude units.
use vstd::prelude::*;
use vstd::string::*;
use crate::assistance::{
    first_bad_call, inside, is_hint, is_hint_char, within, ApMode, ApModel, ApSettings,
};
use crate::callsign::{is_call_char, normal_call, without_brackets};
use crate::fec::{DecodeMethod, Decoded, HybridDecoded};
use crate::message::{consistent, Message, MessageDecoder};
use crate::quantities::{HZ_10, HZ_200, HZ_1000, HZ_3000, HZ_5000};
use crate::single::{finite, is_finite, is_narrower_than_50, narrower_than_50};
use crate::text::{append_decimal, decimal, trim, uppercase};
use crate::wire::{remembered, silence, History};

verus! {

#[derive(Clone, Copy, Debug, Eq, PartialEq, Structural)]
pub enum Mode {
    Ft8,
    Ft4,
}

impl Mode {
    pub open spec fn spec_name(self) -> Seq<char> {
        match self {
            Mode::Ft8 => "ft8"@,
            Mode::Ft4 => "ft4"@,
        }
    }

    pub fn name(self) -> (r: &'static str)
        ensures
            r@ == self.spec_name(),
    {
        match self {
            Mode::Ft8 => "ft8",
            Mode::Ft4 => "ft4",
        }
    }

    /// Samples from one slot to the next.
    pub open spec fn period(self) -> nat {
        match self {
            Mode::Ft8 => 180000,
            Mode::Ft4 => 90000,
        }
    }

    /// Samples of one decode window.
    pub open spec fn window(self) -> nat {
        match self {
            Mode::Ft8 => 180000,
            Mode::Ft4 => 72576,
        }
    }

    /// Slot spacing at 12 kHz: FT8 180,000 (15 s), FT4 90,000 (7.5 s).
    pub fn period_samples(self) -> (r: usize)
        ensures
            r == self.period(),
    {
        match self {
            Mode::Ft8 => 180000,
            Mode::Ft4 => 90000,
        }
    }

    /// Required decode window: FT8 180,000 samples; FT4 72,576 (6.048 s).
    pub fn input_samples(self) -> (r: usize)
        ensures
            r == self.window(),
    {
        match self {
            Mode::Ft8 => 180000,
            Mode::Ft4 => 72576,
        }
    }
}

/// How a window is searched. Frequencies are bit patterns of single precision
/// values in hertz.
#[derive(Clone, Debug, PartialEq, Eq)]
pub struct DecodeSettings {
    pub low_hz: u32,
    pub high_hz: u32,
    pub priority_hz: Option<u32>,
    pub priority_tolerance_hz: u32,
    pub depth: u8,
    pub threads: usize,
    /// Master AP gate. `ap.mode` must be set as well to enable assistance.
    pub assistance: bool,
    pub ap: ApSettings,
}

/// The settings of a new stream.
pub open spec fn initial_settings() -> SettingsModel {
    SettingsModel {
        low_hz: HZ_200,
        high_hz: HZ_3000,
        priority_hz: None,
        priority_tolerance_hz: HZ_10,
        depth: 3,
        threads: 1,
        assistance: false,
        ap: crate::assistance::initial_assistance(),
    }
}

impl Default for DecodeSettings {
    fn default() -> (r: Self)
        ensures
            r.deep_view() == initial_settings(),
    {
        DecodeSettings {
            low_hz: HZ_200,
            high_hz: HZ_3000,
            priority_hz: None,
            priority_tolerance_hz: HZ_10,
            depth: 3,
            threads: 1,
            assistance: false,
            ap: ApSettings::default(),
        }
    }
}

/// Zero or more, given that the value is finite.
pub open spec fn not_below_zero(hz: u32) -> bool {
    hz <= 0x8000_0000
}

/// At most 5000, given that the value is finite.
pub open spec fn not_above_5000(hz: u32) -> bool {
    hz <= HZ_5000 || hz >= 0x8000_0000
}

/// The settings as plain sequences.
#[verifier::ext_equal]
pub struct SettingsModel {
    pub low_hz: u32,
    pub high_hz: u32,
    pub priority_hz: Option<u32>,
    pub priority_tolerance_hz: u32,
    pub depth: u8,
    pub threads: usize,
    pub assistance: bool,
    pub ap: ApModel,
}

impl DeepView for DecodeSettings {
    type V = SettingsModel;

    open spec fn deep_view(&self) -> SettingsModel {
        SettingsModel {
            low_hz: self.low_hz,
            high_hz: self.high_hz,
            priority_hz: self.priority_hz,
            priority_tolerance_hz: self.priority_tolerance_hz,
            depth: self.depth,
            threads: self.threads,
            assistance: self.assistance,
            ap: self.ap.deep_view(),
        }
    }
}

impl SettingsModel {
    /// What is wrong with the settings, if anything.
    pub open spec fn complaint(self) -> Option<Seq<char>> {
        if !finite(self.low_hz) || !finite(self.high_hz) || !not_below_zero(self.low_hz)
            || !not_above_5000(self.high_hz) || narrower_than_50(self.low_hz, self.high_hz) {
            Some("frequency range must be finite, within 0..5000 Hz, and at least 50 Hz wide"@)
        } else if self.priority_hz matches Some(hz) && !within(hz, HZ_5000) {
            Some("priority_hz must be finite and within 0..5000 Hz"@)
        } else if !within(self.priority_tolerance_hz, HZ_1000) {
            Some("priority_tolerance_hz must be within 0..1000 Hz"@)
        } else if !(1 <= self.depth <= 3) {
            Some("depth must be 1, 2 or 3"@)
        } else if !(1 <= self.threads <= 12) {
            Some("threads must be in 1..12"@)
        } else {
            self.ap.complaint()
        }
    }
}

impl DecodeSettings {
    /// What is wrong with the settings, if anything.
    pub open spec fn complaint(&self) -> Option<Seq<char>> {
        self.deep_view().complaint()
    }

    /// A copy of the settings.
    pub fn copied(&self) -> (r: Self)
        ensures
            r.deep_view() == self.deep_view(),
    {
        DecodeSettings {
            low_hz: self.low_hz,
            high_hz: self.high_hz,
            priority_hz: self.priority_hz,
            priority_tolerance_hz: self.priority_tolerance_hz,
            depth: self.depth,
            threads: self.threads,
            assistance: self.assistance,
            ap: self.ap.copied(),
        }
    }

    /// The assistance in force.
    pub open spec fn assistance_in_force(&self) -> ApMode {
        if self.assistance {
            self.ap.mode
        } else {
            ApMode::Off
        }
    }

    pub fn ap_mode(&self) -> (r: ApMode)
        ensures
            r == self.assistance_in_force(),
    {
        if self.assistance {
            self.ap.mode
        } else {
            ApMode::Off
        }
    }

    pub fn validate(&self) -> (r: Result<(), String>)
        ensures
            match r {
                Ok(_) => self.complaint() is None,
                Err(error) => self.complaint() == Some(error@),
            },
    {
        if !is_finite(self.low_hz) || !is_finite(self.high_hz) || self.low_hz > 0x8000_0000 || (
        self.high_hz > HZ_5000 && self.high_hz < 0x8000_0000) || is_narrower_than_50(
            self.low_hz,
            self.high_hz,
        ) {
            return Err(
                "frequency range must be finite, within 0..5000 Hz, and at least 50 Hz wide".to_owned(),
            );
        }
        match self.priority_hz {
            Some(hz) => {
                if !inside(hz, HZ_5000) {
                    return Err("priority_hz must be finite and within 0..5000 Hz".to_owned());
                }
            },
            None => {},
        }
        if !inside(self.priority_tolerance_hz, HZ_1000) {
            return Err("priority_tolerance_hz must be within 0..1000 Hz".to_owned());
        }
        if self.depth < 1 || self.depth > 3 {
            return Err("depth must be 1, 2 or 3".to_owned());
        }
        if self.threads < 1 || self.threads > 12 {
            return Err("threads must be in 1..12".to_owned());
        }
        self.ap.validate()
    }
}

// ---------------------------------------------------------------------------
// Results
// ---------------------------------------------------------------------------

/// Metrics of a successful error-correction attempt, not a measured channel BER.
#[derive(Clone, Debug, PartialEq, Eq)]
pub struct DecodeDiagnostics {
    pub method: DecodeMethod,
    pub bp_iterations: u8,
    pub hard_errors: usize,
    pub osd_pass: Option<u8>,
    /// One-based signal subtraction/search pass.
    pub pass: usize,
    pub ap_type: Option<u8>,
    /// Bit pattern of a single precision value.
    pub confidence: Option<u32>,
    pub questionable: bool,
}

impl DecodeDiagnostics {
    /// A payload that belief propagation found on the first search pass.
    pub fn bp(decoded: &Decoded) -> (r: Self)
        ensures
            r == (DecodeDiagnostics {
                method: DecodeMethod::Bp,
                bp_iterations: decoded.iterations,
                hard_errors: decoded.hard_errors,
                osd_pass: None,
                pass: 1,
                ap_type: None,
                confidence: None,
                questionable: false,
            }),
    {
        DecodeDiagnostics {
            method: DecodeMethod::Bp,
            bp_iterations: decoded.iterations,
            hard_errors: decoded.hard_errors,
            osd_pass: None,
            pass: 1,
            ap_type: None,
            confidence: None,
            questionable: false,
        }
    }

    /// A payload that the hybrid decoder found on the first search pass.
    pub fn hybrid(decoded: &HybridDecoded) -> (r: Self)
        ensures
            r == (DecodeDiagnostics {
                method: decoded.method,
                bp_iterations: decoded.decoded.iterations,
                hard_errors: decoded.decoded.hard_errors,
                osd_pass: decoded.osd_pass,
                pass: 1,
                ap_type: None,
                confidence: None,
                questionable: false,
            }),
    {
        DecodeDiagnostics {
            method: decoded.method,
            bp_iterations: decoded.decoded.iterations,
            hard_errors: decoded.decoded.hard_errors,
            osd_pass: decoded.osd_pass,
            pass: 1,
            ap_type: None,
            confidence: None,
            questionable: false,
        }
    }
}

/// One decoded signal; its frequency and offset are bit patterns of single
/// precision values.
#[derive(Clone, Debug, PartialEq, Eq)]
pub struct DecodedSignal {
    /// Decoded 77-bit payload, after mode-specific descrambling.
    pub source_bits: [bool; 77],
    pub message: Message,
    pub frequency_hz: u32,
    pub snr_db: i32,
    /// Offset from nominal mode transmit start, in seconds.
    pub dt_seconds: u32,
    pub assisted: bool,
    pub diagnostics: Option<DecodeDiagnostics>,
}

#[derive(Clone, Copy, Debug, PartialEq, Eq)]
pub struct DecodeStats {
    /// Candidate examinations, including revisits in subsequent passes.
    pub candidates: usize,
    pub passes: usize,
    pub decoded: usize,
    pub cancelled: bool,
}

impl Default for DecodeStats {
    fn default() -> (r: Self)
        ensures
            r == (DecodeStats { candidates: 0, passes: 0, decoded: 0, cancelled: false }),
    {
        DecodeStats { candidates: 0, passes: 0, decoded: 0, cancelled: false }
    }
}

// ---------------------------------------------------------------------------
// The decoder of one stream
// ---------------------------------------------------------------------------

/// Bit patterns of 32768 and, for filtered audio, of four times that.
pub const FULL_SCALE: u32 = 0x4700_0000;

pub const FILTERED_SCALE: u32 = 0x4800_0000;

/// A sample that is finite and of at most the given magnitude.
pub open spec fn is_sample(bits: u32, limit: u32) -> bool {
    finite(bits) && bits % 0x8000_0000 <= limit
}

/// Per-stream slot counter and callsign history. Reuse it for successive windows.
pub struct Decoder {
    pub mode: Mode,
    pub slot_context: Option<u64>,
    pub next_slot: u64,
    pub messages: MessageDecoder,
    pub filtered_input: bool,
}

/// History after the first `n` calls were remembered.
pub open spec fn remembering(history: History, calls: Seq<Seq<char>>, n: nat) -> History
    decreases n,
{
    if n == 0 {
        history
    } else {
        remembered(
            remembering(history, calls, (n - 1) as nat),
            normal_call(calls[n - 1])->0,
        )
    }
}

pub open spec fn remembering_one(history: History, call: Option<Seq<char>>) -> History {
    match call {
        Some(text) => remembered(history, normal_call(text)->0),
        None => history,
    }
}

/// History after the calls of the settings: known ones, then one's own, then the
/// other station's.
pub open spec fn seeded(history: History, ap: ApSettings) -> History {
    let known = ap.known_calls.deep_view();
    remembering_one(
        remembering_one(remembering(history, known, known.len()), ap.my_call.deep_view()),
        ap.dx_call.deep_view(),
    )
}

proof fn lemma_hint_is_call(call: Seq<char>, longest: nat)
    requires
        is_hint(call, longest),
        longest <= 13,
    ensures
        normal_call(call) is Some,
{
    let bare = without_brackets(trim(call));
    let big = uppercase(bare);
    assert forall|i: int| 0 <= i < big.len() implies is_call_char(#[trigger] big[i]) by {
        assert(is_hint_char(bare[i]));
    }
}

proof fn lemma_no_bad_call(calls: Seq<Seq<char>>, from: int)
    requires
        0 <= from <= calls.len(),
        first_bad_call(calls, from) >= calls.len(),
    ensures
        forall|i: int| from <= i < calls.len() ==> is_hint(#[trigger] calls[i], 13),
    decreases calls.len() - from,
{
    if from < calls.len() {
        lemma_no_bad_call(calls, from + 1);
    }
}

impl Decoder {
    pub open spec fn wf(&self) -> bool {
        consistent(self.messages@)
    }

    pub fn new(mode: Mode) -> (r: Self)
        ensures
            r.wf(),
            r.mode == mode,
            r.slot_context is None,
            r.next_slot == 0,
            r.messages@ == silence(),
            !r.filtered_input,
    {
        Decoder {
            mode,
            slot_context: None,
            next_slot: 0,
            messages: MessageDecoder::default(),
            filtered_input: false,
        }
    }

    /// A decoder of filtered audio, whose transients may exceed full scale.
    pub fn new_for_wav(mode: Mode) -> (r: Self)
        ensures
            r.wf(),
            r.mode == mode,
            r.slot_context is None,
            r.next_slot == 0,
            r.messages@ == silence(),
            r.filtered_input,
    {
        Decoder {
            mode,
            slot_context: None,
            next_slot: 0,
            messages: MessageDecoder::default(),
            filtered_input: true,
        }
    }

    pub fn reset(&mut self, mode: Mode)
        ensures
            final(self).wf(),
            final(self).mode == mode,
            final(self).slot_context is None,
            final(self).next_slot == 0,
            final(self).messages@ == silence(),
            final(self).filtered_input == old(self).filtered_input,
    {
        self.mode = mode;
        self.messages.reset();
        self.slot_context = None;
        self.next_slot = 0;
    }

    /// Set a period identity for history; repeat it for early/final attempts.
    pub fn set_slot(&mut self, slot: u64)
        ensures
            final(self).slot_context == Some(slot),
            final(self).mode == old(self).mode,
            final(self).next_slot == old(self).next_slot,
            final(self).messages == old(self).messages,
            final(self).filtered_input == old(self).filtered_input,
    {
        self.slot_context = Some(slot);
    }

    /// What stops a window from being decoded, if anything.
    pub open spec fn refusal(
        &self,
        pcm: Seq<u32>,
        settings: DecodeSettings,
    ) -> Option<Seq<char>> {
        let limit = if self.filtered_input {
            FILTERED_SCALE
        } else {
            FULL_SCALE
        };
        if settings.complaint() is Some {
            settings.complaint()
        } else if self.mode == Mode::Ft4 && settings.threads != 1 {
            Some("FT4 supports threads=1"@)
        } else if pcm.len() != self.mode.window() {
            Some(self.mode.spec_name() + " requires "@ + decimal(self.mode.window()) + " samples"@)
        } else if exists|i: int| 0 <= i < pcm.len() && !is_sample(#[trigger] pcm[i], limit) {
            Some("audio must contain finite PCM-scale samples"@)
        } else {
            None
        }
    }

    /// The slot that the next window belongs to.
    pub open spec fn slot(&self) -> u64 {
        match self.slot_context {
            Some(slot) => slot,
            None => self.next_slot,
        }
    }

    /// Admits one window of samples, given as bit patterns of single precision
    /// values, and tells its slot. The calls of the settings are remembered, and
    /// the slot counter goes on behind this window's slot.
    pub fn begin(&mut self, pcm: &[u32], settings: &DecodeSettings) -> (r: Result<
        u64,
        String,
    >)
        requires
            old(self).wf(),
        ensures
            final(self).wf(),
            final(self).mode == old(self).mode,
            final(self).filtered_input == old(self).filtered_input,
            match r {
                Ok(slot) => {
                    &&& old(self).refusal(pcm@, *settings) is None
                    &&& slot == old(self).slot()
                    &&& final(self).slot_context is None
                    &&& final(self).next_slot == (if slot == u64::MAX {
                        u64::MAX as int
                    } else {
                        slot + 1
                    })
                    &&& final(self).messages@ == seeded(old(self).messages@, settings.ap)
                },
                Err(error) => {
                    &&& old(self).refusal(pcm@, *settings) == Some(error@)
                    &&& final(self).slot_context == old(self).slot_context
                    &&& final(self).next_slot == old(self).next_slot
                    &&& final(self).messages@ == old(self).messages@
                },
            },
    {
        match settings.validate() {
            Ok(_) => {},
            Err(error) => {
                return Err(error);
            },
        }
        if self.mode == Mode::Ft4 && settings.threads != 1 {
            return Err("FT4 supports threads=1".to_owned());
        }
        if pcm.len() != self.mode.input_samples() {
            let mut error: String = self.mode.name().to_owned();
            error.append(" requires ");
            append_decimal(&mut error, self.mode.input_samples() as u64);
            error.append(" samples");
            return Err(error);
        }
        let limit: u32 = if self.filtered_input { FILTERED_SCALE } else { FULL_SCALE };
        let mut i: usize = 0;
        while i < pcm.len()
            invariant
                i <= pcm@.len(),
                forall|k: int| 0 <= k < i ==> is_sample(#[trigger] pcm@[k], limit),
                settings.complaint() is None,
                !(self.mode == Mode::Ft4 && settings.threads != 1),
                pcm@.len() == self.mode.window(),
                limit == (if self.filtered_input {
                    FILTERED_SCALE
                } else {
                    FULL_SCALE
                }),
                *self == *old(self),
                self.wf(),
            decreases pcm@.len() - i,
        {
            if !is_finite(pcm[i]) || pcm[i] % 0x8000_0000 > limit {
                assert(!is_sample(pcm@[i as int], limit));
                return Err("audio must contain finite PCM-scale samples".to_owned());
            }
            i = i + 1;
        }
        let ghost before = self.messages@;
        self.seed(&settings.ap);
        let slot: u64 = match self.slot_context {
            Some(slot) => slot,
            None => self.next_slot,
        };
        self.slot_context = None;
        self.next_slot = if slot == u64::MAX { slot } else { slot + 1 };
        Ok(slot)
    }

    fn seed(&mut self, ap: &ApSettings)
        requires
            old(self).wf(),
            ap.complaint() is None,
        ensures
            final(self).wf(),
            final(self).messages@ == seeded(old(self).messages@, *ap),
            final(self).mode == old(self).mode,
            final(self).slot_context == old(self).slot_context,
            final(self).next_slot == old(self).next_slot,
            final(self).filtered_input == old(self).filtered_input,
    {
        let ghost known = ap.known_calls.deep_view();
        let ghost before = self.messages@;
        proof {
            lemma_no_bad_call(known, 0);
        }
        let mut i: usize = 0;
        while i < ap.known_calls.len()
            invariant
                i <= ap.known_calls.len(),
                known == ap.known_calls.deep_view(),
                forall|k: int| 0 <= k < known.len() ==> is_hint(#[trigger] known[k], 13),
                self.wf(),
                self.messages@ == remembering(before, known, i as nat),
                self.mode == old(self).mode,
                self.slot_context == old(self).slot_context,
                self.next_slot == old(self).next_slot,
                self.filtered_input == old(self).filtered_input,
            decreases ap.known_calls.len() - i,
        {
            proof {
                assert(known[i as int] == ap.known_calls@[i as int]@);
                lemma_hint_is_call(known[i as int], 13);
            }
            let _ = self.messages.remember_call(ap.known_calls[i].as_str());
            i = i + 1;
        }
        match &ap.my_call {
            Some(call) => {
                proof {
                    lemma_hint_is_call(call@, 11);
                }
                let _ = self.messages.remember_call(call.as_str());
            },
            None => {},
        }
        match &ap.dx_call {
            Some(call) => {
                proof {
                    lemma_hint_is_call(call@, 11);
                }
                let _ = self.messages.remember_call(call.as_str());
            },
            None => {},
        }
    }
}

/// Settings that pass validation name only calls that can be remembered.
pub proof fn valid_settings_name_calls(ap: ApSettings)
    requires
        ap.complaint() is None,
    ensures
        ap.my_call.deep_view() matches Some(call) ==> normal_call(call) is Some,
        ap.dx_call.deep_view() matches Some(call) ==> normal_call(call) is Some,
        forall|i: int|
            0 <= i < ap.known_calls.deep_view().len() ==> normal_call(
                #[trigger] ap.known_calls.deep_view()[i],
            ) is Some,
{
    let known = ap.known_calls.deep_view();
    lemma_no_bad_call(known, 0);
    assert forall|i: int| 0 <= i < known.len() implies normal_call(#[trigger] known[i]) is Some by {
        lemma_hint_is_call(known[i], 13);
    }
    if let Some(call) = ap.my_call.deep_view() {
        lemma_hint_is_call(call, 11);
    }
    if let Some(call) = ap.dx_call.deep_view() {
        lemma_hint_is_call(call, 11);
    }
}

} // verus!
