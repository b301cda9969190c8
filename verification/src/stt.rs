//! Streaming transcription events and provider helpers.
//!
//! The transcription service talks over a socket outside the library;
//! what arrives is mapped here into typed events, and what is sent out
//! is framed here: the configuration message, the audio bytes, the
//! closing message. Reconnection timing is decided here too.

use vstd::prelude::*;

use crate::config::VoiceSttWsConfig;
use crate::text::{spec_dec, u64_to_dec};

verus! {

/// An event from the transcription service.
#[derive(Debug, Clone, PartialEq, Eq)]
pub enum SttEvent {
    /// Speech onset detected.
    SpeechStart { timestamp_ms: u64 },
    /// Interim recognition result.
    Partial { text: String },
    /// Final recognition result for one utterance.
    Final { text: String, language: String, confidence_milli: u32, duration_ms: u64 },
    /// Speech offset detected.
    SpeechEnd { timestamp_ms: u64, duration_ms: u64 },
}

/// A raw server message after JSON decoding, before typing.
#[derive(Debug, Clone)]
pub struct WsServerMessage {
    pub msg_type: String,
    pub text: Option<String>,
    pub language: Option<String>,
    pub confidence_milli: Option<u32>,
    pub timestamp_ms: Option<u64>,
    pub duration_ms: Option<u64>,
    pub is_final: Option<bool>,
}

impl WsServerMessage {
    /// Map a raw server message to a typed event; unknown kinds are
    /// dropped. A `transcript` message is final or partial by its flag.
    pub fn into_stt_event(self) -> (r: Option<SttEvent>)
        ensures
            self.msg_type@ == "speech_start"@ ==> r == Some(
                SttEvent::SpeechStart { timestamp_ms: spec_or_zero(self.timestamp_ms) },
            ),
            self.msg_type@ == "partial"@ ==> {
                &&& r is Some
                &&& r.unwrap() is Partial
                &&& r.unwrap()->Partial_text@ == spec_or_empty(self.text)
            },
            self.msg_type@ == "final"@ ==> {
                &&& r is Some
                &&& r.unwrap() is Final
                &&& r.unwrap()->Final_text@ == spec_or_empty(self.text)
                &&& r.unwrap()->Final_language@ == spec_or_ja(self.language)
                &&& r.unwrap()->Final_confidence_milli == spec_or(self.confidence_milli, 1000u32)
                &&& r.unwrap()->Final_duration_ms == spec_or_zero(self.duration_ms)
            },
            self.msg_type@ == "speech_end"@ ==> r == Some(
                SttEvent::SpeechEnd {
                    timestamp_ms: spec_or_zero(self.timestamp_ms),
                    duration_ms: spec_or_zero(self.duration_ms),
                },
            ),
            self.msg_type@ == "transcript"@ && self.is_final == Some(true) ==> {
                &&& r is Some
                &&& r.unwrap() is Final
                &&& r.unwrap()->Final_text@ == spec_or_empty(self.text)
                &&& r.unwrap()->Final_language@ == spec_or_ja(self.language)
                &&& r.unwrap()->Final_confidence_milli == spec_or(self.confidence_milli, 1000u32)
                &&& r.unwrap()->Final_duration_ms == spec_or_zero(self.duration_ms)
            },
            self.msg_type@ == "transcript"@ && self.is_final != Some(true) ==> {
                &&& r is Some
                &&& r.unwrap() is Partial
                &&& r.unwrap()->Partial_text@ == spec_or_empty(self.text)
            },
            self.msg_type@ != "speech_start"@ && self.msg_type@ != "partial"@ && self.msg_type@
                != "final"@ && self.msg_type@ != "speech_end"@ && self.msg_type@ != "transcript"@
                ==> r is None,
    {
        proof {
            // The five message kinds are pairwise distinct literals.
            reveal_strlit("speech_start");
            reveal_strlit("partial");
            reveal_strlit("final");
            reveal_strlit("speech_end");
            reveal_strlit("transcript");
            assert("speech_start"@.len() == 12);
            assert("partial"@.len() == 7);
            assert("final"@.len() == 5);
            assert("speech_end"@.len() == 10);
            assert("transcript"@.len() == 10);
            assert("partial"@ != "speech_start"@);
            assert("final"@ != "speech_start"@ && "final"@ != "partial"@);
            assert("speech_end"@ != "speech_start"@ && "speech_end"@ != "partial"@
                && "speech_end"@ != "final"@);
            assert("transcript"@[0] == 't' && "speech_end"@[0] == 's');
            assert("transcript"@ != "speech_start"@ && "transcript"@ != "partial"@
                && "transcript"@ != "final"@ && "transcript"@ != "speech_end"@);
        }
        let t = &self.msg_type;
        if string_eq_lit(t, "speech_start") {
            Some(SttEvent::SpeechStart { timestamp_ms: u64_or_zero(self.timestamp_ms) })
        } else if string_eq_lit(t, "partial") {
            Some(SttEvent::Partial { text: string_or_empty(self.text) })
        } else if string_eq_lit(t, "final") {
            Some(
                SttEvent::Final {
                    text: string_or_empty(self.text),
                    language: string_or_ja(self.language),
                    confidence_milli: u32_or(self.confidence_milli, 1000),
                    duration_ms: u64_or_zero(self.duration_ms),
                },
            )
        } else if string_eq_lit(t, "speech_end") {
            Some(
                SttEvent::SpeechEnd {
                    timestamp_ms: u64_or_zero(self.timestamp_ms),
                    duration_ms: u64_or_zero(self.duration_ms),
                },
            )
        } else if string_eq_lit(t, "transcript") {
            let is_final = match self.is_final {
                Some(b) => b,
                None => false,
            };
            if is_final {
                Some(
                    SttEvent::Final {
                        text: string_or_empty(self.text),
                        language: string_or_ja(self.language),
                        confidence_milli: u32_or(self.confidence_milli, 1000),
                        duration_ms: u64_or_zero(self.duration_ms),
                    },
                )
            } else {
                Some(SttEvent::Partial { text: string_or_empty(self.text) })
            }
        } else {
            None
        }
    }
}

/// The value, or zero when missing.
pub open spec fn spec_or_zero(n: Option<u64>) -> u64 {
    match n {
        Some(v) => v,
        None => 0,
    }
}

/// The value, or the fallback when missing.
pub open spec fn spec_or(n: Option<u32>, fallback: u32) -> u32 {
    match n {
        Some(v) => v,
        None => fallback,
    }
}

/// The text's view, or empty when missing.
pub open spec fn spec_or_empty(s: Option<String>) -> Seq<char> {
    match s {
        Some(v) => v@,
        None => Seq::empty(),
    }
}

/// The language's view, or the default language when missing.
pub open spec fn spec_or_ja(s: Option<String>) -> Seq<char> {
    match s {
        Some(v) => v@,
        None => "ja"@,
    }
}

fn u64_or_zero(n: Option<u64>) -> (r: u64)
    ensures
        r == spec_or_zero(n),
{
    match n {
        Some(v) => v,
        None => 0,
    }
}

fn u32_or(n: Option<u32>, fallback: u32) -> (r: u32)
    ensures
        r == spec_or(n, fallback),
{
    match n {
        Some(v) => v,
        None => fallback,
    }
}

fn string_or_empty(s: Option<String>) -> (r: String)
    ensures
        r@ == spec_or_empty(s),
{
    match s {
        Some(v) => v,
        None => String::new(),
    }
}

fn string_or_ja(s: Option<String>) -> (r: String)
    ensures
        r@ == spec_or_ja(s),
{
    match s {
        Some(v) => v,
        None => "ja".to_owned(),
    }
}

fn string_eq_lit(s: &String, lit: &str) -> (r: bool)
    ensures
        r == (s@ == lit@),
{
    let l = lit.to_owned();
    *s == l
}

/// A temperature in thousandths written as a decimal number with three
/// fraction digits.
pub open spec fn spec_temperature(milli: i64) -> Seq<char> {
    spec_dec((milli / 1000) as nat) + "."@ + spec_frac3((milli % 1000) as nat)
}

/// Three zero-padded fraction digits.
pub open spec fn spec_frac3(f: nat) -> Seq<char> {
    if f < 10 {
        "00"@ + spec_dec(f)
    } else if f < 100 {
        "0"@ + spec_dec(f)
    } else {
        spec_dec(f)
    }
}

/// The configuration frame sent when a session opens.
pub open spec fn spec_config_frame(sample_rate: u32, temperature_milli: i64) -> Seq<char> {
    "{\"type\":\"config\",\"sample_rate\":"@ + spec_dec(sample_rate as nat)
        + ",\"channels\":1,\"encoding\":\"pcm_s16le\",\"language\":\"ja\",\"interim_results\":true,\"temperature\":"@
        + spec_temperature(temperature_milli) + "}"@
}

/// Render the opening configuration frame.
pub fn config_frame_json(sample_rate: u32, temperature_milli: i64) -> (r: String)
    requires
        0 <= temperature_milli,
    ensures
        r@ == spec_config_frame(sample_rate, temperature_milli),
{
    let mut r = String::new();
    r.append("{\"type\":\"config\",\"sample_rate\":");
    let sr = u64_to_dec(sample_rate as u64);
    r.append(sr.as_str());
    r.append(
        ",\"channels\":1,\"encoding\":\"pcm_s16le\",\"language\":\"ja\",\"interim_results\":true,\"temperature\":",
    );
    let whole = u64_to_dec((temperature_milli / 1000) as u64);
    r.append(whole.as_str());
    r.append(".");
    let frac = (temperature_milli % 1000) as u64;
    if frac < 10 {
        r.append("00");
    } else if frac < 100 {
        r.append("0");
    }
    let fd = u64_to_dec(frac);
    r.append(fd.as_str());
    r.append("}");
    proof {
        reveal_strlit(".");
        reveal_strlit("0");
        reveal_strlit("00");
        assert(spec_dec(sample_rate as nat) == spec_dec((sample_rate as u64) as nat));
        assert(r@ =~= spec_config_frame(sample_rate, temperature_milli));
    }
    r
}

/// The closing frame of a session.
pub fn end_of_stream_json() -> (r: String)
    ensures
        r@ == "{\"type\":\"end_of_stream\"}"@,
{
    "{\"type\":\"end_of_stream\"}".to_owned()
}

/// Signed 16-bit samples as little-endian bytes, in order.
pub open spec fn spec_s16le(samples: Seq<i16>) -> Seq<u8>
    decreases samples.len(),
{
    if samples.len() == 0 {
        Seq::empty()
    } else {
        spec_s16le(samples.drop_last()) + seq![
            (samples.last() as u16 & 0xff) as u8,
            ((samples.last() as u16 >> 8) & 0xff) as u8,
        ]
    }
}

/// Encode PCM samples as little-endian bytes for the audio frames.
pub fn pcm_i16_to_s16le(samples: &[i16]) -> (r: Vec<u8>)
    ensures
        r@ == spec_s16le(samples@),
        r@.len() == 2 * samples@.len(),
{
    let n = samples.len();
    let mut r: Vec<u8> = Vec::new();
    let mut i: usize = 0;
    proof {
        assert(samples@.take(0) =~= Seq::<i16>::empty());
    }
    while i < n
        invariant
            n == samples@.len(),
            i <= n,
            r@ == spec_s16le(samples@.take(i as int)),
            r@.len() == 2 * i,
        decreases n - i,
    {
        let s = samples[i];
        let lo = (s as u16 & 0xff) as u8;
        let hi = ((s as u16 >> 8) & 0xff) as u8;
        r.push(lo);
        r.push(hi);
        proof {
            assert(samples@.take(i + 1).drop_last() =~= samples@.take(i as int));
        }
        i = i + 1;
    }
    proof {
        assert(samples@.take(n as int) =~= samples@);
    }
    r
}

pub proof fn lemma_s16le_len(samples: Seq<i16>)
    ensures
        spec_s16le(samples).len() == 2 * samples.len(),
    decreases samples.len(),
{
    if samples.len() > 0 {
        lemma_s16le_len(samples.drop_last());
    }
}

/// Encoding goes piecewise over concatenation.
pub proof fn lemma_s16le_add(a: Seq<i16>, b: Seq<i16>)
    ensures
        spec_s16le(a + b) == spec_s16le(a) + spec_s16le(b),
    decreases b.len(),
{
    if b.len() == 0 {
        assert(a + b =~= a);
        assert(spec_s16le(b) =~= Seq::<u8>::empty());
        assert(spec_s16le(a) + spec_s16le(b) =~= spec_s16le(a));
    } else {
        assert((a + b).drop_last() =~= a + b.drop_last());
        assert((a + b).last() == b.last());
        lemma_s16le_add(a, b.drop_last());
        assert(spec_s16le(a + b) =~= spec_s16le(a) + spec_s16le(b));
    }
}

/// Exponential backoff before reconnect attempt `attempt`, based on the
/// configured interval and capped at one minute.
pub fn reconnect_backoff_ms(base_interval_ms: u64, attempt: u32) -> (r: u64)
    ensures
        r == spec_backoff(base_interval_ms, attempt),
{
    let mut backoff: u64 = if base_interval_ms > 60000 {
        60000
    } else {
        base_interval_ms
    };
    let mut i: u32 = 0;
    while i < attempt
        invariant
            i <= attempt,
            backoff == if spec_doubled(base_interval_ms, i as nat) > 60000 {
                60000int
            } else {
                spec_doubled(base_interval_ms, i as nat)
            },
        decreases attempt - i,
    {
        proof {
            lemma_doubled_monotone(base_interval_ms, i as nat);
        }
        if backoff > 30000 {
            backoff = 60000;
        } else {
            backoff = backoff * 2;
        }
        i = i + 1;
    }
    backoff
}

/// The interval doubled `n` times, without cap.
pub open spec fn spec_doubled(base: u64, n: nat) -> int
    decreases n,
{
    if n == 0 {
        base as int
    } else {
        2 * spec_doubled(base, (n - 1) as nat)
    }
}

/// The backoff before attempt `n`: the doubled interval, at most 60 s.
pub open spec fn spec_backoff(base: u64, n: u32) -> u64 {
    if spec_doubled(base, n as nat) > 60000 {
        60000u64
    } else {
        spec_doubled(base, n as nat) as u64
    }
}

proof fn lemma_doubled_monotone(base: u64, n: nat)
    ensures
        spec_doubled(base, n + 1) == 2 * spec_doubled(base, n),
        spec_doubled(base, n) >= 0,
    decreases n,
{
    if n > 0 {
        lemma_doubled_monotone(base, (n - 1) as nat);
    }
}

/// The socket transcription provider: its configuration, kept for the
/// sessions the runtime opens.
pub struct WsSttProvider {
    pub config: VoiceSttWsConfig,
}

impl WsSttProvider {
    pub fn new(config: VoiceSttWsConfig) -> (r: Self)
        ensures
            r.config == config,
    {
        WsSttProvider { config }
    }
}

} // verus!
