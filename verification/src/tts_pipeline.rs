//! Concurrency-bounded fan-out of sentence synthesis.
//!
//! Synthesis calls run outside, several at a time; the pipeline accounts
//! for the permits so that no more than the configured number are ever
//! in flight, and stamps each finished result with its sentence's index
//! for the reordering queue downstream.

use vstd::prelude::*;

use crate::splitter::SentenceSegment;

verus! {

/// Default maximum number of concurrent synthesis calls.
pub const DEFAULT_MAX_CONCURRENT: usize = 3;

/// One finished synthesis call: PCM samples and their rate.
#[derive(Debug, Clone)]
pub struct TtsResult {
    /// Signed 16-bit PCM samples.
    pub audio: Vec<i16>,
    /// Sample rate of `audio` in hertz.
    pub sample_rate: u32,
    /// Duration in milliseconds.
    pub duration_ms: u64,
}

/// A synthesis result tied back to its sentence.
#[derive(Debug, Clone)]
pub struct TtsSegment {
    /// Sequence index, mirroring the sentence's index.
    pub index: usize,
    /// The text that was synthesised.
    pub text: String,
    /// The synthesised audio.
    pub tts_result: TtsResult,
}

/// Permit accounting for parallel synthesis.
pub struct TtsPipeline {
    max_concurrent: usize,
    in_flight: usize,
}

impl TtsPipeline {
    /// The configured concurrency bound.
    pub closed spec fn max_concurrent_spec(self) -> usize {
        self.max_concurrent
    }

    /// How many synthesis calls hold a permit right now.
    pub closed spec fn in_flight_spec(self) -> usize {
        self.in_flight
    }

    /// Never more calls in flight than the bound allows.
    pub closed spec fn wf(self) -> bool {
        self.in_flight <= self.max_concurrent
    }

    /// However permits were taken and returned, no more synthesis calls
    /// are in flight than the bound allows.
    pub proof fn lemma_within_bound(self)
        requires
            self.wf(),
        ensures
            self.in_flight_spec() <= self.max_concurrent_spec(),
    {
    }

    pub fn new(max_concurrent: usize) -> (r: Self)
        ensures
            r.wf(),
            r.max_concurrent_spec() == max_concurrent,
            r.in_flight_spec() == 0,
    {
        TtsPipeline { max_concurrent, in_flight: 0 }
    }

    /// A pipeline with the default concurrency bound.
    pub fn with_defaults() -> (r: Self)
        ensures
            r.wf(),
            r.max_concurrent_spec() == DEFAULT_MAX_CONCURRENT,
            r.in_flight_spec() == 0,
    {
        Self::new(DEFAULT_MAX_CONCURRENT)
    }

    /// Take a permit if one is free: synthesis may start only then.
    pub fn try_begin_synthesis(&mut self) -> (granted: bool)
        requires
            old(self).wf(),
        ensures
            final(self).wf(),
            final(self).max_concurrent_spec() == old(self).max_concurrent_spec(),
            granted <==> old(self).in_flight_spec() < old(self).max_concurrent_spec(),
            granted ==> final(self).in_flight_spec() == old(self).in_flight_spec() + 1,
            !granted ==> final(self).in_flight_spec() == old(self).in_flight_spec(),
    {
        if self.in_flight < self.max_concurrent {
            self.in_flight = self.in_flight + 1;
            true
        } else {
            false
        }
    }

    /// Give a permit back when a synthesis call ends, however it ended.
    pub fn finish_synthesis(&mut self)
        requires
            old(self).wf(),
            old(self).in_flight_spec() > 0,
        ensures
            final(self).wf(),
            final(self).max_concurrent_spec() == old(self).max_concurrent_spec(),
            final(self).in_flight_spec() == old(self).in_flight_spec() - 1,
    {
        self.in_flight = self.in_flight - 1;
    }

    /// Tie a synthesis result back to the sentence it came from.
    pub fn make_segment(segment: SentenceSegment, result: TtsResult) -> (r: TtsSegment)
        ensures
            r.index == segment.index,
            r.text == segment.text,
            r.tts_result == result,
    {
        TtsSegment { index: segment.index, text: segment.text, tts_result: result }
    }
}

/// How long synthesised speech is, in milliseconds: a fixed time per
/// character, clamped to the configured range.
pub fn mock_duration_ms(char_count: u64, ms_per_char: u64, min_ms: u64, max_ms: u64) -> (r: u64)
    requires
        min_ms <= max_ms,
    ensures
        r == if char_count * ms_per_char < min_ms {
            min_ms as int
        } else if char_count * ms_per_char > max_ms {
            max_ms as int
        } else {
            char_count * ms_per_char
        },
{
    proof {
        assert((char_count as int) * (ms_per_char as int)
            < 0x100000000000000000000000000000000) by (nonlinear_arith)
            requires
                char_count < 0x10000000000000000,
                ms_per_char < 0x10000000000000000,
        ;
        assert((char_count as int) * (ms_per_char as int) >= 0) by (nonlinear_arith);
    }
    let raw: u128 = (char_count as u128) * (ms_per_char as u128);
    if raw < min_ms as u128 {
        min_ms
    } else if raw > max_ms as u128 {
        max_ms
    } else {
        raw as u64
    }
}

} // verus!
