//! Core of a real-time, multi-user voice conversation pipeline.
//!
//! The library holds the verified logic of the pipeline: the voice-gateway
//! connection state machine, sentence segmentation of streaming agent
//! output, ordered playback of out-of-order synthesis results, the
//! content-addressed synthesis cache with LRU eviction, speaker routing
//! and least-recently-spoken eviction, and the per-user worker decisions.
//! Asynchronous transports (media driver, WebSocket, HTTP) live outside
//! and feed plain values in and out.

use vstd::prelude::*;

pub mod agent_bridge;
pub mod config;
pub mod context_window;
pub mod dispatcher;
pub mod gateway;
pub mod heartbeat;
pub mod hash;
pub mod kv;
pub mod lrs;
pub mod playback;
pub mod sanitize;
pub mod schema;
pub mod splitter;
pub mod ssrc_map;
pub mod stt;
pub mod stt_mock;
pub mod text;
pub mod transcript;
pub mod tts_cache;
pub mod tts_pipeline;
pub mod turn_gate;
pub mod utils;
pub mod wav;
pub mod worker;

verus! {

/// Audio samples per tick at the given rate for a 20 ms media tick.
pub fn samples_per_tick(sample_rate_hz: u32) -> (n: u32)
    requires
        sample_rate_hz <= 1_000_000,
    ensures
        n == sample_rate_hz * 20 / 1000,
{
    sample_rate_hz * 20 / 1000
}

} // verus!
