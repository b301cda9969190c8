//! Voice subsystem configuration.
//!
//! Scale factors are carried in thousandths so that the configuration
//! stays in integers; a value of 1000 means a factor of one.

use vstd::prelude::*;

verus! {

/// Sample rates of the audio path.
#[derive(Debug, Clone)]
pub struct VoiceAudioConfig {
    pub input_sample_rate: u32,
    pub stt_sample_rate: u32,
}

impl Default for VoiceAudioConfig {
    fn default() -> (r: Self)
        ensures
            r.input_sample_rate == 48000,
            r.stt_sample_rate == 16000,
    {
        VoiceAudioConfig { input_sample_rate: 48000, stt_sample_rate: 16000 }
    }
}

/// The streaming transcription service.
#[derive(Debug, Clone)]
pub struct VoiceSttWsConfig {
    pub endpoint: String,
    pub reconnect_interval_ms: u64,
    pub max_reconnect_attempts: u32,
    /// Decoding temperature, in thousandths.
    pub temperature_milli: i64,
}

impl Default for VoiceSttWsConfig {
    fn default() -> (r: Self)
        ensures
            r.endpoint@ == "ws://127.0.0.1:8766/ws"@,
            r.reconnect_interval_ms == 1000,
            r.max_reconnect_attempts == 10,
            r.temperature_milli == 0,
    {
        VoiceSttWsConfig {
            endpoint: "ws://127.0.0.1:8766/ws".to_owned(),
            reconnect_interval_ms: 1000,
            max_reconnect_attempts: 10,
            temperature_milli: 0,
        }
    }
}

/// Which transcription provider to use, and its settings.
#[derive(Debug, Clone)]
pub struct VoiceSttConfig {
    pub provider: String,
    pub ws: VoiceSttWsConfig,
}

impl Default for VoiceSttConfig {
    fn default() -> (r: Self)
        ensures
            r.provider@ == "ws"@,
            r.ws.endpoint@ == "ws://127.0.0.1:8766/ws"@,
    {
        VoiceSttConfig { provider: "ws".to_owned(), ws: VoiceSttWsConfig::default() }
    }
}

/// The speech-synthesis service.
#[derive(Debug, Clone)]
pub struct VoiceTtsAivisSpeechConfig {
    pub endpoint: String,
    pub style_id: u64,
    /// Speed factor, in thousandths.
    pub speed_scale_milli: i64,
    /// Pitch shift, in thousandths.
    pub pitch_scale_milli: i64,
    /// Intonation factor, in thousandths.
    pub intonation_scale_milli: i64,
    /// Volume factor, in thousandths.
    pub volume_scale_milli: i64,
}

impl Default for VoiceTtsAivisSpeechConfig {
    fn default() -> (r: Self)
        ensures
            r.endpoint@ == "http://127.0.0.1:10101"@,
            r.style_id == 888753760,
            r.speed_scale_milli == 1000,
            r.pitch_scale_milli == 0,
            r.intonation_scale_milli == 1000,
            r.volume_scale_milli == 1000,
    {
        VoiceTtsAivisSpeechConfig {
            endpoint: "http://127.0.0.1:10101".to_owned(),
            style_id: 888753760,
            speed_scale_milli: 1000,
            pitch_scale_milli: 0,
            intonation_scale_milli: 1000,
            volume_scale_milli: 1000,
        }
    }
}

/// Which synthesis provider to use, and its settings.
#[derive(Debug, Clone)]
pub struct VoiceTtsConfig {
    pub provider: String,
    pub aivis_speech: VoiceTtsAivisSpeechConfig,
}

impl Default for VoiceTtsConfig {
    fn default() -> (r: Self)
        ensures
            r.provider@ == "aivis-speech"@,
            r.aivis_speech.style_id == 888753760,
    {
        VoiceTtsConfig {
            provider: "aivis-speech".to_owned(),
            aivis_speech: VoiceTtsAivisSpeechConfig::default(),
        }
    }
}

/// Concurrency and interaction policy of the pipeline.
#[derive(Debug, Clone)]
pub struct VoicePipelineConfig {
    pub interrupt_enabled: bool,
    pub idle_timeout_sec: u64,
    pub max_concurrent_stt: usize,
    pub max_concurrent_tts: usize,
    pub sentence_min_length: usize,
    pub context_window_ms: u64,
}

impl Default for VoicePipelineConfig {
    fn default() -> (r: Self)
        ensures
            r.interrupt_enabled == true,
            r.idle_timeout_sec == 300,
            r.max_concurrent_stt == 3,
            r.max_concurrent_tts == 3,
            r.sentence_min_length == 2,
            r.context_window_ms == 0,
    {
        VoicePipelineConfig {
            interrupt_enabled: true,
            idle_timeout_sec: 300,
            max_concurrent_stt: 3,
            max_concurrent_tts: 3,
            sentence_min_length: 2,
            context_window_ms: 0,
        }
    }
}

/// Where transcript entries go, if anywhere.
#[derive(Debug, Clone)]
pub struct VoiceTranscriptConfig {
    pub enabled: bool,
    pub channel_id: Option<u64>,
}

impl Default for VoiceTranscriptConfig {
    fn default() -> (r: Self)
        ensures
            r.enabled == false,
            r.channel_id is None,
    {
        VoiceTranscriptConfig { enabled: false, channel_id: None }
    }
}

/// Size bound of the synthesis cache.
#[derive(Debug, Clone)]
pub struct VoiceTtsCacheConfig {
    pub max_total_mb: u64,
}

impl Default for VoiceTtsCacheConfig {
    fn default() -> (r: Self)
        ensures
            r.max_total_mb == 500,
    {
        VoiceTtsCacheConfig { max_total_mb: 500 }
    }
}

/// Everything the voice subsystem is configured with.
#[derive(Debug, Clone)]
pub struct VoiceConfig {
    pub enabled: bool,
    pub audio: VoiceAudioConfig,
    pub stt: VoiceSttConfig,
    pub tts: VoiceTtsConfig,
    pub pipeline: VoicePipelineConfig,
    pub transcript: VoiceTranscriptConfig,
    pub tts_cache: VoiceTtsCacheConfig,
}

impl Default for VoiceConfig {
    fn default() -> (r: Self)
        ensures
            r.enabled == false,
            r.audio.input_sample_rate == 48000,
            r.audio.stt_sample_rate == 16000,
            r.stt.provider@ == "ws"@,
            r.tts.provider@ == "aivis-speech"@,
            r.pipeline.interrupt_enabled == true,
            r.pipeline.idle_timeout_sec == 300,
            r.transcript.enabled == false,
            r.transcript.channel_id is None,
            r.tts_cache.max_total_mb == 500,
    {
        VoiceConfig {
            enabled: false,
            audio: VoiceAudioConfig::default(),
            stt: VoiceSttConfig::default(),
            tts: VoiceTtsConfig::default(),
            pipeline: VoicePipelineConfig::default(),
            transcript: VoiceTranscriptConfig::default(),
            tts_cache: VoiceTtsCacheConfig::default(),
        }
    }
}

/// Runtime configuration of the voice subsystem manager.
#[derive(Debug, Clone)]
pub struct VoiceManagerConfig {
    pub voice: VoiceConfig,
}

impl VoiceManagerConfig {
    pub fn from_voice_config(voice: VoiceConfig) -> (r: Self)
        ensures
            r.voice == voice,
    {
        VoiceManagerConfig { voice }
    }
}

} // verus!
