use voice_core::agent_bridge::{AgentBridge, MockAgentBridge};
use voice_core::hash::to_hex;
use voice_core::heartbeat::{HeartbeatEvent, HeartbeatLog, HeartbeatStatus};
use voice_core::tts_cache::generate_cache_key;
use voice_core::tts_pipeline::TtsPipeline;
use voice_core::turn_gate::TurnGate;

#[test]
fn mock_bridge_echoes() {
    let bridge = MockAgentBridge::new();
    let result = bridge.generate(1, "hello").unwrap();
    assert_eq!(result, "echo: hello");
}

#[test]
fn mock_bridge_reset_ok() {
    let bridge = MockAgentBridge::new();
    assert!(bridge.reset_context(42).is_ok());
}

#[test]
fn is_busy_reflects_permit_state() {
    let mut gate = TurnGate::new();
    assert!(!gate.is_busy());

    assert!(gate.try_acquire());
    assert!(gate.is_busy());

    gate.release();
    assert!(!gate.is_busy());
}

#[test]
fn try_acquire_returns_false_when_busy() {
    let mut gate = TurnGate::new();
    assert!(gate.try_acquire());
    assert!(!gate.try_acquire());
}

#[test]
fn try_acquire_succeeds_when_free() {
    let mut gate = TurnGate::default();
    assert!(gate.try_acquire());
}

#[test]
fn to_hex_known_values() {
    assert_eq!(to_hex(&[]), "");
    assert_eq!(to_hex(&[0x00, 0xff, 0x1a]), "00ff1a");
}

#[test]
fn cache_key_is_real_digest() {
    // The digest of the canonical parameter JSON, hex-encoded. A wrapper
    // that returned its input unchanged could not produce this.
    let params = voice_core::tts_cache::TtsCacheParams {
        text: "hello".to_string(),
        model: "m".to_string(),
        speed_milli: 1000,
        style_id: None,
        speaker_id: None,
        pitch_milli: None,
    };
    let key = generate_cache_key(&params);
    assert_eq!(key.len(), 64);
    assert!(key.chars().all(|c| c.is_ascii_hexdigit()));
    assert_ne!(key, "hello");
    // The same parameters always give the same key.
    assert_eq!(key, generate_cache_key(&params));
}

#[test]
fn synthesis_permits_are_bounded() {
    let mut p = TtsPipeline::new(2);
    assert!(p.try_begin_synthesis());
    assert!(p.try_begin_synthesis());
    // The third concurrent synthesis must wait.
    assert!(!p.try_begin_synthesis());
    p.finish_synthesis();
    assert!(p.try_begin_synthesis());
}

#[test]
fn heartbeat_log_keeps_last_event() {
    let mut log = HeartbeatLog::new();
    assert!(log.get_last_heartbeat_event().is_none());
    log.emit_heartbeat_event(HeartbeatEvent {
        ts: 1,
        status: HeartbeatStatus::Sent,
        duration_ms: 5,
        preview: Some("hi".to_string()),
        reason: None,
    });
    let e = log.get_last_heartbeat_event().unwrap();
    assert_eq!(e.ts, 1);
    assert_eq!(e.status, HeartbeatStatus::Sent);
}

#[test]
fn i16_to_f32_conversion() {
    // The receive path scales signed samples into the unit range.
    let max_val = i16::MAX as f32 / 32768.0;
    assert!((max_val - 0.999969).abs() < 0.001);

    let min_val = i16::MIN as f32 / 32768.0;
    assert!((min_val - (-1.0)).abs() < 0.001);

    let zero_val = 0i16 as f32 / 32768.0;
    assert!((zero_val - 0.0).abs() < f32::EPSILON);
}

#[test]
fn sample_counts_per_tick() {
    // One 20 ms tick at 48 kHz stereo is 1920 interleaved samples.
    let interleaved_per_tick = 48000 * 20 / 1000 * 2;
    assert_eq!(interleaved_per_tick, 1920);

    let mono_per_tick = interleaved_per_tick / 2;
    assert_eq!(mono_per_tick, 960);

    let expected_output = 16000 * 20 / 1000;
    assert_eq!(expected_output, 320);
}
