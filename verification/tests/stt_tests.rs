use voice_core::stt::{
    config_frame_json, end_of_stream_json, pcm_i16_to_s16le, reconnect_backoff_ms, SttEvent,
    WsServerMessage, WsSttProvider,
};
use voice_core::config::VoiceSttWsConfig;

fn raw(msg_type: &str) -> WsServerMessage {
    WsServerMessage {
        msg_type: msg_type.to_string(),
        text: None,
        language: None,
        confidence_milli: None,
        timestamp_ms: None,
        duration_ms: None,
        is_final: None,
    }
}

#[test]
fn parse_speech_start() {
    let mut m = raw("speech_start");
    m.timestamp_ms = Some(100);
    match m.into_stt_event().unwrap() {
        SttEvent::SpeechStart { timestamp_ms } => assert_eq!(timestamp_ms, 100),
        _ => panic!("expected SpeechStart"),
    }
}

#[test]
fn parse_partial() {
    let mut m = raw("partial");
    m.text = Some("\u{3053}\u{3093}\u{306b}".to_string());
    match m.into_stt_event().unwrap() {
        SttEvent::Partial { text } => assert_eq!(text, "\u{3053}\u{3093}\u{306b}"),
        _ => panic!("expected Partial"),
    }
}

#[test]
fn parse_final() {
    let mut m = raw("final");
    m.text = Some("hello".to_string());
    m.language = Some("en".to_string());
    m.confidence_milli = Some(980);
    m.duration_ms = Some(1500);
    match m.into_stt_event().unwrap() {
        SttEvent::Final { text, language, confidence_milli, duration_ms } => {
            assert_eq!(text, "hello");
            assert_eq!(language, "en");
            assert_eq!(confidence_milli, 980);
            assert_eq!(duration_ms, 1500);
        },
        _ => panic!("expected Final"),
    }
}

#[test]
fn parse_speech_end() {
    let mut m = raw("speech_end");
    m.timestamp_ms = Some(2000);
    m.duration_ms = Some(1500);
    match m.into_stt_event().unwrap() {
        SttEvent::SpeechEnd { timestamp_ms, duration_ms } => {
            assert_eq!(timestamp_ms, 2000);
            assert_eq!(duration_ms, 1500);
        },
        _ => panic!("expected SpeechEnd"),
    }
}

#[test]
fn parse_transcript_is_final_true() {
    let mut m = raw("transcript");
    m.text = Some("hello".to_string());
    m.language = Some("en".to_string());
    m.is_final = Some(true);
    match m.into_stt_event().unwrap() {
        SttEvent::Final { text, language, .. } => {
            assert_eq!(text, "hello");
            assert_eq!(language, "en");
        },
        _ => panic!("expected Final from a final transcript"),
    }
}

#[test]
fn parse_transcript_is_final_false() {
    let mut m = raw("transcript");
    m.text = Some("hel".to_string());
    m.is_final = Some(false);
    match m.into_stt_event().unwrap() {
        SttEvent::Partial { text } => assert_eq!(text, "hel"),
        _ => panic!("expected Partial from an interim transcript"),
    }
}

#[test]
fn parse_unknown_type_returns_none() {
    assert!(raw("ping").into_stt_event().is_none());
}

#[test]
fn parse_final_with_defaults() {
    let mut m = raw("final");
    m.text = Some("ok".to_string());
    match m.into_stt_event().unwrap() {
        SttEvent::Final { text, language, confidence_milli, duration_ms } => {
            assert_eq!(text, "ok");
            assert_eq!(language, "ja");
            assert_eq!(confidence_milli, 1000);
            assert_eq!(duration_ms, 0);
        },
        _ => panic!("expected Final"),
    }
}

#[test]
fn pcm_i16_to_s16le_silence() {
    let bytes = pcm_i16_to_s16le(&[0i16; 4]);
    assert_eq!(bytes.len(), 8);
    assert!(bytes.iter().all(|&b| b == 0));
}

#[test]
fn pcm_i16_to_s16le_values() {
    let bytes = pcm_i16_to_s16le(&[32767, -32767, 16383]);
    assert_eq!(i16::from_le_bytes([bytes[0], bytes[1]]), 32767);
    assert_eq!(i16::from_le_bytes([bytes[2], bytes[3]]), -32767);
    assert_eq!(i16::from_le_bytes([bytes[4], bytes[5]]), 16383);
}

#[test]
fn config_message_fields() {
    let json = config_frame_json(48000, 0);
    assert!(json.contains("\"type\":\"config\""));
    assert!(json.contains("\"sample_rate\":48000"));
    assert!(json.contains("\"channels\":1"));
    assert!(json.contains("\"encoding\":\"pcm_s16le\""));
    assert!(json.contains("\"interim_results\":true"));
    assert!(json.contains("\"temperature\":0.000"));
    assert_eq!(end_of_stream_json(), "{\"type\":\"end_of_stream\"}");
}

#[test]
fn backoff_doubles_and_caps() {
    assert_eq!(reconnect_backoff_ms(1000, 0), 1000);
    assert_eq!(reconnect_backoff_ms(1000, 1), 2000);
    assert_eq!(reconnect_backoff_ms(1000, 3), 8000);
    // Doubling is capped at one minute.
    assert_eq!(reconnect_backoff_ms(1000, 10), 60000);
    assert_eq!(reconnect_backoff_ms(0, 5), 0);
}

#[test]
fn provider_keeps_config() {
    let p = WsSttProvider::new(VoiceSttWsConfig::default());
    assert_eq!(p.config.endpoint, "ws://127.0.0.1:8766/ws");
}
