use voice_core::tts_pipeline::mock_duration_ms;
use voice_core::wav::{extract_payload, parse_wav, pcm_i16_to_wav_bytes};

#[test]
fn wav_bytes_roundtrip() {
    let samples: Vec<i16> = vec![0, 16383, -16384, 32767, -32768];
    let wav = pcm_i16_to_wav_bytes(&samples, 48000);
    assert_eq!(&wav[0..4], b"RIFF");
    assert_eq!(wav.len(), 44 + 2 * samples.len());

    let (rate, decoded) = parse_wav(&wav).unwrap();
    assert_eq!(rate, 48000);
    assert_eq!(decoded, samples);
}

#[test]
fn wav_bytes_empty_audio() {
    let wav = pcm_i16_to_wav_bytes(&[], 24000);
    let (rate, decoded) = parse_wav(&wav).unwrap();
    assert_eq!(rate, 24000);
    assert!(decoded.is_empty());
}

#[test]
fn parse_wav_invalid_data() {
    assert!(parse_wav(b"not a wav file").is_none());
}

#[test]
fn parse_wav_rejects_wrong_length() {
    let mut wav = pcm_i16_to_wav_bytes(&[1, 2, 3], 24000);
    wav.push(0);
    assert!(parse_wav(&wav).is_none());
}

#[test]
fn payload_extraction() {
    let packet: Vec<u8> = (0..20).collect();
    // Twelve header bytes in front, four padding bytes behind.
    let payload = extract_payload(&packet, 12, 4).unwrap();
    assert_eq!(payload, (12..16).collect::<Vec<u8>>());

    // An offset past the end yields nothing.
    assert!(extract_payload(&packet, 18, 4).is_none());
    assert!(extract_payload(&packet, 0, 20).is_none());
}

#[test]
fn duration_calculation() {
    // Five characters at 150 ms each.
    assert_eq!(mock_duration_ms(5, 150, 200, 30000), 750);
}

#[test]
fn min_duration() {
    // One character at 150 ms is clamped up to the 200 ms minimum.
    assert_eq!(mock_duration_ms(1, 150, 200, 30000), 200);
}

#[test]
fn max_duration() {
    assert_eq!(mock_duration_ms(1000, 150, 200, 30000), 30000);
}
