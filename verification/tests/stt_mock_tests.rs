use voice_core::stt::SttEvent;
use voice_core::stt_mock::{MockSttSession, MockUtterance, NUM_PARTIALS};

fn utterance(text: &str) -> MockUtterance {
    MockUtterance {
        text: text.to_string(),
        language: "en".to_string(),
        confidence_milli: 950,
    }
}

#[test]
fn basic_utterance_event_order() {
    let mut session = MockSttSession::new(vec![utterance("hello world")], true);

    // No events before audio.
    assert!(session.next_event().is_none());

    // Enough audio triggers speech detection.
    session.send_audio(400);

    let event = session.next_event().unwrap();
    assert!(matches!(event, SttEvent::SpeechStart { .. }));

    for i in 0..NUM_PARTIALS {
        match session.next_event().unwrap() {
            SttEvent::Partial { text } => {
                let expected_end = ((i + 1) * "hello world".len()) / NUM_PARTIALS;
                assert_eq!(text, &"hello world"[..expected_end]);
            }
            other => panic!("expected Partial, got {:?}", other),
        }
    }

    match session.next_event().unwrap() {
        SttEvent::Final { text, language, confidence_milli, .. } => {
            assert_eq!(text, "hello world");
            assert_eq!(language, "en");
            assert_eq!(confidence_milli, 950);
        }
        other => panic!("expected Final, got {:?}", other),
    }

    assert!(matches!(session.next_event().unwrap(), SttEvent::SpeechEnd { .. }));

    // The script is exhausted and the session closes.
    assert!(session.next_event().is_none());
}

#[test]
fn multiple_utterances() {
    let mut session = MockSttSession::new(vec![utterance("hello"), utterance("world")], true);

    session.send_audio(400);
    let mut events = Vec::new();
    while let Some(event) = session.next_event() {
        events.push(event);
    }
    // Speech onset, the partials, the final text, the offset.
    assert_eq!(events.len(), 3 + NUM_PARTIALS);

    session.send_audio(400);
    let mut events = Vec::new();
    while let Some(event) = session.next_event() {
        events.push(event);
    }
    assert_eq!(events.len(), 3 + NUM_PARTIALS);

    match &events[1 + NUM_PARTIALS] {
        SttEvent::Final { text, .. } => assert_eq!(text, "world"),
        other => panic!("expected Final, got {:?}", other),
    }
}

#[test]
fn close_after_all() {
    let mut session = MockSttSession::new(vec![utterance("test")], true);
    session.send_audio(400);

    while session.next_event().is_some() {}

    assert!(session.next_event().is_none());
    assert!(session.next_event().is_none());
}

#[test]
fn below_threshold_stays_quiet() {
    let mut session = MockSttSession::new(vec![utterance("hi")], true);
    session.send_audio(100);
    assert!(session.next_event().is_none());
    session.send_audio(100);
    assert!(session.next_event().is_none());
    // Crossing the threshold finally triggers detection.
    session.send_audio(200);
    assert!(matches!(session.next_event().unwrap(), SttEvent::SpeechStart { .. }));
}
