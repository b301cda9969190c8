use voice_core::agent_bridge::{AgentBridge, MockAgentBridge};
use voice_core::dispatcher::Dispatcher;
use voice_core::playback::SequencedPlaybackQueue;
use voice_core::splitter::SentenceSplitter;
use voice_core::stt::SttEvent;
use voice_core::transcript::TranscriptEntry;
use voice_core::tts_pipeline::{TtsPipeline, TtsResult};
use voice_core::worker::{
    decide_step, handle_stt_event, idle_deadline_ms, response_transcript, ResponseOutcome,
    SttEventAction, WorkerExitReason, WorkerStep, WorkerWakeup,
};

#[test]
fn wakeup_priorities() {
    assert_eq!(
        decide_step(WorkerWakeup::Cancelled),
        WorkerStep::Exit(WorkerExitReason::Cancelled)
    );
    assert_eq!(
        decide_step(WorkerWakeup::IdleElapsed),
        WorkerStep::Exit(WorkerExitReason::IdleTimeout)
    );
    assert_eq!(
        decide_step(WorkerWakeup::AudioClosed),
        WorkerStep::Exit(WorkerExitReason::ChannelClosed)
    );
    assert_eq!(decide_step(WorkerWakeup::Audio), WorkerStep::ProcessAudio);
}

#[test]
fn zero_idle_timeout_never_fires() {
    // A zero timeout means the worker waits for speech indefinitely.
    assert_eq!(idle_deadline_ms(12345, 0), None);
    assert_eq!(idle_deadline_ms(1000, 300), Some(1000 + 300 * 1000));
}

#[test]
fn speech_start_resets_clock_and_signals_barge_in() {
    let mut last: u64 = 0;
    let action = handle_stt_event(SttEvent::SpeechStart { timestamp_ms: 1 }, true, 500, &mut last);
    assert_eq!(action, SttEventAction::SignalBargeIn);
    assert_eq!(last, 500);

    let action = handle_stt_event(SttEvent::SpeechStart { timestamp_ms: 2 }, false, 600, &mut last);
    assert_eq!(action, SttEventAction::Ignore);
    assert_eq!(last, 600);
}

#[test]
fn blank_final_is_ignored() {
    let mut last: u64 = 0;
    let action = handle_stt_event(
        SttEvent::Final {
            text: "   ".to_string(),
            language: "en".to_string(),
            confidence_milli: 950,
            duration_ms: 10,
        },
        false,
        7,
        &mut last,
    );
    assert_eq!(action, SttEventAction::Ignore);
    assert_eq!(last, 7);
}

#[test]
fn final_text_starts_an_exchange() {
    let mut last: u64 = 0;
    let action = handle_stt_event(
        SttEvent::Final {
            text: "hello".to_string(),
            language: "en".to_string(),
            confidence_milli: 950,
            duration_ms: 10,
        },
        false,
        7,
        &mut last,
    );
    assert_eq!(action, SttEventAction::ProcessText { text: "hello".to_string() });
}

#[test]
fn transcripts_by_outcome() {
    assert_eq!(
        response_transcript(ResponseOutcome::CancelledBeforeGeneration, "Bot", "resp", ""),
        None
    );
    assert_eq!(
        response_transcript(ResponseOutcome::CancelledBeforeSynthesis, "Bot", "resp", ""),
        Some(TranscriptEntry::BotResponseInterrupted {
            bot_name: "Bot".to_string(),
            played_text: "".to_string(),
        })
    );
    assert_eq!(
        response_transcript(ResponseOutcome::Completed, "Bot", "echo: hello", ""),
        Some(TranscriptEntry::BotResponse {
            bot_name: "Bot".to_string(),
            text: "echo: hello".to_string(),
        })
    );
}

/// One utterance travels the whole pipeline: recognised text, an agent
/// echo, one sentence, one synthesis, played in order, with the
/// transcript recording the speech and then the response.
#[test]
fn speech_to_audio_response() {
    let mut transcript: Vec<TranscriptEntry> = Vec::new();
    let mut last: u64 = 0;

    // The transcription service reports one final utterance.
    let action = handle_stt_event(
        SttEvent::Final {
            text: "hello".to_string(),
            language: "en".to_string(),
            confidence_milli: 950,
            duration_ms: 500,
        },
        false,
        1,
        &mut last,
    );
    let text = match action {
        SttEventAction::ProcessText { text } => text,
        _ => panic!("expected an exchange"),
    };
    transcript.push(TranscriptEntry::UserSpeech {
        user_id: 1,
        user_name: "User1".to_string(),
        text: text.clone(),
    });

    // The agent answers.
    let bridge = MockAgentBridge::new();
    let response = bridge.generate(1, &text).unwrap();
    assert_eq!(response, "echo: hello");

    // One sentence comes out of the splitter.
    let mut splitter = SentenceSplitter::new(2);
    let mut segs = splitter.push_token(&response);
    if let Some(last_seg) = splitter.finish() {
        segs.push(last_seg);
    }
    assert_eq!(segs.len(), 1);

    // Synthesis under a permit, then ordered playback.
    let mut pipeline = TtsPipeline::with_defaults();
    assert!(pipeline.try_begin_synthesis());
    let seg = TtsPipeline::make_segment(
        segs.remove(0),
        TtsResult { audio: vec![1i16; 960], sample_rate: 48000, duration_ms: 20 },
    );
    pipeline.finish_synthesis();

    let mut queue = SequencedPlaybackQueue::new();
    let played = queue.submit(seg);
    assert_eq!(played.len(), 1);
    assert_eq!(played[0].index, 0);
    assert!(!played[0].tts_result.audio.is_empty());

    if let Some(entry) = response_transcript(ResponseOutcome::Completed, "Bot", &response, "") {
        transcript.push(entry);
    }

    assert_eq!(transcript.len(), 2);
    assert!(matches!(transcript[0], TranscriptEntry::UserSpeech { .. }));
    assert!(matches!(transcript[1], TranscriptEntry::BotResponse { .. }));
}

/// Two users speak at overlapping times; each gets their own worker and
/// their own ordered response; both responses appear.
#[test]
fn multi_user_simultaneous_speech() {
    let mut d = Dispatcher::new(true);
    let bridge = MockAgentBridge::new();

    let _ = d.dispatch(1);
    let _ = d.dispatch(2);

    let r1 = bridge.generate(1, "hi").unwrap();
    let r2 = bridge.generate(2, "hello").unwrap();
    assert_eq!(r1, "echo: hi");
    assert_eq!(r2, "echo: hello");

    // Each user's own playback queue orders their own audio.
    for text in [r1, r2] {
        let mut splitter = SentenceSplitter::new(2);
        let mut segs = splitter.push_token(&text);
        if let Some(last_seg) = splitter.finish() {
            segs.push(last_seg);
        }
        let mut queue = SequencedPlaybackQueue::new();
        let mut played = Vec::new();
        for seg in segs {
            played.extend(queue.submit(TtsPipeline::make_segment(
                seg,
                TtsResult { audio: vec![0i16; 10], sample_rate: 48000, duration_ms: 1 },
            )));
        }
        let indices: Vec<usize> = played.iter().map(|s| s.index).collect();
        assert_eq!(indices, (0..indices.len()).collect::<Vec<_>>());
    }
}

/// Three sentences finish synthesis in the order two, zero, one; the
/// playback queue still emits zero, one, two.
#[test]
fn out_of_order_tts_is_reordered() {
    let response = "One! Two! Three!";
    let mut splitter = SentenceSplitter::new(2);
    let mut segs = splitter.push_token(response);
    if let Some(last_seg) = splitter.finish() {
        segs.push(last_seg);
    }
    assert_eq!(segs.len(), 3);

    let make = |seg: voice_core::splitter::SentenceSegment| {
        TtsPipeline::make_segment(
            seg,
            TtsResult { audio: vec![0i16; 10], sample_rate: 48000, duration_ms: 1 },
        )
    };
    let s0 = make(segs[0].clone());
    let s1 = make(segs[1].clone());
    let s2 = make(segs[2].clone());

    let mut queue = SequencedPlaybackQueue::new();
    let mut played = Vec::new();
    played.extend(queue.submit(s2));
    played.extend(queue.submit(s0));
    played.extend(queue.submit(s1));

    let indices: Vec<usize> = played.iter().map(|s| s.index).collect();
    assert_eq!(indices, vec![0, 1, 2]);
}

/// A playing response is interrupted by new speech: the token is
/// cancelled, the played prefix is recorded, and a new exchange starts.
#[test]
fn barge_in_interrupts_playback() {
    let mut d = Dispatcher::new(true);
    let first_token = match d.dispatch(1) {
        voice_core::dispatcher::DispatchAction::SpawnWorker { token } => token,
        _ => panic!("expected spawn"),
    };
    d.set_playing(1, true);

    // Speech starts while playing: the worker signals barge-in.
    let mut last: u64 = 0;
    let action =
        handle_stt_event(SttEvent::SpeechStart { timestamp_ms: 0 }, d.is_user_playing(1), 42, &mut last);
    assert_eq!(action, SttEventAction::SignalBargeIn);

    // The dispatcher cancels the in-flight token and clears the flag.
    let cancelled = d.handle_interrupt(1).unwrap();
    assert_eq!(cancelled, first_token);
    assert!(!d.is_user_playing(1));

    // The cut-off exchange leaves an interruption record.
    let entry = response_transcript(
        ResponseOutcome::CancelledBeforePlayback,
        "Bot",
        "full response",
        "played prefix",
    )
    .unwrap();
    assert_eq!(
        entry,
        TranscriptEntry::BotResponseInterrupted {
            bot_name: "Bot".to_string(),
            played_text: "played prefix".to_string(),
        }
    );

    // A new exchange for the new utterance proceeds normally.
    let action = handle_stt_event(
        SttEvent::Final {
            text: "actually stop".to_string(),
            language: "en".to_string(),
            confidence_milli: 900,
            duration_ms: 300,
        },
        d.is_user_playing(1),
        50,
        &mut last,
    );
    assert!(matches!(action, SttEventAction::ProcessText { .. }));
}
