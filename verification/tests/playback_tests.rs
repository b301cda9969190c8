use voice_core::playback::SequencedPlaybackQueue;
use voice_core::tts_pipeline::{TtsResult, TtsSegment};

fn make_segment(index: usize, text: &str) -> TtsSegment {
    TtsSegment {
        index,
        text: text.to_string(),
        tts_result: TtsResult { audio: vec![0i16; 100], sample_rate: 48000, duration_ms: 10 },
    }
}

#[test]
fn in_order_delivery() {
    let mut queue = SequencedPlaybackQueue::new();

    let out0 = queue.submit(make_segment(0, "first"));
    let out1 = queue.submit(make_segment(1, "second"));
    let out2 = queue.submit(make_segment(2, "third"));

    assert_eq!(out0.len(), 1);
    assert_eq!(out0[0].text, "first");
    assert_eq!(out1[0].text, "second");
    assert_eq!(out2[0].text, "third");
}

#[test]
fn out_of_order_waits() {
    let mut queue = SequencedPlaybackQueue::new();

    // Index two arrives first: nothing plays.
    assert!(queue.submit(make_segment(2, "third")).is_empty());
    // Index one arrives: still waiting for zero.
    assert!(queue.submit(make_segment(1, "second")).is_empty());

    // Index zero arrives: all three flush in order.
    let out = queue.submit(make_segment(0, "first"));
    assert_eq!(out.len(), 3);
    assert_eq!(out[0].text, "first");
    assert_eq!(out[1].text, "second");
    assert_eq!(out[2].text, "third");
}

#[test]
fn partial_out_of_order() {
    let mut queue = SequencedPlaybackQueue::new();

    let out = queue.submit(make_segment(0, "a"));
    assert_eq!(out.len(), 1);
    assert_eq!(out[0].text, "a");

    assert!(queue.submit(make_segment(2, "c")).is_empty());

    let out = queue.submit(make_segment(1, "b"));
    assert_eq!(out.len(), 2);
    assert_eq!(out[0].text, "b");
    assert_eq!(out[1].text, "c");
}

#[test]
fn reset_clears_state() {
    let mut queue = SequencedPlaybackQueue::new();
    let _ = queue.submit(make_segment(0, "old"));

    queue.reset();

    let out = queue.submit(make_segment(0, "new"));
    assert_eq!(out.len(), 1);
    assert_eq!(out[0].text, "new");
}

#[test]
fn set_total_does_not_affect_delivery() {
    let mut queue = SequencedPlaybackQueue::new();
    queue.set_total(2);

    assert_eq!(queue.submit(make_segment(0, "x"))[0].text, "x");
    assert_eq!(queue.submit(make_segment(1, "y"))[0].text, "y");
    assert!(queue.is_complete());
}

#[test]
fn large_gap_out_of_order() {
    let mut queue = SequencedPlaybackQueue::new();

    let mut played = Vec::new();
    for i in (0..5).rev() {
        played.extend(queue.submit(make_segment(i, &format!("seg{}", i))));
    }

    assert_eq!(played.len(), 5);
    for (i, seg) in played.iter().enumerate() {
        assert_eq!(seg.index, i);
        assert_eq!(seg.text, format!("seg{}", i));
    }
}

#[test]
fn reverse_three_emits_in_order() {
    // Indices arrive as two, one, zero; nothing plays before zero, then
    // zero, one, two come out in order.
    let mut queue = SequencedPlaybackQueue::new();
    assert!(queue.submit(make_segment(2, "c")).is_empty());
    assert!(queue.submit(make_segment(1, "b")).is_empty());
    let out = queue.submit(make_segment(0, "a"));
    let indices: Vec<usize> = out.iter().map(|s| s.index).collect();
    assert_eq!(indices, vec![0, 1, 2]);
}
