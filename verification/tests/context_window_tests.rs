use voice_core::context_window::{ContextWindowBuffer, LabeledUtterance};

fn utterance(user_id: u64, name: &str, text: &str) -> LabeledUtterance {
    LabeledUtterance {
        user_id,
        username: name.into(),
        text: text.into(),
        timestamp_ms: 0,
    }
}

#[test]
fn empty_buffer_is_not_ready() {
    let buf = ContextWindowBuffer::new(2000);
    assert!(!buf.is_ready(0));
}

#[test]
fn flush_empty_returns_none() {
    let mut buf = ContextWindowBuffer::new(2000);
    assert!(buf.flush().is_none());
}

#[test]
fn push_starts_window() {
    let mut buf = ContextWindowBuffer::new(2000);
    buf.push(utterance(1, "Alice", "hello"), 0);
    // Just pushed: the window of two seconds has not passed yet.
    assert!(!buf.is_ready(0));
}

#[test]
fn flush_formats_labels() {
    let mut buf = ContextWindowBuffer::new(2000);
    buf.push(utterance(1, "Alice", "\u{4eca}\u{65e5}\u{306e}\u{5929}\u{6c17}\u{306f}\u{ff1f}"), 0);
    buf.push(
        utterance(
            2,
            "Bob",
            "\u{305d}\u{308c}\u{3068}\u{660e}\u{65e5}\u{3082}\u{6559}\u{3048}\u{3066}",
        ),
        1,
    );
    buf.push(utterance(1, "Alice", "\u{6771}\u{4eac}\u{3067}"), 2);

    let text = buf.flush().unwrap();
    assert_eq!(
        text,
        "Alice\u{3055}\u{3093}: \u{4eca}\u{65e5}\u{306e}\u{5929}\u{6c17}\u{306f}\u{ff1f}\nBob\u{3055}\u{3093}: \u{305d}\u{308c}\u{3068}\u{660e}\u{65e5}\u{3082}\u{6559}\u{3048}\u{3066}\nAlice\u{3055}\u{3093}: \u{6771}\u{4eac}\u{3067}"
    );
}

#[test]
fn flush_clears_buffer() {
    let mut buf = ContextWindowBuffer::new(2000);
    buf.push(utterance(1, "Alice", "hello"), 0);
    let _ = buf.flush();

    assert!(buf.flush().is_none());
    assert!(!buf.is_ready(10_000));
}

#[test]
fn is_ready_after_window_elapsed() {
    let mut buf = ContextWindowBuffer::new(0);
    buf.push(utterance(1, "Alice", "hello"), 5);
    // A zero-length window is ready at once.
    assert!(buf.is_ready(5));
}

#[test]
fn multiple_flush_cycles() {
    let mut buf = ContextWindowBuffer::new(0);

    buf.push(utterance(1, "Alice", "first"), 0);
    assert!(buf.flush().is_some());

    buf.push(utterance(2, "Bob", "second"), 1);
    let text = buf.flush().unwrap();
    assert!(text.contains("Bob"));
    assert!(!text.contains("Alice"));
}
