use voice_core::splitter::{SentenceSegment, SentenceSplitter, DEFAULT_MIN_LENGTH};

fn collect(splitter: &mut SentenceSplitter, tokens: &[&str]) -> Vec<SentenceSegment> {
    let mut segs = Vec::new();
    for t in tokens {
        segs.extend(splitter.push_token(t));
    }
    if let Some(last) = splitter.finish() {
        segs.push(last);
    }
    segs
}

#[test]
fn split_on_japanese_punctuation() {
    let mut sp = SentenceSplitter::new(DEFAULT_MIN_LENGTH);
    let segs = collect(
        &mut sp,
        &[
            "\u{3053}\u{3093}\u{306b}\u{3061}\u{306f}\u{3002}",
            "\u{5143}\u{6c17}\u{3067}\u{3059}\u{304b}\u{ff1f}",
        ],
    );
    assert_eq!(segs.len(), 2);
    assert_eq!(segs[0].index, 0);
    assert_eq!(segs[0].text, "\u{3053}\u{3093}\u{306b}\u{3061}\u{306f}\u{3002}");
    assert_eq!(segs[1].index, 1);
    assert_eq!(segs[1].text, "\u{5143}\u{6c17}\u{3067}\u{3059}\u{304b}\u{ff1f}");
}

#[test]
fn split_on_ascii_punctuation() {
    let mut sp = SentenceSplitter::new(DEFAULT_MIN_LENGTH);
    let segs = collect(&mut sp, &["Hello! How are you? Fine."]);
    assert_eq!(segs.len(), 3);
    assert_eq!(segs[0].text, "Hello!");
    assert_eq!(segs[1].text, "How are you?");
    assert_eq!(segs[2].text, "Fine.");
}

#[test]
fn split_on_paragraph_break() {
    let mut sp = SentenceSplitter::new(DEFAULT_MIN_LENGTH);
    let segs = collect(&mut sp, &["First paragraph.\n\nSecond paragraph."]);
    assert_eq!(segs.len(), 2);
    assert_eq!(segs[0].text, "First paragraph.");
    assert_eq!(segs[1].text, "Second paragraph.");
}

#[test]
fn incremental_tokens() {
    let mut sp = SentenceSplitter::new(DEFAULT_MIN_LENGTH);
    let segs = collect(
        &mut sp,
        &[
            "\u{3053}\u{3093}",
            "\u{306b}\u{3061}\u{306f}",
            "\u{3002}",
            "\u{3055}\u{3088}",
            "\u{3046}\u{306a}\u{3089}",
            "\u{ff01}",
        ],
    );
    assert_eq!(segs.len(), 2);
    assert_eq!(segs[0].text, "\u{3053}\u{3093}\u{306b}\u{3061}\u{306f}\u{3002}");
    assert_eq!(segs[1].text, "\u{3055}\u{3088}\u{3046}\u{306a}\u{3089}\u{ff01}");
}

#[test]
fn flush_remaining() {
    let mut sp = SentenceSplitter::new(DEFAULT_MIN_LENGTH);
    let segs = collect(&mut sp, &["no punctuation here"]);
    assert_eq!(segs.len(), 1);
    assert_eq!(segs[0].text, "no punctuation here");
    assert_eq!(segs[0].index, 0);
}

#[test]
fn empty_stream() {
    let mut sp = SentenceSplitter::new(DEFAULT_MIN_LENGTH);
    let segs = collect(&mut sp, &[]);
    assert!(segs.is_empty());
}

#[test]
fn whitespace_only_is_discarded() {
    let mut sp = SentenceSplitter::new(DEFAULT_MIN_LENGTH);
    let segs = collect(&mut sp, &["   ", "  \n\n  ", "  "]);
    assert!(segs.is_empty());
}

#[test]
fn min_length_filter() {
    let mut sp = SentenceSplitter::new(5);
    let segs = collect(&mut sp, &["Hi! Hello world!"]);
    // "Hi!" is under the minimum and merges forward.
    assert!(!segs.is_empty());
    let all_text: String = segs.iter().map(|s| s.text.clone()).collect::<Vec<_>>().join("");
    assert!(all_text.contains("Hello world"));
}

#[test]
fn sequence_numbers_are_monotonic() {
    let mut sp = SentenceSplitter::new(DEFAULT_MIN_LENGTH);
    let segs = collect(
        &mut sp,
        &["\u{4e00}\u{3002}\u{4e8c}\u{3002}\u{4e09}\u{3002}\u{56db}\u{3002}"],
    );
    for (i, seg) in segs.iter().enumerate() {
        assert_eq!(seg.index, i);
    }
}

#[test]
fn multiple_delimiters_in_one_token() {
    let mut sp = SentenceSplitter::new(DEFAULT_MIN_LENGTH);
    let segs = collect(&mut sp, &["A!B?C\u{3002}D"]);
    assert_eq!(segs.len(), 4);
    assert_eq!(segs[0].text, "A!");
    assert_eq!(segs[1].text, "B?");
    assert_eq!(segs[2].text, "C\u{3002}");
    assert_eq!(segs[3].text, "D");
}

#[test]
fn short_flush_still_emits() {
    // Input shorter than the minimum still comes out on the final flush.
    let mut sp = SentenceSplitter::new(10);
    assert!(sp.push_token("hi").is_empty());
    let last = sp.finish().unwrap();
    assert_eq!(last.text, "hi");
    assert_eq!(last.index, 0);
}

#[test]
fn content_is_preserved_up_to_whitespace() {
    let mut sp = SentenceSplitter::new(2);
    let input = "One two. Three!   Four?\n\nFive six";
    let segs = collect(&mut sp, &[input]);
    let joined: String = segs.iter().map(|s| s.text.clone()).collect();
    let squash = |s: &str| s.chars().filter(|c| !c.is_whitespace()).collect::<String>();
    assert_eq!(squash(&joined), squash(input));
}
