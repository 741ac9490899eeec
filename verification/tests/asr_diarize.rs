use whosaidwhat::asr::{segment_from_raw, segments_from_raw, AsrSegment};
use whosaidwhat::diarize::{sort_by_start, speaker_label, SpeakerSegment};

#[test]
fn raw_segments_convert_centiseconds_and_trim() {
    assert_eq!(
        segment_from_raw("  hello there ", 150, 275),
        Some(AsrSegment { start_ms: 1500, end_ms: 2750, text: "hello there".into() })
    );
    assert_eq!(segment_from_raw("   ", 0, 10), None);
    assert_eq!(
        segment_from_raw("x", -5, 3),
        Some(AsrSegment { start_ms: 0, end_ms: 30, text: "x".into() })
    );
}

#[test]
fn blank_raw_segments_are_dropped() {
    let raw = vec![(" a".to_string(), 0, 100), ("\n".to_string(), 100, 200), ("b ".to_string(), 200, 300)];
    let segs = segments_from_raw(&raw);
    assert_eq!(
        segs,
        vec![
            AsrSegment { start_ms: 0, end_ms: 1000, text: "a".into() },
            AsrSegment { start_ms: 2000, end_ms: 3000, text: "b".into() },
        ]
    );
}

#[test]
fn speaker_labels_are_zero_padded() {
    assert_eq!(speaker_label(0), "SPEAKER_00");
    assert_eq!(speaker_label(7), "SPEAKER_07");
    assert_eq!(speaker_label(12), "SPEAKER_12");
    assert_eq!(speaker_label(123), "SPEAKER_123");
    assert_eq!(speaker_label(-1), "SPEAKER_-1");
    assert_eq!(speaker_label(-12), "SPEAKER_-12");
    assert_eq!(speaker_label(i32::MIN), format!("SPEAKER_{:02}", i32::MIN));
}

#[test]
fn sort_is_by_start_and_stable() {
    let s = |start: u64, who: &str| SpeakerSegment { start_ms: start, end_ms: start + 10, speaker: who.into() };
    let sorted = sort_by_start(vec![s(500, "B"), s(100, "A"), s(500, "C"), s(0, "D")]);
    let order: Vec<&str> = sorted.iter().map(|x| x.speaker.as_str()).collect();
    assert_eq!(order, vec!["D", "A", "B", "C"]);
    assert!(sort_by_start(vec![]).is_empty());
}
