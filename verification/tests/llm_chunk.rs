use whosaidwhat::llm::chunk::{chunk_turns, format_chunk, Turn};

fn turn(speaker: &str, words: usize, start_ms: u64) -> Turn {
    Turn {
        speaker: speaker.to_string(),
        text: vec!["word"; words].join(" "),
        start_ms,
        end_ms: start_ms + 1000,
    }
}

#[test]
fn everything_fits_in_one_chunk() {
    let turns = vec![turn("A", 100, 0), turn("B", 100, 1000)];
    let chunks = chunk_turns(&turns, 1200, 2);
    assert_eq!(chunks.len(), 1);
    assert_eq!(chunks[0].len(), 2);
}

#[test]
fn splits_at_budget_with_overlap() {
    let turns: Vec<Turn> = (0..5).map(|i| turn(&format!("S{i}"), 400, i * 1000)).collect();
    let chunks = chunk_turns(&turns, 1000, 1);
    assert!(chunks.len() >= 3);
    for w in chunks.windows(2) {
        let (prev, next) = (&w[0], &w[1]);
        assert_eq!(prev.last(), next.first(), "overlap turn carried over");
    }
    for t in &turns {
        assert!(chunks.iter().any(|c| c.contains(t)));
    }
}

#[test]
fn oversized_single_turn_is_not_split() {
    let turns = vec![turn("A", 50, 0), turn("B", 5000, 1000), turn("C", 50, 2000)];
    let chunks = chunk_turns(&turns, 1200, 2);
    let total: usize = chunks.iter().map(|c| c.len()).sum();
    assert!(total >= 3);
    assert!(chunks.iter().any(|c| c.iter().any(|t| t.speaker == "B")));
}

#[test]
fn empty_input_empty_output() {
    assert!(chunk_turns(&[], 1200, 2).is_empty());
}

#[test]
fn overlap_zero_has_no_carryover() {
    let turns: Vec<Turn> = (0..4).map(|i| turn(&format!("S{i}"), 600, i * 1000)).collect();
    let chunks = chunk_turns(&turns, 1000, 0);
    let total: usize = chunks.iter().map(|c| c.len()).sum();
    assert_eq!(total, 4, "no duplicates when overlap is 0");
}

#[test]
fn format_includes_timestamp_and_speaker() {
    let c = vec![Turn {
        speaker: "Ada".into(),
        text: "hello there".into(),
        start_ms: 65_000,
        end_ms: 66_000,
    }];
    assert_eq!(format_chunk(&c), "[01:05] Ada: hello there");
}

// ---- further cases ----

#[test]
fn exact_chunk_layout() {
    // 5 turns of 400 words, budget 1000, overlap 1: [0,1] [1,2] [2,3] [3,4].
    let turns: Vec<Turn> = (0..5).map(|i| turn(&format!("S{i}"), 400, i * 1000)).collect();
    let chunks = chunk_turns(&turns, 1000, 1);
    let names: Vec<Vec<&str>> =
        chunks.iter().map(|c| c.iter().map(|t| t.speaker.as_str()).collect()).collect();
    assert_eq!(
        names,
        vec![vec!["S0", "S1"], vec!["S1", "S2"], vec!["S2", "S3"], vec!["S3", "S4"]]
    );
}

#[test]
fn words_count_any_whitespace() {
    // Tabs, newlines and repeated spaces all separate words.
    let t = |text: &str| Turn { speaker: "A".into(), text: text.into(), start_ms: 0, end_ms: 1 };
    let turns = vec![t("a\tb\n c"), t("  d   e  "), t("f")];
    let chunks = chunk_turns(&turns, 5, 0);
    assert_eq!(chunks.len(), 2);
    assert_eq!(chunks[0].len(), 2);
}

#[test]
fn format_long_meeting_and_multiple_turns() {
    let c = vec![
        Turn { speaker: "A".into(), text: "x".into(), start_ms: 5_531_000, end_ms: 0 },
        Turn { speaker: "B".into(), text: "y  ".into(), start_ms: 999, end_ms: 0 },
    ];
    assert_eq!(format_chunk(&c), "[92:11] A: x\n\n[00:00] B: y");
    assert_eq!(format_chunk(&[]), "");
}
