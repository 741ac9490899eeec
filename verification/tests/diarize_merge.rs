use whosaidwhat::asr::AsrSegment;
use whosaidwhat::diarize::merge::{attribute_speakers, coalesce_turns, interleave, overlap_ms};
use whosaidwhat::diarize::SpeakerSegment;
use whosaidwhat::llm::chunk::Turn;

fn asr(start: u64, end: u64, text: &str) -> AsrSegment {
    AsrSegment { start_ms: start, end_ms: end, text: text.to_string() }
}

fn spk(start: u64, end: u64, who: &str) -> SpeakerSegment {
    SpeakerSegment { start_ms: start, end_ms: end, speaker: who.to_string() }
}

#[test]
fn majority_overlap_wins() {
    let turns = attribute_speakers(
        &[asr(0, 1000, "hello there everyone")],
        &[spk(0, 300, "SPEAKER_00"), spk(300, 1000, "SPEAKER_01")],
        "UNKNOWN",
    );
    assert_eq!(turns[0].speaker, "SPEAKER_01");
}

#[test]
fn no_overlap_falls_back() {
    let turns =
        attribute_speakers(&[asr(5000, 6000, "hm")], &[spk(0, 1000, "SPEAKER_00")], "UNKNOWN");
    assert_eq!(turns[0].speaker, "UNKNOWN");
}

#[test]
fn tie_breaks_to_earlier_segment() {
    let turns = attribute_speakers(
        &[asr(0, 1000, "split evenly")],
        &[spk(0, 500, "SPEAKER_00"), spk(500, 1000, "SPEAKER_01")],
        "UNKNOWN",
    );
    assert_eq!(turns[0].speaker, "SPEAKER_00");
}

#[test]
fn coalesce_merges_same_speaker_within_gap() {
    let turns = vec![
        Turn { speaker: "A".into(), text: "first part".into(), start_ms: 0, end_ms: 900 },
        Turn { speaker: "A".into(), text: "second part".into(), start_ms: 1100, end_ms: 2000 },
        Turn { speaker: "B".into(), text: "reply".into(), start_ms: 2100, end_ms: 3000 },
        Turn { speaker: "A".into(), text: "much later".into(), start_ms: 300_000, end_ms: 301_000 },
    ];
    let merged = coalesce_turns(turns, 1000);
    assert_eq!(merged.len(), 3);
    assert_eq!(merged[0].text, "first part second part");
    assert_eq!(merged[0].end_ms, 2000);
    assert_eq!(merged[2].text, "much later");
}

#[test]
fn interleave_is_chronological_and_stable() {
    let local = vec![
        Turn { speaker: "Me".into(), text: "question".into(), start_ms: 0, end_ms: 1000 },
        Turn { speaker: "Me".into(), text: "thanks".into(), start_ms: 5000, end_ms: 6000 },
    ];
    let remote = vec![Turn {
        speaker: "SPEAKER_00".into(),
        text: "answer".into(),
        start_ms: 1500,
        end_ms: 4000,
    }];
    let all = interleave(local, remote);
    let texts: Vec<&str> = all.iter().map(|t| t.text.as_str()).collect();
    assert_eq!(texts, vec!["question", "answer", "thanks"]);
}

#[test]
fn empty_inputs() {
    assert!(attribute_speakers(&[], &[], "U").is_empty());
    assert!(coalesce_turns(vec![], 1000).is_empty());
    assert!(interleave(vec![], vec![]).is_empty());
}

// ---- further cases ----

#[test]
fn overlap_of_disjoint_and_nested_spans() {
    assert_eq!(overlap_ms(0, 100, 200, 300), 0);
    assert_eq!(overlap_ms(0, 1000, 200, 300), 100);
    assert_eq!(overlap_ms(250, 400, 200, 300), 50);
}

#[test]
fn interleave_ties_put_local_first() {
    let local = vec![Turn { speaker: "Me".into(), text: "l".into(), start_ms: 10, end_ms: 20 }];
    let remote = vec![Turn { speaker: "S".into(), text: "r".into(), start_ms: 10, end_ms: 20 }];
    let all = interleave(local, remote);
    assert_eq!(all[0].text, "l");
    assert_eq!(all[1].text, "r");
}

#[test]
fn coalesce_is_idempotent_on_example() {
    let turns = vec![
        Turn { speaker: "A".into(), text: "a".into(), start_ms: 0, end_ms: 10 },
        Turn { speaker: "A".into(), text: "b".into(), start_ms: 20, end_ms: 30 },
        Turn { speaker: "B".into(), text: "c".into(), start_ms: 40, end_ms: 50 },
    ];
    let once = coalesce_turns(turns, 15);
    let twice = coalesce_turns(once.clone(), 15);
    assert_eq!(once, twice);
    assert_eq!(once.len(), 2);
    assert_eq!(once[0].text, "a b");
}

#[test]
fn overlapping_same_speaker_turns_merge() {
    // Overlapping spans have zero gap, so they always merge.
    let turns = vec![
        Turn { speaker: "A".into(), text: "x".into(), start_ms: 0, end_ms: 500 },
        Turn { speaker: "A".into(), text: "y".into(), start_ms: 100, end_ms: 400 },
    ];
    let out = coalesce_turns(turns, 0);
    assert_eq!(out.len(), 1);
    assert_eq!(out[0].text, "x y");
    assert_eq!(out[0].end_ms, 400);
}
