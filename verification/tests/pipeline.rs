use whosaidwhat::asr::AsrSegment;
use whosaidwhat::diarize::SpeakerSegment;
use whosaidwhat::llm::chunk::Turn;
use whosaidwhat::pipeline::worker::Job;
use whosaidwhat::pipeline::{
    assemble_transcript, citations_for, self_turns, source_tag, StoredSegment,
};

fn asr(start: u64, end: u64, text: &str) -> AsrSegment {
    AsrSegment { start_ms: start, end_ms: end, text: text.into() }
}

fn sp(start: u64, end: u64, who: &str) -> SpeakerSegment {
    SpeakerSegment { start_ms: start, end_ms: end, speaker: who.into() }
}

#[test]
fn mic_words_belong_to_me() {
    let t = self_turns(vec![asr(0, 500, "hi")]);
    assert_eq!(t, vec![Turn { speaker: "Me".into(), text: "hi".into(), start_ms: 0, end_ms: 500 }]);
    assert_eq!(source_tag(&t[0]), "mic");
    let other = Turn { speaker: "SPEAKER_00".into(), text: String::new(), start_ms: 0, end_ms: 0 };
    assert_eq!(source_tag(&other), "system");
}

#[test]
fn transcript_interleaves_tracks_and_tags_sources() {
    let system = vec![asr(1000, 2000, "question"), asr(2500, 3000, "more"), asr(9000, 9500, "late")];
    let speakers = vec![sp(0, 4000, "SPEAKER_00")];
    let mic = vec![asr(4000, 5000, "answer"), asr(5500, 6000, "continued")];
    let t = assemble_transcript(&system, &speakers, Some(mic));
    let got: Vec<(String, String, u64, u64, &str)> = t
        .iter()
        .map(|(turn, src)| (turn.speaker.clone(), turn.text.clone(), turn.start_ms, turn.end_ms, *src))
        .collect();
    assert_eq!(
        got,
        vec![
            ("SPEAKER_00".into(), "question more".into(), 1000, 3000, "system"),
            ("Me".into(), "answer continued".into(), 4000, 6000, "mic"),
            ("SPEAKER_XX".into(), "late".into(), 9000, 9500, "system"),
        ]
    );
}

#[test]
fn transcript_without_mic_track() {
    let t = assemble_transcript(&[asr(0, 10, "solo")], &[], None);
    assert_eq!(t.len(), 1);
    assert_eq!(t[0].0.speaker, "SPEAKER_XX");
    assert_eq!(t[0].1, "system");
}

#[test]
fn citations_resolve_markers_and_quote_segments() {
    let segs = vec![
        StoredSegment { id: 7, start_ms: 60_000, end_ms: 70_000, text: "we approved the budget".into() },
        StoredSegment { id: 9, start_ms: 600_000, end_ms: 610_000, text: "ship friday".into() },
    ];
    let c = citations_for("Budget [01:05] and shipping [10:02], nothing at [30:00].", &segs);
    assert_eq!(
        c,
        vec![
            (7, Some("we approved the budget".to_string())),
            (9, Some("ship friday".to_string())),
        ]
    );
    assert!(citations_for("no markers", &segs).is_empty());
    assert!(citations_for("[01:05]", &[]).is_empty());
}

#[test]
fn jobs_clone_equal() {
    let j = Job { meeting_id: "m".into(), system_wav: "/tmp/x.system.wav".into(), mic_wav: None };
    assert_eq!(j.clone(), j);
}
