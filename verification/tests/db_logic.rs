use whosaidwhat::db::{fts5_sanitize, speaker_identity, speaker_plan, SpeakerIdentity};
use whosaidwhat::llm::chunk::Turn;

fn turn(speaker: &str) -> Turn {
    Turn { speaker: speaker.into(), text: "x".into(), start_ms: 0, end_ms: 1 }
}

#[test]
fn sanitize_quotes_each_token() {
    assert_eq!(fts5_sanitize("covid-19"), "\"covid-19\"");
    assert_eq!(fts5_sanitize("don't"), "\"don't\"");
    assert_eq!(fts5_sanitize("  budget   approved "), "\"budget\" \"approved\"");
    assert_eq!(fts5_sanitize("say \"hi\""), "\"say\" \"\"\"hi\"\"\"");
    assert_eq!(fts5_sanitize("NEAR AND"), "\"NEAR\" \"AND\"");
}

#[test]
fn sanitize_blank_input_is_empty() {
    assert_eq!(fts5_sanitize(""), "");
    assert_eq!(fts5_sanitize("   "), "");
}

#[test]
fn identity_rules() {
    assert_eq!(speaker_identity("Me"), SpeakerIdentity::SelfSpeaker);
    assert_eq!(speaker_identity("SPEAKER_00"), SpeakerIdentity::Anonymous);
    assert_eq!(speaker_identity("SPEAKER_"), SpeakerIdentity::Anonymous);
    assert_eq!(speaker_identity("SPEAKER"), SpeakerIdentity::Named);
    assert_eq!(speaker_identity("Alice"), SpeakerIdentity::Named);
    assert_eq!(speaker_identity("me"), SpeakerIdentity::Named);
}

#[test]
fn plan_resolves_each_label_once_in_first_appearance_order() {
    let turns = vec![turn("Me"), turn("SPEAKER_00"), turn("Me"), turn("Alice"), turn("SPEAKER_00")];
    let p = speaker_plan(&turns);
    assert_eq!(p.labels, vec!["Me", "SPEAKER_00", "Alice"]);
    assert_eq!(p.slot, vec![0, 1, 0, 2, 1]);
    let empty = speaker_plan(&[]);
    assert!(empty.labels.is_empty() && empty.slot.is_empty());
}
