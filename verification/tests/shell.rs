use whosaidwhat::capture::session::{
    RecordPolicy, RecorderBackend, SavedRecording, SessionEffect, SessionManager, SessionState,
};
use whosaidwhat::detect::state::MeetingApp;
use whosaidwhat::shell::{
    app_key, apply_control, clean_speaker_name, dash_spaces, reoffer, meeting_record, start_headless, stem_for, track_prompt,
    ControlMsg,
};

#[derive(Default)]
struct Recorder {
    recording: bool,
    stems: std::sync::Arc<std::sync::Mutex<Vec<(String, String)>>>,
}

impl RecorderBackend for Recorder {
    fn start(&mut self, _app: &MeetingApp, dir: &str, stem: &str) -> Result<(), String> {
        self.recording = true;
        self.stems.lock().unwrap().push((dir.to_string(), stem.to_string()));
        Ok(())
    }

    fn stop(&mut self) -> Result<SavedRecording, String> {
        self.recording = false;
        Ok(SavedRecording { system_path: "/r/x.system.wav".into(), mic_path: None, duration_ms: 61_500 })
    }

    fn is_recording(&self) -> bool {
        self.recording
    }
}

fn mgr(policy: RecordPolicy) -> SessionManager<Recorder> {
    SessionManager::new(Recorder::default(), policy, "/r".into())
}

#[test]
fn app_keys_and_stems() {
    assert_eq!(app_key(&MeetingApp::Teams), "microsoft-teams");
    assert_eq!(app_key(&MeetingApp::Zoom), "zoom");
    assert_eq!(app_key(&MeetingApp::Meet), "google-meet");
    assert_eq!(stem_for(&MeetingApp::Meet, 1_752_451_200), "google-meet-1752451200");
    assert_eq!(stem_for(&MeetingApp::Other("manual".into()), 5), "manual-5");
    assert_eq!(dash_spaces("a b  c"), "a-b--c");
}

#[test]
fn meeting_record_describes_saved_recording() {
    let r = meeting_record(&MeetingApp::Teams, 61_500, 1_000, 1_000_000_000_123);
    assert_eq!(r.id, "mtg-1000000000123");
    assert_eq!(r.title, "Microsoft Teams meeting");
    assert_eq!(r.app_key, "microsoft-teams");
    assert_eq!(r.started_at, 939);
    assert_eq!(r.ended_at, 1_000);
}

#[test]
fn headless_prompt_policy_declines() {
    let mut s = mgr(RecordPolicy::Prompt);
    let fx = start_headless(&mut s, MeetingApp::Zoom, "zoom-1");
    assert!(fx.is_empty());
    assert_eq!(s.state(), SessionState::Idle);
}

#[test]
fn headless_auto_policy_records() {
    let mut s = mgr(RecordPolicy::Auto);
    let fx = start_headless(&mut s, MeetingApp::Zoom, "zoom-1");
    assert!(fx.is_empty());
    assert_eq!(s.state(), SessionState::Recording);
    let mut m = mgr(RecordPolicy::Manual);
    assert!(start_headless(&mut m, MeetingApp::Zoom, "zoom-1").is_empty());
    assert_eq!(m.state(), SessionState::Idle);
}

#[test]
fn accept_answers_the_visible_prompt() {
    let mut s = mgr(RecordPolicy::Prompt);
    let mut prompted = None;
    for e in s.on_meeting_started(MeetingApp::Teams, "ignored") {
        track_prompt(&mut prompted, &e);
    }
    assert_eq!(prompted, Some(MeetingApp::Teams));
    let fx = apply_control(&mut s, &mut prompted, ControlMsg::Accept, 42);
    assert!(fx.is_empty());
    assert_eq!(prompted, None);
    assert_eq!(s.state(), SessionState::Recording);
    // A second accept (prompt already answered) does nothing.
    assert!(apply_control(&mut s, &mut prompted, ControlMsg::Accept, 43).is_empty());
    let fx = apply_control(&mut s, &mut prompted, ControlMsg::Stop, 44);
    assert!(matches!(&fx[..], [SessionEffect::RecordingSaved { app: MeetingApp::Teams, .. }]));
    assert_eq!(s.state(), SessionState::Idle);
}

#[test]
fn decline_and_manual_start() {
    let mut s = mgr(RecordPolicy::Prompt);
    let mut prompted = None;
    for e in s.on_meeting_started(MeetingApp::Zoom, "z") {
        track_prompt(&mut prompted, &e);
    }
    assert!(apply_control(&mut s, &mut prompted, ControlMsg::Decline, 1).is_empty());
    assert_eq!(prompted, None);
    assert_eq!(s.state(), SessionState::Idle);
    assert!(apply_control(&mut s, &mut prompted, ControlMsg::StartManual, 7).is_empty());
    assert_eq!(s.state(), SessionState::Recording);
}

#[test]
fn dismissal_clears_tracked_prompt() {
    let mut prompted = Some(MeetingApp::Zoom);
    track_prompt(&mut prompted, &SessionEffect::Error { message: "x".into() });
    assert_eq!(prompted, Some(MeetingApp::Zoom));
    track_prompt(&mut prompted, &SessionEffect::DismissPrompt { app: MeetingApp::Zoom });
    assert_eq!(prompted, None);
}

#[test]
fn speaker_names_are_trimmed_and_must_not_be_blank() {
    assert_eq!(clean_speaker_name("  Ada Lovelace \n"), Ok("Ada Lovelace".to_string()));
    assert_eq!(clean_speaker_name("   "), Err("name must not be empty".to_string()));
    assert_eq!(clean_speaker_name(""), Err("name must not be empty".to_string()));
}

#[test]
fn reoffer_starts_first_concurrent_meeting() {
    let mut s = mgr(RecordPolicy::Auto);
    let fx = reoffer(&mut s, &vec![MeetingApp::Teams, MeetingApp::Zoom], 9, true);
    assert!(fx.is_empty());
    assert_eq!(s.state(), SessionState::Recording);
    // Busy: a second re-offer leaves the session alone.
    assert!(reoffer(&mut s, &vec![MeetingApp::Zoom], 10, true).is_empty());
    assert_eq!(s.state(), SessionState::Recording);
}

#[test]
fn reoffer_prompts_or_declines_by_surface() {
    let mut s = mgr(RecordPolicy::Prompt);
    let fx = reoffer(&mut s, &vec![MeetingApp::Meet, MeetingApp::Zoom], 1, false);
    assert_eq!(fx, vec![SessionEffect::PromptUser { app: MeetingApp::Meet }]);
    assert_eq!(s.state(), SessionState::Prompted);
    let mut h = mgr(RecordPolicy::Prompt);
    assert!(reoffer(&mut h, &vec![MeetingApp::Meet], 1, true).is_empty());
    assert_eq!(h.state(), SessionState::Idle);
}

#[test]
fn accepted_recording_is_named_for_the_prompted_app() {
    let rec = Recorder::default();
    let log = rec.stems.clone();
    let mut s = SessionManager::new(rec, RecordPolicy::Prompt, "/r".into());
    let mut prompted = None;
    for e in s.on_meeting_started(MeetingApp::Teams, "unused") {
        track_prompt(&mut prompted, &e);
    }
    assert!(log.lock().unwrap().is_empty(), "no recording before consent");
    apply_control(&mut s, &mut prompted, ControlMsg::Accept, 42);
    assert_eq!(*log.lock().unwrap(), vec![("/r".to_string(), "microsoft-teams-42".to_string())]);
}
