use whosaidwhat::capture::session::{
    after_stop, RecordPolicy, RecorderBackend, SavedRecording, SessionEffect, SessionManager,
    SessionState,
};
use whosaidwhat::detect::state::MeetingApp;

#[derive(Default)]
struct FakeBackend {
    recording: bool,
    started: u32,
    fail_start: bool,
}

impl RecorderBackend for FakeBackend {
    fn start(&mut self, _app: &MeetingApp, _dir: &str, _stem: &str) -> Result<(), String> {
        if self.fail_start {
            return Err("device busy".into());
        }
        assert!(!self.recording, "start while recording");
        self.recording = true;
        self.started += 1;
        Ok(())
    }

    fn stop(&mut self) -> Result<SavedRecording, String> {
        assert!(self.recording, "stop while idle");
        self.recording = false;
        Ok(SavedRecording {
            system_path: "/tmp/x.system.wav".into(),
            mic_path: Some("/tmp/x.mic.wav".into()),
            duration_ms: 1234,
        })
    }

    fn is_recording(&self) -> bool {
        self.recording
    }
}

fn mgr(policy: RecordPolicy) -> SessionManager<FakeBackend> {
    SessionManager::new(FakeBackend::default(), policy, "/tmp".into())
}

#[test]
fn prompt_accept_end_saves() {
    let mut m = mgr(RecordPolicy::Prompt);
    let fx = m.on_meeting_started(MeetingApp::Zoom, "zoom-2026-07-14");
    assert_eq!(fx, vec![SessionEffect::PromptUser { app: MeetingApp::Zoom }]);
    assert!(m.on_user_accept("zoom-2026-07-14").is_empty());
    assert_eq!(m.state(), SessionState::Recording);
    let fx = m.on_meeting_ended(&MeetingApp::Zoom);
    match &fx[0] {
        SessionEffect::RecordingSaved { app, saved } => {
            assert_eq!(*app, MeetingApp::Zoom);
            assert_eq!(saved.duration_ms, 1234);
        }
        other => panic!("expected RecordingSaved, got {other:?}"),
    }
    assert_eq!(m.state(), SessionState::Idle);
}

#[test]
fn auto_policy_records_without_prompt() {
    let mut m = mgr(RecordPolicy::Auto);
    assert!(m.on_meeting_started(MeetingApp::Teams, "t").is_empty());
    assert_eq!(m.state(), SessionState::Recording);
}

#[test]
fn meeting_end_before_answer_dismisses_prompt() {
    let mut m = mgr(RecordPolicy::Prompt);
    m.on_meeting_started(MeetingApp::Meet, "m");
    let fx = m.on_meeting_ended(&MeetingApp::Meet);
    assert_eq!(fx, vec![SessionEffect::DismissPrompt { app: MeetingApp::Meet }]);
    assert_eq!(m.state(), SessionState::Idle);
}

#[test]
fn decline_then_end_is_quiet() {
    let mut m = mgr(RecordPolicy::Prompt);
    m.on_meeting_started(MeetingApp::Zoom, "z");
    m.on_user_decline();
    assert!(m.on_meeting_ended(&MeetingApp::Zoom).is_empty());
}

#[test]
fn overlapping_meeting_is_ignored_while_recording() {
    let mut m = mgr(RecordPolicy::Auto);
    m.on_meeting_started(MeetingApp::Zoom, "z");
    assert!(m.on_meeting_started(MeetingApp::Teams, "t").is_empty());
    assert!(m.on_meeting_ended(&MeetingApp::Teams).is_empty());
    assert_eq!(m.state(), SessionState::Recording);
    let fx = m.on_meeting_ended(&MeetingApp::Zoom);
    assert!(matches!(fx[0], SessionEffect::RecordingSaved { .. }));
}

#[test]
fn backend_failure_surfaces_error_and_resets() {
    let mut m = SessionManager::new(
        FakeBackend { fail_start: true, ..Default::default() },
        RecordPolicy::Auto,
        "/tmp".into(),
    );
    let fx = m.on_meeting_started(MeetingApp::Zoom, "z");
    assert!(matches!(fx[0], SessionEffect::Error { .. }));
    assert_eq!(m.state(), SessionState::Idle);
}

#[test]
fn manual_start_and_stop() {
    let mut m = mgr(RecordPolicy::Manual);
    assert!(m.on_meeting_started(MeetingApp::Zoom, "z").is_empty());
    m.on_user_accept("manual-rec");
    assert_eq!(m.state(), SessionState::Recording);
    let fx = m.on_user_stop();
    assert!(matches!(fx[0], SessionEffect::RecordingSaved { .. }));
}

// ---- further cases ----

#[test]
fn start_failure_message_names_the_reason() {
    let mut m = SessionManager::new(
        FakeBackend { fail_start: true, ..Default::default() },
        RecordPolicy::Prompt,
        "/tmp".into(),
    );
    m.on_meeting_started(MeetingApp::Zoom, "z");
    let fx = m.on_user_accept("z");
    assert_eq!(
        fx,
        vec![SessionEffect::Error { message: "failed to start recording: device busy".into() }]
    );
    assert_eq!(m.state(), SessionState::Idle);
}

#[test]
fn save_failure_message_names_the_reason() {
    let fx = after_stop(MeetingApp::Teams, Err("disk full".into()));
    assert_eq!(
        fx,
        vec![SessionEffect::Error { message: "failed to save recording: disk full".into() }]
    );
}

#[test]
fn manual_recording_is_attributed_to_manual_app() {
    let mut m = mgr(RecordPolicy::Manual);
    m.on_user_accept("x");
    let fx = m.on_user_stop();
    match &fx[0] {
        SessionEffect::RecordingSaved { app, .. } => {
            assert_eq!(*app, MeetingApp::Other("manual".into()))
        }
        other => panic!("unexpected {other:?}"),
    }
}

#[test]
fn stop_and_decline_when_idle_do_nothing() {
    let mut m = mgr(RecordPolicy::Prompt);
    assert!(m.on_user_stop().is_empty());
    assert!(m.on_user_decline().is_empty());
    assert_eq!(m.state(), SessionState::Idle);
}
