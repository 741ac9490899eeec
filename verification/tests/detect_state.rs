use whosaidwhat::detect::state::{
    AppDetector, Debounce, DetectorEvent, MeetingApp, MeetingPhase, SignalSnapshot,
};

fn snap(app: bool, marker: bool, mic: bool) -> SignalSnapshot {
    SignalSnapshot { app_running: app, meeting_marker: marker, mic_in_use: mic }
}

fn zoom() -> AppDetector {
    AppDetector::new(MeetingApp::Zoom, Debounce::default())
}

#[test]
fn launch_then_meeting_with_debounce() {
    let mut d = zoom();
    let ev = d.tick(snap(true, false, false));
    assert_eq!(ev, vec![DetectorEvent::AppLaunched(MeetingApp::Zoom)]);
    assert!(d.tick(snap(true, true, true)).is_empty());
    let ev = d.tick(snap(true, true, true));
    assert_eq!(ev, vec![DetectorEvent::MeetingStarted(MeetingApp::Zoom)]);
    assert_eq!(d.phase(), MeetingPhase::InMeeting);
}

#[test]
fn transient_marker_does_not_start_meeting() {
    let mut d = zoom();
    d.tick(snap(true, false, false));
    d.tick(snap(true, true, false));
    d.tick(snap(true, false, false));
    let ev = d.tick(snap(true, true, false));
    assert!(ev.is_empty(), "single tick after reset must not trigger");
    assert_eq!(d.phase(), MeetingPhase::AppOpen);
}

#[test]
fn marker_flap_does_not_end_meeting() {
    let mut d = zoom();
    d.tick(snap(true, false, false));
    d.tick(snap(true, true, true));
    d.tick(snap(true, true, true));
    for _ in 0..4 {
        assert!(d.tick(snap(true, false, true)).is_empty());
    }
    assert!(d.tick(snap(true, true, true)).is_empty());
    assert_eq!(d.phase(), MeetingPhase::InMeeting);
}

#[test]
fn sustained_absence_ends_meeting() {
    let mut d = zoom();
    d.tick(snap(true, false, false));
    d.tick(snap(true, true, true));
    d.tick(snap(true, true, true));
    let mut ended = false;
    for _ in 0..5 {
        for e in d.tick(snap(true, false, false)) {
            if e == DetectorEvent::MeetingEnded(MeetingApp::Zoom) {
                ended = true;
            }
        }
    }
    assert!(ended);
    assert_eq!(d.phase(), MeetingPhase::AppOpen);
}

#[test]
fn app_quit_mid_meeting_ends_then_quits() {
    let mut d = zoom();
    d.tick(snap(true, false, false));
    d.tick(snap(true, true, true));
    d.tick(snap(true, true, true));
    let ev = d.tick(snap(false, false, false));
    assert_eq!(
        ev,
        vec![
            DetectorEvent::MeetingEnded(MeetingApp::Zoom),
            DetectorEvent::AppQuit(MeetingApp::Zoom),
        ]
    );
    assert_eq!(d.phase(), MeetingPhase::Idle);
}

#[test]
fn meet_requires_mic_corroboration() {
    let mut d = AppDetector::new(
        MeetingApp::Meet,
        Debounce { require_mic_for: true, ..Debounce::default() },
    );
    d.tick(snap(true, false, false));
    assert!(d.tick(snap(true, true, false)).is_empty());
    assert!(d.tick(snap(true, true, false)).is_empty());
    assert_eq!(d.phase(), MeetingPhase::AppOpen);
    d.tick(snap(true, true, true));
    let ev = d.tick(snap(true, true, true));
    assert_eq!(ev, vec![DetectorEvent::MeetingStarted(MeetingApp::Meet)]);
    for _ in 0..10 {
        d.tick(snap(true, true, false));
    }
    assert_eq!(d.phase(), MeetingPhase::InMeeting, "open tab keeps meeting alive");
    let mut ended = false;
    for _ in 0..5 {
        for e in d.tick(snap(true, false, false)) {
            if e == DetectorEvent::MeetingEnded(MeetingApp::Meet) {
                ended = true;
            }
        }
    }
    assert!(ended);
}

#[test]
fn relaunch_after_quit_detects_again() {
    let mut d = zoom();
    d.tick(snap(true, false, false));
    d.tick(snap(true, true, false));
    d.tick(snap(true, true, false));
    d.tick(snap(false, false, false));
    let ev = d.tick(snap(true, false, false));
    assert_eq!(ev, vec![DetectorEvent::AppLaunched(MeetingApp::Zoom)]);
    d.tick(snap(true, true, false));
    let ev = d.tick(snap(true, true, false));
    assert_eq!(ev, vec![DetectorEvent::MeetingStarted(MeetingApp::Zoom)]);
}

// ---- further cases ----

#[test]
fn launch_tick_with_instant_threshold_starts_at_once() {
    // With a zero-tick enter threshold the launch tick itself confirms the meeting.
    let mut d = AppDetector::new(
        MeetingApp::Zoom,
        Debounce { enter_ticks: 0, exit_ticks: 5, require_mic_for: false },
    );
    let ev = d.tick(snap(true, true, false));
    assert_eq!(
        ev,
        vec![
            DetectorEvent::AppLaunched(MeetingApp::Zoom),
            DetectorEvent::MeetingStarted(MeetingApp::Zoom),
        ]
    );
    assert_eq!(d.phase(), MeetingPhase::InMeeting);
}

#[test]
fn app_open_quit_emits_only_quit() {
    let mut d = zoom();
    d.tick(snap(true, false, false));
    let ev = d.tick(snap(false, true, true));
    assert_eq!(ev, vec![DetectorEvent::AppQuit(MeetingApp::Zoom)]);
    assert_eq!(d.phase(), MeetingPhase::Idle);
}

#[test]
fn idle_without_app_is_silent() {
    let mut d = zoom();
    for _ in 0..3 {
        assert!(d.tick(snap(false, true, true)).is_empty());
    }
    assert_eq!(d.phase(), MeetingPhase::Idle);
    assert_eq!(d.app(), &MeetingApp::Zoom);
}

#[test]
fn display_names() {
    assert_eq!(MeetingApp::Zoom.display_name(), "Zoom");
    assert_eq!(MeetingApp::Teams.display_name(), "Microsoft Teams");
    assert_eq!(MeetingApp::Meet.display_name(), "Google Meet");
    assert_eq!(MeetingApp::Other("Webex".to_string()).display_name(), "Webex");
    assert!(MeetingApp::Other("x".into()).same_as(&MeetingApp::Other("x".into())));
    assert!(!MeetingApp::Zoom.same_as(&MeetingApp::Teams));
}
