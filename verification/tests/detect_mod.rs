use whosaidwhat::detect::state::{DetectorEvent, MeetingApp, SignalSnapshot};
use whosaidwhat::detect::{Detector, SignalSource, ACTIVE_POLL, IDLE_POLL};

struct ScriptedSource {
    frames: Vec<Vec<(MeetingApp, SignalSnapshot)>>,
    at: usize,
}

impl SignalSource for ScriptedSource {
    fn poll(&mut self) -> Vec<(MeetingApp, SignalSnapshot)> {
        let frame = self.frames[self.at.min(self.frames.len() - 1)].clone();
        self.at += 1;
        frame
    }
}

fn frame(zoom: (bool, bool), mic: bool) -> Vec<(MeetingApp, SignalSnapshot)> {
    vec![
        (
            MeetingApp::Zoom,
            SignalSnapshot { app_running: zoom.0, meeting_marker: zoom.1, mic_in_use: mic },
        ),
        (
            MeetingApp::Teams,
            SignalSnapshot { app_running: false, meeting_marker: false, mic_in_use: mic },
        ),
        (
            MeetingApp::Meet,
            SignalSnapshot { app_running: false, meeting_marker: false, mic_in_use: mic },
        ),
    ]
}

#[test]
fn full_zoom_meeting_lifecycle_through_detector() {
    let frames = vec![
        frame((false, false), false),
        frame((true, false), false),
        frame((true, true), true),
        frame((true, true), true),
        frame((true, true), true),
        frame((true, false), false),
        frame((true, false), false),
        frame((true, false), false),
        frame((true, false), false),
        frame((true, false), false),
        frame((false, false), false),
    ];
    let mut d = Detector::new(ScriptedSource { frames, at: 0 });

    let mut all = Vec::new();
    for _ in 0..11 {
        all.extend(d.tick());
    }
    let zoom_events: Vec<_> = all
        .iter()
        .filter(|e| {
            matches!(
                e,
                DetectorEvent::AppLaunched(MeetingApp::Zoom)
                    | DetectorEvent::MeetingStarted(MeetingApp::Zoom)
                    | DetectorEvent::MeetingEnded(MeetingApp::Zoom)
                    | DetectorEvent::AppQuit(MeetingApp::Zoom)
            )
        })
        .collect();
    assert_eq!(
        zoom_events,
        vec![
            &DetectorEvent::AppLaunched(MeetingApp::Zoom),
            &DetectorEvent::MeetingStarted(MeetingApp::Zoom),
            &DetectorEvent::MeetingEnded(MeetingApp::Zoom),
            &DetectorEvent::AppQuit(MeetingApp::Zoom),
        ]
    );
}

#[test]
fn poll_interval_switches_with_app_presence() {
    let frames = vec![frame((false, false), false), frame((true, false), false)];
    let mut d = Detector::new(ScriptedSource { frames, at: 0 });
    d.tick();
    assert_eq!(d.next_poll_interval(), IDLE_POLL);
    d.tick();
    assert_eq!(d.next_poll_interval(), ACTIVE_POLL);
}

// ---- further cases ----

#[test]
fn missing_snapshot_counts_as_not_running() {
    // A source that reports nothing for Teams/Meet leaves them idle.
    let frames = vec![vec![(
        MeetingApp::Zoom,
        SignalSnapshot { app_running: true, meeting_marker: false, mic_in_use: false },
    )]];
    let mut d = Detector::new(ScriptedSource { frames, at: 0 });
    let ev = d.tick();
    assert_eq!(ev, vec![DetectorEvent::AppLaunched(MeetingApp::Zoom)]);
    assert!(d.any_app_running());
}

#[test]
fn events_come_in_detector_order() {
    let running = SignalSnapshot { app_running: true, meeting_marker: false, mic_in_use: false };
    let frames = vec![vec![(MeetingApp::Meet, running), (MeetingApp::Zoom, running)]];
    let mut d = Detector::new(ScriptedSource { frames, at: 0 });
    assert_eq!(
        d.tick(),
        vec![
            DetectorEvent::AppLaunched(MeetingApp::Zoom),
            DetectorEvent::AppLaunched(MeetingApp::Meet),
        ]
    );
}

#[test]
fn advance_uses_first_snapshot_per_app() {
    let on = SignalSnapshot { app_running: true, meeting_marker: false, mic_in_use: false };
    let off = SignalSnapshot::default();
    let mut d = Detector::new(ScriptedSource { frames: vec![vec![]], at: 0 });
    let ev = d.advance(&vec![(MeetingApp::Teams, on), (MeetingApp::Teams, off)]);
    assert_eq!(ev, vec![DetectorEvent::AppLaunched(MeetingApp::Teams)]);
    assert_eq!(d.next_poll_interval(), ACTIVE_POLL);
}

#[test]
fn active_meetings_lists_apps_in_a_meeting() {
    let frames = vec![
        frame((true, false), false),
        frame((true, true), true),
        frame((true, true), true),
    ];
    let mut d = Detector::new(ScriptedSource { frames, at: 0 });
    assert!(d.active_meetings().is_empty());
    for _ in 0..3 {
        d.tick();
    }
    assert_eq!(d.active_meetings(), vec![MeetingApp::Zoom]);
}
