use whosaidwhat::detect::signals::{
    any_other_capturing, object_capturing, process_object_count, listing_has_meeting, meet_browsers, meet_tab_script, mic_query, mic_reading, poll_snapshots,
    scan_processes, should_probe_meet, BrowserKind, MicQuery, ProcessScan,
};
use whosaidwhat::detect::state::{MeetingApp, SignalSnapshot};

fn names(v: &[&str]) -> Vec<String> {
    v.iter().map(|s| s.to_string()).collect()
}

#[test]
fn process_names_match_exactly() {
    let scan = scan_processes(&names(&["caphost", "zoom.us", "launchd"]));
    assert_eq!(
        scan,
        ProcessScan { zoom_running: true, zoom_meeting: false, teams_running: false, browser_running: false }
    );
    let scan = scan_processes(&names(&["CptHost", "MSTeams", "Arc"]));
    assert_eq!(
        scan,
        ProcessScan { zoom_running: false, zoom_meeting: true, teams_running: true, browser_running: true }
    );
    assert!(!scan_processes(&names(&["Google Chrome Helper"])).browser_running);
}

#[test]
fn snapshots_per_app() {
    let scan = ProcessScan { zoom_running: false, zoom_meeting: true, teams_running: true, browser_running: true };
    let snaps = poll_snapshots(scan, true, false);
    assert_eq!(
        snaps,
        vec![
            (MeetingApp::Zoom, SignalSnapshot { app_running: true, meeting_marker: true, mic_in_use: true }),
            (MeetingApp::Teams, SignalSnapshot { app_running: true, meeting_marker: true, mic_in_use: true }),
            (MeetingApp::Meet, SignalSnapshot { app_running: true, meeting_marker: false, mic_in_use: true }),
        ]
    );
    assert!(should_probe_meet(scan, true));
    assert!(!should_probe_meet(scan, false));
}

#[test]
fn microphone_query_choice() {
    assert_eq!(mic_query(true), MicQuery::PerProcess);
    assert_eq!(mic_query(false), MicQuery::Device);
    assert!(mic_reading(MicQuery::Device, Some(true)));
    assert!(!mic_reading(MicQuery::PerProcess, Some(false)));
    // Unavailable per-process query while we record: the mic counts as in use.
    assert!(mic_reading(MicQuery::PerProcess, None));
    assert!(!mic_reading(MicQuery::Device, None));
}

#[test]
fn tab_listing_detection() {
    assert!(listing_has_meeting("https://example.com\nhttps://meet.google.com/abc-defg-hij\n"));
    assert!(!listing_has_meeting("https://meet.google.com/\nhttps://meet.google.com/landing\n"));
    assert!(!listing_has_meeting(""));
}

#[test]
fn browsers_and_script() {
    let b = meet_browsers();
    assert_eq!(b.len(), 5);
    assert_eq!(b[0], ("Google Chrome", BrowserKind::Chromium));
    assert_eq!(b[4], ("Safari", BrowserKind::Safari));
    let script = meet_tab_script("Arc", BrowserKind::Chromium);
    assert!(script.starts_with(
        "tell application \"System Events\" to set isRunning to (name of processes) contains \"Arc\"\n"
    ));
    assert!(script.contains("  tell application \"Arc\"\n"));
    assert!(script.ends_with("end if\nreturn \"\""));
}

#[test]
fn per_process_probe_decisions() {
    assert_eq!(process_object_count(0, 12), Some(3));
    assert_eq!(process_object_count(1, 12), None);
    assert_eq!(process_object_count(0, 0), None);
    assert!(object_capturing(100, Some(200), Some(1)));
    assert!(!object_capturing(100, Some(100), Some(1)));
    assert!(!object_capturing(100, Some(200), Some(0)));
    assert!(!object_capturing(100, None, Some(1)));
    assert!(!object_capturing(100, Some(200), None));
}

#[test]
fn meet_marker_needs_browser_and_live_mic() {
    let scan = ProcessScan { zoom_running: false, zoom_meeting: false, teams_running: false, browser_running: true };
    assert!(poll_snapshots(scan, true, true)[2].1.meeting_marker);
    assert!(!poll_snapshots(scan, false, true)[2].1.meeting_marker);
    let no_browser = ProcessScan { browser_running: false, ..scan };
    assert!(!poll_snapshots(no_browser, true, true)[2].1.meeting_marker);
}

#[test]
fn per_process_aggregation() {
    let objs = vec![(Some(100), Some(1)), (None, Some(1)), (Some(7), Some(0))];
    assert_eq!(any_other_capturing(100, Some(3), Some(&objs)), Some(false));
    let objs2 = vec![(Some(100), Some(1)), (Some(200), Some(1))];
    assert_eq!(any_other_capturing(100, Some(2), Some(&objs2)), Some(true));
    assert_eq!(any_other_capturing(100, None, Some(&objs2)), None);
    assert_eq!(any_other_capturing(100, Some(2), None), None);
    assert_eq!(any_other_capturing(100, Some(0), Some(&[])), Some(false));
}
