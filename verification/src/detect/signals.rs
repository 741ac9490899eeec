//! How raw platform observations become per-app signal snapshots.
//!
//! - Zoom: the `CptHost` helper exists only during an active meeting.
//!   Process names are matched exactly, never by substring — Zoom also ships
//!   a `caphost` helper that runs whenever Zoom is open.
//! - Teams 2.x exposes no meeting-only process; "Teams running + mic in use"
//!   is the marker.
//! - Google Meet has no process at all: browser tabs are listed and matched
//!   against meeting URLs. That probe is comparatively expensive, so it runs
//!   only while a browser runs and the microphone is live.
//! - The microphone: while we record ourselves the device-level flag is
//!   pinned on, so the per-process query (which skips our own process) is
//!   asked instead; when that query is unavailable the microphone counts
//!   as in use, so a meeting end is never invented mid-recording.
//!
//! The process list, the microphone queries and the tab listing come from
//! the operating system; this module decides what they mean.

use vstd::prelude::*;

use super::meet_url::{is_meet_meeting_url, is_meeting_url};
use super::state::{MeetingApp, SignalSnapshot};
use crate::text::{chars_of, find_at, lemma_find_from, push_str, split_from, split_on, string_of};

verus! {

/// Exact process name that exists only during a Zoom meeting.
pub const ZOOM_MEETING_PROCESS: &'static str = "CptHost";

/// Zoom's main client process.
pub const ZOOM_APP_PROCESS: &'static str = "zoom.us";

/// Teams 2.x main process.
pub const TEAMS_APP_PROCESS: &'static str = "MSTeams";

/// How a browser's tabs are listed.
#[derive(Debug, Clone, Copy, PartialEq, Eq, Structural)]
pub enum BrowserKind {
    Chromium,
    Safari,
}

/// One edge of an application's lifecycle (used to switch the poll cadence).
#[derive(Debug, Clone, Copy, PartialEq, Eq, Structural)]
pub enum AppLifecycle {
    Launched,
    Terminated,
}

/// The microphone monitor. It holds no state: each query asks the audio
/// system afresh.
#[derive(Debug)]
pub struct MicMonitor;

impl MicMonitor {
    pub fn new() -> (r: Self) {
        MicMonitor
    }
}

/// The browsers probed for Meet tabs, with their tab-listing dialect.
pub open spec fn meet_browser_list() -> Seq<(Seq<char>, BrowserKind)> {
    seq![
        ("Google Chrome"@, BrowserKind::Chromium),
        ("Arc"@, BrowserKind::Chromium),
        ("Microsoft Edge"@, BrowserKind::Chromium),
        ("Brave Browser"@, BrowserKind::Chromium),
        ("Safari"@, BrowserKind::Safari),
    ]
}

/// The browsers probed for Meet tabs, in probing order.
pub fn meet_browsers() -> (r: Vec<(&'static str, BrowserKind)>)
    ensures
        r@.map_values(|b: (&'static str, BrowserKind)| (b.0@, b.1)) == meet_browser_list(),
{
    let mut v: Vec<(&'static str, BrowserKind)> = Vec::new();
    v.push(("Google Chrome", BrowserKind::Chromium));
    v.push(("Arc", BrowserKind::Chromium));
    v.push(("Microsoft Edge", BrowserKind::Chromium));
    v.push(("Brave Browser", BrowserKind::Chromium));
    v.push(("Safari", BrowserKind::Safari));
    proof {
        assert(v@.map_values(|b: (&'static str, BrowserKind)| (b.0@, b.1)) =~= meet_browser_list());
    }
    v
}

/// What one pass over the process list found.
#[derive(Debug, Clone, Copy, PartialEq, Eq, Structural)]
pub struct ProcessScan {
    pub zoom_running: bool,
    pub zoom_meeting: bool,
    pub teams_running: bool,
    pub browser_running: bool,
}

pub open spec fn names_of(v: Seq<String>) -> Seq<Seq<char>> {
    v.map_values(|s: String| s@)
}

pub open spec fn is_browser(name: Seq<char>) -> bool {
    exists|i: int| 0 <= i < meet_browser_list().len() && meet_browser_list()[i].0 == name
}

/// The scan of a process list: each flag is set when some process has
/// exactly that name.
pub open spec fn scan_of(names: Seq<Seq<char>>) -> ProcessScan {
    ProcessScan {
        zoom_running: names.contains(ZOOM_APP_PROCESS@),
        zoom_meeting: names.contains(ZOOM_MEETING_PROCESS@),
        teams_running: names.contains(TEAMS_APP_PROCESS@),
        browser_running: exists|i: int| 0 <= i < names.len() && is_browser(#[trigger] names[i]),
    }
}

/// Whether `s` equals the literal `lit`.
fn same_text(s: &String, lit: &str) -> (r: bool)
    ensures
        r == (s@ == lit@),
{
    let l = crate::text::string_from(lit);
    *s == l
}

/// Whether `name` is one of the probed browsers.
fn is_browser_name(name: &String) -> (r: bool)
    ensures
        r == is_browser(name@),
{
    let browsers = meet_browsers();
    let mut i: usize = 0;
    while i < browsers.len()
        invariant
            i <= browsers@.len(),
            browsers@.map_values(|b: (&'static str, BrowserKind)| (b.0@, b.1))
                == meet_browser_list(),
            forall|k: int| 0 <= k < i ==> meet_browser_list()[k].0 != name@,
        decreases browsers@.len() - i,
    {
        if same_text(name, browsers[i].0) {
            proof {
                assert(meet_browser_list()[i as int].0 == name@);
            }
            return true;
        }
        proof {
            assert(meet_browser_list()[i as int].0 == browsers@[i as int].0@);
        }
        i = i + 1;
    }
    false
}

/// One pass over the running processes' names, matching exactly.
pub fn scan_processes(names: &[String]) -> (r: ProcessScan)
    ensures
        r == scan_of(names_of(names@)),
{
    let ghost nv = names_of(names@);
    let mut zoom_running = false;
    let mut zoom_meeting = false;
    let mut teams_running = false;
    let mut browser_running = false;
    let mut i: usize = 0;
    while i < names.len()
        invariant
            i <= names@.len(),
            nv == names_of(names@),
            zoom_running == nv.subrange(0, i as int).contains(ZOOM_APP_PROCESS@),
            zoom_meeting == nv.subrange(0, i as int).contains(ZOOM_MEETING_PROCESS@),
            teams_running == nv.subrange(0, i as int).contains(TEAMS_APP_PROCESS@),
            browser_running == exists|k: int| 0 <= k < i && is_browser(#[trigger] nv[k]),
        decreases names@.len() - i,
    {
        let name = &names[i];
        let ghost pre = nv.subrange(0, i as int);
        proof {
            reveal_strlit("zoom.us");
            reveal_strlit("CptHost");
            reveal_strlit("MSTeams");
            assert(ZOOM_APP_PROCESS@[0] == 'z' && ZOOM_MEETING_PROCESS@[0] == 'C'
                && TEAMS_APP_PROCESS@[0] == 'M');
            assert(ZOOM_APP_PROCESS@ != ZOOM_MEETING_PROCESS@);
            assert(ZOOM_APP_PROCESS@ != TEAMS_APP_PROCESS@);
            assert(ZOOM_MEETING_PROCESS@ != TEAMS_APP_PROCESS@);
            assert(nv.subrange(0, i + 1) == pre.push(name@));
            assert forall|x: Seq<char>| pre.push(name@).contains(x) <==> (pre.contains(x) || x == name@) by {
                if pre.push(name@).contains(x) {
                    let k = choose|k: int| 0 <= k < pre.len() + 1 && pre.push(name@)[k] == x;
                    if k < pre.len() {
                        assert(pre[k] == x);
                    }
                }
                if pre.contains(x) {
                    let k = choose|k: int| 0 <= k < pre.len() && pre[k] == x;
                    assert(pre.push(name@)[k] == x);
                }
                if x == name@ {
                    assert(pre.push(name@)[pre.len() as int] == x);
                }
            }
        }
        if same_text(name, ZOOM_APP_PROCESS) {
            zoom_running = true;
        } else if same_text(name, ZOOM_MEETING_PROCESS) {
            zoom_meeting = true;
        } else if same_text(name, TEAMS_APP_PROCESS) {
            teams_running = true;
        } else if is_browser_name(name) {
            browser_running = true;
        }
        proof {
            reveal_strlit("zoom.us");
            reveal_strlit("CptHost");
            reveal_strlit("MSTeams");
            reveal_strlit("Google Chrome");
            reveal_strlit("Arc");
            reveal_strlit("Microsoft Edge");
            reveal_strlit("Brave Browser");
            reveal_strlit("Safari");
            assert(nv[i as int] == name@);
            if name@ == ZOOM_APP_PROCESS@ || name@ == ZOOM_MEETING_PROCESS@ || name@
                == TEAMS_APP_PROCESS@ {
                assert(!is_browser(name@)) by {
                    if is_browser(name@) {
                        let k = choose|k: int|
                            0 <= k < meet_browser_list().len() && meet_browser_list()[k].0
                                == name@;
                        assert(meet_browser_list()[k].0.len() != name@.len()
                            || meet_browser_list()[k].0[0] != name@[0]);
                    }
                }
            }
        }
        i = i + 1;
    }
    proof {
        assert(nv.subrange(0, names@.len() as int) == nv);
    }
    ProcessScan { zoom_running, zoom_meeting, teams_running, browser_running }
}

/// The Meet tab probe runs only while a browser runs and the mic is live.
pub fn should_probe_meet(scan: ProcessScan, mic: bool) -> (r: bool)
    ensures
        r == (scan.browser_running && mic),
{
    scan.browser_running && mic
}

/// Which microphone query answers "is someone else using the mic?".
#[derive(Debug, Clone, Copy, PartialEq, Eq, Structural)]
pub enum MicQuery {
    /// Device-level "running somewhere" flag.
    Device,
    /// Per-process input activity, skipping our own process.
    PerProcess,
}

/// While we record ourselves the device flag is pinned on, so the
/// per-process query is asked instead.
pub fn mic_query(self_recording: bool) -> (r: MicQuery)
    ensures
        r == (if self_recording {
            MicQuery::PerProcess
        } else {
            MicQuery::Device
        }),
{
    if self_recording {
        MicQuery::PerProcess
    } else {
        MicQuery::Device
    }
}

/// A query's answer. When the per-process query is unavailable (before
/// macOS 14) while we record, the microphone counts as in use: otherwise a
/// meeting end would be invented seconds into every recording, and the end
/// degrades to app quit or tab close instead. An unavailable device-level
/// answer counts as "not in use".
pub fn mic_reading(query: MicQuery, answer: Option<bool>) -> (r: bool)
    ensures
        r == match answer {
            Some(b) => b,
            None => query == MicQuery::PerProcess,
        },
{
    match answer {
        Some(b) => b,
        None => match query {
            MicQuery::PerProcess => true,
            MicQuery::Device => false,
        },
    }
}

/// The three watched apps' snapshots for one poll.
pub open spec fn snapshots_of(scan: ProcessScan, mic: bool, meet_tab: bool) -> Seq<
    (MeetingApp, SignalSnapshot),
> {
    seq![
        (
            MeetingApp::Zoom,
            SignalSnapshot {
                app_running: scan.zoom_running || scan.zoom_meeting,
                meeting_marker: scan.zoom_meeting,
                mic_in_use: mic,
            },
        ),
        (
            MeetingApp::Teams,
            SignalSnapshot {
                app_running: scan.teams_running,
                meeting_marker: scan.teams_running && mic,
                mic_in_use: mic,
            },
        ),
        (
            MeetingApp::Meet,
            SignalSnapshot {
                app_running: scan.browser_running,
                meeting_marker: scan.browser_running && mic && meet_tab,
                mic_in_use: mic,
            },
        ),
    ]
}

/// Snapshots for Zoom (running when its client or meeting helper runs;
/// marker = the meeting helper), Teams (marker = running with the mic
/// live) and Meet (running = a browser runs; marker = a meeting tab seen by
/// the tab probe, which only runs while a browser runs and the mic is live:
/// see [`should_probe_meet`]; `meet_tab` is the probe's answer, and is
/// disregarded when the probe was not due).
pub fn poll_snapshots(scan: ProcessScan, mic: bool, meet_tab: bool) -> (r: Vec<
    (MeetingApp, SignalSnapshot),
>)
    ensures
        r@ == snapshots_of(scan, mic, meet_tab),
{
    let mut v: Vec<(MeetingApp, SignalSnapshot)> = Vec::new();
    v.push(
        (
            MeetingApp::Zoom,
            SignalSnapshot {
                app_running: scan.zoom_running || scan.zoom_meeting,
                meeting_marker: scan.zoom_meeting,
                mic_in_use: mic,
            },
        ),
    );
    v.push(
        (
            MeetingApp::Teams,
            SignalSnapshot {
                app_running: scan.teams_running,
                meeting_marker: scan.teams_running && mic,
                mic_in_use: mic,
            },
        ),
    );
    v.push(
        (
            MeetingApp::Meet,
            SignalSnapshot {
                app_running: scan.browser_running,
                meeting_marker: should_probe_meet(scan, mic) && meet_tab,
                mic_in_use: mic,
            },
        ),
    );
    proof {
        assert(v@ =~= snapshots_of(scan, mic, meet_tab));
    }
    v
}

/// Whether a browser's tab listing (one URL per line) holds a meeting URL.
pub open spec fn lists_meeting(listing: Seq<char>) -> bool {
    exists|i: int|
        0 <= i < split_on(listing, '\n').len() && is_meeting_url(
            #[trigger] split_on(listing, '\n')[i],
        )
}

/// Whether any line of a tab listing is a Meet meeting URL.
pub fn listing_has_meeting(listing: &str) -> (r: bool)
    ensures
        r == lists_meeting(listing@),
{
    let v = chars_of(listing);
    let ghost s = v@;
    let ghost mut done: Seq<Seq<char>> = seq![];
    let mut i: usize = 0;
    loop
        invariant
            i <= v@.len(),
            s == v@,
            s == listing@,
            split_on(s, '\n') == done + split_from(s, '\n', i as int),
            forall|k: int| 0 <= k < done.len() ==> !is_meeting_url(#[trigger] done[k]),
        decreases v@.len() - i,
    {
        let j = find_at(&v, '\n', i, v.len());
        proof {
            lemma_find_from(s, '\n', i as int, s.len() as int);
        }
        let piece = string_of(&v, i, j);
        let hit = is_meet_meeting_url(piece.as_str());
        if hit {
            proof {
                if j < v.len() {
                    assert(split_from(s, '\n', i as int)[0] == s.subrange(i as int, j as int));
                } else {
                    assert(split_from(s, '\n', i as int) == seq![s.subrange(i as int, s.len() as int)]);
                }
                assert(split_on(s, '\n')[done.len() as int] == piece@);
            }
            return true;
        }
        if j >= v.len() {
            proof {
                assert(split_from(s, '\n', i as int) == seq![s.subrange(i as int, s.len() as int)]);
                let all = split_on(s, '\n');
                assert forall|k: int| 0 <= k < all.len() implies !is_meeting_url(#[trigger] all[k]) by {
                    if k < done.len() {
                        assert(all[k] == done[k]);
                    }
                }
            }
            return false;
        }
        proof {
            assert(split_from(s, '\n', i as int) == seq![s.subrange(i as int, j as int)]
                + split_from(s, '\n', j + 1));
            done = done.push(s.subrange(i as int, j as int));
            assert(split_on(s, '\n') == done + split_from(s, '\n', j + 1));
        }
        i = j + 1;
    }
}

/// The tab-listing script for one browser: if the browser is running, its
/// windows' tab URLs, one per line; otherwise nothing.
pub open spec fn tab_script(browser: Seq<char>) -> Seq<char> {
    "tell application \"System Events\" to set isRunning to (name of processes) contains \""@
        + browser + "\"\nif isRunning then\n  tell application \""@ + browser
        + "\"\n    set out to \"\"\n    repeat with w in windows\n      repeat with t in tabs of w\n        set out to out & (URL of t) & \"\\n\"\n      end repeat\n    end repeat\n    return out\n  end tell\nend if\nreturn \"\""@
}

/// The tab-listing script for `browser`; both dialects read each tab's
/// `URL` property.
pub fn meet_tab_script(browser: &str, _kind: BrowserKind) -> (r: String)
    ensures
        r@ == tab_script(browser@),
{
    let mut out = String::new();
    push_str(
        &mut out,
        "tell application \"System Events\" to set isRunning to (name of processes) contains \"",
    );
    push_str(&mut out, browser);
    push_str(&mut out, "\"\nif isRunning then\n  tell application \"");
    push_str(&mut out, browser);
    push_str(
        &mut out,
        "\"\n    set out to \"\"\n    repeat with w in windows\n      repeat with t in tabs of w\n        set out to out & (URL of t) & \"\\n\"\n      end repeat\n    end repeat\n    return out\n  end tell\nend if\nreturn \"\"",
    );
    proof {
        assert(Seq::<char>::empty() + "tell application \"System Events\" to set isRunning to (name of processes) contains \""@
            == "tell application \"System Events\" to set isRunning to (name of processes) contains \""@);
    }
    out
}

/// How many process objects a list of `size` bytes holds, when the size
/// query succeeded (`status == 0`) and reported any; `None` means the
/// per-process query is unavailable.
pub fn process_object_count(status: i32, size: u32) -> (r: Option<usize>)
    ensures
        r == (if status != 0 || size == 0 {
            None
        } else {
            Some((size / 4) as usize)
        }),
{
    if status != 0 || size == 0 {
        None
    } else {
        Some((size / 4) as usize)
    }
}

/// Whether one audio process object shows someone else capturing input:
/// its process id was read and is not ours, and its input-running flag was
/// read as set. Objects whose properties cannot be read are skipped.
pub fn object_capturing(own_pid: i32, pid: Option<i32>, running: Option<u32>) -> (r: bool)
    ensures
        r == (pid is Some && pid->0 != own_pid && running is Some && running->0 != 0),
{
    match (pid, running) {
        (Some(p), Some(x)) => p != own_pid && x != 0,
        _ => false,
    }
}

/// Whether one process object's readings show someone else capturing.
pub open spec fn capturing(own_pid: i32, pid: Option<i32>, running: Option<u32>) -> bool {
    pid is Some && pid->0 != own_pid && running is Some && running->0 != 0
}

/// Whether any process besides ours is capturing input, from the
/// per-process audio objects: `None` when the object count could not be
/// read (or was zero) or the object list could not be read; otherwise
/// whether some object's readings show another process capturing.
pub fn any_other_capturing(
    own_pid: i32,
    count: Option<usize>,
    objects: Option<&[(Option<i32>, Option<u32>)]>,
) -> (r: Option<bool>)
    ensures
        (count is None || objects is None) ==> r is None,
        (count is Some && objects is Some) ==> r == Some(
            exists|i: int|
                0 <= i < objects->0@.len() && capturing(
                    own_pid,
                    (#[trigger] objects->0@[i]).0,
                    objects->0@[i].1,
                ),
        ),
{
    if count.is_none() {
        return None;
    }
    match objects {
        None => None,
        Some(objs) => {
            let mut i: usize = 0;
            while i < objs.len()
                invariant
                    i <= objs@.len(),
                    count is Some,
                    objects == Some(objs),
                    forall|k: int|
                        0 <= k < i ==> !capturing(own_pid, (#[trigger] objs@[k]).0, objs@[k].1),
                decreases objs@.len() - i,
            {
                if object_capturing(own_pid, objs[i].0, objs[i].1) {
                    proof {
                        assert(objects->0@[i as int] == objs@[i as int]);
                        assert(capturing(
                            own_pid,
                            objects->0@[i as int].0,
                            objects->0@[i as int].1,
                        ));
                    }
                    return Some(true);
                }
                i = i + 1;
            }
            Some(false)
        },
    }
}

} // verus!

verus! {

/// What each snapshot of a poll means: every app sees the same mic
/// reading; Zoom runs when its client or meeting helper runs and is in a
/// meeting exactly when the helper runs; Teams shows a meeting only while
/// it runs and the mic is live (so a Teams call ends once the mic goes
/// quiet); Meet runs when a browser runs and shows a meeting only when the
/// tab probe found one while a browser ran and the mic was live.
pub proof fn lemma_poll_meaning(scan: ProcessScan, mic: bool, meet_tab: bool)
    ensures
        ({
            let snaps = snapshots_of(scan, mic, meet_tab);
            &&& snaps.len() == 3
            &&& forall|i: int| 0 <= i < 3 ==> (#[trigger] snaps[i]).1.mic_in_use == mic
            &&& snaps[0].0 == MeetingApp::Zoom && snaps[1].0 == MeetingApp::Teams && snaps[2].0
                == MeetingApp::Meet
            &&& snaps[0].1.app_running <==> (scan.zoom_running || scan.zoom_meeting)
            &&& snaps[0].1.meeting_marker <==> scan.zoom_meeting
            &&& snaps[1].1.app_running <==> scan.teams_running
            &&& snaps[1].1.meeting_marker ==> mic && scan.teams_running
            &&& (mic && scan.teams_running) ==> snaps[1].1.meeting_marker
            &&& snaps[2].1.app_running <==> scan.browser_running
            &&& snaps[2].1.meeting_marker ==> mic && scan.browser_running && meet_tab
            &&& (mic && scan.browser_running && meet_tab) ==> snaps[2].1.meeting_marker
        }),
{
}

} // verus!
