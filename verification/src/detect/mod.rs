//! Meeting detection: platform signals in, clean events out.
//!
//! `state` is the per-app state machine; `meet_url` classifies Google Meet
//! tab URLs. [`Detector`] wires one `AppDetector` per conferencing app to a
//! signal source and aggregates their events.

pub mod meet_url;
pub mod signals;
pub mod state;

use vstd::prelude::*;

use state::{
    step, step_events, AppDetector, Debounce, DetectorEvent, DetectorView, MeetingApp,
    MeetingPhase, SignalSnapshot,
};

verus! {

/// Poll cadence, in seconds, while at least one conferencing app is running.
pub const ACTIVE_POLL: u64 = 2;

/// Poll cadence, in seconds, while nothing we watch is running.
pub const IDLE_POLL: u64 = 15;

/// Anything that can produce per-app signal snapshots (the OS in
/// production, scripted fakes in tests). One entry per watched app.
///
/// `answers` is the history of what `poll` has returned, oldest first. An
/// implementation states its history by defining `answers`; without it
/// the history reads as empty and such an implementation does not meet
/// `poll`'s contract.
pub trait SignalSource {
    closed spec fn answers(&self) -> Seq<Seq<(MeetingApp, SignalSnapshot)>> {
        Seq::empty()
    }

    fn poll(&mut self) -> (r: Vec<(MeetingApp, SignalSnapshot)>)
        ensures
            final(self).answers() == old(self).answers().push(r@),
    ;
}

/// The snapshot reported for `app` among `snaps[k..]`: the first entry for
/// that app, or an all-false snapshot when there is none.
pub open spec fn snapshot_from(
    snaps: Seq<(MeetingApp, SignalSnapshot)>,
    app: MeetingApp,
    k: int,
) -> SignalSnapshot
    decreases snaps.len() - k,
{
    if 0 <= k < snaps.len() {
        if state::same_app(snaps[k].0, app) {
            snaps[k].1
        } else {
            snapshot_from(snaps, app, k + 1)
        }
    } else {
        SignalSnapshot { app_running: false, meeting_marker: false, mic_in_use: false }
    }
}

/// The snapshot reported for `app` (all-false when the source has none).
pub open spec fn snapshot_for(
    snaps: Seq<(MeetingApp, SignalSnapshot)>,
    app: MeetingApp,
) -> SignalSnapshot {
    snapshot_from(snaps, app, 0)
}

/// The events of the first `k` detectors, in detector order, for one tick.
pub open spec fn tick_events(
    views: Seq<DetectorView>,
    snaps: Seq<(MeetingApp, SignalSnapshot)>,
    k: int,
) -> Seq<DetectorEvent>
    decreases k,
{
    if k <= 0 {
        seq![]
    } else {
        tick_events(views, snaps, k - 1) + step_events(
            views[k - 1],
            snapshot_for(snaps, views[k - 1].app),
        )
    }
}

/// Every detector advanced by the snapshot reported for its app.
pub open spec fn tick_views(
    views: Seq<DetectorView>,
    snaps: Seq<(MeetingApp, SignalSnapshot)>,
) -> Seq<DetectorView> {
    Seq::new(views.len(), |i: int| step(views[i], snapshot_for(snaps, views[i].app)))
}

/// The detectors a new [`Detector`] starts with: Zoom, then Teams and Meet,
/// whose weak markers need mic corroboration.
pub open spec fn initial_views() -> Seq<DetectorView> {
    let base = Debounce { enter_ticks: 2, exit_ticks: 5, require_mic_for: false };
    let mic = Debounce { require_mic_for: true, ..base };
    seq![idle_view(MeetingApp::Zoom, base), idle_view(MeetingApp::Teams, mic), idle_view(MeetingApp::Meet, mic)]
}

pub open spec fn idle_view(app: MeetingApp, debounce: Debounce) -> DetectorView {
    DetectorView {
        app,
        debounce,
        phase: MeetingPhase::Idle,
        marker_streak: 0,
        absence_streak: 0,
        mic_seen_during_meeting: false,
    }
}

/// The apps of `views[..k]` whose detector is in a meeting, in order.
pub open spec fn in_meeting(views: Seq<DetectorView>, k: int) -> Seq<MeetingApp>
    decreases k,
{
    if k <= 0 {
        seq![]
    } else if views[k - 1].phase == MeetingPhase::InMeeting {
        in_meeting(views, k - 1).push(views[k - 1].app)
    } else {
        in_meeting(views, k - 1)
    }
}

/// Whether any detector sees its app running.
pub open spec fn any_running(views: Seq<DetectorView>) -> bool {
    exists|i: int| 0 <= i < views.len() && views[i].phase != MeetingPhase::Idle
}

/// Multiplexes signal snapshots into per-app detectors and aggregates events.
pub struct Detector<S: SignalSource> {
    source: S,
    apps: Vec<AppDetector>,
}

impl<S: SignalSource> Detector<S> {
    /// The state of each per-app detector, in order.
    pub closed spec fn views(&self) -> Seq<DetectorView> {
        self.apps@.map_values(|a: AppDetector| a@)
    }

    /// What the signal source has answered so far, oldest first.
    pub closed spec fn answers(&self) -> Seq<Seq<(MeetingApp, SignalSnapshot)>> {
        self.source.answers()
    }

    pub fn new(source: S) -> (r: Self)
        ensures
            r.views() == initial_views(),
            r.answers() == source.answers(),
    {
        let mut apps: Vec<AppDetector> = Vec::new();
        apps.push(AppDetector::new(MeetingApp::Zoom, Debounce::default()));
        // Teams and Meet have no meeting-only process marker, so their
        // markers are mic-corroborated.
        let base = Debounce::default();
        apps.push(
            AppDetector::new(
                MeetingApp::Teams,
                Debounce { require_mic_for: true, ..base },
            ),
        );
        apps.push(
            AppDetector::new(
                MeetingApp::Meet,
                Debounce { require_mic_for: true, ..base },
            ),
        );
        let r = Detector { source, apps };
        assert(r.views() =~= initial_views());
        r
    }

    /// Whether any watched app is currently running (drives poll cadence).
    pub fn any_app_running(&self) -> (r: bool)
        ensures
            r == any_running(self.views()),
    {
        let mut i: usize = 0;
        while i < self.apps.len()
            invariant
                i <= self.apps@.len(),
                forall|j: int| 0 <= j < i ==> self.views()[j].phase == MeetingPhase::Idle,
            decreases self.apps@.len() - i,
        {
            if self.apps[i].phase() != MeetingPhase::Idle {
                assert(self.views()[i as int].phase != MeetingPhase::Idle);
                return true;
            }
            i += 1;
        }
        false
    }

    /// One tick: poll the source, then advance every app detector.
    pub fn tick(&mut self) -> (events: Vec<DetectorEvent>)
        ensures
            final(self).answers().len() == old(self).answers().len() + 1,
            final(self).answers().drop_last() == old(self).answers(),
            final(self).views() == tick_views(old(self).views(), final(self).answers().last()),
            events@ == tick_events(
                old(self).views(),
                final(self).answers().last(),
                old(self).views().len() as int,
            ),
    {
        let ghost old_views = self.views();
        let snapshots = self.source.poll();
        let events = self.advance(&snapshots);
        assert(self.views() == tick_views(old_views, snapshots@) && events@ == tick_events(
            old_views,
            snapshots@,
            old_views.len() as int,
        ));
        events
    }

    /// Advance every app detector by the snapshot reported for its app.
    pub fn advance(&mut self, snapshots: &Vec<(MeetingApp, SignalSnapshot)>) -> (events: Vec<
        DetectorEvent,
    >)
        ensures
            final(self).views() == tick_views(old(self).views(), snapshots@),
            events@ == tick_events(old(self).views(), snapshots@, old(self).views().len() as int),
            final(self).answers() == old(self).answers(),
    {
        let ghost old_views = self.views();
        let mut pending: Vec<AppDetector> = Vec::new();
        std::mem::swap(&mut pending, &mut self.apps);
        let n = pending.len();
        let mut done: Vec<AppDetector> = Vec::new();
        let mut events: Vec<DetectorEvent> = Vec::new();
        let mut i: usize = 0;
        while i < n
            invariant
                i <= n,
                n == old_views.len(),
                pending@.len() == n - i,
                done@.len() == i,
                forall|j: int|
                    0 <= j < n - i ==> (#[trigger] pending@[j])@ == old_views[j + i as int],
                forall|j: int|
                    0 <= j < i ==> (#[trigger] done@[j])@ == step(
                        old_views[j],
                        snapshot_for(snapshots@, old_views[j].app),
                    ),
                events@ == tick_events(old_views, snapshots@, i as int),
            decreases n - i,
        {
            let mut det = pending.remove(0);
            let snap = snapshot_of(snapshots, det.app());
            let mut ev = det.tick(snap);
            events.append(&mut ev);
            done.push(det);
            i += 1;
        }
        self.apps = done;
        assert(self.views() =~= tick_views(old_views, snapshots@));
        events
    }

    /// The apps currently in a meeting, in detector order. When a recording
    /// ends, a concurrent meeting that was ignored meanwhile is re-offered
    /// from this list (the detectors will not announce it again).
    pub fn active_meetings(&self) -> (r: Vec<MeetingApp>)
        ensures
            r@ == in_meeting(self.views(), self.views().len() as int),
    {
        let mut out: Vec<MeetingApp> = Vec::new();
        let mut i: usize = 0;
        while i < self.apps.len()
            invariant
                i <= self.apps@.len(),
                out@ == in_meeting(self.views(), i as int),
            decreases self.apps@.len() - i,
        {
            if self.apps[i].phase() == MeetingPhase::InMeeting {
                out.push(self.apps[i].app().clone());
            }
            i += 1;
        }
        out
    }

    /// The cadence, in seconds, the caller should sleep before the next tick.
    pub fn next_poll_interval(&self) -> (secs: u64)
        ensures
            secs == if any_running(self.views()) {
                ACTIVE_POLL
            } else {
                IDLE_POLL
            },
    {
        if self.any_app_running() {
            ACTIVE_POLL
        } else {
            IDLE_POLL
        }
    }
}

/// The snapshot reported for `app` (all-false when there is none).
pub fn snapshot_of(snapshots: &Vec<(MeetingApp, SignalSnapshot)>, app: &MeetingApp) -> (r:
    SignalSnapshot)
    ensures
        r == snapshot_for(snapshots@, *app),
{
    let mut k: usize = 0;
    while k < snapshots.len()
        invariant
            k <= snapshots@.len(),
            snapshot_from(snapshots@, *app, k as int) == snapshot_for(snapshots@, *app),
        decreases snapshots@.len() - k,
    {
        if snapshots[k].0.same_as(app) {
            return snapshots[k].1;
        }
        k += 1;
    }
    SignalSnapshot::default()
}

} // verus!
