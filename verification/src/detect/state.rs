//! Platform-independent meeting-detection state machine.
//!
//! A signal source produces one [`SignalSnapshot`] per poll tick per
//! conferencing app; [`AppDetector`] turns those noisy snapshots into clean
//! `MeetingStarted` / `MeetingEnded` events with debouncing. Ticks are
//! abstract: the debounce thresholds count ticks, not seconds.

use vstd::prelude::*;

verus! {

/// The conferencing apps we watch. `Other` carries a stable key for apps
/// configured at runtime.
#[derive(Debug, PartialEq, Eq, Hash)]
pub enum MeetingApp {
    Zoom,
    Teams,
    /// Google Meet has no desktop process; it is detected via browser + mic signals.
    Meet,
    Other(String),
}

impl Clone for MeetingApp {
    fn clone(&self) -> (r: Self)
        ensures
            r == *self,
    {
        match self {
            MeetingApp::Zoom => MeetingApp::Zoom,
            MeetingApp::Teams => MeetingApp::Teams,
            MeetingApp::Meet => MeetingApp::Meet,
            MeetingApp::Other(name) => MeetingApp::Other(name.clone()),
        }
    }
}

/// Two apps name the same conferencing app (an `Other` key compares by its
/// characters).
pub open spec fn same_app(a: MeetingApp, b: MeetingApp) -> bool {
    match (a, b) {
        (MeetingApp::Zoom, MeetingApp::Zoom) => true,
        (MeetingApp::Teams, MeetingApp::Teams) => true,
        (MeetingApp::Meet, MeetingApp::Meet) => true,
        (MeetingApp::Other(x), MeetingApp::Other(y)) => x@ == y@,
        _ => false,
    }
}

/// The user-facing name of an app.
pub open spec fn display_name_of(a: MeetingApp) -> Seq<char> {
    match a {
        MeetingApp::Zoom => "Zoom"@,
        MeetingApp::Teams => "Microsoft Teams"@,
        MeetingApp::Meet => "Google Meet"@,
        MeetingApp::Other(name) => name@,
    }
}

impl MeetingApp {
    pub fn display_name(&self) -> (r: &str)
        ensures
            r@ == display_name_of(*self),
    {
        match self {
            MeetingApp::Zoom => "Zoom",
            MeetingApp::Teams => "Microsoft Teams",
            MeetingApp::Meet => "Google Meet",
            MeetingApp::Other(name) => name.as_str(),
        }
    }

    /// Whether `self` and `other` name the same app.
    pub fn same_as(&self, other: &MeetingApp) -> (r: bool)
        ensures
            r == same_app(*self, *other),
    {
        match (self, other) {
            (MeetingApp::Zoom, MeetingApp::Zoom) => true,
            (MeetingApp::Teams, MeetingApp::Teams) => true,
            (MeetingApp::Meet, MeetingApp::Meet) => true,
            (MeetingApp::Other(x), MeetingApp::Other(y)) => x.eq(y),
            _ => false,
        }
    }
}

/// One poll tick's worth of evidence about a single app.
#[derive(Debug, Clone, Copy, PartialEq, Eq)]
pub struct SignalSnapshot {
    /// The app's main process is running (or for Meet: a browser is running).
    pub app_running: bool,
    /// A meeting-specific marker is present.
    pub meeting_marker: bool,
    /// The default input device is in use system-wide.
    pub mic_in_use: bool,
}

impl Default for SignalSnapshot {
    fn default() -> (r: Self)
        ensures
            !r.app_running && !r.meeting_marker && !r.mic_in_use,
    {
        SignalSnapshot { app_running: false, meeting_marker: false, mic_in_use: false }
    }
}

/// Lifecycle of a single app's meeting, as inferred from signals.
#[derive(Debug, Clone, Copy, PartialEq, Eq, Structural)]
pub enum MeetingPhase {
    /// App not running (or no evidence of it).
    Idle,
    /// App running, no meeting detected yet.
    AppOpen,
    /// Meeting confirmed in progress.
    InMeeting,
}

/// Events emitted on phase transitions.
#[derive(Debug, PartialEq, Eq)]
pub enum DetectorEvent {
    AppLaunched(MeetingApp),
    MeetingStarted(MeetingApp),
    MeetingEnded(MeetingApp),
    AppQuit(MeetingApp),
}

impl Clone for DetectorEvent {
    fn clone(&self) -> (r: Self)
        ensures
            r == *self,
    {
        match self {
            DetectorEvent::AppLaunched(a) => DetectorEvent::AppLaunched(a.clone()),
            DetectorEvent::MeetingStarted(a) => DetectorEvent::MeetingStarted(a.clone()),
            DetectorEvent::MeetingEnded(a) => DetectorEvent::MeetingEnded(a.clone()),
            DetectorEvent::AppQuit(a) => DetectorEvent::AppQuit(a.clone()),
        }
    }
}

/// Debounce configuration, in poll ticks.
#[derive(Debug, Clone, Copy)]
pub struct Debounce {
    /// Consecutive ticks the meeting marker must be present to enter `InMeeting`.
    pub enter_ticks: u32,
    /// Consecutive ticks the marker must be absent to leave `InMeeting`.
    pub exit_ticks: u32,
    /// For marker-weak apps (Meet), also require the mic to be in use to
    /// start a meeting; either signal then keeps it alive.
    pub require_mic_for: bool,
}

impl Default for Debounce {
    fn default() -> (r: Self)
        ensures
            r.enter_ticks == 2,
            r.exit_ticks == 5,
            !r.require_mic_for,
    {
        Debounce { enter_ticks: 2, exit_ticks: 5, require_mic_for: false }
    }
}

/// The evidence that counts toward entering a meeting.
pub open spec fn enter_evidence(d: Debounce, s: SignalSnapshot) -> bool {
    if d.require_mic_for {
        s.meeting_marker && s.mic_in_use
    } else {
        s.meeting_marker
    }
}

/// The evidence that keeps an ongoing meeting alive.
pub open spec fn stay_evidence(d: Debounce, s: SignalSnapshot) -> bool {
    if d.require_mic_for {
        s.meeting_marker || s.mic_in_use
    } else {
        s.meeting_marker
    }
}

/// The abstract state of an [`AppDetector`].
pub struct DetectorView {
    pub app: MeetingApp,
    pub debounce: Debounce,
    pub phase: MeetingPhase,
    pub marker_streak: u32,
    pub absence_streak: u32,
    pub mic_seen_during_meeting: bool,
}

/// The invariant every detector state satisfies.
pub open spec fn detector_wf(v: DetectorView) -> bool {
    &&& v.phase == MeetingPhase::Idle ==> v.marker_streak == 0 && v.absence_streak == 0
        && !v.mic_seen_during_meeting
    &&& v.phase == MeetingPhase::AppOpen ==> v.absence_streak == 0 && !v.mic_seen_during_meeting
        && (v.marker_streak == 0 || v.marker_streak < v.debounce.enter_ticks)
    &&& v.phase == MeetingPhase::InMeeting ==> (v.absence_streak == 0 || v.absence_streak
        < v.debounce.exit_ticks)
}

/// The state with all streaks cleared and the given phase.
pub open spec fn reset(v: DetectorView, phase: MeetingPhase) -> DetectorView {
    DetectorView {
        phase,
        marker_streak: 0,
        absence_streak: 0,
        mic_seen_during_meeting: false,
        ..v
    }
}

/// The state after one tick with snapshot `s`.
pub open spec fn step(v: DetectorView, s: SignalSnapshot) -> DetectorView {
    if v.phase == MeetingPhase::Idle {
        if s.app_running {
            // Launch: the same tick may already count toward a meeting.
            step_app_open(DetectorView { phase: MeetingPhase::AppOpen, ..v }, s)
        } else {
            v
        }
    } else if !s.app_running {
        // Quit (or crash mid-meeting): everything ends at once.
        reset(v, MeetingPhase::Idle)
    } else if v.phase == MeetingPhase::AppOpen {
        step_app_open(v, s)
    } else {
        step_in_meeting(v, s)
    }
}

/// An `AppOpen` tick with the app running.
pub open spec fn step_app_open(v: DetectorView, s: SignalSnapshot) -> DetectorView {
    if enter_evidence(v.debounce, s) {
        if v.marker_streak + 1 >= v.debounce.enter_ticks {
            DetectorView {
                phase: MeetingPhase::InMeeting,
                marker_streak: (v.marker_streak + 1) as u32,
                absence_streak: 0,
                mic_seen_during_meeting: s.mic_in_use,
                ..v
            }
        } else {
            DetectorView { marker_streak: (v.marker_streak + 1) as u32, ..v }
        }
    } else {
        DetectorView { marker_streak: 0, ..v }
    }
}

/// An `InMeeting` tick with the app running.
pub open spec fn step_in_meeting(v: DetectorView, s: SignalSnapshot) -> DetectorView {
    let seen = v.mic_seen_during_meeting || s.mic_in_use;
    if stay_evidence(v.debounce, s) {
        DetectorView { absence_streak: 0, mic_seen_during_meeting: seen, ..v }
    } else if v.absence_streak + 1 >= v.debounce.exit_ticks {
        reset(v, MeetingPhase::AppOpen)
    } else {
        DetectorView {
            absence_streak: (v.absence_streak + 1) as u32,
            mic_seen_during_meeting: seen,
            ..v
        }
    }
}

/// Whether an `AppOpen` tick confirms a meeting.
pub open spec fn starts_meeting(v: DetectorView, s: SignalSnapshot) -> bool {
    enter_evidence(v.debounce, s) && v.marker_streak + 1 >= v.debounce.enter_ticks
}

/// Whether an `InMeeting` tick (app running) ends the meeting.
pub open spec fn ends_meeting(v: DetectorView, s: SignalSnapshot) -> bool {
    !stay_evidence(v.debounce, s) && v.absence_streak + 1 >= v.debounce.exit_ticks
}

/// The events one tick with snapshot `s` emits.
pub open spec fn step_events(v: DetectorView, s: SignalSnapshot) -> Seq<DetectorEvent> {
    if v.phase == MeetingPhase::Idle {
        if s.app_running {
            if starts_meeting(DetectorView { phase: MeetingPhase::AppOpen, ..v }, s) {
                seq![
                    DetectorEvent::AppLaunched(v.app),
                    DetectorEvent::MeetingStarted(v.app),
                ]
            } else {
                seq![DetectorEvent::AppLaunched(v.app)]
            }
        } else {
            seq![]
        }
    } else if !s.app_running {
        if v.phase == MeetingPhase::InMeeting {
            seq![DetectorEvent::MeetingEnded(v.app), DetectorEvent::AppQuit(v.app)]
        } else {
            seq![DetectorEvent::AppQuit(v.app)]
        }
    } else if v.phase == MeetingPhase::AppOpen {
        if starts_meeting(v, s) {
            seq![DetectorEvent::MeetingStarted(v.app)]
        } else {
            seq![]
        }
    } else if ends_meeting(v, s) {
        seq![DetectorEvent::MeetingEnded(v.app)]
    } else {
        seq![]
    }
}

/// The state after feeding `snaps` one tick at a time.
pub open spec fn run(v: DetectorView, snaps: Seq<SignalSnapshot>) -> DetectorView
    decreases snaps.len(),
{
    if snaps.len() == 0 {
        v
    } else {
        run(step(v, snaps[0]), snaps.drop_first())
    }
}

/// All events emitted while feeding `snaps` one tick at a time.
pub open spec fn run_events(v: DetectorView, snaps: Seq<SignalSnapshot>) -> Seq<DetectorEvent>
    decreases snaps.len(),
{
    if snaps.len() == 0 {
        seq![]
    } else {
        step_events(v, snaps[0]) + run_events(step(v, snaps[0]), snaps.drop_first())
    }
}

/// Every tick keeps the detector invariant.
pub proof fn lemma_step_wf(v: DetectorView, s: SignalSnapshot)
    requires
        detector_wf(v),
    ensures
        detector_wf(step(v, s)),
{
}

/// A tick emits at most two events.
pub proof fn lemma_at_most_two_events(v: DetectorView, s: SignalSnapshot)
    ensures
        step_events(v, s).len() <= 2,
{
}

/// Meeting events are balanced: a meeting starts only from outside a
/// meeting and lands in one; it ends only from inside one and leaves it.
pub proof fn lemma_meeting_events_alternate(v: DetectorView, s: SignalSnapshot, i: int)
    requires
        0 <= i < step_events(v, s).len(),
    ensures
        step_events(v, s)[i] is MeetingStarted ==> v.phase != MeetingPhase::InMeeting
            && step(v, s).phase == MeetingPhase::InMeeting,
        step_events(v, s)[i] is MeetingEnded ==> v.phase == MeetingPhase::InMeeting
            && step(v, s).phase != MeetingPhase::InMeeting,
{
}

/// An app that disappears mid-meeting ends the meeting at once, then
/// quits, regardless of debounce.
pub proof fn lemma_quit_mid_meeting(v: DetectorView, s: SignalSnapshot)
    requires
        v.phase == MeetingPhase::InMeeting,
        !s.app_running,
    ensures
        step(v, s).phase == MeetingPhase::Idle,
        step_events(v, s) == seq![DetectorEvent::MeetingEnded(v.app), DetectorEvent::AppQuit(v.app)],
{
}

/// Mic-corroborated apps never start a meeting on a tick where the mic is
/// quiet.
pub proof fn lemma_mic_required(v: DetectorView, s: SignalSnapshot)
    requires
        v.debounce.require_mic_for,
        !s.mic_in_use,
    ensures
        step(v, s).phase != MeetingPhase::InMeeting || v.phase == MeetingPhase::InMeeting,
        forall|i: int| 0 <= i < step_events(v, s).len() ==> !(step_events(v, s)[i] is MeetingStarted),
{
}

proof fn lemma_enter_prefix(v: DetectorView, snaps: Seq<SignalSnapshot>)
    requires
        detector_wf(v),
        v.phase == MeetingPhase::AppOpen,
        v.marker_streak + snaps.len() < v.debounce.enter_ticks,
        forall|i: int| 0 <= i < snaps.len() ==> (#[trigger] snaps[i]).app_running
            && enter_evidence(v.debounce, snaps[i]),
    ensures
        run(v, snaps) == (DetectorView { marker_streak: (v.marker_streak + snaps.len()) as u32, ..v }),
        run_events(v, snaps) == Seq::<DetectorEvent>::empty(),
    decreases snaps.len(),
{
    if snaps.len() > 0 {
        let w = step(v, snaps[0]);
        assert(snaps[0].app_running && enter_evidence(v.debounce, snaps[0]));
        let rest = snaps.drop_first();
        assert forall|i: int| 0 <= i < rest.len() implies (#[trigger] rest[i]).app_running
            && enter_evidence(w.debounce, rest[i]) by {
            assert(rest[i] == snaps[i + 1]);
        }
        lemma_enter_prefix(w, rest);
    }
}

/// Entering debounce: from an open app with no streak, fewer than
/// `enter_ticks` consecutive evidence ticks start nothing, and exactly
/// `enter_ticks` of them start the meeting on the last one.
pub proof fn lemma_enter_debounce(v: DetectorView, snaps: Seq<SignalSnapshot>)
    requires
        detector_wf(v),
        v.phase == MeetingPhase::AppOpen,
        v.marker_streak == 0,
        snaps.len() <= v.debounce.enter_ticks,
        forall|i: int| 0 <= i < snaps.len() ==> (#[trigger] snaps[i]).app_running
            && enter_evidence(v.debounce, snaps[i]),
    ensures
        snaps.len() < v.debounce.enter_ticks ==> run(v, snaps).phase == MeetingPhase::AppOpen
            && run_events(v, snaps) == Seq::<DetectorEvent>::empty(),
        snaps.len() == v.debounce.enter_ticks && snaps.len() > 0 ==> run(v, snaps).phase
            == MeetingPhase::InMeeting && run_events(v, snaps) == seq![
            DetectorEvent::MeetingStarted(v.app),
        ],
{
    if snaps.len() < v.debounce.enter_ticks {
        lemma_enter_prefix(v, snaps);
    } else if snaps.len() > 0 {
        let n = snaps.len() - 1;
        let pre = snaps.take(n);
        assert forall|i: int| 0 <= i < pre.len() implies (#[trigger] pre[i]).app_running
            && enter_evidence(v.debounce, pre[i]) by {
            assert(pre[i] == snaps[i]);
        }
        lemma_enter_prefix(v, pre);
        lemma_run_split(v, pre, seq![snaps[n]]);
        assert(pre + seq![snaps[n]] == snaps);
        let w = run(v, pre);
        assert(snaps[n].app_running && enter_evidence(v.debounce, snaps[n]));
        lemma_run_single(w, snaps[n]);
    }
}

proof fn lemma_run_single(v: DetectorView, s: SignalSnapshot)
    ensures
        run(v, seq![s]) == step(v, s),
        run_events(v, seq![s]) == step_events(v, s),
{
    let w = step(v, s);
    assert(seq![s].drop_first() == Seq::<SignalSnapshot>::empty());
    assert(run(w, Seq::<SignalSnapshot>::empty()) == w);
    assert(run_events(w, Seq::<SignalSnapshot>::empty()) == Seq::<DetectorEvent>::empty());
    assert(step_events(v, s) + Seq::<DetectorEvent>::empty() == step_events(v, s));
}

/// Running two stretches of ticks is running their concatenation.
pub proof fn lemma_run_split(v: DetectorView, a: Seq<SignalSnapshot>, b: Seq<SignalSnapshot>)
    ensures
        run(v, a + b) == run(run(v, a), b),
        run_events(v, a + b) == run_events(v, a) + run_events(run(v, a), b),
    decreases a.len(),
{
    if a.len() == 0 {
        assert(a + b == b);
        assert(Seq::<DetectorEvent>::empty() + run_events(v, b) == run_events(v, b));
    } else {
        assert((a + b)[0] == a[0]);
        assert((a + b).drop_first() == a.drop_first() + b);
        lemma_run_split(step(v, a[0]), a.drop_first(), b);
        let e0 = step_events(v, a[0]);
        let ea = run_events(step(v, a[0]), a.drop_first());
        let eb = run_events(run(step(v, a[0]), a.drop_first()), b);
        assert(e0 + (ea + eb) == (e0 + ea) + eb);
    }
}

proof fn lemma_exit_prefix(v: DetectorView, snaps: Seq<SignalSnapshot>)
    requires
        detector_wf(v),
        v.phase == MeetingPhase::InMeeting,
        v.absence_streak + snaps.len() < v.debounce.exit_ticks,
        forall|i: int| 0 <= i < snaps.len() ==> (#[trigger] snaps[i]).app_running
            && !stay_evidence(v.debounce, snaps[i]),
    ensures
        run(v, snaps).phase == MeetingPhase::InMeeting,
        run(v, snaps).absence_streak == v.absence_streak + snaps.len(),
        run(v, snaps).debounce == v.debounce,
        run(v, snaps).app == v.app,
        detector_wf(run(v, snaps)),
        run_events(v, snaps) == Seq::<DetectorEvent>::empty(),
    decreases snaps.len(),
{
    if snaps.len() > 0 {
        let w = step(v, snaps[0]);
        assert(snaps[0].app_running && !stay_evidence(v.debounce, snaps[0]));
        let rest = snaps.drop_first();
        assert forall|i: int| 0 <= i < rest.len() implies (#[trigger] rest[i]).app_running
            && !stay_evidence(w.debounce, rest[i]) by {
            assert(rest[i] == snaps[i + 1]);
        }
        lemma_exit_prefix(w, rest);
    }
}

/// Exit debounce: during a meeting, fewer than `exit_ticks` consecutive
/// ticks without evidence (app still running) end nothing, and exactly
/// `exit_ticks` of them end the meeting on the last one, back to `AppOpen`.
pub proof fn lemma_exit_debounce(v: DetectorView, snaps: Seq<SignalSnapshot>)
    requires
        detector_wf(v),
        v.phase == MeetingPhase::InMeeting,
        v.absence_streak == 0,
        snaps.len() <= v.debounce.exit_ticks,
        forall|i: int| 0 <= i < snaps.len() ==> (#[trigger] snaps[i]).app_running
            && !stay_evidence(v.debounce, snaps[i]),
    ensures
        snaps.len() < v.debounce.exit_ticks ==> run(v, snaps).phase == MeetingPhase::InMeeting
            && run_events(v, snaps) == Seq::<DetectorEvent>::empty(),
        snaps.len() == v.debounce.exit_ticks && snaps.len() > 0 ==> run(v, snaps).phase
            == MeetingPhase::AppOpen && run_events(v, snaps) == seq![
            DetectorEvent::MeetingEnded(v.app),
        ],
{
    if snaps.len() < v.debounce.exit_ticks {
        lemma_exit_prefix(v, snaps);
    } else if snaps.len() > 0 {
        let n = snaps.len() - 1;
        let pre = snaps.take(n);
        assert forall|i: int| 0 <= i < pre.len() implies (#[trigger] pre[i]).app_running
            && !stay_evidence(v.debounce, pre[i]) by {
            assert(pre[i] == snaps[i]);
        }
        lemma_exit_prefix(v, pre);
        lemma_run_split(v, pre, seq![snaps[n]]);
        assert(pre + seq![snaps[n]] == snaps);
        let w = run(v, pre);
        assert(snaps[n].app_running && !stay_evidence(v.debounce, snaps[n]));
        lemma_run_single(w, snaps[n]);
        assert(Seq::<DetectorEvent>::empty() + step_events(w, snaps[n]) == step_events(w, snaps[n]));
    }
}

/// Per-app detector: feed it one `SignalSnapshot` per tick, collect events.
#[derive(Debug)]
pub struct AppDetector {
    app: MeetingApp,
    debounce: Debounce,
    phase: MeetingPhase,
    marker_streak: u32,
    absence_streak: u32,
    mic_seen_during_meeting: bool,
}

impl View for AppDetector {
    type V = DetectorView;

    closed spec fn view(&self) -> DetectorView {
        DetectorView {
            app: self.app,
            debounce: self.debounce,
            phase: self.phase,
            marker_streak: self.marker_streak,
            absence_streak: self.absence_streak,
            mic_seen_during_meeting: self.mic_seen_during_meeting,
        }
    }
}

impl AppDetector {
    #[verifier::type_invariant]
    closed spec fn inv(self) -> bool {
        detector_wf(self@)
    }

    pub fn new(app: MeetingApp, debounce: Debounce) -> (r: Self)
        ensures
            r@ == (DetectorView {
                app,
                debounce,
                phase: MeetingPhase::Idle,
                marker_streak: 0,
                absence_streak: 0,
                mic_seen_during_meeting: false,
            }),
    {
        AppDetector {
            app,
            debounce,
            phase: MeetingPhase::Idle,
            marker_streak: 0,
            absence_streak: 0,
            mic_seen_during_meeting: false,
        }
    }

    pub fn phase(&self) -> (r: MeetingPhase)
        ensures
            r == self@.phase,
    {
        self.phase
    }

    pub fn app(&self) -> (r: &MeetingApp)
        ensures
            *r == self@.app,
    {
        &self.app
    }

    /// Advance one tick. Returns the events this tick produced (at most two:
    /// a launch and a start, or a meeting end and an app quit).
    pub fn tick(&mut self, s: SignalSnapshot) -> (events: Vec<DetectorEvent>)
        ensures
            detector_wf(old(self)@),
            final(self)@ == step(old(self)@, s),
            events@ == step_events(old(self)@, s),
    {
        proof {
            use_type_invariant(&*self);
        }
        let mut events: Vec<DetectorEvent> = Vec::new();
        match (self.phase, s.app_running) {
            (MeetingPhase::Idle, true) => {
                self.phase = MeetingPhase::AppOpen;
                events.push(DetectorEvent::AppLaunched(self.app.clone()));
            },
            (MeetingPhase::AppOpen, false) => {
                self.reset_streaks();
                self.phase = MeetingPhase::Idle;
                events.push(DetectorEvent::AppQuit(self.app.clone()));
                return events;
            },
            (MeetingPhase::InMeeting, false) => {
                // The audio source is gone: the meeting is over now,
                // regardless of debounce.
                self.reset_streaks();
                self.phase = MeetingPhase::Idle;
                events.push(DetectorEvent::MeetingEnded(self.app.clone()));
                events.push(DetectorEvent::AppQuit(self.app.clone()));
                return events;
            },
            _ => {},
        }
        match self.phase {
            MeetingPhase::AppOpen => {
                let evidence = if self.debounce.require_mic_for {
                    s.meeting_marker && s.mic_in_use
                } else {
                    s.meeting_marker
                };
                if evidence {
                    let streak = self.marker_streak + 1;
                    if streak >= self.debounce.enter_ticks {
                        self.phase = MeetingPhase::InMeeting;
                        self.marker_streak = streak;
                        self.absence_streak = 0;
                        self.mic_seen_during_meeting = s.mic_in_use;
                        events.push(DetectorEvent::MeetingStarted(self.app.clone()));
                    } else {
                        self.marker_streak = streak;
                    }
                } else {
                    self.marker_streak = 0;
                }
            },
            MeetingPhase::InMeeting => {
                self.mic_seen_during_meeting = self.mic_seen_during_meeting || s.mic_in_use;
                let still_going = if self.debounce.require_mic_for {
                    s.meeting_marker || s.mic_in_use
                } else {
                    s.meeting_marker
                };
                if still_going {
                    self.absence_streak = 0;
                } else {
                    let streak = self.absence_streak + 1;
                    if streak >= self.debounce.exit_ticks {
                        self.reset_streaks();
                        self.phase = MeetingPhase::AppOpen;
                        events.push(DetectorEvent::MeetingEnded(self.app.clone()));
                    } else {
                        self.absence_streak = streak;
                    }
                }
            },
            MeetingPhase::Idle => {},
        }
        events
    }

    fn reset_streaks(&mut self)
        ensures
            final(self)@ == reset(old(self)@, old(self)@.phase),
    {
        proof {
            use_type_invariant(&*self);
        }
        self.marker_streak = 0;
        self.absence_streak = 0;
        self.mic_seen_during_meeting = false;
    }
}

} // verus!

verus! {

/// Marker flaps do not end a meeting: from any state inside a meeting, a
/// tick on which the app runs and the meeting shows evidence (its marker,
/// or for mic-corroborated apps the marker or the mic) clears the absence
/// count, so that tick and up to `exit_ticks - 1` evidence-free ticks
/// after it end nothing and the meeting goes on.
pub proof fn lemma_evidence_restarts_exit_debounce(
    v: DetectorView,
    s: SignalSnapshot,
    snaps: Seq<SignalSnapshot>,
)
    requires
        detector_wf(v),
        v.phase == MeetingPhase::InMeeting,
        s.app_running,
        s.meeting_marker || (v.debounce.require_mic_for && s.mic_in_use),
        snaps.len() < v.debounce.exit_ticks,
        forall|i: int|
            0 <= i < snaps.len() ==> (#[trigger] snaps[i]).app_running && !snaps[i].meeting_marker
                && !(v.debounce.require_mic_for && snaps[i].mic_in_use),
    ensures
        step(v, s).absence_streak == 0,
        step(v, s).phase == MeetingPhase::InMeeting,
        run(v, seq![s] + snaps).phase == MeetingPhase::InMeeting,
        forall|i: int|
            0 <= i < run_events(v, seq![s] + snaps).len() ==> !(#[trigger] run_events(
                v,
                seq![s] + snaps,
            )[i] is MeetingEnded),
{
    let w = step(v, s);
    lemma_step_wf(v, s);
    assert forall|i: int| 0 <= i < snaps.len() implies (#[trigger] snaps[i]).app_running
        && !stay_evidence(w.debounce, snaps[i]) by {}
    lemma_exit_debounce(w, snaps);
    let all = seq![s] + snaps;
    assert(all[0] == s);
    assert(all.drop_first() == snaps);
    assert(step_events(v, s) == Seq::<DetectorEvent>::empty());
    assert(run_events(v, all) == step_events(v, s) + run_events(w, snaps));
    assert(run_events(v, all) == run_events(w, snaps));
}

} // verus!

verus! {

/// A blip does not start a meeting: while the app is open, a tick without
/// evidence (no marker, or for mic-corroborated apps no marker together
/// with the mic) clears the evidence count, so that tick and up to
/// `enter_ticks - 1` evidence ticks after it start nothing.
pub proof fn lemma_gap_restarts_enter_debounce(
    v: DetectorView,
    s: SignalSnapshot,
    snaps: Seq<SignalSnapshot>,
)
    requires
        detector_wf(v),
        v.phase == MeetingPhase::AppOpen,
        s.app_running,
        !s.meeting_marker || (v.debounce.require_mic_for && !s.mic_in_use),
        snaps.len() < v.debounce.enter_ticks,
        forall|i: int|
            0 <= i < snaps.len() ==> (#[trigger] snaps[i]).app_running && snaps[i].meeting_marker
                && (v.debounce.require_mic_for ==> snaps[i].mic_in_use),
    ensures
        step(v, s).marker_streak == 0,
        step(v, s).phase == MeetingPhase::AppOpen,
        run(v, seq![s] + snaps).phase == MeetingPhase::AppOpen,
        forall|i: int|
            0 <= i < run_events(v, seq![s] + snaps).len() ==> !(#[trigger] run_events(
                v,
                seq![s] + snaps,
            )[i] is MeetingStarted),
{
    let w = step(v, s);
    lemma_step_wf(v, s);
    assert forall|i: int| 0 <= i < snaps.len() implies (#[trigger] snaps[i]).app_running
        && enter_evidence(w.debounce, snaps[i]) by {}
    lemma_enter_debounce(w, snaps);
    let all = seq![s] + snaps;
    assert(all[0] == s);
    assert(all.drop_first() == snaps);
    assert(step_events(v, s) == Seq::<DetectorEvent>::empty());
    assert(run_events(v, all) == step_events(v, s) + run_events(w, snaps));
    assert(run_events(v, all) == run_events(w, snaps));
}

} // verus!
