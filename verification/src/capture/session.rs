//! Platform-independent recording-session lifecycle.
//!
//! Coordinates the user prompt, the recorder backend, and the detector's
//! auto-stop without touching any OS API — the audio I/O lives behind
//! [`RecorderBackend`].

use vstd::prelude::*;

use crate::detect::state::{same_app, MeetingApp};
use crate::text::{push_str, string_from};

verus! {

/// Outcome of asking the backend to finalize a recording: the two track
/// files and the duration.
#[derive(Debug, Clone, PartialEq, Eq)]
pub struct SavedRecording {
    /// Absolute path of the system-audio track (remote participants).
    pub system_path: String,
    /// Absolute path of the mic track (local user), if one was written.
    pub mic_path: Option<String>,
    /// Duration in milliseconds as reported by the backend.
    pub duration_ms: u64,
}

/// One request the session has made of its recorder.
pub enum RecorderRequest {
    /// Start recording `app` into `out_dir`, naming the files `file_stem`.
    Start { app: MeetingApp, out_dir: Seq<char>, file_stem: Seq<char> },
    /// Stop and finalize the running recording.
    Stop,
}

/// The audio backend contract. `start` must fail when already recording;
/// `stop` must flush and finalize so a crash right after still leaves a
/// playable file. Failures are described in words.
///
/// `requests` is the history of requests the backend has received: each
/// `start` and each `stop` call appends itself, with its arguments. An
/// implementation states its history by defining `requests`; without it
/// the history reads as empty and such an implementation does not meet
/// these contracts.
pub trait RecorderBackend {
    closed spec fn requests(&self) -> Seq<RecorderRequest> {
        Seq::empty()
    }

    fn start(&mut self, app: &MeetingApp, out_dir: &str, file_stem: &str) -> (r: Result<(), String>)
        ensures
            final(self).requests() == old(self).requests().push(
                RecorderRequest::Start { app: *app, out_dir: out_dir@, file_stem: file_stem@ },
            ),
    ;

    fn stop(&mut self) -> (r: Result<SavedRecording, String>)
        ensures
            final(self).requests() == old(self).requests().push(RecorderRequest::Stop),
    ;

    fn is_recording(&self) -> bool;
}

/// What the session manager wants the UI/notification layer to do.
#[derive(Debug, PartialEq, Eq)]
pub enum SessionEffect {
    /// Show the "Meeting detected — start recording?" notification.
    PromptUser { app: MeetingApp },
    /// Remove a stale prompt (meeting ended before the user answered).
    DismissPrompt { app: MeetingApp },
    /// Recording finished and the file is safe on disk; hand off to the pipeline.
    RecordingSaved { app: MeetingApp, saved: SavedRecording },
    /// Surface a backend failure to the user (and log it).
    Error { message: String },
}

#[derive(Debug, Clone, Copy, PartialEq, Eq, Structural)]
pub enum SessionState {
    Idle,
    /// Notification shown, waiting for the user.
    Prompted,
    Recording,
}

/// Recording policy the user picks in settings.
#[derive(Debug, Clone, Copy, PartialEq, Eq, Structural)]
pub enum RecordPolicy {
    /// Always ask via notification (default: consent-first).
    Prompt,
    /// Start recording as soon as a meeting is confirmed.
    Auto,
    /// Never record automatically; user starts from the app UI only.
    Manual,
}

/// The session's phase together with the app it belongs to.
enum Phase {
    Idle,
    Prompted(MeetingApp),
    Recording(MeetingApp),
}

pub struct SessionManager<B: RecorderBackend> {
    backend: B,
    policy: RecordPolicy,
    out_dir: String,
    phase: Phase,
}

pub open spec fn start_failure_prefix() -> Seq<char> {
    "failed to start recording: "@
}

pub open spec fn save_failure_prefix() -> Seq<char> {
    "failed to save recording: "@
}

/// Whether `e` reports a failure whose message starts with `prefix`.
pub open spec fn is_failure(e: SessionEffect, prefix: Seq<char>) -> bool {
    match e {
        SessionEffect::Error { message } => exists|why: Seq<char>| message@ == prefix + why,
        _ => false,
    }
}

impl<B: RecorderBackend> SessionManager<B> {
    pub closed spec fn session_state(&self) -> SessionState {
        match self.phase {
            Phase::Idle => SessionState::Idle,
            Phase::Prompted(_) => SessionState::Prompted,
            Phase::Recording(_) => SessionState::Recording,
        }
    }

    /// The app the current prompt or recording belongs to.
    pub closed spec fn active_app(&self) -> Option<MeetingApp> {
        match self.phase {
            Phase::Idle => None,
            Phase::Prompted(a) => Some(a),
            Phase::Recording(a) => Some(a),
        }
    }

    pub closed spec fn record_policy(&self) -> RecordPolicy {
        self.policy
    }

    pub closed spec fn recordings_dir(&self) -> Seq<char> {
        self.out_dir@
    }

    /// A prompt or recording always belongs to an app; idle, none does.
    pub proof fn lemma_active_iff_busy(&self)
        ensures
            (self.session_state() == SessionState::Idle) == (self.active_app() is None),
    {
    }

    /// The requests the session has made of its recorder so far.
    pub closed spec fn backend_requests(&self) -> Seq<RecorderRequest> {
        self.backend.requests()
    }

    /// The recorder was asked for nothing more than it had been in `old`.
    pub open spec fn recorder_untouched(&self, old: &Self) -> bool {
        self.backend_requests() == old.backend_requests()
    }

    /// Exactly one more request, a start of `app` into the recordings
    /// directory under `file_stem`.
    pub open spec fn asked_to_start(&self, old: &Self, app: MeetingApp, file_stem: Seq<char>) -> bool {
        self.backend_requests() == old.backend_requests().push(
            RecorderRequest::Start { app, out_dir: old.recordings_dir(), file_stem },
        )
    }

    /// Exactly one more request, a start of a manual recording (an app
    /// named "manual") into the recordings directory under `file_stem`.
    pub open spec fn asked_to_start_manual(&self, old: &Self, file_stem: Seq<char>) -> bool {
        &&& self.backend_requests().len() == old.backend_requests().len() + 1
        &&& self.backend_requests().drop_last() == old.backend_requests()
        &&& self.backend_requests().last() matches RecorderRequest::Start {
            app: MeetingApp::Other(name),
            out_dir,
            file_stem: stem,
        } && name@ == "manual"@ && out_dir == old.recordings_dir() && stem == file_stem
    }

    /// Exactly one more request, a stop.
    pub open spec fn asked_to_stop(&self, old: &Self) -> bool {
        self.backend_requests() == old.backend_requests().push(RecorderRequest::Stop)
    }

    /// Everything but the phase is unchanged from `old`.
    pub open spec fn same_setup(&self, old: &Self) -> bool {
        self.record_policy() == old.record_policy() && self.recordings_dir()
            == old.recordings_dir()
    }

    /// The outcome of starting a recording for `app`: recording with no
    /// effect, or back to idle with one start-failure report.
    pub open spec fn started(&self, app: MeetingApp, effects: Seq<SessionEffect>) -> bool {
        ||| effects.len() == 0 && self.session_state() == SessionState::Recording
            && self.active_app() == Some(app)
        ||| effects.len() == 1 && is_failure(effects[0], start_failure_prefix())
            && self.session_state() == SessionState::Idle && self.active_app() is None
    }

    /// The outcome of stopping the recording of `app`: idle, with either the
    /// saved recording or one save-failure report.
    pub open spec fn stopped(&self, app: MeetingApp, effects: Seq<SessionEffect>) -> bool {
        &&& self.session_state() == SessionState::Idle
        &&& self.active_app() is None
        &&& effects.len() == 1
        &&& (effects[0] matches SessionEffect::RecordingSaved { app: a, saved: _ } && a == app)
            || is_failure(effects[0], save_failure_prefix())
    }

    /// The outcome of starting a manual recording: recording an app named
    /// "manual" with no effect, or idle with one start-failure report.
    pub open spec fn started_manual(&self, effects: Seq<SessionEffect>) -> bool {
        ||| effects.len() == 0 && self.session_state() == SessionState::Recording && (
        self.active_app() matches Some(MeetingApp::Other(name)) && name@ == "manual"@)
        ||| effects.len() == 1 && is_failure(effects[0], start_failure_prefix())
            && self.session_state() == SessionState::Idle && self.active_app() is None
    }

    pub fn new(backend: B, policy: RecordPolicy, out_dir: String) -> (r: Self)
        ensures
            r.session_state() == SessionState::Idle,
            r.active_app() is None,
            r.record_policy() == policy,
            r.recordings_dir() == out_dir@,
            r.backend_requests() == backend.requests(),
    {
        SessionManager { backend, policy, out_dir, phase: Phase::Idle }
    }

    pub fn state(&self) -> (r: SessionState)
        ensures
            r == self.session_state(),
    {
        match self.phase {
            Phase::Idle => SessionState::Idle,
            Phase::Prompted(_) => SessionState::Prompted,
            Phase::Recording(_) => SessionState::Recording,
        }
    }

    /// Detector says a meeting started. Idle under the prompt policy: ask.
    /// Idle under the auto policy: start recording. Otherwise (manual
    /// policy, or already prompting/recording — one recording at a time):
    /// nothing.
    pub fn on_meeting_started(&mut self, app: MeetingApp, file_stem: &str) -> (effects: Vec<
        SessionEffect,
    >)
        ensures
            final(self).same_setup(old(self)),
            old(self).session_state() == SessionState::Idle && old(self).record_policy()
                == RecordPolicy::Prompt ==> final(self).session_state() == SessionState::Prompted
                && final(self).active_app() == Some(app) && effects@ == seq![
                SessionEffect::PromptUser { app },
            ] && final(self).recorder_untouched(old(self)),
            old(self).session_state() == SessionState::Idle && old(self).record_policy()
                == RecordPolicy::Auto ==> final(self).started(app, effects@) && final(self).asked_to_start(old(self), app, file_stem@),
            !(old(self).session_state() == SessionState::Idle && (old(self).record_policy()
                == RecordPolicy::Prompt || old(self).record_policy() == RecordPolicy::Auto))
                ==> final(self).session_state() == old(self).session_state()
                && final(self).active_app() == old(self).active_app() && effects@.len() == 0
                && final(self).recorder_untouched(old(self)),
    {
        match (&self.phase, self.policy) {
            (Phase::Idle, RecordPolicy::Prompt) => {
                self.phase = Phase::Prompted(app.clone());
                let mut effects = Vec::new();
                effects.push(SessionEffect::PromptUser { app });
                effects
            },
            (Phase::Idle, RecordPolicy::Auto) => self.start_recording(app, file_stem),
            _ => Vec::new(),
        }
    }

    /// User accepted the prompt (or pressed record in the UI): record the
    /// prompted app, or with nothing pending, a manual recording.
    pub fn on_user_accept(&mut self, file_stem: &str) -> (effects: Vec<SessionEffect>)
        ensures
            final(self).same_setup(old(self)),
            old(self).session_state() == SessionState::Prompted ==> final(self).started(
                old(self).active_app().unwrap(),
                effects@,
            ) && final(self).asked_to_start(old(self), old(self).active_app().unwrap(), file_stem@),
            old(self).session_state() == SessionState::Idle ==> final(self).started_manual(effects@)
                && final(self).asked_to_start_manual(old(self), file_stem@),
            old(self).session_state() == SessionState::Recording ==> final(self).session_state()
                == old(self).session_state() && final(self).active_app() == old(self).active_app()
                && effects@.len() == 0 && final(self).recorder_untouched(old(self)),
    {
        match &self.phase {
            Phase::Prompted(app) => {
                let app = app.clone();
                self.start_recording(app, file_stem)
            },
            Phase::Idle => {
                let app = MeetingApp::Other(string_from("manual"));
                let ghost a = app;
                let effects = self.start_recording(app, file_stem);
                proof {
                    let before = old(self).backend_requests();
                    let after = self.backend_requests();
                    assert(after == before.push(
                        RecorderRequest::Start {
                            app: a,
                            out_dir: old(self).recordings_dir(),
                            file_stem: file_stem@,
                        },
                    ));
                    assert(after.drop_last() == before);
                }
                effects
            },
            Phase::Recording(_) => Vec::new(),
        }
    }

    /// User dismissed the prompt.
    pub fn on_user_decline(&mut self) -> (effects: Vec<SessionEffect>)
        ensures
            final(self).same_setup(old(self)),
            effects@.len() == 0,
            final(self).recorder_untouched(old(self)),
            old(self).session_state() == SessionState::Prompted ==> final(self).session_state()
                == SessionState::Idle && final(self).active_app() is None,
            old(self).session_state() != SessionState::Prompted ==> final(self).session_state()
                == old(self).session_state() && final(self).active_app() == old(self).active_app(),
    {
        if let Phase::Prompted(_) = &self.phase {
            self.phase = Phase::Idle;
        }
        Vec::new()
    }

    /// Detector says `app`'s meeting ended: stop and save its recording, or
    /// withdraw its pending prompt. Another app's meeting ending changes
    /// nothing.
    pub fn on_meeting_ended(&mut self, app: &MeetingApp) -> (effects: Vec<SessionEffect>)
        ensures
            final(self).same_setup(old(self)),
            old(self).session_state() == SessionState::Recording && same_app(
                old(self).active_app().unwrap(),
                *app,
            ) ==> final(self).stopped(old(self).active_app().unwrap(), effects@) && final(self).asked_to_stop(old(self)),
            old(self).session_state() == SessionState::Prompted && same_app(
                old(self).active_app().unwrap(),
                *app,
            ) ==> final(self).session_state() == SessionState::Idle && final(self).active_app() is None
                && effects@ == seq![SessionEffect::DismissPrompt { app: *app }] && final(self).recorder_untouched(old(self)),
            old(self).session_state() == SessionState::Idle || !same_app(
                old(self).active_app().unwrap(),
                *app,
            ) ==> final(self).session_state() == old(self).session_state()
                && final(self).active_app() == old(self).active_app() && effects@.len() == 0
                && final(self).recorder_untouched(old(self)),
    {
        let ours = match &self.phase {
            Phase::Idle => false,
            Phase::Prompted(a) => a.same_as(app),
            Phase::Recording(a) => a.same_as(app),
        };
        if !ours {
            return Vec::new();
        }
        match &self.phase {
            Phase::Recording(_) => self.stop_and_save(),
            _ => {
                self.phase = Phase::Idle;
                let mut effects = Vec::new();
                effects.push(SessionEffect::DismissPrompt { app: app.clone() });
                effects
            },
        }
    }

    /// User pressed stop in the UI.
    pub fn on_user_stop(&mut self) -> (effects: Vec<SessionEffect>)
        ensures
            final(self).same_setup(old(self)),
            old(self).session_state() == SessionState::Recording ==> final(self).stopped(
                old(self).active_app().unwrap(),
                effects@,
            ) && final(self).asked_to_stop(old(self)),
            old(self).session_state() != SessionState::Recording ==> final(self).session_state()
                == old(self).session_state() && final(self).active_app() == old(self).active_app()
                && effects@.len() == 0 && final(self).recorder_untouched(old(self)),
    {
        if let Phase::Recording(_) = &self.phase {
            self.stop_and_save()
        } else {
            Vec::new()
        }
    }

    fn start_recording(&mut self, app: MeetingApp, file_stem: &str) -> (effects: Vec<SessionEffect>)
        ensures
            final(self).same_setup(old(self)),
            final(self).started(app, effects@),
            final(self).asked_to_start(old(self), app, file_stem@),
    {
        let result = self.backend.start(&app, self.out_dir.as_str(), file_stem);
        self.after_start(app, result)
    }

    /// Apply the backend's answer to a start request for `app`: on success
    /// the session records `app`; on failure it is idle again and reports
    /// the reason.
    pub fn after_start(&mut self, app: MeetingApp, result: Result<(), String>) -> (effects: Vec<
        SessionEffect,
    >)
        ensures
            final(self).same_setup(old(self)),
            result is Ok ==> effects@.len() == 0 && final(self).session_state()
                == SessionState::Recording && final(self).active_app() == Some(app),
            result matches Err(why) ==> final(self).session_state() == SessionState::Idle
                && final(self).active_app() is None && effects@.len() == 1 && (
            effects@[0] matches SessionEffect::Error { message } && message@
                == start_failure_prefix() + why@),
            final(self).started(app, effects@),
            final(self).recorder_untouched(old(self)),
    {
        match result {
            Ok(()) => {
                self.phase = Phase::Recording(app);
                Vec::new()
            },
            Err(e) => {
                self.phase = Phase::Idle;
                let mut message = string_from("failed to start recording: ");
                push_str(&mut message, e.as_str());
                let mut effects = Vec::new();
                effects.push(SessionEffect::Error { message });
                proof {
                    let m = effects@[0]->message@;
                    assert(m == start_failure_prefix() + e@);
                }
                effects
            },
        }
    }

    fn stop_and_save(&mut self) -> (effects: Vec<SessionEffect>)
        requires
            old(self).session_state() == SessionState::Recording,
        ensures
            final(self).same_setup(old(self)),
            final(self).stopped(old(self).active_app().unwrap(), effects@),
            final(self).asked_to_stop(old(self)),
    {
        let result = self.backend.stop();
        let mut phase = Phase::Idle;
        std::mem::swap(&mut phase, &mut self.phase);
        match phase {
            Phase::Recording(app) => after_stop(app, result),
            _ => Vec::new(),
        }
    }
}

/// The effect of the backend's answer to stopping `app`'s recording: the
/// saved recording, or the reason it could not be saved.
pub fn after_stop(app: MeetingApp, result: Result<SavedRecording, String>) -> (effects: Vec<
    SessionEffect,
>)
    ensures
        effects@.len() == 1,
        result matches Ok(saved) ==> effects@[0] == (SessionEffect::RecordingSaved { app, saved }),
        result matches Err(why) ==> (effects@[0] matches SessionEffect::Error { message } && message@
            == save_failure_prefix() + why@),
{
    let mut effects = Vec::new();
    match result {
        Ok(saved) => {
            effects.push(SessionEffect::RecordingSaved { app, saved });
        },
        Err(e) => {
            let mut message = string_from("failed to save recording: ");
            push_str(&mut message, e.as_str());
            effects.push(SessionEffect::Error { message });
        },
    }
    effects
}

} // verus!
