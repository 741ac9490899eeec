//! Decisions of the detection loop that the desktop shell and the headless
//! daemon run: what a user's click does to the recording session, how a
//! detected meeting is handled without any UI, and how a saved recording is
//! named and described in the store.
//!
//! Consent: under the Prompt policy only an explicit "Record" click starts
//! a recording. Without a UI (the headless daemon) a Prompt-policy meeting
//! is declined on the spot, never recorded silently.

use vstd::prelude::*;

use crate::capture::session::{
    is_failure, start_failure_prefix, RecordPolicy, RecorderBackend, RecorderRequest, SessionEffect,
    SessionManager, SessionState,
};
use crate::detect::state::{display_name_of, MeetingApp};
use crate::text::{chars_of, decimal, trim, trim_vec, string_of_vec, push_char, push_decimal, push_decimal_wide, push_str, string_from};

verus! {

/// User actions flowing from the UI into the detection loop.
#[derive(Debug, Clone, Copy, PartialEq, Eq, Structural)]
pub enum ControlMsg {
    /// Prompt: "Record".
    Accept,
    /// Prompt: "Ignore".
    Decline,
    /// Dashboard: manual recording start (no meeting detection involved).
    StartManual,
    /// Dashboard or pill: stop the active recording.
    Stop,
}

/// What `str::to_lowercase` returns for `s`.
pub uninterp spec fn lowercase(s: Seq<char>) -> Seq<char>;

/// `str::to_lowercase`: the Unicode lowercase mapping of `s`. Its result
/// depends on `s` alone; which characters it maps where is not stated.
#[verifier::external_body]
fn to_lowercase(s: &str) -> (r: String)
    ensures
        r@ == lowercase(s@),
{
    s.to_lowercase()
}

/// `s` with every space turned into a dash.
pub open spec fn dashed(s: Seq<char>) -> Seq<char> {
    s.map_values(|c: char| if c == ' ' { '-' } else { c })
}

/// Replaces every space of an (already lowercased) name with a dash.
pub fn dash_spaces(s: &str) -> (r: String)
    ensures
        r@ == dashed(s@),
{
    let v = chars_of(s);
    let mut out = String::new();
    let mut i: usize = 0;
    while i < v.len()
        invariant
            i <= v@.len(),
            out@ == dashed(v@.subrange(0, i as int)),
        decreases v@.len() - i,
    {
        if v[i] == ' ' {
            push_char(&mut out, '-');
        } else {
            push_char(&mut out, v[i]);
        }
        proof {
            assert(dashed(v@.subrange(0, i + 1)) == dashed(v@.subrange(0, i as int)).push(
                dashed(v@)[i as int],
            ));
        }
        i = i + 1;
    }
    proof {
        assert(v@.subrange(0, v@.len() as int) == v@);
    }
    out
}

/// The key an app is stored under: its display name, lowercased, with
/// spaces as dashes (e.g. "microsoft-teams").
pub open spec fn app_key_of(app: MeetingApp) -> Seq<char> {
    dashed(lowercase(display_name_of(app)))
}

/// The file stem for an app with display name `name` at `now` (Unix
/// seconds): `{key}-{seconds}`, the key being the name lowercased with
/// spaces as dashes.
pub open spec fn stem_text(name: Seq<char>, now: nat) -> Seq<char> {
    dashed(lowercase(name)) + seq!['-'] + decimal(now)
}

/// The storage key of an app.
pub fn app_key(app: &MeetingApp) -> (r: String)
    ensures
        r@ == app_key_of(*app),
{
    let lower = to_lowercase(app.display_name());
    dash_spaces(lower.as_str())
}

/// The file stem of a recording of `app` started at `now_secs` (Unix
/// seconds): `{app key}-{seconds}`.
pub fn stem_for(app: &MeetingApp, now_secs: u64) -> (r: String)
    ensures
        r@ == stem_text(display_name_of(*app), now_secs as nat),
{
    let mut out = app_key(app);
    push_char(&mut out, '-');
    push_decimal(&mut out, now_secs);
    out
}

/// The store's row for a saved recording.
#[derive(Debug)]
pub struct MeetingRecord {
    /// `mtg-{nanoseconds}`: unique even for two recordings ending in the
    /// same second.
    pub id: String,
    /// "{display name} meeting".
    pub title: String,
    pub app_key: String,
    /// Unix seconds: the end minus the recording's whole seconds.
    pub started_at: i64,
    pub ended_at: i64,
}

/// Describes a recording of `app` lasting `duration_ms` that ended at
/// `end_secs` / `end_nanos` (Unix time).
pub fn meeting_record(app: &MeetingApp, duration_ms: u64, end_secs: u64, end_nanos: u128) -> (r:
    MeetingRecord)
    requires
        end_secs <= i64::MAX,
    ensures
        r.id@ == "mtg-"@ + decimal(end_nanos as nat),
        r.title@ == display_name_of(*app) + " meeting"@,
        r.app_key@ == app_key_of(*app),
        r.started_at == end_secs - duration_ms / 1000,
        r.ended_at == end_secs,
{
    let mut id = string_from("mtg-");
    push_decimal_wide(&mut id, end_nanos);
    let mut title = string_from(app.display_name());
    push_str(&mut title, " meeting");
    let ended_at = end_secs as i64;
    let whole = (duration_ms / 1000) as i64;
    MeetingRecord { id, title, app_key: app_key(app), started_at: ended_at - whole, ended_at }
}

/// Whether any effect asks for a prompt.
fn has_prompt(effects: &Vec<SessionEffect>) -> (r: bool)
    ensures
        r == exists|i: int| 0 <= i < effects@.len() && (#[trigger] effects@[i]) is PromptUser,
{
    let mut i: usize = 0;
    while i < effects.len()
        invariant
            i <= effects@.len(),
            forall|k: int| 0 <= k < i ==> !((#[trigger] effects@[k]) is PromptUser),
        decreases effects@.len() - i,
    {
        if let SessionEffect::PromptUser { .. } = &effects[i] {
            return true;
        }
        i = i + 1;
    }
    false
}

/// A detected meeting, handled with no UI to ask: the Auto policy records
/// it; a Prompt-policy meeting is declined at once (nobody could consent),
/// leaving the session idle; otherwise nothing changes.
pub fn start_headless<B: RecorderBackend>(
    session: &mut SessionManager<B>,
    app: MeetingApp,
    file_stem: &str,
) -> (r: Vec<SessionEffect>)
    ensures
        final(session).same_setup(old(session)),
        old(session).session_state() == SessionState::Idle && old(session).record_policy()
            == crate::capture::session::RecordPolicy::Prompt ==> final(session).session_state()
            == SessionState::Idle && final(session).active_app() is None && r@.len() == 0
            && final(session).recorder_untouched(old(session)),
        old(session).session_state() == SessionState::Idle && old(session).record_policy()
            == crate::capture::session::RecordPolicy::Auto ==> final(session).started(app, r@)
            && final(session).asked_to_start(old(session), app, file_stem@),
        !(old(session).session_state() == SessionState::Idle && (old(session).record_policy()
            == crate::capture::session::RecordPolicy::Prompt || old(session).record_policy()
            == crate::capture::session::RecordPolicy::Auto)) ==> final(session).session_state()
            == old(session).session_state() && final(session).active_app() == old(session).active_app() && r@.len() == 0 && final(session).recorder_untouched(old(session)),
{
    let ghost a = app;
    let effects = session.on_meeting_started(app, file_stem);
    if has_prompt(&effects) {
        proof {
            if !(old(session).session_state() == SessionState::Idle && old(session).record_policy() == crate::capture::session::RecordPolicy::Prompt) {
                let i = choose|i: int| 0 <= i < effects@.len() && (#[trigger] effects@[i]) is PromptUser;
                if old(session).session_state() == SessionState::Idle && old(session).record_policy() == crate::capture::session::RecordPolicy::Auto {
                    assert(effects@[i] is Error);
                }
            }
        }
        session.on_user_decline();
        return Vec::new();
    }
    proof {
        if old(session).session_state() == SessionState::Idle && old(session).record_policy()
            == crate::capture::session::RecordPolicy::Prompt {
            assert(effects@[0] is PromptUser);
        }
    }
    effects
}

/// The session outcome of an accept (a click on "Record", or a manual
/// start): a prompted meeting starts recording; an idle session starts a
/// manual recording; a running recording is left alone.
///
/// A recording that starts is requested under the file stem `stem`.
pub open spec fn accept_outcome<B: RecorderBackend>(
    before: SessionManager<B>,
    after: SessionManager<B>,
    effects: Seq<SessionEffect>,
    stem: Seq<char>,
) -> bool {
    &&& before.session_state() == SessionState::Prompted ==> after.started(
        before.active_app().unwrap(),
        effects,
    ) && after.asked_to_start(&before, before.active_app().unwrap(), stem)
    &&& before.session_state() == SessionState::Idle ==> after.started_manual(effects)
        && after.asked_to_start_manual(&before, stem)
    &&& before.session_state() == SessionState::Recording ==> after.session_state()
        == before.session_state() && after.active_app() == before.active_app() && effects.len()
        == 0 && after.recorder_untouched(&before)
}

/// Nothing happened to the session.
pub open spec fn unchanged<B: RecorderBackend>(
    before: SessionManager<B>,
    after: SessionManager<B>,
    effects: Seq<SessionEffect>,
) -> bool {
    after.session_state() == before.session_state() && after.active_app() == before.active_app()
        && effects.len() == 0 && after.recorder_untouched(&before)
}

/// Applies a user action to the session. `prompted` is the meeting the
/// visible prompt belongs to; `now_secs` names a recording's files.
///
/// Accept answers the visible prompt (and does nothing when the prompt
/// already went away); Decline clears it; StartManual starts a manual
/// recording; Stop ends the running one.
pub fn apply_control<B: RecorderBackend>(
    session: &mut SessionManager<B>,
    prompted: &mut Option<MeetingApp>,
    msg: ControlMsg,
    now_secs: u64,
) -> (r: Vec<SessionEffect>)
    ensures
        final(session).same_setup(old(session)),
        msg == ControlMsg::Accept && old(prompted).is_none() ==> unchanged(
            *old(session),
            *final(session),
            r@,
        ) && final(prompted).is_none(),
        msg == ControlMsg::Accept && old(prompted).is_some() ==> accept_outcome(
            *old(session),
            *final(session),
            r@,
            stem_text(display_name_of(old(prompted).unwrap()), now_secs as nat),
        ) && final(prompted).is_none(),
        msg == ControlMsg::Decline ==> final(prompted).is_none() && r@.len() == 0 && (old(session).session_state() == SessionState::Prompted ==> final(session).session_state()
            == SessionState::Idle && final(session).active_app() is None && final(session).recorder_untouched(old(session))) && (old(session).session_state() != SessionState::Prompted ==> unchanged(
            *old(session),
            *final(session),
            r@,
        )),
        msg == ControlMsg::StartManual ==> accept_outcome(
            *old(session),
            *final(session),
            r@,
            stem_text("manual"@, now_secs as nat),
        ) && *final(prompted) == *old(prompted),
        msg == ControlMsg::Stop ==> *final(prompted) == *old(prompted) && (old(session).session_state() == SessionState::Recording ==> final(session).stopped(
            old(session).active_app().unwrap(),
            r@,
        ) && final(session).asked_to_stop(old(session))) && (old(session).session_state()
            != SessionState::Recording ==> unchanged(
            *old(session),
            *final(session),
            r@,
        )),
{
    match msg {
        ControlMsg::Accept => match prompted.take() {
            Some(app) => {
                let stem = stem_for(&app, now_secs);
                session.on_user_accept(stem.as_str())
            },
            None => Vec::new(),
        },
        ControlMsg::Decline => {
            *prompted = None;
            session.on_user_decline()
        },
        ControlMsg::StartManual => {
            let stem = stem_for(&MeetingApp::Other(string_from("manual")), now_secs);
            session.on_user_accept(stem.as_str())
        },
        ControlMsg::Stop => session.on_user_stop(),
    }
}

/// Keeps track of which meeting the visible prompt belongs to: a prompt
/// effect sets it, a dismissal clears it, other effects leave it.
pub fn track_prompt(prompted: &mut Option<MeetingApp>, effect: &SessionEffect)
    ensures
        *effect matches SessionEffect::PromptUser { app } ==> *final(prompted) == Some(app),
        *effect is DismissPrompt ==> final(prompted).is_none(),
        !(*effect is PromptUser || *effect is DismissPrompt) ==> *final(prompted) == *old(prompted),
{
    match effect {
        SessionEffect::PromptUser { app } => {
            *prompted = Some(app.clone());
        },
        SessionEffect::DismissPrompt { .. } => {
            *prompted = None;
        },
        _ => {},
    }
}

/// A speaker's new display name as the rename command stores it: trimmed,
/// and refused when nothing but whitespace was typed.
pub fn clean_speaker_name(name: &str) -> (r: Result<String, String>)
    ensures
        trim(name@).len() > 0 ==> r is Ok && r->Ok_0@ == trim(name@),
        trim(name@).len() == 0 ==> r is Err && r->Err_0@ == "name must not be empty"@,
{
    let v = chars_of(name);
    let t = trim_vec(&v);
    if t.len() == 0 {
        Err(string_from("name must not be empty"))
    } else {
        Ok(string_of_vec(&t))
    }
}

/// The recorder requests of starting each of `apps` into `dir` at `now`.
pub open spec fn starts_of(apps: Seq<MeetingApp>, dir: Seq<char>, now: nat) -> Seq<RecorderRequest> {
    apps.map_values(
        |a: MeetingApp|
            RecorderRequest::Start {
                app: a,
                out_dir: dir,
                file_stem: stem_text(display_name_of(a), now),
            },
    )
}

/// Every effect reports a failed start.
pub open spec fn all_start_failures(effects: Seq<SessionEffect>) -> bool {
    forall|i: int|
        0 <= i < effects.len() ==> is_failure(#[trigger] effects[i], start_failure_prefix())
}

/// Re-offers the meetings still running (`active`, in detector order) once
/// the session is free again: each is offered as a newly detected meeting
/// (without a UI when `headless`), in order, stopping at the first that
/// leaves the session busy. A session that is not idle is left alone.
pub fn reoffer<B: RecorderBackend>(
    session: &mut SessionManager<B>,
    active: &Vec<MeetingApp>,
    now_secs: u64,
    headless: bool,
) -> (r: Vec<SessionEffect>)
    ensures
        final(session).same_setup(old(session)),
        old(session).session_state() != SessionState::Idle || old(session).record_policy()
            == RecordPolicy::Manual || (old(session).record_policy() == RecordPolicy::Prompt
            && (headless || active@.len() == 0)) ==> unchanged(*old(session), *final(session), r@),
        old(session).session_state() == SessionState::Idle && old(session).record_policy()
            == RecordPolicy::Prompt && !headless && active@.len() > 0 ==> final(session).session_state()
            == SessionState::Prompted && final(session).active_app() == Some(active@[0]) && r@ == seq![
            SessionEffect::PromptUser { app: active@[0] },
        ] && final(session).recorder_untouched(old(session)),
        old(session).session_state() == SessionState::Idle && old(session).record_policy()
            == RecordPolicy::Auto ==> exists|k: int|
            0 <= k <= active@.len() && final(session).backend_requests() == old(session).backend_requests() + starts_of(
                active@.subrange(0, k),
                old(session).recordings_dir(),
                now_secs as nat,
            ) && all_start_failures(r@) && (final(session).session_state()
                == SessionState::Recording ==> k > 0 && final(session).active_app() == Some(
                active@[k - 1],
            )) && (final(session).session_state() != SessionState::Recording ==> k
                == active@.len() && final(session).session_state() == SessionState::Idle
                && r@.len() == k),
{
    let mut effects: Vec<SessionEffect> = Vec::new();
    if session.state() != SessionState::Idle {
        return effects;
    }
    let ghost before = *session;
    proof {
        session.lemma_active_iff_busy();
    }
    let mut i: usize = 0;
    while i < active.len()
        invariant
            i <= active@.len(),
            before == *old(session),
            session.same_setup(&before),
            session.session_state() == SessionState::Idle,
            session.active_app() is None,
            before.session_state() == SessionState::Idle,
            before.record_policy() == RecordPolicy::Auto ==> session.backend_requests()
                == before.backend_requests() + starts_of(
                active@.subrange(0, i as int),
                before.recordings_dir(),
                now_secs as nat,
            ) && all_start_failures(effects@) && effects@.len() == i,
            before.record_policy() != RecordPolicy::Auto ==> session.recorder_untouched(&before)
                && effects@.len() == 0,
            before.record_policy() == RecordPolicy::Prompt && !headless ==> i == 0,
        decreases active@.len() - i,
    {
        let app = active[i].clone();
        let stem = stem_for(&app, now_secs);
        let ghost mid = *session;
        let mut fx = if headless {
            start_headless(session, app, stem.as_str())
        } else {
            session.on_meeting_started(app, stem.as_str())
        };
        let ghost prev = effects@;
        let ghost got = fx@;
        effects.append(&mut fx);
        proof {
            assert(effects@ == prev + got);
            if before.record_policy() == RecordPolicy::Auto {
                let req = RecorderRequest::Start {
                    app: active@[i as int],
                    out_dir: before.recordings_dir(),
                    file_stem: stem_text(display_name_of(active@[i as int]), now_secs as nat),
                };
                assert(starts_of(active@.subrange(0, i + 1), before.recordings_dir(), now_secs as nat)
                    == starts_of(active@.subrange(0, i as int), before.recordings_dir(), now_secs as nat).push(req));
                assert(session.backend_requests() == mid.backend_requests().push(req));
                assert forall|j: int| 0 <= j < effects@.len() implies is_failure(
                    #[trigger] effects@[j],
                    start_failure_prefix(),
                ) by {
                    if j >= prev.len() {
                        assert(effects@[j] == got[j - prev.len()]);
                    } else {
                        assert(effects@[j] == prev[j]);
                    }
                }
            }
        }
        if session.state() != SessionState::Idle {
            return effects;
        }
        proof {
            session.lemma_active_iff_busy();
        }
        i = i + 1;
    }
    proof {
        assert(active@.subrange(0, active@.len() as int) == active@);
    }
    effects
}

} // verus!
