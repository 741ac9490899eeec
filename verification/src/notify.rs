//! The "meeting detected — start recording?" prompt.
//!
//! The prompt is one honest question with two outcomes; everything else
//! (auto-record policy, manual start) bypasses it entirely. Presenters show
//! it and report the answer through a callback that fires at most once.

use vstd::prelude::*;

use crate::detect::state::{display_name_of, MeetingApp};
use crate::text::{push_str, string_from};

verus! {

/// What the user chose on the prompt.
#[derive(Debug, Clone, Copy, PartialEq, Eq, Structural)]
pub enum PromptResponse {
    StartRecording,
    Dismiss,
}

/// The body line of every prompt.
pub const PROMPT_BODY: &'static str = "Start recording? Audio stays on this Mac.";

/// The prompt's title for `app`.
pub open spec fn prompt_title(app: MeetingApp) -> Seq<char> {
    display_name_of(app) + " meeting detected"@
}

/// Prompt copy shared by every presenter, so the wording stays identical
/// across delivery mechanisms: (title, body).
pub fn prompt_copy(app: &MeetingApp) -> (r: (String, String))
    ensures
        r.0@ == prompt_title(*app),
        r.1@ == PROMPT_BODY@,
{
    let mut title = String::new();
    push_str(&mut title, app.display_name());
    push_str(&mut title, " meeting detected");
    proof {
        assert(Seq::<char>::empty() + display_name_of(*app) == display_name_of(*app));
    }
    (title, string_from(PROMPT_BODY))
}

/// Presents the prompt and reports the response through `on_response`.
pub trait PromptPresenter<P> {
    /// The presenter's callbacks accept every input they can be given.
    spec fn callbacks_total(&self) -> bool;

    /// Whether a response callback is waiting to be answered.
    spec fn is_pending(&self) -> bool;

    /// Show "{app} meeting detected" and keep `on_response` until answered.
    fn show(&mut self, app: &MeetingApp, on_response: P)
        requires
            old(self).callbacks_total(),
        ensures
            final(self).callbacks_total(),
            final(self).is_pending(),
    ;

    /// Withdraw a still-visible prompt (meeting ended before the user
    /// chose); the pending callback is dropped unanswered.
    fn dismiss(&mut self)
        requires
            old(self).callbacks_total(),
        ensures
            final(self).callbacks_total(),
            !final(self).is_pending(),
    ;
}

/// Always-on-top window presenter. The window itself is owned by the UI
/// layer: `open_window(title, body)` shows it, `close_window()` hides it,
/// and the UI calls [`WindowPrompt::deliver`] when a button is clicked.
pub struct WindowPrompt<O, C, P> {
    pub open_window: O,
    pub close_window: C,
    pending: Option<P>,
}

impl<O: FnMut(String, String), C: FnMut(), P: FnOnce(PromptResponse)> WindowPrompt<O, C, P> {
    /// The response callback waiting for an answer, if any.
    pub closed spec fn pending(&self) -> Option<P> {
        self.pending
    }

    /// The callback that opens the window.
    pub closed spec fn opener(&self) -> O {
        self.open_window
    }

    /// The callback that closes the window.
    pub closed spec fn closer(&self) -> C {
        self.close_window
    }

    /// Whether the window was opened showing the prompt for `app`: the
    /// opener was called with the prompt's title and body.
    pub open spec fn opened_for(&self, app: MeetingApp) -> bool {
        exists|t: String, b: String|
            t@ == prompt_title(app) && b@ == PROMPT_BODY@ && #[trigger] call_ensures(
                self.opener(),
                (t, b),
                (),
            )
    }

    /// A presenter with nothing pending.
    pub fn new(open_window: O, close_window: C) -> (r: Self)
        ensures
            r.pending() is None,
    {
        WindowPrompt { open_window, close_window, pending: None }
    }

    /// Called when a button is clicked: the pending callback, if any,
    /// receives `response` and is consumed (so a second click reaches
    /// nobody), and the window closes.
    pub fn deliver(&mut self, response: PromptResponse)
        requires
            old(self).callbacks_total(),
        ensures
            final(self).pending() is None,
            old(self).pending() matches Some(cb) ==> call_ensures(cb, (response,), ()),
            call_ensures(old(self).closer(), (), ()),
    {
        if let Some(cb) = self.pending.take() {
            cb(response);
        }
        (self.close_window)();
    }
}

impl<O: FnMut(String, String), C: FnMut(), P: FnOnce(PromptResponse)> PromptPresenter<P> for WindowPrompt<
    O,
    C,
    P,
> {
    open spec fn callbacks_total(&self) -> bool {
        &&& forall|o: O, t: String, b: String| call_requires(o, (t, b))
        &&& forall|c: C| call_requires(c, ())
        &&& forall|p: P, r: PromptResponse| call_requires(p, (r,))
    }

    open spec fn is_pending(&self) -> bool {
        self.pending() is Some
    }

    fn show(&mut self, app: &MeetingApp, on_response: P)
        ensures
            final(self).pending() == Some(on_response),
            old(self).opened_for(*app),
    {
        let (title, body) = prompt_copy(app);
        let ghost (t, b) = (title, body);
        self.pending = Some(on_response);
        (self.open_window)(title, body);
        assert(call_ensures(old(self).opener(), (t, b), ()));
    }

    fn dismiss(&mut self)
        ensures
            final(self).pending() is None,
            call_ensures(old(self).closer(), (), ()),
    {
        self.pending = None;
        (self.close_window)();
    }
}

} // verus!
