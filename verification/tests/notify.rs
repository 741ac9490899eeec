use std::sync::atomic::{AtomicBool, AtomicU32, Ordering};
use std::sync::Arc;

use whosaidwhat::detect::state::MeetingApp;
use whosaidwhat::notify::{prompt_copy, PromptPresenter, PromptResponse, WindowPrompt};

#[test]
fn window_prompt_delivers_response_once_and_closes() {
    let opened = Arc::new(AtomicU32::new(0));
    let closed = Arc::new(AtomicU32::new(0));
    let (o, c) = (opened.clone(), closed.clone());

    let mut prompt = WindowPrompt::new(
        Box::new(move |_t, _b| {
            o.fetch_add(1, Ordering::SeqCst);
        }),
        Box::new(move || {
            c.fetch_add(1, Ordering::SeqCst);
        }),
    );

    let responded = Arc::new(AtomicBool::new(false));
    let r = responded.clone();
    prompt.show(
        &MeetingApp::Zoom,
        Box::new(move |resp| {
            assert_eq!(resp, PromptResponse::StartRecording);
            r.store(true, Ordering::SeqCst);
        }),
    );
    assert_eq!(opened.load(Ordering::SeqCst), 1);

    prompt.deliver(PromptResponse::StartRecording);
    assert!(responded.load(Ordering::SeqCst));
    assert_eq!(closed.load(Ordering::SeqCst), 1);

    // Second deliver is a no-op on the callback (already consumed).
    prompt.deliver(PromptResponse::Dismiss);
}

#[test]
fn dismiss_drops_pending_callback() {
    let mut prompt = WindowPrompt::new(Box::new(|_, _| {}), Box::new(|| {}));
    let responded = Arc::new(AtomicBool::new(false));
    let r = responded.clone();
    prompt.show(
        &MeetingApp::Meet,
        Box::new(move |_| {
            r.store(true, Ordering::SeqCst);
        }),
    );
    prompt.dismiss();
    prompt.deliver(PromptResponse::StartRecording);
    assert!(!responded.load(Ordering::SeqCst), "callback must not fire after dismiss");
}

#[test]
fn copy_names_the_app() {
    let (title, body) = prompt_copy(&MeetingApp::Teams);
    assert!(title.contains("Microsoft Teams"));
    assert!(body.contains("on this Mac"));
}

#[test]
fn copy_is_exact_for_custom_apps() {
    let (title, body) = prompt_copy(&MeetingApp::Other("Webex".into()));
    assert_eq!(title, "Webex meeting detected");
    assert_eq!(body, "Start recording? Audio stays on this Mac.");
}

#[test]
fn open_window_receives_the_prompt_copy() {
    let seen = Arc::new(std::sync::Mutex::new(Vec::new()));
    let s = seen.clone();
    let mut prompt = WindowPrompt::new(
        Box::new(move |t: String, b: String| {
            s.lock().unwrap().push((t, b));
        }),
        Box::new(|| {}),
    );
    prompt.show(&MeetingApp::Zoom, Box::new(|_| {}));
    let got = seen.lock().unwrap().clone();
    assert_eq!(
        got,
        vec![("Zoom meeting detected".to_string(), "Start recording? Audio stays on this Mac.".to_string())]
    );
}
