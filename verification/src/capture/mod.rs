//! Audio capture: the recording-session lifecycle and the capture
//! backend's error type.

pub mod planar;
pub mod session;

use vstd::prelude::*;

use crate::text::push_str;

verus! {

/// Why the capture backend failed.
#[derive(Debug)]
pub enum CaptureError {
    Mic(String),
    SystemAudio(String),
    Busy,
    NotRecording,
    Io(String),
    Wav(String),
}

/// The message of a capture error.
pub open spec fn capture_error_text(e: CaptureError) -> Seq<char> {
    match e {
        CaptureError::Mic(m) => "microphone stream error: "@ + m@,
        CaptureError::SystemAudio(m) => "system-audio stream error: "@ + m@,
        CaptureError::Busy => "recording already in progress"@,
        CaptureError::NotRecording => "no recording in progress"@,
        CaptureError::Io(m) => "io error: "@ + m@,
        CaptureError::Wav(m) => "wav error: "@ + m@,
    }
}

impl CaptureError {
    /// The error's message, e.g. `wav error: disk full`.
    pub fn message(&self) -> (r: String)
        ensures
            r@ == capture_error_text(*self),
    {
        let mut out = String::new();
        match self {
            CaptureError::Mic(m) => {
                push_str(&mut out, "microphone stream error: ");
                push_str(&mut out, m.as_str());
            },
            CaptureError::SystemAudio(m) => {
                push_str(&mut out, "system-audio stream error: ");
                push_str(&mut out, m.as_str());
            },
            CaptureError::Busy => push_str(&mut out, "recording already in progress"),
            CaptureError::NotRecording => push_str(&mut out, "no recording in progress"),
            CaptureError::Io(m) => {
                push_str(&mut out, "io error: ");
                push_str(&mut out, m.as_str());
            },
            CaptureError::Wav(m) => {
                push_str(&mut out, "wav error: ");
                push_str(&mut out, m.as_str());
            },
        }
        out
    }
}

} // verus!
