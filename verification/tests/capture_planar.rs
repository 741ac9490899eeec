use whosaidwhat::asr::AsrError;
use whosaidwhat::capture::planar::interleave_planar;
use whosaidwhat::capture::CaptureError;
use whosaidwhat::diarize::DiarizeError;

#[test]
fn planar_channels_are_interleaved_frame_by_frame() {
    let left = vec![1, 1, 1, 1, 2, 2, 2, 2];
    let right = vec![9, 9, 9, 9, 8, 8, 8, 8, 7, 7, 7, 7];
    let out = interleave_planar(&vec![left, right]);
    assert_eq!(out, vec![1, 1, 1, 1, 9, 9, 9, 9, 2, 2, 2, 2, 8, 8, 8, 8]);
}

#[test]
fn partial_samples_and_missing_channels_yield_nothing_extra() {
    assert!(interleave_planar(&vec![]).is_empty());
    assert_eq!(interleave_planar(&vec![vec![5, 5, 5, 5, 6, 6]]), vec![5, 5, 5, 5]);
    assert!(interleave_planar(&vec![vec![1, 2, 3, 4], vec![1, 2]]).is_empty());
}

#[test]
fn error_messages_match_their_display_text() {
    assert_eq!(CaptureError::Busy.message(), "recording already in progress");
    assert_eq!(CaptureError::NotRecording.message(), "no recording in progress");
    assert_eq!(CaptureError::Mic("x".into()).message(), "microphone stream error: x");
    assert_eq!(CaptureError::SystemAudio("y".into()).message(), "system-audio stream error: y");
    assert_eq!(CaptureError::Io("z".into()).message(), "io error: z");
    assert_eq!(CaptureError::Wav("w".into()).message(), "wav error: w");
    assert_eq!(AsrError::ModelLoad("m".into()).message(), "model load failed: m");
    assert_eq!(AsrError::Inference("i".into()).message(), "inference failed: i");
    assert_eq!(DiarizeError::ModelLoad("m".into()).message(), "model load failed: m");
    assert_eq!(DiarizeError::Inference("i".into()).message(), "inference failed: i");
}
