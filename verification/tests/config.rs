use whosaidwhat::capture::session::RecordPolicy;
use whosaidwhat::config::{path_join, Config, RecordPolicyConfig};

#[test]
fn defaults_live_under_application_support() {
    let c = Config::with_home("/Users/ada");
    assert_eq!(c.data_dir, "/Users/ada/Library/Application Support/com.whosaidwhat.app");
    assert_eq!(c.record_policy, RecordPolicyConfig::Prompt);
    assert_eq!(c.language, "auto");
    assert_eq!(c.expected_speakers, 0);
    assert_eq!(
        c.whisper_model,
        "/Users/ada/Library/Application Support/com.whosaidwhat.app/models/ggml-large-v3-turbo-q5_0.bin"
    );
    assert!(c.diarize_segmentation_model.ends_with("/models/sherpa-onnx-pyannote-segmentation-3-0.onnx"));
    assert!(c
        .diarize_embedding_model
        .ends_with("/models/3dspeaker_speech_eres2netv2_sv_zh-cn_16k-common.onnx"));
    assert_eq!(c.inference.summarize_model, "Qwen3.6-35B-A3B-oQ4e-mtp");
}

#[test]
fn derived_paths() {
    let c = Config::with_home("/h/");
    assert_eq!(c.data_dir, "/h/Library/Application Support/com.whosaidwhat.app");
    assert_eq!(c.db_path(), "/h/Library/Application Support/com.whosaidwhat.app/whosaidwhat.sqlite");
    assert_eq!(c.recordings_dir(), "/h/Library/Application Support/com.whosaidwhat.app/recordings");
    assert_eq!(c.config_path(), "/h/Library/Application Support/com.whosaidwhat.app/config.json");
    let unknown_home = Config::with_home(".");
    assert_eq!(unknown_home.data_dir, "./Library/Application Support/com.whosaidwhat.app");
}

#[test]
fn path_join_follows_path_rules() {
    assert_eq!(path_join("a", "b"), "a/b");
    assert_eq!(path_join("a/", "b"), "a/b");
    assert_eq!(path_join("", "b"), "b");
    assert_eq!(path_join("a", "/abs"), "/abs");
}

#[test]
fn policy_conversion_and_names() {
    assert_eq!(RecordPolicy::from(RecordPolicyConfig::Prompt), RecordPolicy::Prompt);
    assert_eq!(RecordPolicy::from(RecordPolicyConfig::Auto), RecordPolicy::Auto);
    assert_eq!(RecordPolicy::from(RecordPolicyConfig::Manual), RecordPolicy::Manual);
    assert_eq!(RecordPolicyConfig::Auto.name(), "auto");
    assert_eq!(RecordPolicyConfig::Prompt.name(), "prompt");
    assert_eq!(RecordPolicyConfig::Manual.name(), "manual");
}

#[test]
fn clone_keeps_everything() {
    let c = Config::with_home("/x");
    let d = c.clone();
    assert_eq!(d.data_dir, c.data_dir);
    assert_eq!(d.inference.fallback_models, c.inference.fallback_models);
}
