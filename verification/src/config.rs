//! App configuration with local-first defaults. Paths are held as strings
//! (the application turns them into filesystem paths); the defaults live
//! under `~/Library/Application Support/com.whosaidwhat.app`.

use vstd::prelude::*;

use crate::capture::session::RecordPolicy;
use crate::llm::router::RouterConfig;
use crate::text::{chars_of, push_str, string_from};

verus! {

/// Recording policy as the configuration file spells it.
#[derive(Debug, Clone, Copy, PartialEq, Eq, Structural)]
pub enum RecordPolicyConfig {
    Prompt,
    Auto,
    Manual,
}

/// The policy a configured value stands for.
pub open spec fn policy_of(c: RecordPolicyConfig) -> RecordPolicy {
    match c {
        RecordPolicyConfig::Prompt => RecordPolicy::Prompt,
        RecordPolicyConfig::Auto => RecordPolicy::Auto,
        RecordPolicyConfig::Manual => RecordPolicy::Manual,
    }
}

impl From<RecordPolicyConfig> for RecordPolicy {
    fn from(c: RecordPolicyConfig) -> (r: Self) {
        match c {
            RecordPolicyConfig::Prompt => RecordPolicy::Prompt,
            RecordPolicyConfig::Auto => RecordPolicy::Auto,
            RecordPolicyConfig::Manual => RecordPolicy::Manual,
        }
    }
}

impl vstd::std_specs::convert::FromSpecImpl<RecordPolicyConfig> for RecordPolicy {
    open spec fn obeys_from_spec() -> bool {
        true
    }

    open spec fn from_spec(v: RecordPolicyConfig) -> RecordPolicy {
        policy_of(v)
    }
}

impl RecordPolicyConfig {
    /// The lowercase name the configuration file uses ("prompt", "auto",
    /// "manual").
    pub fn name(&self) -> (r: &'static str)
        ensures
            *self is Prompt ==> r@ == "prompt"@,
            *self is Auto ==> r@ == "auto"@,
            *self is Manual ==> r@ == "manual"@,
    {
        match self {
            RecordPolicyConfig::Prompt => "prompt",
            RecordPolicyConfig::Auto => "auto",
            RecordPolicyConfig::Manual => "manual",
        }
    }
}

/// `rel` appended to `base` as a path component: an absolute `rel`
/// replaces `base`, an empty `base` yields `rel`, and a separator is added
/// only when `base` does not already end with one.
pub open spec fn joined_path(base: Seq<char>, rel: Seq<char>) -> Seq<char> {
    if rel.len() > 0 && rel[0] == '/' {
        rel
    } else if base.len() == 0 || base.last() == '/' {
        base + rel
    } else {
        base + seq!['/'] + rel
    }
}

/// `base` joined with the relative or absolute path `rel`.
pub fn path_join(base: &str, rel: &str) -> (r: String)
    ensures
        r@ == joined_path(base@, rel@),
{
    let b = chars_of(base);
    let rv = chars_of(rel);
    if rv.len() > 0 && rv[0] == '/' {
        return string_from(rel);
    }
    let mut out = String::new();
    push_str(&mut out, base);
    if b.len() > 0 && b[b.len() - 1] != '/' {
        push_str(&mut out, "/");
        proof {
            reveal_strlit("/");
        }
    }
    push_str(&mut out, rel);
    proof {
        assert(Seq::<char>::empty() + base@ == base@);
    }
    out
}

/// User configuration.
#[derive(Debug)]
pub struct Config {
    /// Where recordings and the database live.
    pub data_dir: String,
    /// Prompt / Auto / Manual.
    pub record_policy: RecordPolicyConfig,
    /// Inference routing (base URL, model, fallbacks).
    pub inference: RouterConfig,
    /// Whisper model path.
    pub whisper_model: String,
    /// Whisper language hint ("en", "auto", ...).
    pub language: String,
    /// Diarization model paths.
    pub diarize_segmentation_model: String,
    pub diarize_embedding_model: String,
    /// 0 = let clustering pick the speaker count.
    pub expected_speakers: usize,
}

impl Clone for Config {
    fn clone(&self) -> (r: Self)
        ensures
            r.data_dir == self.data_dir,
            r.record_policy == self.record_policy,
            r.inference.omlx_base_url == self.inference.omlx_base_url,
            r.inference.summarize_model == self.inference.summarize_model,
            r.inference.fallback_models@ == self.inference.fallback_models@,
            r.whisper_model == self.whisper_model,
            r.language == self.language,
            r.diarize_segmentation_model == self.diarize_segmentation_model,
            r.diarize_embedding_model == self.diarize_embedding_model,
            r.expected_speakers == self.expected_speakers,
    {
        Config {
            data_dir: self.data_dir.clone(),
            record_policy: self.record_policy,
            inference: self.inference.clone(),
            whisper_model: self.whisper_model.clone(),
            language: self.language.clone(),
            diarize_segmentation_model: self.diarize_segmentation_model.clone(),
            diarize_embedding_model: self.diarize_embedding_model.clone(),
            expected_speakers: self.expected_speakers,
        }
    }
}

/// The default data directory under a home directory.
pub open spec fn default_data_dir(home: Seq<char>) -> Seq<char> {
    joined_path(home, "Library/Application Support/com.whosaidwhat.app"@)
}

/// The default models directory under a home directory.
pub open spec fn default_models_dir(home: Seq<char>) -> Seq<char> {
    joined_path(default_data_dir(home), "models"@)
}

impl Config {
    /// The defaults for a user whose home directory is `home` (the caller
    /// passes "." when the home directory is unknown).
    pub fn with_home(home: &str) -> (r: Config)
        ensures
            r.data_dir@ == default_data_dir(home@),
            r.record_policy == RecordPolicyConfig::Prompt,
            r.inference.omlx_base_url@ == "http://localhost:8000/v1"@,
            r.inference.summarize_model@ == "Qwen3.6-35B-A3B-oQ4e-mtp"@,
            r.inference.fallback_models@.len() == 2,
            r.inference.fallback_models@[0]@ == "gemma-4-12b-it-4bit"@,
            r.inference.fallback_models@[1]@ == "Qwen3.6-35B-A3B-4bit"@,
            r.whisper_model@ == joined_path(
                default_models_dir(home@),
                "ggml-large-v3-turbo-q5_0.bin"@,
            ),
            r.language@ == "auto"@,
            r.diarize_segmentation_model@ == joined_path(
                default_models_dir(home@),
                "sherpa-onnx-pyannote-segmentation-3-0.onnx"@,
            ),
            r.diarize_embedding_model@ == joined_path(
                default_models_dir(home@),
                "3dspeaker_speech_eres2netv2_sv_zh-cn_16k-common.onnx"@,
            ),
            r.expected_speakers == 0,
    {
        let data_dir = path_join(home, "Library/Application Support/com.whosaidwhat.app");
        let models = path_join(data_dir.as_str(), "models");
        Config {
            record_policy: RecordPolicyConfig::Prompt,
            inference: RouterConfig::default(),
            whisper_model: path_join(models.as_str(), "ggml-large-v3-turbo-q5_0.bin"),
            language: string_from("auto"),
            diarize_segmentation_model: path_join(
                models.as_str(),
                "sherpa-onnx-pyannote-segmentation-3-0.onnx",
            ),
            diarize_embedding_model: path_join(
                models.as_str(),
                "3dspeaker_speech_eres2netv2_sv_zh-cn_16k-common.onnx",
            ),
            expected_speakers: 0,
            data_dir,
        }
    }

    /// The SQLite database file.
    pub fn db_path(&self) -> (r: String)
        ensures
            r@ == joined_path(self.data_dir@, "whosaidwhat.sqlite"@),
    {
        path_join(self.data_dir.as_str(), "whosaidwhat.sqlite")
    }

    /// Where recordings are saved.
    pub fn recordings_dir(&self) -> (r: String)
        ensures
            r@ == joined_path(self.data_dir@, "recordings"@),
    {
        path_join(self.data_dir.as_str(), "recordings")
    }

    /// The configuration file itself.
    pub fn config_path(&self) -> (r: String)
        ensures
            r@ == joined_path(self.data_dir@, "config.json"@),
    {
        path_join(self.data_dir.as_str(), "config.json")
    }
}

} // verus!
