//! Inference routing: which model serves summarization, with fallback.
//!
//! If the preferred summarization model is not among the models the server
//! reports, the router degrades to the first configured fallback that is
//! served, and then to any served model, rather than failing the whole
//! pipeline; whether the preferred model ran is recorded for provenance.

use vstd::prelude::*;

use super::client::LlmError;
use crate::text::string_from;

verus! {

/// Sampling profiles for the summarization stages. The numeric settings
/// each profile stands for are applied where requests are built.
#[derive(Debug, Clone, Copy, PartialEq, Eq, Structural)]
pub enum SamplingProfile {
    /// Extraction / outline stages: factual and format-stable.
    Strict,
    /// Final prose rewrite: a little more voice.
    Prose,
}

/// Where the inference server lives and which models to ask for.
#[derive(Debug)]
pub struct RouterConfig {
    /// e.g. "http://localhost:8000/v1"
    pub omlx_base_url: String,
    /// Preferred summarization model id as the server names it.
    pub summarize_model: String,
    /// Ordered fallbacks; after these, any model the server reports is
    /// accepted.
    pub fallback_models: Vec<String>,
}

impl Clone for RouterConfig {
    fn clone(&self) -> (r: Self)
        ensures
            r.omlx_base_url == self.omlx_base_url,
            r.summarize_model == self.summarize_model,
            r.fallback_models@ == self.fallback_models@,
    {
        RouterConfig {
            omlx_base_url: self.omlx_base_url.clone(),
            summarize_model: self.summarize_model.clone(),
            fallback_models: self.fallback_models.clone(),
        }
    }
}

impl Default for RouterConfig {
    fn default() -> (r: Self)
        ensures
            r.omlx_base_url@ == "http://localhost:8000/v1"@,
            r.summarize_model@ == "Qwen3.6-35B-A3B-oQ4e-mtp"@,
            r.fallback_models@.len() == 2,
            r.fallback_models@[0]@ == "gemma-4-12b-it-4bit"@,
            r.fallback_models@[1]@ == "Qwen3.6-35B-A3B-4bit"@,
    {
        let mut fallback_models: Vec<String> = Vec::new();
        fallback_models.push(string_from("gemma-4-12b-it-4bit"));
        fallback_models.push(string_from("Qwen3.6-35B-A3B-4bit"));
        RouterConfig {
            omlx_base_url: string_from("http://localhost:8000/v1"),
            summarize_model: string_from("Qwen3.6-35B-A3B-oQ4e-mtp"),
            fallback_models,
        }
    }
}

/// What the router decided, for provenance recording.
#[derive(Debug, PartialEq, Eq)]
pub struct RoutedModel {
    pub model: String,
    /// False when the preferred model was unavailable and a fallback ran.
    pub preferred: bool,
}

impl Clone for RoutedModel {
    fn clone(&self) -> (r: Self)
        ensures
            r == *self,
    {
        RoutedModel { model: self.model.clone(), preferred: self.preferred }
    }
}

/// The model names of a list of strings.
pub open spec fn names(v: Seq<String>) -> Seq<Seq<char>> {
    v.map_values(|s: String| s@)
}

/// The first of `fallbacks[i..]` that the server offers.
pub open spec fn first_served(fallbacks: Seq<Seq<char>>, available: Seq<Seq<char>>, i: int) -> Option<
    Seq<char>,
>
    decreases fallbacks.len() - i,
{
    if i < 0 || i >= fallbacks.len() {
        None
    } else if available.contains(fallbacks[i]) {
        Some(fallbacks[i])
    } else {
        first_served(fallbacks, available, i + 1)
    }
}

/// The routing decision: the preferred model when served; else the first
/// served fallback; else the first served model; else nothing. The flag
/// says whether the preferred model was chosen.
pub open spec fn pick(preferred: Seq<char>, fallbacks: Seq<Seq<char>>, available: Seq<Seq<char>>) -> Option<
    (Seq<char>, bool),
> {
    if available.contains(preferred) {
        Some((preferred, true))
    } else {
        match first_served(fallbacks, available, 0) {
            Some(m) => Some((m, false)),
            None => if available.len() > 0 {
                Some((available[0], false))
            } else {
                None
            },
        }
    }
}

/// The routed model as plain values.
pub open spec fn routed_view(r: Option<RoutedModel>) -> Option<(Seq<char>, bool)> {
    match r {
        Some(m) => Some((m.model@, m.preferred)),
        None => None,
    }
}

/// Whether `s` is one of the strings of `v`.
fn contains_name(v: &[String], s: &String) -> (r: bool)
    ensures
        r == names(v@).contains(s@),
{
    let mut i: usize = 0;
    while i < v.len()
        invariant
            i <= v@.len(),
            forall|k: int| 0 <= k < i ==> v@[k]@ != s@,
        decreases v@.len() - i,
    {
        if v[i] == *s {
            proof {
                assert(names(v@)[i as int] == s@);
            }
            return true;
        }
        i = i + 1;
    }
    proof {
        if names(v@).contains(s@) {
            let k = choose|k: int| 0 <= k < names(v@).len() && names(v@)[k] == s@;
            assert(v@[k]@ == s@);
        }
    }
    false
}

/// Pick the summarization model from what the server has: the preferred
/// one if available, else the first available fallback in order, else the
/// first available model; `None` when the server offers nothing.
pub fn pick_model(preferred: &str, fallbacks: &[String], available: &[String]) -> (r: Option<
    RoutedModel,
>)
    ensures
        routed_view(r) == pick(preferred@, names(fallbacks@), names(available@)),
{
    let p = string_from(preferred);
    if contains_name(available, &p) {
        return Some(RoutedModel { model: p, preferred: true });
    }
    let ghost fb = names(fallbacks@);
    let ghost av = names(available@);
    let mut i: usize = 0;
    while i < fallbacks.len()
        invariant
            i <= fallbacks@.len(),
            fb == names(fallbacks@),
            av == names(available@),
            !av.contains(preferred@),
            first_served(fb, av, 0) == first_served(fb, av, i as int),
        decreases fallbacks@.len() - i,
    {
        if contains_name(available, &fallbacks[i]) {
            proof {
                assert(fb[i as int] == fallbacks@[i as int]@);
            }
            return Some(RoutedModel { model: fallbacks[i].clone(), preferred: false });
        }
        proof {
            assert(fb[i as int] == fallbacks@[i as int]@);
        }
        i = i + 1;
    }
    if available.len() > 0 {
        Some(RoutedModel { model: available[0].clone(), preferred: false })
    } else {
        None
    }
}

/// The routing step of a summarization run, given what the model-list
/// request produced: its error is passed on, and a server that offers no
/// model at all is an `EmptyResponse`.
pub fn resolve_from_models(config: &RouterConfig, available: Result<Vec<String>, LlmError>) -> (r:
    Result<RoutedModel, LlmError>)
    ensures
        match available {
            Err(e) => r == Err::<RoutedModel, LlmError>(e),
            Ok(v) => match pick(
                config.summarize_model@,
                names(config.fallback_models@),
                names(v@),
            ) {
                Some(m) => r is Ok && m == (r->Ok_0.model@, r->Ok_0.preferred),
                None => r is Err && r->Err_0 is EmptyResponse,
            },
        },
{
    match available {
        Err(e) => Err(e),
        Ok(v) => match pick_model(
            config.summarize_model.as_str(),
            config.fallback_models.as_slice(),
            v.as_slice(),
        ) {
            Some(m) => Ok(m),
            None => Err(LlmError::EmptyResponse),
        },
    }
}

} // verus!
