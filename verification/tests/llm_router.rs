use whosaidwhat::llm::client::LlmError;
use whosaidwhat::llm::router::{pick_model, resolve_from_models, RoutedModel, RouterConfig};

fn avail(models: &[&str]) -> Vec<String> {
    models.iter().map(|s| s.to_string()).collect()
}

#[test]
fn preferred_model_wins_when_present() {
    let picked = pick_model("qwen", &avail(&["gemma"]), &avail(&["gemma", "qwen"])).unwrap();
    assert_eq!(picked, RoutedModel { model: "qwen".into(), preferred: true });
}

#[test]
fn fallback_order_respected() {
    let picked = pick_model("qwen", &avail(&["a", "b"]), &avail(&["c", "b", "a"])).unwrap();
    assert_eq!(picked.model, "a");
    assert!(!picked.preferred);
}

#[test]
fn any_model_beats_none() {
    let picked = pick_model("qwen", &[], &avail(&["something-else"])).unwrap();
    assert_eq!(picked.model, "something-else");
    assert!(!picked.preferred);
}

#[test]
fn empty_server_yields_none() {
    assert!(pick_model("qwen", &avail(&["a"]), &[]).is_none());
}

#[test]
fn unserved_fallbacks_fall_through_to_first_served_model() {
    let picked = pick_model("qwen", &avail(&["x", "y"]), &avail(&["c", "d"])).unwrap();
    assert_eq!(picked, RoutedModel { model: "c".into(), preferred: false });
}

#[test]
fn default_router_config_names_local_server_and_fallbacks() {
    let c = RouterConfig::default();
    assert_eq!(c.omlx_base_url, "http://localhost:8000/v1");
    assert_eq!(c.summarize_model, "Qwen3.6-35B-A3B-oQ4e-mtp");
    assert_eq!(c.fallback_models, vec!["gemma-4-12b-it-4bit", "Qwen3.6-35B-A3B-4bit"]);
}

#[test]
fn resolve_uses_config_and_reports_fallback() {
    let c = RouterConfig::default();
    let r = resolve_from_models(&c, Ok(avail(&["Qwen3.6-35B-A3B-4bit", "gemma-4-12b-it-4bit"])))
        .unwrap();
    assert_eq!(r, RoutedModel { model: "gemma-4-12b-it-4bit".into(), preferred: false });
    let r = resolve_from_models(&c, Ok(avail(&["Qwen3.6-35B-A3B-oQ4e-mtp"]))).unwrap();
    assert!(r.preferred);
}

#[test]
fn resolve_with_no_models_is_empty_response() {
    let c = RouterConfig::default();
    assert!(matches!(resolve_from_models(&c, Ok(vec![])), Err(LlmError::EmptyResponse)));
    let e = resolve_from_models(&c, Err(LlmError::Transport("down".into())));
    assert!(matches!(e, Err(LlmError::Transport(m)) if m == "down"));
}
