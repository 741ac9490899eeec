use whosaidwhat::llm::client::{
    chat_url, check_status, model_ids, models_url, normalize_base_url, reply_text, ChatChoice,
    ChatMessage, ChatResponse, ChatResponseMessage, LlmError, ModelEntry, ModelList,
};

fn response(contents: Vec<Option<&str>>) -> ChatResponse {
    ChatResponse {
        choices: contents
            .into_iter()
            .map(|c| ChatChoice {
                message: ChatResponseMessage {
                    content: c.map(|s| s.to_string()),
                    reasoning_content: None,
                },
            })
            .collect(),
        usage: None,
    }
}

#[test]
fn constructors_set_roles() {
    let s = ChatMessage::system("s");
    let u = ChatMessage::user("u");
    assert_eq!((s.role.as_str(), s.content.as_str()), ("system", "s"));
    assert_eq!((u.role.as_str(), u.content.as_str()), ("user", "u"));
}

#[test]
fn reply_is_first_non_empty_choice_content() {
    assert_eq!(reply_text(response(vec![Some("hi"), Some("other")])).unwrap(), "hi");
}

#[test]
fn missing_or_empty_reply_is_empty_response() {
    assert!(matches!(reply_text(response(vec![])), Err(LlmError::EmptyResponse)));
    assert!(matches!(reply_text(response(vec![None])), Err(LlmError::EmptyResponse)));
    assert!(matches!(reply_text(response(vec![Some(""), Some("x")])), Err(LlmError::EmptyResponse)));
}

#[test]
fn model_ids_keep_server_order() {
    let list = ModelList {
        data: vec![ModelEntry { id: "b".into() }, ModelEntry { id: "a".into() }],
    };
    assert_eq!(model_ids(list), vec!["b", "a"]);
}

#[test]
fn base_url_loses_trailing_slashes() {
    assert_eq!(normalize_base_url("http://localhost:8000/v1/"), "http://localhost:8000/v1");
    assert_eq!(normalize_base_url("http://h/v1//"), "http://h/v1");
    assert_eq!(normalize_base_url("http://h/v1"), "http://h/v1");
    assert_eq!(normalize_base_url("///"), "");
}

#[test]
fn endpoint_urls() {
    let base = normalize_base_url("http://localhost:8000/v1/");
    assert_eq!(chat_url(&base), "http://localhost:8000/v1/chat/completions");
    assert_eq!(models_url(&base), "http://localhost:8000/v1/models");
}

#[test]
fn status_classification() {
    assert!(check_status(200, String::new()).is_ok());
    assert!(check_status(299, String::new()).is_ok());
    match check_status(503, "busy".into()) {
        Err(LlmError::Api { status, body }) => {
            assert_eq!(status, 503);
            assert_eq!(body, "busy");
        }
        other => panic!("unexpected {other:?}"),
    }
    assert!(check_status(199, String::new()).is_err());
    assert!(check_status(300, String::new()).is_err());
}

#[test]
fn error_messages() {
    assert_eq!(LlmError::Transport("refused".into()).message(), "request failed: refused");
    assert_eq!(
        LlmError::Api { status: 503, body: "busy".into() }.message(),
        "server returned 503: busy"
    );
    assert_eq!(LlmError::EmptyResponse.message(), "empty response (no choices)");
}
