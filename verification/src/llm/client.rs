//! The OpenAI-compatible chat surface of the local inference server, as
//! plain data: messages, the parsed response shapes, error values and the
//! small decisions made around each HTTP exchange (URLs, status handling,
//! picking the reply out of a response). The HTTP transport itself lives
//! with the application.

use vstd::prelude::*;

use crate::text::{push_decimal, push_str, string_from, decimal};

verus! {

/// Why an inference call failed.
#[derive(Debug)]
pub enum LlmError {
    /// The request never completed (connection refused, bad JSON, ...).
    Transport(String),
    /// The server answered with a non-success HTTP status.
    Api { status: u16, body: String },
    /// The server answered but produced no usable text.
    EmptyResponse,
}

/// The human-readable message of an error.
pub open spec fn llm_error_text(e: LlmError) -> Seq<char> {
    match e {
        LlmError::Transport(m) => "request failed: "@ + m@,
        LlmError::Api { status, body } => "server returned "@ + decimal(status as nat) + ": "@
            + body@,
        LlmError::EmptyResponse => "empty response (no choices)"@,
    }
}

impl LlmError {
    /// The error's message, e.g. `server returned 503: busy`.
    pub fn message(&self) -> (r: String)
        ensures
            r@ == llm_error_text(*self),
    {
        let mut out = String::new();
        match self {
            LlmError::Transport(m) => {
                push_str(&mut out, "request failed: ");
                push_str(&mut out, m.as_str());
            },
            LlmError::Api { status, body } => {
                push_str(&mut out, "server returned ");
                push_decimal(&mut out, *status as u64);
                push_str(&mut out, ": ");
                push_str(&mut out, body.as_str());
            },
            LlmError::EmptyResponse => {
                push_str(&mut out, "empty response (no choices)");
            },
        }
        out
    }
}

/// One chat message (`role` is "system", "user" or "assistant").
#[derive(Debug)]
pub struct ChatMessage {
    pub role: String,
    pub content: String,
}

impl Clone for ChatMessage {
    fn clone(&self) -> (r: Self)
        ensures
            r == *self,
    {
        ChatMessage { role: self.role.clone(), content: self.content.clone() }
    }
}

impl ChatMessage {
    /// A system-role message.
    pub fn system(content: &str) -> (r: ChatMessage)
        ensures
            r.role@ == "system"@,
            r.content@ == content@,
    {
        ChatMessage { role: string_from("system"), content: string_from(content) }
    }

    /// A user-role message.
    pub fn user(content: &str) -> (r: ChatMessage)
        ensures
            r.role@ == "user"@,
            r.content@ == content@,
    {
        ChatMessage { role: string_from("user"), content: string_from(content) }
    }
}

/// The message inside one response choice.
#[derive(Debug)]
pub struct ChatResponseMessage {
    pub content: Option<String>,
    /// Reasoning trace, when the server exposes one.
    pub reasoning_content: Option<String>,
}

/// One choice of a chat completion.
#[derive(Debug)]
pub struct ChatChoice {
    pub message: ChatResponseMessage,
}

/// Token accounting reported by the server (absent fields count as 0).
#[derive(Debug)]
pub struct Usage {
    pub prompt_tokens: u64,
    pub completion_tokens: u64,
}

impl Default for Usage {
    fn default() -> (r: Self)
        ensures
            r.prompt_tokens == 0,
            r.completion_tokens == 0,
    {
        Usage { prompt_tokens: 0, completion_tokens: 0 }
    }
}

/// A chat-completion response body.
#[derive(Debug)]
pub struct ChatResponse {
    pub choices: Vec<ChatChoice>,
    pub usage: Option<Usage>,
}

/// One entry of the server's model list.
#[derive(Debug)]
pub struct ModelEntry {
    pub id: String,
}

/// The server's model list.
#[derive(Debug)]
pub struct ModelList {
    pub data: Vec<ModelEntry>,
}

/// The text a response carries: the first choice's content, when it is
/// present and non-empty.
pub open spec fn reply_of(resp: ChatResponse) -> Option<String> {
    if resp.choices@.len() > 0 {
        match resp.choices@[0].message.content {
            Some(s) => if s@.len() > 0 {
                Some(s)
            } else {
                None
            },
            None => None,
        }
    } else {
        None
    }
}

/// The reply of a chat completion, or `EmptyResponse` when the first choice
/// is missing, has no content, or its content is empty.
pub fn reply_text(resp: ChatResponse) -> (r: Result<String, LlmError>)
    ensures
        match reply_of(resp) {
            Some(s) => r == Ok::<String, LlmError>(s),
            None => r is Err && r->Err_0 is EmptyResponse,
        },
{
    let mut choices = resp.choices;
    if choices.len() == 0 {
        return Err(LlmError::EmptyResponse);
    }
    let first = choices.remove(0);
    match first.message.content {
        Some(s) => {
            if s.as_str().is_empty() {
                Err(LlmError::EmptyResponse)
            } else {
                Ok(s)
            }
        },
        None => Err(LlmError::EmptyResponse),
    }
}

/// The ids of the listed models, in the server's order.
pub fn model_ids(list: ModelList) -> (r: Vec<String>)
    ensures
        r@.len() == list.data@.len(),
        forall|i: int| 0 <= i < r@.len() ==> r@[i] == #[trigger] list.data@[i].id,
{
    let data = list.data;
    let mut out: Vec<String> = Vec::new();
    let mut i: usize = 0;
    while i < data.len()
        invariant
            i <= data@.len(),
            out@.len() == i,
            forall|k: int| 0 <= k < i ==> out@[k] == #[trigger] data@[k].id,
        decreases data@.len() - i,
    {
        out.push(data[i].id.clone());
        i = i + 1;
    }
    out
}

/// `s` without its trailing `'/'` characters.
pub open spec fn strip_trailing_slashes(s: Seq<char>) -> Seq<char>
    decreases s.len(),
{
    if s.len() > 0 && s.last() == '/' {
        strip_trailing_slashes(s.drop_last())
    } else {
        s
    }
}

/// A base URL as the client stores it: every trailing `'/'` removed, so
/// `"http://host/v1/"` and `"http://host/v1"` name the same endpoints.
pub fn normalize_base_url(base: &str) -> (r: String)
    ensures
        r@ == strip_trailing_slashes(base@),
{
    let v = crate::text::chars_of(base);
    let mut n: usize = v.len();
    proof {
        assert(v@.subrange(0, v@.len() as int) == v@);
    }
    while n > 0 && v[n - 1] == '/'
        invariant
            n <= v@.len(),
            strip_trailing_slashes(v@.subrange(0, n as int)) == strip_trailing_slashes(v@),
        decreases n,
    {
        proof {
            assert(v@.subrange(0, n as int).drop_last() == v@.subrange(0, n - 1));
        }
        n = n - 1;
    }
    crate::text::string_of(&v, 0, n)
}

/// The chat-completions endpoint under a normalized base URL.
pub fn chat_url(base: &String) -> (r: String)
    ensures
        r@ == base@ + "/chat/completions"@,
{
    let mut out = String::new();
    push_str(&mut out, base.as_str());
    push_str(&mut out, "/chat/completions");
    proof {
        assert(Seq::<char>::empty() + base@ == base@);
    }
    out
}

/// The model-list endpoint under a normalized base URL.
pub fn models_url(base: &String) -> (r: String)
    ensures
        r@ == base@ + "/models"@,
{
    let mut out = String::new();
    push_str(&mut out, base.as_str());
    push_str(&mut out, "/models");
    proof {
        assert(Seq::<char>::empty() + base@ == base@);
    }
    out
}

/// HTTP success is a status in `200..=299`.
pub open spec fn is_success(status: u16) -> bool {
    200 <= status <= 299
}

/// What an HTTP answer means before its body is parsed: `Ok` for a success
/// status, else the `Api` error carrying the status and the response body.
pub fn check_status(status: u16, body: String) -> (r: Result<(), LlmError>)
    ensures
        is_success(status) ==> r is Ok,
        !is_success(status) ==> r == Err::<(), LlmError>(LlmError::Api { status, body }),
{
    if 200 <= status && status <= 299 {
        Ok(())
    } else {
        Err(LlmError::Api { status, body })
    }
}

} // verus!
