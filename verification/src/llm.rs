//! The chat model service: its settings, the system prompt, the requests it
//! sends and how a reply is read. The HTTP exchange itself is made by the
//! application around this library.
use vstd::prelude::*;
use crate::config::AiProviderConfig;
use crate::error::Error;

verus! {

/// The system prompt a new service starts with.
pub const DEFAULT_ASSISTANT_PROMPT: &'static str = "你是 XuanAgent，一个专业的科研 AI 助手。";

/// The reply when the model answered with no choice.
pub const EMPTY_REPLY: &'static str = "抱歉，没有收到响应。";

/// One message of a chat request.
#[derive(Debug, Clone)]
pub struct ChatMessage {
    pub role: String,
    pub content: String,
}

/// A chat completion request.
#[derive(Debug, Clone)]
pub struct ChatRequest {
    pub model: String,
    pub messages: Vec<ChatMessage>,
    pub stream: bool,
}

/// `r` asks `model` for a completion of the system prompt `system` followed by
/// the user message `user`, without streaming.
pub open spec fn request_for(r: ChatRequest, model: Seq<char>, system: Seq<char>, user: Seq<char>) -> bool {
    &&& r.model@ == model
    &&& !r.stream
    &&& r.messages@.len() == 2
    &&& r.messages@[0].role@ == "system"@
    &&& r.messages@[0].content@ == system
    &&& r.messages@[1].role@ == "user"@
    &&& r.messages@[1].content@ == user
}

/// The chat model service.
pub struct LlmService {
    config: AiProviderConfig,
    system_prompt: String,
}

impl LlmService {
    /// The provider settings.
    pub closed spec fn settings(&self) -> AiProviderConfig {
        self.config
    }

    /// The current system prompt.
    pub closed spec fn prompt(&self) -> Seq<char> {
        self.system_prompt@
    }

    /// A service for the provider, with the default assistant prompt.
    pub fn new(config: AiProviderConfig) -> (r: Self)
        ensures
            r.settings() == config,
            r.prompt() == DEFAULT_ASSISTANT_PROMPT@,
    {
        LlmService { config, system_prompt: String::from_str(DEFAULT_ASSISTANT_PROMPT) }
    }

    /// The service with another system prompt.
    pub closed spec fn with_prompt(self, p: String) -> Self {
        LlmService { system_prompt: p, ..self }
    }

    /// Replaces the system prompt.
    pub fn set_system_prompt(&mut self, prompt: String)
        ensures
            *final(self) == old(self).with_prompt(prompt),
            final(self).prompt() == prompt@,
            final(self).settings() == old(self).settings(),
    {
        self.system_prompt = prompt;
    }

    /// The current system prompt.
    pub fn get_system_prompt(&self) -> (r: &str)
        ensures
            r@ == self.prompt(),
    {
        self.system_prompt.as_str()
    }

    /// The provider settings.
    pub fn config(&self) -> (r: &AiProviderConfig)
        ensures
            *r == self.settings(),
    {
        &self.config
    }

    /// The chat endpoint: `{base_url}/chat/completions`.
    pub fn endpoint(&self) -> (r: String)
        ensures
            r@ == self.settings().base_url@ + "/chat/completions"@,
    {
        let mut r = self.config.base_url.clone();
        r.append("/chat/completions");
        r
    }

    /// The authorization header value: `Bearer {api_key}`.
    pub fn authorization(&self) -> (r: String)
        ensures
            r@ == "Bearer "@ + self.settings().api_key@,
    {
        let mut r = String::from_str("Bearer ");
        r.append(self.config.api_key.as_str());
        r
    }

    /// The request for `message` under the given system prompt.
    pub fn request_with_prompt(&self, message: &str, system_prompt: &str) -> (r: ChatRequest)
        ensures
            request_for(r, self.settings().model@, system_prompt@, message@),
    {
        ChatRequest {
            model: self.config.model.clone(),
            messages: vec![
                ChatMessage { role: String::from_str("system"), content: String::from_str(system_prompt) },
                ChatMessage { role: String::from_str("user"), content: String::from_str(message) },
            ],
            stream: false,
        }
    }

    /// The request for `message` under the current system prompt.
    pub fn request(&self, message: &str) -> (r: ChatRequest)
        ensures
            request_for(r, self.settings().model@, self.prompt(), message@),
    {
        self.request_with_prompt(message, self.system_prompt.as_str())
    }
}

/// The reply a response gives, from the contents of its choices in order:
/// the first one, or the apology when there is none.
pub fn reply_of(contents: Vec<String>) -> (r: String)
    ensures
        contents@.len() > 0 ==> r@ == contents@[0]@,
        contents@.len() == 0 ==> r@ == EMPTY_REPLY@,
{
    let mut contents = contents;
    if contents.len() > 0 {
        contents.swap_remove(0)
    } else {
        String::from_str(EMPTY_REPLY)
    }
}

/// The error for a response that could not be read, with the JSON reader's
/// message.
pub fn unreadable_response(message: &str) -> (e: Error)
    ensures
        e matches Error::Llm(m) && m@ == "解析响应失败: "@ + message@,
{
    let mut m = String::from_str("解析响应失败: ");
    m.append(message);
    Error::Llm(m)
}

/// After the system prompt is set, the service reads back exactly the prompt
/// set, with the provider settings kept; setting it twice keeps the second.
pub proof fn law_set_then_get(s: LlmService, p: String, q: String)
    ensures
        s.with_prompt(p).prompt() == p@,
        s.with_prompt(p).settings() == s.settings(),
        s.with_prompt(p).with_prompt(q) == s.with_prompt(q),
{
}

} // verus!
