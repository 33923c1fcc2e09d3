//! The text backend: where it is reached, what is sent to it, and what its
//! answer means. The exchange itself is the caller's: this module prepares the
//! request and reads the outcome.

use crate::consts::AI_PROMPT;
use crate::text::{
    chars_of, ends_with, push_range, string_of, trim_end, trimmed_len,
};
use vstd::prelude::*;
use vstd::string::StringExecFns;

verus! {

/// The model asked for where none is configured.
pub const DEFAULT_MODEL: &'static str = "gpt-4o-mini";

/// The service addressed where none is configured.
pub const DEFAULT_API_BASE: &'static str = "https://api.openai.com";

/// The path of the chat completion endpoint below the service's address.
pub const COMPLETIONS_PATH: &'static str = "/v1/chat/completions";

/// The role of the opening message.
pub const SYSTEM_ROLE: &'static str = "system";

/// The role of the message that carries the conversation.
pub const USER_ROLE: &'static str = "user";

/// What precedes the key in the authorization header.
pub const BEARER: &'static str = "Bearer ";

/// Why no client could be set up.
#[derive(Debug, Clone, Copy, PartialEq, Eq)]
pub enum ConfigError {
    /// No API key was given.
    MissingApiKey,
}

/// Why the backend gave no text.
#[derive(Debug, Clone, PartialEq, Eq)]
pub enum BackendFailure {
    /// The request was not answered, or the answer could not be read.
    Transport,
    /// The answer's status was outside 200..=299.
    Status { code: u16, body: String },
    /// The answer's body was not a completion response.
    Malformed,
    /// The backend reported an error of its own.
    Api { message: String },
    /// The response held neither an error nor a choice.
    NoChoices,
}

/// One message of a request.
#[derive(Debug, Clone, PartialEq, Eq)]
pub struct ChatMessage {
    pub role: String,
    pub content: String,
}

/// The body of a request.
#[derive(Debug, Clone, PartialEq, Eq)]
pub struct ChatCompletionRequest {
    pub model: String,
    pub messages: Vec<ChatMessage>,
}

/// The text of one choice.
#[derive(Debug, Clone, PartialEq, Eq)]
pub struct ChatResponseMessage {
    pub content: String,
}

/// One choice of a response.
#[derive(Debug, Clone, PartialEq, Eq)]
pub struct ChatCompletionChoice {
    pub message: ChatResponseMessage,
}

/// The error that a response reports.
#[derive(Debug, Clone, PartialEq, Eq)]
pub struct OpenAIError {
    pub message: String,
}

/// The body of a response, as far as it is read.
#[derive(Debug, Clone, PartialEq, Eq)]
pub struct ChatCompletionResponse {
    pub choices: Option<Vec<ChatCompletionChoice>>,
    pub error: Option<OpenAIError>,
}

/// How an exchange with the backend ended.
#[derive(Debug, Clone, PartialEq, Eq)]
pub enum Exchange {
    /// The request was not answered, or the answer's body could not be read.
    Unreachable,
    /// An answer came: its status, its body, and the body as a completion
    /// response where it is one.
    Answered { status: u16, body: String, parsed: Option<ChatCompletionResponse> },
}

/// The client's settings.
#[derive(Debug, Clone, PartialEq, Eq)]
pub struct OpenAI {
    pub api_key: String,
    pub model: String,
    pub api_url: String,
}

/// A status in 200..=299.
pub open spec fn is_success(status: u16) -> bool {
    200 <= status < 300
}

/// The endpoint below `base`: `base` itself where it already names the
/// endpoint, else `base` without the slashes at its end, and the path.
pub open spec fn completions_url(base: Seq<char>) -> Seq<char> {
    if COMPLETIONS_PATH@.is_suffix_of(base) {
        base
    } else {
        trim_end(base, '/') + COMPLETIONS_PATH@
    }
}

/// One turn of the conversation as a line: `[speaker]: [text]`.
pub open spec fn turn_line(turn: (Seq<char>, Seq<char>)) -> Seq<char> {
    seq!['['] + turn.0 + seq![']', ':', ' ', '['] + turn.1 + seq![']']
}

/// The turns as lines, one after the other, with a line feed between two.
pub open spec fn transcript(turns: Seq<(Seq<char>, Seq<char>)>) -> Seq<char>
    decreases turns.len(),
{
    if turns.len() == 0 {
        Seq::empty()
    } else if turns.len() == 1 {
        turn_line(turns[0])
    } else {
        transcript(turns.drop_last()) + seq!['\n'] + turn_line(turns.last())
    }
}

/// What an exchange yields: the first choice's text, or the failure.
pub open spec fn outcome(exchange: Exchange) -> Result<String, BackendFailure> {
    match exchange {
        Exchange::Unreachable => Err(BackendFailure::Transport),
        Exchange::Answered { status, body, parsed } => {
            if !is_success(status) {
                Err(BackendFailure::Status { code: status, body })
            } else {
                match parsed {
                    None => Err(BackendFailure::Malformed),
                    Some(response) => match response.error {
                        Some(error) => Err(BackendFailure::Api { message: error.message }),
                        None => match response.choices {
                            Some(choices) if choices@.len() > 0 => Ok(
                                choices@[0].message.content,
                            ),
                            _ => Err(BackendFailure::NoChoices),
                        },
                    },
                }
            }
        },
    }
}

/// The endpoint below `base`.
pub fn endpoint(base: &str) -> (url: String)
    ensures
        url@ == completions_url(base@),
{
    let chars = chars_of(base);
    let path = chars_of(COMPLETIONS_PATH);
    if ends_with(&chars, &path) {
        let url = string_of(&chars, 0, chars.len());
        assert(chars@.subrange(0, chars.len() as int) =~= chars@);
        url
    } else {
        let keep = trimmed_len(&chars, '/');
        let mut url = string_of(&chars, 0, keep);
        push_range(&mut url, &path, 0, path.len());
        assert(path@.subrange(0, path.len() as int) =~= path@);
        url
    }
}

impl OpenAI {
    /// The settings from what the environment gave: the key, the model and
    /// the service's address. Without a key there is no client; the model and
    /// the address have defaults.
    pub fn new(api_key: Option<String>, model: Option<String>, api_base: Option<String>) -> (r:
        Result<OpenAI, ConfigError>)
        ensures
            api_key is None <==> r is Err,
            r is Err ==> r == Err::<OpenAI, ConfigError>(ConfigError::MissingApiKey),
            r matches Ok(ai) ==> {
                &&& Some(ai.api_key) == api_key
                &&& ai.model@ == match model {
                    Some(m) => m@,
                    None => DEFAULT_MODEL@,
                }
                &&& ai.api_url@ == completions_url(
                    match api_base {
                        Some(b) => b@,
                        None => DEFAULT_API_BASE@,
                    },
                )
            },
    {
        let api_key = match api_key {
            Some(key) => key,
            None => {
                return Err(ConfigError::MissingApiKey);
            },
        };
        let model = match model {
            Some(m) => m,
            None => DEFAULT_MODEL.to_string(),
        };
        let api_url = match api_base {
            Some(b) => endpoint(b.as_str()),
            None => endpoint(DEFAULT_API_BASE),
        };
        Ok(OpenAI { api_key, model, api_url })
    }

    /// The value of the request's authorization header.
    pub fn authorization(&self) -> (header: String)
        ensures
            header@ == BEARER@ + self.api_key@,
    {
        let mut header = BEARER.to_string();
        header.append(self.api_key.as_str());
        header
    }

    /// The request for a reply to `messages`, a sequence of speaker and text:
    /// the system message, then the whole conversation as one user message.
    pub fn request(&self, messages: &Vec<(String, String)>) -> (req: ChatCompletionRequest)
        ensures
            req.model@ == self.model@,
            req.messages@.len() == 2,
            req.messages@[0].role@ == SYSTEM_ROLE@,
            req.messages@[0].content@ == AI_PROMPT@,
            req.messages@[1].role@ == USER_ROLE@,
            req.messages@[1].content@ == transcript(messages.deep_view()),
    {
        let mut content = String::new();
        let mut i: usize = 0;
        while i < messages.len()
            invariant
                i <= messages.len(),
                content@ == transcript(messages.deep_view().take(i as int)),
            decreases messages.len() - i,
        {
            let ghost turns = messages.deep_view();
            assert(turns.take(i + 1).drop_last() =~= turns.take(i as int));
            assert(turns.take(i + 1).last() == (messages@[i as int].0@, messages@[i as int].1@));
            if i > 0 {
                content.push('\n');
            }
            content.push('[');
            content.append(messages[i].0.as_str());
            content.push(']');
            content.push(':');
            content.push(' ');
            content.push('[');
            content.append(messages[i].1.as_str());
            content.push(']');
            assert(content@ =~= transcript(turns.take(i + 1)));
            i += 1;
        }
        assert(messages.deep_view().take(messages.len() as int) =~= messages.deep_view());
        let mut list: Vec<ChatMessage> = Vec::new();
        list.push(ChatMessage { role: SYSTEM_ROLE.to_string(), content: AI_PROMPT.to_string() });
        list.push(ChatMessage { role: USER_ROLE.to_string(), content });
        ChatCompletionRequest { model: self.model.clone(), messages: list }
    }

    /// What the exchange for a request yielded: the text of the first choice,
    /// or why there is none.
    pub fn generate_response(&self, exchange: Exchange) -> (r: Result<String, BackendFailure>)
        ensures
            r == outcome(exchange),
    {
        match exchange {
            Exchange::Unreachable => Err(BackendFailure::Transport),
            Exchange::Answered { status, body, parsed } => {
                if status < 200 || status >= 300 {
                    return Err(BackendFailure::Status { code: status, body });
                }
                let response = match parsed {
                    None => {
                        return Err(BackendFailure::Malformed);
                    },
                    Some(response) => response,
                };
                let ChatCompletionResponse { choices, error } = response;
                match error {
                    Some(error) => {
                        return Err(BackendFailure::Api { message: error.message });
                    },
                    None => {},
                }
                match choices {
                    Some(mut choices) => {
                        if choices.len() > 0 {
                            let first = choices.swap_remove(0);
                            Ok(first.message.content)
                        } else {
                            Err(BackendFailure::NoChoices)
                        }
                    },
                    None => Err(BackendFailure::NoChoices),
                }
            },
        }
    }
}

} // verus!
