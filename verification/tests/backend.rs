use chatbot_core::ai::{
    endpoint, BackendFailure, ChatCompletionChoice, ChatCompletionResponse, ChatMessage,
    ChatResponseMessage, ConfigError, Exchange, OpenAI, OpenAIError,
};
use chatbot_core::consts::AI_PROMPT;

fn client() -> OpenAI {
    OpenAI::new(Some("key".to_string()), None, None).unwrap()
}

fn choice(text: &str) -> ChatCompletionChoice {
    ChatCompletionChoice { message: ChatResponseMessage { content: text.to_string() } }
}

fn answered(status: u16, parsed: Option<ChatCompletionResponse>) -> Exchange {
    Exchange::Answered { status, body: "body".to_string(), parsed }
}

#[test]
fn new_needs_a_key() {
    assert_eq!(OpenAI::new(None, None, None), Err(ConfigError::MissingApiKey));
    assert_eq!(
        OpenAI::new(None, Some("m".to_string()), Some("http://x".to_string())),
        Err(ConfigError::MissingApiKey)
    );
}

#[test]
fn new_fills_in_defaults() {
    assert_eq!(
        client(),
        OpenAI {
            api_key: "key".to_string(),
            model: "gpt-4o-mini".to_string(),
            api_url: "https://api.openai.com/v1/chat/completions".to_string(),
        }
    );
}

#[test]
fn new_takes_what_is_given() {
    let ai = OpenAI::new(
        Some("k".to_string()),
        Some("other-model".to_string()),
        Some("http://localhost:8080//".to_string()),
    )
    .unwrap();
    assert_eq!(ai.model, "other-model");
    assert_eq!(ai.api_url, "http://localhost:8080/v1/chat/completions");
}

#[test]
fn endpoint_keeps_a_full_address_and_trims_slashes() {
    assert_eq!(endpoint("http://h/v1/chat/completions"), "http://h/v1/chat/completions");
    assert_eq!(endpoint("http://h"), "http://h/v1/chat/completions");
    assert_eq!(endpoint("http://h/"), "http://h/v1/chat/completions");
    assert_eq!(endpoint("http://h///"), "http://h/v1/chat/completions");
    assert_eq!(endpoint(""), "/v1/chat/completions");
    assert_eq!(
        endpoint("http://h/v1/chat/completions/"),
        "http://h/v1/chat/completions/v1/chat/completions"
    );
}

#[test]
fn authorization_is_a_bearer_token() {
    assert_eq!(client().authorization(), "Bearer key");
}

#[test]
fn request_holds_prompt_and_transcript() {
    let turns = vec![
        ("ann".to_string(), "hello".to_string()),
        ("bob".to_string(), "hi\nthere".to_string()),
        (String::new(), String::new()),
    ];
    let request = client().request(&turns);
    assert_eq!(request.model, "gpt-4o-mini");
    assert_eq!(
        request.messages,
        vec![
            ChatMessage { role: "system".to_string(), content: AI_PROMPT.to_string() },
            ChatMessage {
                role: "user".to_string(),
                content: "[ann]: [hello]\n[bob]: [hi\nthere]\n[]: []".to_string(),
            },
        ]
    );
}

#[test]
fn request_for_an_empty_conversation() {
    let request = client().request(&vec![]);
    assert_eq!(request.messages.len(), 2);
    assert_eq!(request.messages[1].content, "");
    let one = client().request(&vec![("a".to_string(), "b".to_string())]);
    assert_eq!(one.messages[1].content, "[a]: [b]");
}

#[test]
fn prompt_is_the_system_message() {
    assert!(AI_PROMPT.starts_with("\n你是一个机器人"));
    assert!(AI_PROMPT.contains("[USER_ID]: [MESSAGE]"));
    assert!(AI_PROMPT.ends_with("接下来聊天的内容：\n"));
}

#[test]
fn unanswered_exchange_is_a_transport_failure() {
    assert_eq!(client().generate_response(Exchange::Unreachable), Err(BackendFailure::Transport));
}

#[test]
fn status_outside_success_is_reported_with_the_body() {
    for status in [199, 300, 404, 500, 0, u16::MAX] {
        let parsed =
            Some(ChatCompletionResponse { choices: Some(vec![choice("x")]), error: None });
        assert_eq!(
            client().generate_response(answered(status, parsed)),
            Err(BackendFailure::Status { code: status, body: "body".to_string() })
        );
    }
}

#[test]
fn unparsed_body_is_malformed() {
    assert_eq!(client().generate_response(answered(200, None)), Err(BackendFailure::Malformed));
}

#[test]
fn reported_error_wins_over_choices() {
    let parsed = Some(ChatCompletionResponse {
        choices: Some(vec![choice("x")]),
        error: Some(OpenAIError { message: "quota".to_string() }),
    });
    assert_eq!(
        client().generate_response(answered(200, parsed)),
        Err(BackendFailure::Api { message: "quota".to_string() })
    );
}

#[test]
fn missing_or_empty_choices_give_no_text() {
    let none = Some(ChatCompletionResponse { choices: None, error: None });
    assert_eq!(client().generate_response(answered(200, none)), Err(BackendFailure::NoChoices));
    let empty = Some(ChatCompletionResponse { choices: Some(vec![]), error: None });
    assert_eq!(client().generate_response(answered(299, empty)), Err(BackendFailure::NoChoices));
}

#[test]
fn first_choice_is_the_reply() {
    let parsed = Some(ChatCompletionResponse {
        choices: Some(vec![choice("first"), choice("second")]),
        error: None,
    });
    assert_eq!(client().generate_response(answered(200, parsed)), Ok("first".to_string()));
    let parsed = Some(ChatCompletionResponse { choices: Some(vec![choice("only")]), error: None });
    assert_eq!(client().generate_response(answered(299, parsed)), Ok("only".to_string()));
}
