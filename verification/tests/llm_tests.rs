use yushi::history::{ChatMessage, ToolMessage, ToolUse};
use yushi::json::Json;
use yushi::llm::{
    classify_request_error, http_status_error, masked_api_key, AssistantReply, ChatCompletionResponse,
    ChatCompletionsProvider, Choice, FinishReason, LlmApiType, RequestErrorKind, ResponseMessage, ToolSchema, Usage,
};

fn member<'a>(j: &'a Json, key: &str) -> &'a Json {
    j.get(key).expect("member")
}

#[test]
fn api_type_by_url() {
    assert_eq!(LlmApiType::determine_api_type("https://api.deepseek.com/chat/completions"), LlmApiType::ChatCompletions);
    assert_eq!(LlmApiType::determine_api_type("https://api.openai.com/v1/responses"), LlmApiType::Responses);
}

#[test]
fn finish_reasons_round_trip() {
    for f in [FinishReason::Stop, FinishReason::Length, FinishReason::ContentFilter, FinishReason::ToolCalls, FinishReason::InsufficientSystemResources] {
        assert_eq!(FinishReason::from_text(f.as_str()), Some(f));
    }
    assert_eq!(FinishReason::ToolCalls.as_str(), "tool_calls");
    assert_eq!(FinishReason::from_text("done"), None);
}

#[test]
fn request_body_carries_messages_and_tools() {
    let messages = vec![
        ChatMessage::User("hi".to_string()),
        ChatMessage::Assistant {
            content: "calling".to_string(),
            tool_uses: Some(vec![ToolUse { id: "c1".to_string(), name: "Bash".to_string(), arguments: "{}".to_string() }]),
        },
        ChatMessage::Tool(ToolMessage::new_content("out".to_string(), "c1".to_string())),
        ChatMessage::Assistant { content: "done".to_string(), tool_uses: None },
    ];
    let tools = vec![
        ToolSchema { name: "Bash".to_string(), description: "run".to_string(), parameters: Some(Json::Object(vec![("type".to_string(), Json::Str("object".to_string()))])) },
        ToolSchema { name: "Bad".to_string(), description: "d".to_string(), parameters: None },
    ];
    let body = ChatCompletionsProvider::request_body(&vec!["a".to_string(), "b".to_string()], &messages, "deepseek-chat", 4096, Some(&tools));
    let ms = member(&body, "messages").as_array().unwrap();
    assert_eq!(ms.len(), 5);
    assert_eq!(member(&ms[0], "role").as_str(), Some("system"));
    assert_eq!(member(&ms[0], "content").as_str(), Some("a\nb"));
    assert_eq!(member(&ms[1], "role").as_str(), Some("user"));
    let calls = member(&ms[2], "tool_calls").as_array().unwrap();
    assert_eq!(member(&calls[0], "type").as_str(), Some("function"));
    assert_eq!(member(member(&calls[0], "function"), "name").as_str(), Some("Bash"));
    assert_eq!(member(&ms[3], "tool_call_id").as_str(), Some("c1"));
    assert!(ms[4].get("tool_calls").is_none());
    assert_eq!(member(&body, "model").as_str(), Some("deepseek-chat"));
    assert_eq!(member(&body, "max_tokens").as_u64(), Some(4096));
    assert_eq!(member(&body, "stream").as_bool(), Some(false));
    assert!(member(&body, "stop").is_null());
    let ts = member(&body, "tools").as_array().unwrap();
    assert_eq!(member(member(member(&ts[0], "function"), "parameters"), "type").as_str(), Some("object"));
    assert!(matches!(member(member(&ts[1], "function"), "parameters"), Json::Object(m) if m.is_empty()));
    let none = ChatCompletionsProvider::request_body(&vec![], &vec![], "m", 1, None);
    assert!(member(&none, "tools").is_null());
    assert_eq!(member(&member(&none, "messages").as_array().unwrap()[0], "content").as_str(), Some(""));
}

fn response(choices: Vec<Choice>) -> ChatCompletionResponse {
    ChatCompletionResponse {
        id: "resp-1".to_string(),
        choices,
        created: 0,
        model: "m".to_string(),
        system_fingerprint: None,
        object: "chat.completion".to_string(),
        usage: Usage { completion_tokens: 1, prompt_tokens: 2, total_tokens: 3 },
    }
}

#[test]
fn replies_take_the_first_choice() {
    let r = response(vec![Choice {
        finish_reason: Some(FinishReason::ToolCalls),
        index: 0,
        message: ResponseMessage {
            content: "ok".to_string(),
            tool_calls: Some(vec![ToolUse { id: "c".to_string(), name: "n".to_string(), arguments: "a".to_string() }]),
        },
    }]);
    let a: AssistantReply = ChatCompletionsProvider::reply(&r).unwrap();
    assert_eq!(a.content, "ok");
    assert_eq!(a.uuid, "resp-1");
    assert_eq!(a.tool_uses.unwrap()[0].name, "n");
    assert_eq!(ChatCompletionsProvider::reply(&response(vec![])).unwrap_err(), "No response choices received");
}

#[test]
fn errors_and_keys_for_the_logs() {
    assert_eq!(http_status_error("404 Not Found"), "HTTP status: 404 Not Found");
    assert_eq!(masked_api_key("sk-1234567890"), "sk-1****7890");
    assert_eq!(masked_api_key("12345678"), "****");
    let none = RequestErrorKind { is_timeout: false, is_connect: false, is_request: false, is_body: false, is_decode: false, is_redirect: false, is_status: false };
    assert_eq!(classify_request_error(none), "UNKNOWN_ERROR");
    assert_eq!(classify_request_error(RequestErrorKind { is_timeout: true, is_connect: true, ..none }), "CONNECTION_TIMEOUT");
    assert_eq!(classify_request_error(RequestErrorKind { is_timeout: true, ..none }), "REQUEST_TIMEOUT");
    assert_eq!(classify_request_error(RequestErrorKind { is_connect: true, is_status: true, ..none }), "CONNECTION_FAILED");
    assert_eq!(classify_request_error(RequestErrorKind { is_status: true, ..none }), "HTTP_STATUS_ERROR");
}
