use open_promux::chat::{
    chat_role_content_to_responses_items, chat_value_to_responses_request,
    responses_response_to_chat_value, responses_value_to_chat_value,
};
use open_promux::json::Json;
use open_promux::messages::{
    anthropic_message_to_responses_items, anthropic_value_to_responses_request,
    chat_message_text, chat_response_to_anthropic_value, translate_anthropic_tool_choice,
    with_upstream_model,
};
use open_promux::types::{
    ChatChoice, ChatFunction, ChatResponse, ChatResponseMessage, ChatToolCall, ChatUsage,
    ResponseContentPart, ResponseOutputItem, ResponsesInput, ResponsesResponse, ResponsesUsage,
};

fn value_to_json(v: &serde_json::Value) -> Json {
    match v {
        serde_json::Value::Null => Json::Null,
        serde_json::Value::Bool(b) => Json::Bool(*b),
        serde_json::Value::Number(n) => Json::Number(n.to_string()),
        serde_json::Value::String(s) => Json::Str(s.clone()),
        serde_json::Value::Array(a) => Json::Array(a.iter().map(value_to_json).collect()),
        serde_json::Value::Object(m) => {
            Json::Object(m.iter().map(|(k, x)| (k.clone(), value_to_json(x))).collect())
        }
    }
}

fn json_to_value(j: &Json) -> serde_json::Value {
    match j {
        Json::Null => serde_json::Value::Null,
        Json::Bool(b) => serde_json::Value::Bool(*b),
        Json::Number(t) => serde_json::Value::Number(t.parse().expect("number text")),
        Json::Str(s) => serde_json::Value::String(s.clone()),
        Json::Array(a) => serde_json::Value::Array(a.iter().map(json_to_value).collect()),
        Json::Object(es) => {
            serde_json::Value::Object(es.iter().map(|(k, x)| (k.clone(), json_to_value(x))).collect())
        }
    }
}

fn parse_json_text(text: &str) -> Option<Json> {
    serde_json::from_str::<serde_json::Value>(text).ok().map(|v| value_to_json(&v))
}

fn to_json_text(j: &Json) -> String {
    json_to_value(j).to_string()
}

fn json(text: &str) -> Json {
    parse_json_text(text).expect("valid JSON")
}

fn same(a: &Json, expected: &str) -> bool {
    to_json_text(a) == to_json_text(&json(expected))
}

fn items_of(input: &ResponsesInput) -> &Vec<open_promux::types::ResponsesInputItem> {
    match input {
        ResponsesInput::Items(items) => items,
        ResponsesInput::Text(_) => panic!("expected items"),
    }
}

#[test]
fn chat_request_translates_roles_tools_and_instructions() {
    let value = json(
        r#"{
        "model": "gpt",
        "stream": true,
        "temperature": 0.5,
        "max_completion_tokens": 64,
        "messages": [
            {"role": "system", "content": "be brief"},
            {"role": "developer", "content": "use tools"},
            {"role": "user", "content": [{"type": "text", "text": "hi"}, {"type": "image_url"}]},
            {"role": "assistant", "content": "calling",
             "tool_calls": [{"id": "call_1", "function": {"name": "lookup", "arguments": "{\"q\":1}"}}]},
            {"role": "tool", "tool_call_id": "call_1", "content": {"ok": true}},
            {"role": "assistant", "content": ""}
        ],
        "tools": [{"type": "function", "function": {"name": "lookup", "parameters": {"type": "object"}}},
                  {"type": "function", "function": {"description": "nameless"}}],
        "tool_choice": "auto"
    }"#,
    );
    let req = chat_value_to_responses_request(&value).unwrap();
    assert_eq!(req.model, "gpt");
    assert_eq!(req.stream, Some(true));
    assert_eq!(req.temperature.as_deref(), Some("0.5"));
    assert_eq!(req.max_output_tokens, Some(64));
    assert_eq!(req.instructions.as_deref(), Some("be brief\n\nuse tools"));
    let items = items_of(&req.input);
    assert_eq!(items.len(), 4);
    assert_eq!(items[0].role.as_deref(), Some("user"));
    assert!(same(items[0].content.as_ref().unwrap(), r#"[{"type": "input_text", "text": "hi"}]"#));
    assert_eq!(items[1].item_type.as_deref(), Some("function_call"));
    assert_eq!(items[1].call_id.as_deref(), Some("call_1"));
    assert_eq!(items[1].arguments.as_deref(), Some("{\"q\":1}"));
    assert_eq!(items[2].role.as_deref(), Some("assistant"));
    assert!(same(items[2].content.as_ref().unwrap(), r#"[{"type": "output_text", "text": "calling"}]"#));
    assert_eq!(items[3].item_type.as_deref(), Some("function_call_output"));
    assert_eq!(items[3].output.as_deref(), Some("{\"ok\":true}"));
    let tools = req.tools.as_ref().unwrap();
    assert_eq!(tools.len(), 1);
    assert_eq!(tools[0].name.as_deref(), Some("lookup"));
    assert!(same(req.tool_choice.as_ref().unwrap(), r#""auto""#));
}

#[test]
fn chat_request_errors_name_the_missing_part() {
    assert_eq!(
        chat_value_to_responses_request(&json("[1]")).unwrap_err(),
        "chat request must be a JSON object"
    );
    assert_eq!(
        chat_value_to_responses_request(&json(r#"{"messages": []}"#)).unwrap_err(),
        "chat request missing `model`"
    );
}

#[test]
fn chat_role_content_drops_empty_text() {
    assert!(chat_role_content_to_responses_items("user", &json(r#""""#)).is_empty());
    assert!(chat_role_content_to_responses_items("user", &json("null")).is_empty());
    assert_eq!(chat_role_content_to_responses_items("assistant", &json(r#""x""#)).len(), 1);
}

#[test]
fn responses_response_becomes_a_chat_completion() {
    let resp = ResponsesResponse {
        id: "resp_1".into(),
        object: "response".into(),
        created_at: 42,
        model: "m".into(),
        status: "completed".into(),
        output: vec![
            ResponseOutputItem::Message {
                id: "msg_1".into(),
                status: "completed".into(),
                role: "assistant".into(),
                reasoning_content: Some("thinking".into()),
                content: vec![
                    ResponseContentPart { part_type: "output_text".into(), text: "po".into(), annotations: vec![] },
                    ResponseContentPart { part_type: "output_text".into(), text: "ng".into(), annotations: vec![] },
                ],
            },
            ResponseOutputItem::FunctionCall {
                id: "fc_1".into(),
                status: "completed".into(),
                call_id: "call_1".into(),
                name: "lookup".into(),
                arguments: "{}".into(),
            },
        ],
        usage: ResponsesUsage { input_tokens: 1, output_tokens: 2, total_tokens: 3 },
    };
    let chat = responses_response_to_chat_value(&resp);
    assert!(same(
        &chat,
        r#"{"id": "resp_1", "object": "chat.completion", "created": 42, "model": "m",
            "choices": [{"index": 0, "finish_reason": "tool_calls",
              "message": {"role": "assistant", "content": "pong", "reasoning_content": "thinking",
                "tool_calls": [{"id": "call_1", "type": "function",
                  "function": {"name": "lookup", "arguments": "{}"}}]}}],
            "usage": {"prompt_tokens": 1, "completion_tokens": 2, "total_tokens": 3}}"#
    ));
}

#[test]
fn responses_value_becomes_a_chat_completion_with_defaults() {
    let value = json(
        r#"{"output": [{"type": "message", "content": [{"text": "a"}, {"text": "b"}]},
                       {"type": "function_call", "id": "fc_9", "name": "f"}],
            "usage": {"input_tokens": 5, "output_tokens": 6, "total_tokens": 11}}"#,
    );
    let chat = responses_value_to_chat_value(&value);
    assert!(same(
        &chat,
        r#"{"id": "chatcmpl_unknown", "object": "chat.completion", "created": 0, "model": "",
            "choices": [{"index": 0, "finish_reason": "tool_calls",
              "message": {"role": "assistant", "content": "ab",
                "tool_calls": [{"id": "fc_9", "type": "function",
                  "function": {"name": "f", "arguments": "{}"}}]}}],
            "usage": {"prompt_tokens": 5, "completion_tokens": 6, "total_tokens": 11}}"#
    ));
    let empty = responses_value_to_chat_value(&json("{}"));
    assert!(same(
        &empty,
        r#"{"id": "chatcmpl_unknown", "object": "chat.completion", "created": 0, "model": "",
            "choices": [{"index": 0, "finish_reason": "stop",
              "message": {"role": "assistant", "content": null}}],
            "usage": {"prompt_tokens": 0, "completion_tokens": 0, "total_tokens": 0}}"#
    ));
}

#[test]
fn anthropic_request_translates_blocks_in_order() {
    let value = json(
        r#"{
        "model": "anthropic-model",
        "system": "sys",
        "max_tokens": 100,
        "messages": [
            {"role": "user", "content": "hello"},
            {"role": "assistant", "content": [
                {"type": "text", "text": "let me look"},
                {"type": "tool_use", "id": "toolu_1", "name": "lookup", "input": {"q": "rust"}},
                {"type": "text", "text": "done"}
            ]},
            {"role": "user", "content": [
                {"type": "tool_result", "tool_use_id": "toolu_1", "content": "found"}
            ]},
            {"content": "no role"}
        ],
        "tools": [{"name": "lookup", "input_schema": {"type": "object"}}],
        "tool_choice": {"type": "tool", "name": "lookup"}
    }"#,
    );
    let req = anthropic_value_to_responses_request(&value).unwrap();
    assert_eq!(req.instructions.as_deref(), Some("sys"));
    assert_eq!(req.max_output_tokens, Some(100));
    let items = items_of(&req.input);
    assert_eq!(items.len(), 5);
    assert!(same(items[0].content.as_ref().unwrap(), r#"[{"type": "input_text", "text": "hello"}]"#));
    assert!(same(items[1].content.as_ref().unwrap(), r#"[{"type": "output_text", "text": "let me look"}]"#));
    assert_eq!(items[2].item_type.as_deref(), Some("function_call"));
    assert_eq!(items[2].arguments.as_deref(), Some("{\"q\":\"rust\"}"));
    assert!(same(items[3].content.as_ref().unwrap(), r#"[{"type": "output_text", "text": "done"}]"#));
    assert_eq!(items[4].item_type.as_deref(), Some("function_call_output"));
    assert_eq!(items[4].output.as_deref(), Some("found"));
    assert_eq!(req.tools.as_ref().unwrap()[0].name.as_deref(), Some("lookup"));
    assert!(same(req.tool_choice.as_ref().unwrap(), r#"{"type": "function", "name": "lookup"}"#));
}

#[test]
fn anthropic_request_errors_name_the_missing_part() {
    assert_eq!(
        anthropic_value_to_responses_request(&json("1")).unwrap_err(),
        "anthropic request must be a JSON object"
    );
    assert_eq!(
        anthropic_value_to_responses_request(&json("{}")).unwrap_err(),
        "anthropic request missing `model`"
    );
}

#[test]
fn anthropic_tool_choice_modes_translate() {
    assert!(same(&translate_anthropic_tool_choice(json(r#"{"type": "any"}"#)), r#""required""#));
    assert!(same(&translate_anthropic_tool_choice(json(r#"{"type": "auto"}"#)), r#""auto""#));
    assert!(same(&translate_anthropic_tool_choice(json(r#"{"type": "none"}"#)), r#"{"type": "none"}"#));
}

#[test]
fn anthropic_tool_use_without_input_sends_empty_object_arguments() {
    let items = anthropic_message_to_responses_items(
        "assistant",
        &json(r#"[{"type": "tool_use", "id": "t", "name": "n"}]"#),
    );
    assert_eq!(items.len(), 1);
    assert_eq!(items[0].arguments.as_deref(), Some("{}"));
}

#[test]
fn chat_response_becomes_an_anthropic_message() {
    let resp = ChatResponse {
        id: "chatcmpl_1".into(),
        model: "gpt".into(),
        choices: vec![ChatChoice {
            index: 0,
            message: ChatResponseMessage {
                role: "assistant".into(),
                content: Some("hi".into()),
                reasoning_content: None,
                tool_calls: Some(vec![ChatToolCall {
                    id: "call_1".into(),
                    call_type: "function".into(),
                    function: ChatFunction { name: "lookup".into(), arguments: "not json".into() },
                }]),
            },
            finish_reason: Some("length".into()),
        }],
        usage: Some(ChatUsage { prompt_tokens: 3, completion_tokens: 4, total_tokens: 7 }),
    };
    let out = chat_response_to_anthropic_value(&resp);
    assert!(same(
        &out,
        r#"{"id": "chatcmpl_1", "type": "message", "role": "assistant", "model": "gpt",
            "content": [{"type": "text", "text": "hi"},
                        {"type": "tool_use", "id": "call_1", "name": "lookup", "input": {}}],
            "stop_reason": "max_tokens",
            "usage": {"input_tokens": 3, "output_tokens": 4}}"#
    ));
}

#[test]
fn chat_response_without_choices_ends_the_turn() {
    let resp = ChatResponse { id: "x".into(), model: "m".into(), choices: vec![], usage: None };
    assert!(same(
        &chat_response_to_anthropic_value(&resp),
        r#"{"id": "x", "type": "message", "role": "assistant", "model": "m", "content": [],
            "stop_reason": "end_turn"}"#
    ));
    assert_eq!(chat_message_text(&Some(String::new())), None);
    assert_eq!(chat_message_text(&Some("a".into())), Some("a".to_string()));
}

#[test]
fn upstream_model_replaces_the_requested_one() {
    let req = json(r#"{"model": "alias", "stream": true}"#);
    assert!(same(&with_upstream_model(&req, "real"), r#"{"model": "real", "stream": true}"#));
    assert!(same(&with_upstream_model(&json("[1]"), "real"), "[1]"));
}
