use open_promux::convert::requests::{responses_to_anthropic, responses_to_chat};
use open_promux::convert::responses::{anthropic_to_responses, chat_to_responses};
use open_promux::convert::stream::{
    convert_stream_chunk, convert_stream_end, convert_stream_finish, convert_stream_start,
    SseEvent, StreamState,
};
use open_promux::json::Json;
use open_promux::types::{
    AnthropicContentBlock, AnthropicResponse, AnthropicUsage, ChatChoice, ChatChunk,
    ChatChunkChoice, ChatChunkDelta, ChatChunkFunction, ChatChunkToolCall, ChatResponse,
    ChatResponseMessage, ChatUsage, ResponseOutputItem, ResponsesInput, ResponsesInputItem,
    ResponsesRequest, ResponsesTool,
};

fn value_to_json(v: &serde_json::Value) -> Json {
    match v {
        serde_json::Value::Null => Json::Null,
        serde_json::Value::Bool(b) => Json::Bool(*b),
        serde_json::Value::Number(n) => Json::Number(n.to_string()),
        serde_json::Value::String(s) => Json::Str(s.clone()),
        serde_json::Value::Array(a) => Json::Array(a.iter().map(value_to_json).collect()),
        serde_json::Value::Object(m) => {
            Json::Object(m.iter().map(|(k, x)| (k.clone(), value_to_json(x))).collect())
        }
    }
}

fn json_to_value(j: &Json) -> serde_json::Value {
    match j {
        Json::Null => serde_json::Value::Null,
        Json::Bool(b) => serde_json::Value::Bool(*b),
        Json::Number(t) => serde_json::Value::Number(t.parse().expect("number text")),
        Json::Str(s) => serde_json::Value::String(s.clone()),
        Json::Array(a) => serde_json::Value::Array(a.iter().map(json_to_value).collect()),
        Json::Object(es) => {
            serde_json::Value::Object(es.iter().map(|(k, x)| (k.clone(), json_to_value(x))).collect())
        }
    }
}

fn parse_json_text(text: &str) -> Option<Json> {
    serde_json::from_str::<serde_json::Value>(text).ok().map(|v| value_to_json(&v))
}

fn to_json_text(j: &Json) -> String {
    json_to_value(j).to_string()
}

fn json(text: &str) -> Json {
    parse_json_text(text).expect("valid JSON")
}

fn text_of(j: &Json) -> String {
    to_json_text(j)
}

fn same(a: &Json, expected: &str) -> bool {
    text_of(a) == text_of(&json(expected))
}

fn joined(events: &[SseEvent]) -> String {
    events.iter().map(|e| e.to_sse_text()).collect::<Vec<_>>().join("")
}

fn request(model: &str, input: ResponsesInput) -> ResponsesRequest {
    ResponsesRequest {
        model: model.to_string(),
        instructions: None,
        input,
        stream: None,
        temperature: None,
        top_p: None,
        max_output_tokens: None,
        tools: None,
        tool_choice: None,
        extra: Vec::new(),
    }
}

fn message(role: &str, content: &str) -> ResponsesInputItem {
    ResponsesInputItem {
        item_type: Some("message".to_string()),
        role: Some(role.to_string()),
        content: Some(json(content)),
        reasoning_content: None,
        call_id: None,
        name: None,
        arguments: None,
        output: None,
    }
}

fn empty_item(kind: &str) -> ResponsesInputItem {
    ResponsesInputItem {
        item_type: Some(kind.to_string()),
        role: None,
        content: None,
        reasoning_content: None,
        call_id: None,
        name: None,
        arguments: None,
        output: None,
    }
}

fn chunk(id: &str, model: &str, delta: ChatChunkDelta, finish: Option<&str>) -> ChatChunk {
    ChatChunk {
        id: id.to_string(),
        model: model.to_string(),
        choices: vec![ChatChunkChoice { index: 0, delta, finish_reason: finish.map(|s| s.to_string()) }],
        usage: None,
    }
}

fn delta() -> ChatChunkDelta {
    ChatChunkDelta { role: None, content: None, reasoning_content: None, tool_calls: None }
}

#[test]
fn responses_to_chat_should_preserve_full_context_and_tool_calls() {
    let mut call = empty_item("function_call");
    call.call_id = Some("call_1".into());
    call.name = Some("lookup".into());
    call.arguments = Some("{\"q\":\"rust\"}".into());
    let mut output = empty_item("function_call_output");
    output.call_id = Some("call_1".into());
    output.output = Some("{\"result\":\"ok\"}".into());
    let mut req = request(
        "test-model",
        ResponsesInput::Items(vec![
            message("user", r#"[{"type": "input_text", "text": "hello"}]"#),
            message("assistant", r#"[{"type": "output_text", "text": "hi"}]"#),
            call,
            output,
            message("user", r#"[{"type": "input_text", "text": "continue"}]"#),
        ]),
    );
    req.instructions = Some("system prompt".into());
    req.tools = Some(vec![ResponsesTool {
        tool_type: "function".into(),
        name: Some("lookup".into()),
        description: Some("Lookup".into()),
        parameters: Some(json(r#"{"type": "object"}"#)),
    }]);
    req.extra = vec![("parallel_tool_calls".to_string(), Json::Bool(true))];

    let chat = responses_to_chat(&req);

    assert_eq!(chat.messages.len(), 6);
    assert_eq!(chat.messages[0].role, "system");
    assert_eq!(chat.messages[1].content.as_ref().unwrap().as_str(), Some("hello"));
    assert_eq!(chat.messages[2].content.as_ref().unwrap().as_str(), Some("hi"));
    assert_eq!(chat.messages[3].tool_calls.as_ref().unwrap()[0].id, "call_1");
    assert_eq!(chat.messages[4].tool_call_id.as_deref(), Some("call_1"));
    assert_eq!(chat.messages[5].content.as_ref().unwrap().as_str(), Some("continue"));
    assert_eq!(chat.tools.as_ref().unwrap()[0].function.name, "lookup");
}

#[test]
fn responses_to_chat_should_convert_responses_function_tool_choice() {
    let mut req = request("test-model", ResponsesInput::Text("hello".into()));
    req.tool_choice = Some(json(r#"{"type": "function", "name": "lookup"}"#));

    let chat = responses_to_chat(&req);

    assert!(same(
        chat.tool_choice.as_ref().unwrap(),
        r#"{"type": "function", "function": {"name": "lookup"}}"#
    ));
}

#[test]
fn responses_to_chat_should_map_text_format_to_response_format() {
    let mut req = request("test-model", ResponsesInput::Text("hello".into()));
    req.extra = vec![("text".to_string(), json(r#"{"format": {"type": "json_object"}}"#))];

    let chat = responses_to_chat(&req);
    let format = chat.extra.iter().find(|(k, _)| k == "response_format").map(|(_, v)| v);

    assert!(same(format.unwrap(), r#"{"type": "json_object"}"#));
}

#[test]
fn responses_to_anthropic_should_convert_string_tool_choice_modes() {
    let mut req = request("anthropic-test", ResponsesInput::Text("hello".into()));
    req.tool_choice = Some(Json::Str("required".into()));

    let anthropic = responses_to_anthropic(&req);

    assert!(same(anthropic.tool_choice.as_ref().unwrap(), r#"{"type": "any"}"#));
}

#[test]
fn responses_to_chat_should_map_developer_role_to_system_for_chat_compatibility() {
    let req = request(
        "test-model",
        ResponsesInput::Items(vec![
            message("developer", r#"[{"type": "input_text", "text": "follow these rules"}]"#),
            message("user", r#"[{"type": "input_text", "text": "hello"}]"#),
        ]),
    );

    let chat = responses_to_chat(&req);

    assert_eq!(chat.messages[0].role, "system");
    assert_eq!(chat.messages[0].content.as_ref().unwrap().as_str(), Some("follow these rules"));
    assert_eq!(chat.messages[1].role, "user");
}

#[test]
fn responses_to_chat_should_preserve_reasoning_content_for_deepseek_replay() {
    let mut previous = message("assistant", r#"[{"type": "output_text", "text": "previous answer"}]"#);
    previous.reasoning_content = Some("previous reasoning".into());
    let req = request(
        "deepseek-v4-pro",
        ResponsesInput::Items(vec![
            previous,
            message("user", r#"[{"type": "input_text", "text": "continue"}]"#),
        ]),
    );

    let chat = responses_to_chat(&req);

    assert_eq!(chat.messages[0].reasoning_content.as_deref(), Some("previous reasoning"));
    assert_eq!(chat.messages[0].content.as_ref().unwrap().as_str(), Some("previous answer"));
}

#[test]
fn chat_to_responses_should_preserve_reasoning_content_for_replay() {
    let chat_resp = ChatResponse {
        id: "chatcmpl_1".into(),
        model: "deepseek-v4-pro".into(),
        choices: vec![ChatChoice {
            index: 0,
            message: ChatResponseMessage {
                role: "assistant".into(),
                content: Some("final answer".into()),
                reasoning_content: Some("new reasoning".into()),
                tool_calls: None,
            },
            finish_reason: Some("stop".into()),
        }],
        usage: None,
    };

    let responses = chat_to_responses(&chat_resp);

    match &responses.output[0] {
        ResponseOutputItem::Message { reasoning_content, content, .. } => {
            assert_eq!(reasoning_content.as_deref(), Some("new reasoning"));
            assert_eq!(content[0].text, "final answer");
        }
        other => panic!("expected a message, got {other:?}"),
    }
}

#[test]
fn response_stream_should_preserve_reasoning_content_in_completed_output() {
    let mut state = StreamState::new();
    convert_stream_start(&mut state, "deepseek-v4-pro");
    let mut d1 = delta();
    d1.role = Some("assistant".into());
    d1.reasoning_content = Some("stream reasoning".into());
    let mut d2 = delta();
    d2.content = Some("final answer".into());
    let reasoning_chunk = chunk("chunk_1", "deepseek-v4-pro", d1, None);
    let content_chunk = chunk("chunk_1", "deepseek-v4-pro", d2, Some("stop"));

    convert_stream_chunk(&mut state, &reasoning_chunk);
    convert_stream_chunk(&mut state, &content_chunk);
    let end = convert_stream_end(&state, None).to_sse_text();

    assert!(end.contains("\"reasoning_content\":\"stream reasoning\""));
    assert!(end.contains("\"text\":\"final answer\""));
}

#[test]
fn streaming_tool_calls_should_emit_argument_deltas_and_complete_output() {
    let mut state = StreamState::new();
    let mut d1 = delta();
    d1.role = Some("assistant".into());
    d1.tool_calls = Some(vec![ChatChunkToolCall {
        index: 0,
        id: Some("call_1".into()),
        call_type: Some("function".into()),
        function: Some(ChatChunkFunction { name: Some("lookup".into()), arguments: Some("{\"q\"".into()) }),
    }]);
    let first = chunk("chunk_1", "test-model", d1, None);

    let events = joined(&convert_stream_chunk(&mut state, &first));

    assert!(events.contains("response.output_item.added"));
    assert!(events.contains("response.function_call_arguments.delta"));

    let mut d2 = delta();
    d2.tool_calls = Some(vec![ChatChunkToolCall {
        index: 0,
        id: None,
        call_type: None,
        function: Some(ChatChunkFunction { name: None, arguments: Some(":\"rust\"}".into()) }),
    }]);
    let second = chunk("chunk_2", "test-model", d2, Some("tool_calls"));

    let events = joined(&convert_stream_chunk(&mut state, &second));
    let end = convert_stream_end(&state, None).to_sse_text();

    assert!(events.contains("response.function_call_arguments.done"));
    assert!(events.contains("\"arguments\":\"{\\\"q\\\":\\\"rust\\\"}\""));
    assert!(end.contains("\"type\":\"function_call\""));
}

#[test]
fn stream_finish_should_complete_open_text_output() {
    let mut state = StreamState::new();
    convert_stream_start(&mut state, "test-model");
    let mut d = delta();
    d.role = Some("assistant".into());
    d.content = Some("hello".into());
    let c = chunk("chunk_1", "test-model", d, None);

    convert_stream_chunk(&mut state, &c);
    let finish = joined(&convert_stream_finish(&mut state));
    let end = convert_stream_end(&state, None).to_sse_text();

    assert!(finish.contains("response.output_item.done"));
    assert!(end.contains("\"model\":\"test-model\""));
    assert!(end.contains("\"text\":\"hello\""));
}

#[test]
fn stream_finish_flushes_an_open_tool_call() {
    let mut state = StreamState::new();
    convert_stream_start(&mut state, "m");
    let mut d = delta();
    d.tool_calls = Some(vec![ChatChunkToolCall {
        index: 0,
        id: Some("call_1".into()),
        call_type: None,
        function: Some(ChatChunkFunction { name: Some("f".into()), arguments: Some("{}".into()) }),
    }]);
    convert_stream_chunk(&mut state, &chunk("c", "m", d, None));
    let finish = joined(&convert_stream_finish(&mut state));
    assert!(finish.contains("response.function_call_arguments.done"));
    assert!(finish.contains("response.output_item.done"));
    assert!(finish.contains("\"call_id\":\"call_1\""));
    assert!(finish.contains("\"status\":\"completed\""));
    assert_eq!(state.output_items.len(), 1);
    let item = text_of(&state.output_items[0].1);
    assert!(item.contains("\"type\":\"function_call\""));
    assert!(item.contains("\"status\":\"completed\""));
    let end = convert_stream_end(&state, None).to_sse_text();
    assert!(end.contains("\"call_id\":\"call_1\""));
    assert!(convert_stream_finish(&mut state).is_empty());
}

#[test]
fn stream_finish_does_not_repeat_closed_tool_calls() {
    let mut state = StreamState::new();
    convert_stream_start(&mut state, "m");
    let mut d = delta();
    d.tool_calls = Some(vec![ChatChunkToolCall {
        index: 0,
        id: Some("call_1".into()),
        call_type: None,
        function: Some(ChatChunkFunction { name: Some("f".into()), arguments: Some("{}".into()) }),
    }]);
    convert_stream_chunk(&mut state, &chunk("c", "m", d, Some("tool_calls")));
    assert!(convert_stream_finish(&mut state).is_empty());
}

#[test]
fn stream_finish_twice_emits_nothing_the_second_time() {
    let mut state = StreamState::new();
    convert_stream_start(&mut state, "m");
    let mut d = delta();
    d.content = Some("x".into());
    convert_stream_chunk(&mut state, &chunk("c", "m", d, None));
    assert!(!convert_stream_finish(&mut state).is_empty());
    assert!(convert_stream_finish(&mut state).is_empty());
}

#[test]
fn stream_start_emits_created_then_in_progress() {
    let mut state = StreamState::new();
    let events = convert_stream_start(&mut state, "m");
    assert_eq!(events.len(), 2);
    assert_eq!(events[0].event, "response.created");
    assert_eq!(events[1].event, "response.in_progress");
    assert!(state.response_id.starts_with("resp_"));
}

#[test]
fn anthropic_to_responses_should_keep_text_and_tool_use_blocks() {
    let resp = AnthropicResponse {
        id: "msg_1".into(),
        role: "assistant".into(),
        model: "anthropic-model".into(),
        content: vec![
            AnthropicContentBlock {
                block_type: "text".into(),
                text: Some("hello".into()),
                id: None,
                name: None,
                input: None,
            },
            AnthropicContentBlock {
                block_type: "tool_use".into(),
                text: None,
                id: Some("toolu_1".into()),
                name: Some("lookup".into()),
                input: Some(json(r#"{"q":"rust"}"#)),
            },
        ],
        stop_reason: Some("tool_use".into()),
        usage: Some(AnthropicUsage { input_tokens: 3, output_tokens: 4 }),
    };

    let out = anthropic_to_responses(&resp);

    assert_eq!(out.usage.input_tokens, 3);
    assert_eq!(out.usage.output_tokens, 4);
    assert_eq!(out.usage.total_tokens, 7);
    let calls: Vec<_> = out
        .output
        .iter()
        .filter_map(|i| match i {
            ResponseOutputItem::FunctionCall { call_id, name, arguments, .. } => {
                Some((call_id.clone(), name.clone(), arguments.clone()))
            }
            _ => None,
        })
        .collect();
    assert_eq!(calls, vec![("toolu_1".to_string(), "lookup".to_string(), "{\"q\":\"rust\"}".to_string())]);
    let texts: Vec<_> = out
        .output
        .iter()
        .filter_map(|i| match i {
            ResponseOutputItem::Message { content, .. } => Some(content[0].text.clone()),
            _ => None,
        })
        .collect();
    assert_eq!(texts, vec!["hello".to_string()]);
}

#[test]
fn chat_usage_is_reported_in_the_completed_event() {
    let mut state = StreamState::new();
    convert_stream_start(&mut state, "m");
    let usage = ChatUsage { prompt_tokens: 5, completion_tokens: 6, total_tokens: 11 };
    let end = convert_stream_end(&state, Some(&usage)).to_sse_text();
    assert!(end.contains("\"input_tokens\":5"));
    assert!(end.contains("\"output_tokens\":6"));
    assert!(end.contains("\"total_tokens\":11"));
    assert!(text_of(&json("[1,2]")) == "[1,2]");
}

#[test]
fn output_indices_are_never_shared() {
    let mut state = StreamState::new();
    convert_stream_start(&mut state, "m");
    let mut d = delta();
    d.content = Some("text".into());
    d.tool_calls = Some(vec![
        ChatChunkToolCall {
            index: 0,
            id: Some("a".into()),
            call_type: Some("function".into()),
            function: Some(ChatChunkFunction { name: Some("f".into()), arguments: Some("{}".into()) }),
        },
        ChatChunkToolCall {
            index: 1,
            id: Some("b".into()),
            call_type: Some("function".into()),
            function: Some(ChatChunkFunction { name: Some("g".into()), arguments: Some("{}".into()) }),
        },
    ]);
    let events = convert_stream_chunk(&mut state, &chunk("c", "m", d, Some("tool_calls")));
    let mut indices: Vec<String> = events
        .iter()
        .filter(|e| e.event == "response.output_item.added")
        .map(|e| {
            let text = e.to_sse_text();
            let at = text.find("\"output_index\":").expect("output index");
            text[at..].split(|c| c == ',' || c == '}').next().unwrap().to_string()
        })
        .collect();
    let n = indices.len();
    assert_eq!(n, 3);
    indices.sort();
    indices.dedup();
    assert_eq!(indices.len(), n);
}
