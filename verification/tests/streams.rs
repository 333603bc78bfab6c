use open_promux::bridge::{
    anthropic_stop_reason, finish_chat_chunk, response_event_to_chat_chunks, text_chat_chunk,
    AnthropicSseEncoder, ChatSseEncoder, StreamOutput,
};
use open_promux::convert::stream::SseEvent;
use open_promux::json::Json;
use open_promux::responses_stream::{is_done_marker, ResponsesStreamConverter};
use open_promux::types::{
    AnthropicStreamDelta, AnthropicStreamEvent, AnthropicStreamMessage, AnthropicUsage, ChatChunk,
    ChatChunkChoice, ChatChunkDelta, ChatUsage,
};

fn value_to_json(v: &serde_json::Value) -> Json {
    match v {
        serde_json::Value::Null => Json::Null,
        serde_json::Value::Bool(b) => Json::Bool(*b),
        serde_json::Value::Number(n) => Json::Number(n.to_string()),
        serde_json::Value::String(s) => Json::Str(s.clone()),
        serde_json::Value::Array(a) => Json::Array(a.iter().map(value_to_json).collect()),
        serde_json::Value::Object(m) => {
            Json::Object(m.iter().map(|(k, x)| (k.clone(), value_to_json(x))).collect())
        }
    }
}

fn parse_json_text(text: &str) -> Option<Json> {
    serde_json::from_str::<serde_json::Value>(text).ok().map(|v| value_to_json(&v))
}


fn json(text: &str) -> Json {
    parse_json_text(text).expect("valid JSON")
}

fn names(events: &[SseEvent]) -> Vec<String> {
    events.iter().map(|e| e.event.clone()).collect()
}

fn wire(out: &[StreamOutput]) -> String {
    out.iter().map(|o| o.to_wire()).collect::<Vec<_>>().join("")
}

fn content_chunk(text: &str, finish: Option<&str>, usage: Option<ChatUsage>) -> ChatChunk {
    ChatChunk {
        id: "c".into(),
        model: "m".into(),
        choices: vec![ChatChunkChoice {
            index: 0,
            delta: ChatChunkDelta { role: None, content: Some(text.into()), reasoning_content: None, tool_calls: None },
            finish_reason: finish.map(|s| s.to_string()),
        }],
        usage,
    }
}

fn event(kind: &str) -> AnthropicStreamEvent {
    AnthropicStreamEvent { event_type: kind.into(), message: None, index: None, content_block: None, delta: None, usage: None }
}

#[test]
fn responses_stream_starts_on_the_first_chunk_and_completes_once() {
    let mut conv = ResponsesStreamConverter::new("requested");
    let first = conv.on_chat_chunk(&content_chunk("he", None, None));
    let n = names(&first);
    assert_eq!(n[0], "response.created");
    assert_eq!(n[1], "response.in_progress");
    assert!(n.contains(&"response.output_text.delta".to_string()));
    let second = conv.on_chat_chunk(&content_chunk("llo", None, Some(ChatUsage { prompt_tokens: 1, completion_tokens: 2, total_tokens: 3 })));
    assert!(!names(&second).contains(&"response.created".to_string()));
    let done = conv.on_done();
    let last = done.last().unwrap();
    assert_eq!(last.event, "response.completed");
    let text = last.to_sse_text();
    assert!(text.contains("\"text\":\"hello\""));
    assert!(text.contains("\"total_tokens\":3"));
    assert!(conv.on_done().is_empty());
    assert!(conv.on_close().is_empty());
}

#[test]
fn responses_stream_closed_before_any_chunk_emits_nothing() {
    let mut conv = ResponsesStreamConverter::new("m");
    assert!(conv.on_close().is_empty());
    assert!(is_done_marker(" [DONE] \n"));
    assert!(!is_done_marker("{}"));
}

#[test]
fn responses_stream_from_anthropic_uses_the_announced_model() {
    let mut conv = ResponsesStreamConverter::new("requested");
    let mut start = event("message_start");
    start.message = Some(AnthropicStreamMessage { id: Some("msg_1".into()), model: "anthropic-x".into(), usage: None });
    let evs = conv.on_anthropic_event(&start);
    assert!(evs[0].to_sse_text().contains("\"model\":\"anthropic-x\""));
    let mut delta = event("content_block_delta");
    delta.delta = Some(AnthropicStreamDelta {
        delta_type: Some("text_delta".into()),
        text: Some("hi".into()),
        partial_json: None,
        stop_reason: None,
        usage: None,
    });
    let evs = conv.on_anthropic_event(&delta);
    assert!(names(&evs).contains(&"response.output_text.delta".to_string()));
    let mut md = event("message_delta");
    md.usage = Some(AnthropicUsage { input_tokens: 2, output_tokens: 3 });
    conv.on_anthropic_event(&md);
    let stop = conv.on_anthropic_event(&event("message_stop"));
    let last = stop.last().unwrap();
    assert_eq!(last.event, "response.completed");
    assert!(last.to_sse_text().contains("\"total_tokens\":5"));
    assert!(conv.on_done().is_empty());
}

#[test]
fn chat_encoder_writes_chunks_and_a_single_done() {
    let mut enc = ChatSseEncoder::new("m".into());
    let mut out = Vec::new();
    enc.push_chunk(&text_chat_chunk("m", "hi"), &mut out);
    enc.finish("stop", None, &mut out);
    enc.finish("stop", None, &mut out);
    let w = wire(&out);
    assert!(w.contains("\"content\":\"hi\""));
    assert_eq!(w.matches("data: [DONE]").count(), 1);
}

#[test]
fn anthropic_encoder_frames_a_message() {
    let mut enc = AnthropicSseEncoder::new("m".into());
    let mut out = Vec::new();
    let mut usage = None;
    enc.on_chat_chunk(content_chunk("hi", None, None), &mut usage, &mut out);
    enc.on_chat_chunk(finish_chat_chunk("c", "m", "length", Some(ChatUsage { prompt_tokens: 1, completion_tokens: 1, total_tokens: 2 })), &mut usage, &mut out);
    let w = wire(&out);
    assert!(w.contains("event: message_start"));
    assert!(w.contains("event: content_block_delta"));
    assert!(w.contains("\"stop_reason\":\"max_tokens\""));
    assert!(w.contains("event: message_stop"));
    assert_eq!(anthropic_stop_reason("tool_calls"), "tool_use");
    assert_eq!(anthropic_stop_reason("stop"), "end_turn");
}

#[test]
fn response_events_become_chat_chunks() {
    let mut saw_tool = false;
    let chunks = response_event_to_chat_chunks(
        &json(r#"{"type": "response.output_text.delta", "delta": "hey"}"#),
        "m",
        &mut saw_tool,
    );
    assert_eq!(chunks.len(), 1);
    assert_eq!(chunks[0].choices[0].delta.content.as_deref(), Some("hey"));
    let none = response_event_to_chat_chunks(&json(r#"{"type": "response.in_progress"}"#), "m", &mut saw_tool);
    assert!(none.is_empty());
}
