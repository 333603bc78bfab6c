//! Request and response shapes of the Chat Completions, Responses and
//! Anthropic Messages APIs, and their mathematical views.
//!
//! Free-form JSON members (message content, tool schemas, tool choice) are
//! [`Json`]; sampling parameters such as `temperature` keep the JSON text of
//! the number they were given as.

use vstd::prelude::*;
use crate::json::{Json, JsonV, jentries};

verus! {

/// `Option<String>` as an optional character sequence.
pub open spec fn opt_str(o: Option<String>) -> Option<Seq<char>> {
    match o {
        Some(s) => Some(s@),
        None => None,
    }
}

/// `Option<Json>` as an optional JSON view.
pub open spec fn opt_json(o: Option<Json>) -> Option<JsonV> {
    match o {
        Some(j) => Some(j@),
        None => None,
    }
}

/// Extra members of a request, as key/value pairs.
pub open spec fn entries_view(es: Seq<(String, Json)>) -> Seq<(Seq<char>, JsonV)> {
    jentries(es)
}

/// A copy of an optional string.
pub fn clone_opt_str(o: &Option<String>) -> (r: Option<String>)
    ensures
        opt_str(r) == opt_str(*o),
{
    match o {
        Some(s) => Some(s.clone()),
        None => None,
    }
}

/// A copy of an optional JSON value.
pub fn clone_opt_json(o: &Option<Json>) -> (r: Option<Json>)
    ensures
        opt_json(r) == opt_json(*o),
{
    match o {
        Some(j) => Some(j.deep_clone()),
        None => None,
    }
}

/// Token counts of a Chat Completions response.
#[derive(Debug, Clone, Copy, PartialEq, Eq)]
pub struct ChatUsage {
    pub prompt_tokens: u32,
    pub completion_tokens: u32,
    pub total_tokens: u32,
}

/// Token counts of an Anthropic Messages response.
#[derive(Debug, Clone, Copy, PartialEq, Eq)]
pub struct AnthropicUsage {
    pub input_tokens: u32,
    pub output_tokens: u32,
}

/// Token counts of a Responses API response.
#[derive(Debug, Clone, Copy, PartialEq, Eq)]
pub struct ResponsesUsage {
    pub input_tokens: u32,
    pub output_tokens: u32,
    pub total_tokens: u32,
}

/// A function invocation inside a Chat Completions tool call.
#[derive(Debug)]
pub struct ChatFunction {
    pub name: String,
    pub arguments: String,
}

/// A complete tool call of a Chat Completions message.
#[derive(Debug)]
pub struct ChatToolCall {
    pub id: String,
    pub call_type: String,
    pub function: ChatFunction,
}

pub struct ChatToolCallV {
    pub id: Seq<char>,
    pub call_type: Seq<char>,
    pub name: Seq<char>,
    pub arguments: Seq<char>,
}

impl View for ChatToolCall {
    type V = ChatToolCallV;

    open spec fn view(&self) -> ChatToolCallV {
        ChatToolCallV {
            id: self.id@,
            call_type: self.call_type@,
            name: self.function.name@,
            arguments: self.function.arguments@,
        }
    }
}

pub open spec fn tool_calls_view(o: Option<Vec<ChatToolCall>>) -> Option<Seq<ChatToolCallV>> {
    match o {
        Some(v) => Some(v@.map_values(|c: ChatToolCall| c@)),
        None => None,
    }
}

/// One message of a Chat Completions request.
#[derive(Debug)]
pub struct ChatMessage {
    pub role: String,
    pub content: Option<Json>,
    pub reasoning_content: Option<String>,
    pub tool_calls: Option<Vec<ChatToolCall>>,
    pub tool_call_id: Option<String>,
    pub name: Option<String>,
}

pub struct ChatMessageV {
    pub role: Seq<char>,
    pub content: Option<JsonV>,
    pub reasoning_content: Option<Seq<char>>,
    pub tool_calls: Option<Seq<ChatToolCallV>>,
    pub tool_call_id: Option<Seq<char>>,
    pub name: Option<Seq<char>>,
}

impl View for ChatMessage {
    type V = ChatMessageV;

    open spec fn view(&self) -> ChatMessageV {
        ChatMessageV {
            role: self.role@,
            content: opt_json(self.content),
            reasoning_content: opt_str(self.reasoning_content),
            tool_calls: tool_calls_view(self.tool_calls),
            tool_call_id: opt_str(self.tool_call_id),
            name: opt_str(self.name),
        }
    }
}

/// The function declared by a Chat Completions tool.
#[derive(Debug)]
pub struct ChatToolFunction {
    pub name: String,
    pub description: Option<String>,
    pub parameters: Option<Json>,
}

/// A tool offered in a Chat Completions request.
#[derive(Debug)]
pub struct ChatTool {
    pub tool_type: String,
    pub function: ChatToolFunction,
}

pub struct ChatToolV {
    pub tool_type: Seq<char>,
    pub name: Seq<char>,
    pub description: Option<Seq<char>>,
    pub parameters: Option<JsonV>,
}

impl View for ChatTool {
    type V = ChatToolV;

    open spec fn view(&self) -> ChatToolV {
        ChatToolV {
            tool_type: self.tool_type@,
            name: self.function.name@,
            description: opt_str(self.function.description),
            parameters: opt_json(self.function.parameters),
        }
    }
}

/// A Chat Completions request.
#[derive(Debug)]
pub struct ChatRequest {
    pub model: String,
    pub messages: Vec<ChatMessage>,
    pub stream: Option<bool>,
    pub temperature: Option<String>,
    pub max_tokens: Option<u32>,
    pub top_p: Option<String>,
    pub tools: Option<Vec<ChatTool>>,
    pub tool_choice: Option<Json>,
    pub extra: Vec<(String, Json)>,
}

pub struct ChatRequestV {
    pub model: Seq<char>,
    pub messages: Seq<ChatMessageV>,
    pub stream: Option<bool>,
    pub temperature: Option<Seq<char>>,
    pub max_tokens: Option<u32>,
    pub top_p: Option<Seq<char>>,
    pub tools: Option<Seq<ChatToolV>>,
    pub tool_choice: Option<JsonV>,
    pub extra: Seq<(Seq<char>, JsonV)>,
}

impl View for ChatRequest {
    type V = ChatRequestV;

    open spec fn view(&self) -> ChatRequestV {
        ChatRequestV {
            model: self.model@,
            messages: self.messages@.map_values(|m: ChatMessage| m@),
            stream: self.stream,
            temperature: opt_str(self.temperature),
            max_tokens: self.max_tokens,
            top_p: opt_str(self.top_p),
            tools: match self.tools {
                Some(t) => Some(t@.map_values(|x: ChatTool| x@)),
                None => None,
            },
            tool_choice: opt_json(self.tool_choice),
            extra: entries_view(self.extra@),
        }
    }
}

/// The assistant message of a Chat Completions response choice.
#[derive(Debug)]
pub struct ChatResponseMessage {
    pub role: String,
    pub content: Option<String>,
    pub reasoning_content: Option<String>,
    pub tool_calls: Option<Vec<ChatToolCall>>,
}

/// One choice of a Chat Completions response.
#[derive(Debug)]
pub struct ChatChoice {
    pub index: u32,
    pub message: ChatResponseMessage,
    pub finish_reason: Option<String>,
}

/// A non-streaming Chat Completions response.
#[derive(Debug)]
pub struct ChatResponse {
    pub id: String,
    pub model: String,
    pub choices: Vec<ChatChoice>,
    pub usage: Option<ChatUsage>,
}

/// The function part of a streamed tool-call delta.
#[derive(Debug)]
pub struct ChatChunkFunction {
    pub name: Option<String>,
    pub arguments: Option<String>,
}

/// A streamed tool-call delta.
#[derive(Debug)]
pub struct ChatChunkToolCall {
    pub index: u32,
    pub id: Option<String>,
    pub call_type: Option<String>,
    pub function: Option<ChatChunkFunction>,
}

pub struct ChatChunkToolCallV {
    pub index: u32,
    pub id: Option<Seq<char>>,
    pub call_type: Option<Seq<char>>,
    pub function: Option<(Option<Seq<char>>, Option<Seq<char>>)>,
}

impl View for ChatChunkToolCall {
    type V = ChatChunkToolCallV;

    open spec fn view(&self) -> ChatChunkToolCallV {
        ChatChunkToolCallV {
            index: self.index,
            id: opt_str(self.id),
            call_type: opt_str(self.call_type),
            function: match self.function {
                Some(f) => Some((opt_str(f.name), opt_str(f.arguments))),
                None => None,
            },
        }
    }
}

/// The delta of a streamed Chat Completions choice.
#[derive(Debug)]
pub struct ChatChunkDelta {
    pub role: Option<String>,
    pub content: Option<String>,
    pub reasoning_content: Option<String>,
    pub tool_calls: Option<Vec<ChatChunkToolCall>>,
}

pub struct ChatChunkDeltaV {
    pub role: Option<Seq<char>>,
    pub content: Option<Seq<char>>,
    pub reasoning_content: Option<Seq<char>>,
    pub tool_calls: Option<Seq<ChatChunkToolCallV>>,
}

impl View for ChatChunkDelta {
    type V = ChatChunkDeltaV;

    open spec fn view(&self) -> ChatChunkDeltaV {
        ChatChunkDeltaV {
            role: opt_str(self.role),
            content: opt_str(self.content),
            reasoning_content: opt_str(self.reasoning_content),
            tool_calls: match self.tool_calls {
                Some(t) => Some(t@.map_values(|x: ChatChunkToolCall| x@)),
                None => None,
            },
        }
    }
}

/// One choice of a streamed Chat Completions chunk.
#[derive(Debug)]
pub struct ChatChunkChoice {
    pub index: u32,
    pub delta: ChatChunkDelta,
    pub finish_reason: Option<String>,
}

pub struct ChatChunkChoiceV {
    pub index: u32,
    pub delta: ChatChunkDeltaV,
    pub finish_reason: Option<Seq<char>>,
}

impl View for ChatChunkChoice {
    type V = ChatChunkChoiceV;

    open spec fn view(&self) -> ChatChunkChoiceV {
        ChatChunkChoiceV {
            index: self.index,
            delta: self.delta@,
            finish_reason: opt_str(self.finish_reason),
        }
    }
}

/// A streamed Chat Completions chunk.
#[derive(Debug)]
pub struct ChatChunk {
    pub id: String,
    pub model: String,
    pub choices: Vec<ChatChunkChoice>,
    pub usage: Option<ChatUsage>,
}

pub struct ChatChunkV {
    pub id: Seq<char>,
    pub model: Seq<char>,
    pub choices: Seq<ChatChunkChoiceV>,
    pub usage: Option<ChatUsage>,
}

impl View for ChatChunk {
    type V = ChatChunkV;

    open spec fn view(&self) -> ChatChunkV {
        ChatChunkV {
            id: self.id@,
            model: self.model@,
            choices: self.choices@.map_values(|c: ChatChunkChoice| c@),
            usage: self.usage,
        }
    }
}

/// The `input` of a Responses API request.
#[derive(Debug)]
pub enum ResponsesInput {
    Text(String),
    Items(Vec<ResponsesInputItem>),
}

/// One conversation item of a Responses API request.
#[derive(Debug)]
pub struct ResponsesInputItem {
    pub item_type: Option<String>,
    pub role: Option<String>,
    pub content: Option<Json>,
    pub reasoning_content: Option<String>,
    pub call_id: Option<String>,
    pub name: Option<String>,
    pub arguments: Option<String>,
    pub output: Option<String>,
}

/// A tool of a Responses API request.
#[derive(Debug)]
pub struct ResponsesTool {
    pub tool_type: String,
    pub name: Option<String>,
    pub description: Option<String>,
    pub parameters: Option<Json>,
}

/// A Responses API request.
#[derive(Debug)]
pub struct ResponsesRequest {
    pub model: String,
    pub instructions: Option<String>,
    pub input: ResponsesInput,
    pub stream: Option<bool>,
    pub temperature: Option<String>,
    pub top_p: Option<String>,
    pub max_output_tokens: Option<u32>,
    pub tools: Option<Vec<ResponsesTool>>,
    pub tool_choice: Option<Json>,
    pub extra: Vec<(String, Json)>,
}

pub struct ResponsesInputItemV {
    pub item_type: Option<Seq<char>>,
    pub role: Option<Seq<char>>,
    pub content: Option<JsonV>,
    pub reasoning_content: Option<Seq<char>>,
    pub call_id: Option<Seq<char>>,
    pub name: Option<Seq<char>>,
    pub arguments: Option<Seq<char>>,
    pub output: Option<Seq<char>>,
}

impl View for ResponsesInputItem {
    type V = ResponsesInputItemV;

    open spec fn view(&self) -> ResponsesInputItemV {
        ResponsesInputItemV {
            item_type: opt_str(self.item_type),
            role: opt_str(self.role),
            content: opt_json(self.content),
            reasoning_content: opt_str(self.reasoning_content),
            call_id: opt_str(self.call_id),
            name: opt_str(self.name),
            arguments: opt_str(self.arguments),
            output: opt_str(self.output),
        }
    }
}

pub struct ResponsesToolV {
    pub tool_type: Seq<char>,
    pub name: Option<Seq<char>>,
    pub description: Option<Seq<char>>,
    pub parameters: Option<JsonV>,
}

impl View for ResponsesTool {
    type V = ResponsesToolV;

    open spec fn view(&self) -> ResponsesToolV {
        ResponsesToolV {
            tool_type: self.tool_type@,
            name: opt_str(self.name),
            description: opt_str(self.description),
            parameters: opt_json(self.parameters),
        }
    }
}

pub enum ResponsesInputV {
    Text(Seq<char>),
    Items(Seq<ResponsesInputItemV>),
}

pub struct ResponsesRequestV {
    pub model: Seq<char>,
    pub instructions: Option<Seq<char>>,
    pub input: ResponsesInputV,
    pub stream: Option<bool>,
    pub temperature: Option<Seq<char>>,
    pub top_p: Option<Seq<char>>,
    pub max_output_tokens: Option<u32>,
    pub tools: Option<Seq<ResponsesToolV>>,
    pub tool_choice: Option<JsonV>,
    pub extra: Seq<(Seq<char>, JsonV)>,
}

impl View for ResponsesRequest {
    type V = ResponsesRequestV;

    open spec fn view(&self) -> ResponsesRequestV {
        ResponsesRequestV {
            model: self.model@,
            instructions: opt_str(self.instructions),
            input: match self.input {
                ResponsesInput::Text(t) => ResponsesInputV::Text(t@),
                ResponsesInput::Items(items) => ResponsesInputV::Items(
                    items@.map_values(|i: ResponsesInputItem| i@),
                ),
            },
            stream: self.stream,
            temperature: opt_str(self.temperature),
            top_p: opt_str(self.top_p),
            max_output_tokens: self.max_output_tokens,
            tools: match self.tools {
                Some(ts) => Some(ts@.map_values(|t: ResponsesTool| t@)),
                None => None,
            },
            tool_choice: opt_json(self.tool_choice),
            extra: jentries(self.extra@),
        }
    }
}

/// A content part of a Responses API output message.
#[derive(Debug)]
pub struct ResponseContentPart {
    pub part_type: String,
    pub text: String,
    pub annotations: Vec<Json>,
}

pub struct ResponseContentPartV {
    pub part_type: Seq<char>,
    pub text: Seq<char>,
    pub annotations: Seq<JsonV>,
}

impl View for ResponseContentPart {
    type V = ResponseContentPartV;

    open spec fn view(&self) -> ResponseContentPartV {
        ResponseContentPartV {
            part_type: self.part_type@,
            text: self.text@,
            annotations: self.annotations@.map_values(|a: Json| a@),
        }
    }
}

/// An output item of a Responses API response.
#[derive(Debug)]
pub enum ResponseOutputItem {
    Message {
        id: String,
        status: String,
        role: String,
        reasoning_content: Option<String>,
        content: Vec<ResponseContentPart>,
    },
    FunctionCall { id: String, status: String, call_id: String, name: String, arguments: String },
}

pub enum ResponseOutputItemV {
    Message {
        id: Seq<char>,
        status: Seq<char>,
        role: Seq<char>,
        reasoning_content: Option<Seq<char>>,
        content: Seq<ResponseContentPartV>,
    },
    FunctionCall {
        id: Seq<char>,
        status: Seq<char>,
        call_id: Seq<char>,
        name: Seq<char>,
        arguments: Seq<char>,
    },
}

impl View for ResponseOutputItem {
    type V = ResponseOutputItemV;

    open spec fn view(&self) -> ResponseOutputItemV {
        match self {
            ResponseOutputItem::Message { id, status, role, reasoning_content, content } =>
                ResponseOutputItemV::Message {
                id: id@,
                status: status@,
                role: role@,
                reasoning_content: opt_str(*reasoning_content),
                content: content@.map_values(|p: ResponseContentPart| p@),
            },
            ResponseOutputItem::FunctionCall { id, status, call_id, name, arguments } =>
                ResponseOutputItemV::FunctionCall {
                id: id@,
                status: status@,
                call_id: call_id@,
                name: name@,
                arguments: arguments@,
            },
        }
    }
}

/// A non-streaming Responses API response.
#[derive(Debug)]
pub struct ResponsesResponse {
    pub id: String,
    pub object: String,
    pub created_at: u64,
    pub model: String,
    pub status: String,
    pub output: Vec<ResponseOutputItem>,
    pub usage: ResponsesUsage,
}

/// A content block of an Anthropic Messages response.
#[derive(Debug)]
pub struct AnthropicContentBlock {
    pub block_type: String,
    pub text: Option<String>,
    pub id: Option<String>,
    pub name: Option<String>,
    pub input: Option<Json>,
}

/// A non-streaming Anthropic Messages response.
#[derive(Debug)]
pub struct AnthropicResponse {
    pub id: String,
    pub role: String,
    pub model: String,
    pub content: Vec<AnthropicContentBlock>,
    pub stop_reason: Option<String>,
    pub usage: Option<AnthropicUsage>,
}

/// One message of an Anthropic Messages request.
#[derive(Debug)]
pub struct AnthropicMessage {
    pub role: String,
    pub content: Json,
}

pub struct AnthropicMessageV {
    pub role: Seq<char>,
    pub content: JsonV,
}

impl View for AnthropicMessage {
    type V = AnthropicMessageV;

    open spec fn view(&self) -> AnthropicMessageV {
        AnthropicMessageV { role: self.role@, content: self.content@ }
    }
}

/// A tool of an Anthropic Messages request.
#[derive(Debug)]
pub struct AnthropicTool {
    pub name: String,
    pub description: Option<String>,
    pub input_schema: Json,
}

pub struct AnthropicToolV {
    pub name: Seq<char>,
    pub description: Option<Seq<char>>,
    pub input_schema: JsonV,
}

impl View for AnthropicTool {
    type V = AnthropicToolV;

    open spec fn view(&self) -> AnthropicToolV {
        AnthropicToolV {
            name: self.name@,
            description: opt_str(self.description),
            input_schema: self.input_schema@,
        }
    }
}

/// An Anthropic Messages request.
#[derive(Debug)]
pub struct AnthropicRequest {
    pub model: String,
    pub max_tokens: u32,
    pub messages: Vec<AnthropicMessage>,
    pub system: Option<String>,
    pub stream: Option<bool>,
    pub temperature: Option<String>,
    pub top_p: Option<String>,
    pub tools: Option<Vec<AnthropicTool>>,
    pub tool_choice: Option<Json>,
    pub extra: Vec<(String, Json)>,
}

pub struct AnthropicRequestV {
    pub model: Seq<char>,
    pub max_tokens: u32,
    pub messages: Seq<AnthropicMessageV>,
    pub system: Option<Seq<char>>,
    pub stream: Option<bool>,
    pub temperature: Option<Seq<char>>,
    pub top_p: Option<Seq<char>>,
    pub tools: Option<Seq<AnthropicToolV>>,
    pub tool_choice: Option<JsonV>,
    pub extra: Seq<(Seq<char>, JsonV)>,
}

impl View for AnthropicRequest {
    type V = AnthropicRequestV;

    open spec fn view(&self) -> AnthropicRequestV {
        AnthropicRequestV {
            model: self.model@,
            max_tokens: self.max_tokens,
            messages: self.messages@.map_values(|m: AnthropicMessage| m@),
            system: opt_str(self.system),
            stream: self.stream,
            temperature: opt_str(self.temperature),
            top_p: opt_str(self.top_p),
            tools: match self.tools {
                Some(t) => Some(t@.map_values(|x: AnthropicTool| x@)),
                None => None,
            },
            tool_choice: opt_json(self.tool_choice),
            extra: entries_view(self.extra@),
        }
    }
}

/// The `message` of an Anthropic `message_start` stream event.
#[derive(Debug)]
pub struct AnthropicStreamMessage {
    pub id: Option<String>,
    pub model: String,
    pub usage: Option<AnthropicUsage>,
}

/// The `delta` of an Anthropic stream event.
#[derive(Debug)]
pub struct AnthropicStreamDelta {
    pub delta_type: Option<String>,
    pub text: Option<String>,
    pub partial_json: Option<String>,
    pub stop_reason: Option<String>,
    pub usage: Option<AnthropicUsage>,
}

/// One Anthropic Messages stream event.
#[derive(Debug)]
pub struct AnthropicStreamEvent {
    pub event_type: String,
    pub message: Option<AnthropicStreamMessage>,
    pub index: Option<u32>,
    pub content_block: Option<AnthropicContentBlock>,
    pub delta: Option<AnthropicStreamDelta>,
    pub usage: Option<AnthropicUsage>,
}

} // verus!
