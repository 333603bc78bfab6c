//! Re-encoding a streamed upstream reply for a client that speaks another
//! format: Anthropic events or Responses events into Chat Completions
//! chunks, and Chat Completions chunks into Anthropic events.

use vstd::prelude::*;
use crate::convert::anthropic::{anthropic_stream_event_is_stop, anthropic_stream_event_to_chat_chunk, anthropic_stream_event_usage, stream_event_delta, stream_event_usage, single_choice_chunk};
use crate::convert::ids::{gen_id, is_generated_id, now_secs};
use crate::convert::responses::usage_sum_fits;
use crate::json::{Json, JsonV, jarr, jentries, jget, jget_str, json_text, jviews, ju64, lemma_jentries_empty, lemma_jviews, push_member, to_json_text};
use crate::text::{concat, decimal, owned, str_eq, u64_text};
use crate::types::{AnthropicStreamEvent, ChatChunk, ChatChunkChoice, ChatChunkChoiceV, ChatChunkDelta, ChatChunkDeltaV, ChatChunkFunction, ChatChunkToolCall, ChatChunkToolCallV, ChatChunkV, ChatUsage, opt_str};

verus! {

/// One item of a re-encoded stream.
#[derive(Debug)]
pub enum StreamOutput {
    /// `data: {json}`.
    Data(Json),
    /// `event: {name}` and `data: {json}`.
    Event(String, Json),
    /// `data: [DONE]`.
    Done,
}

pub enum StreamOutputV {
    Data(JsonV),
    Event(Seq<char>, JsonV),
    Done,
}

impl View for StreamOutput {
    type V = StreamOutputV;

    open spec fn view(&self) -> StreamOutputV {
        match self {
            StreamOutput::Data(d) => StreamOutputV::Data(d@),
            StreamOutput::Event(e, d) => StreamOutputV::Event(e@, d@),
            StreamOutput::Done => StreamOutputV::Done,
        }
    }
}

pub open spec fn outputs_view(v: Seq<StreamOutput>) -> Seq<StreamOutputV> {
    v.map_values(|o: StreamOutput| o@)
}

/// The wire form of an output item.
pub open spec fn output_text(o: StreamOutputV) -> Seq<char> {
    match o {
        StreamOutputV::Data(d) => "data: "@ + json_text(d) + "\n\n"@,
        StreamOutputV::Event(e, d) => "event: "@ + e + "\ndata: "@ + json_text(d) + "\n\n"@,
        StreamOutputV::Done => "data: [DONE]\n\n"@,
    }
}

impl StreamOutput {
    /// The wire form of this item.
    pub fn to_wire(&self) -> (r: String)
        ensures
            r@ == output_text(self@),
    {
        match self {
            StreamOutput::Data(d) => {
                let mut out = owned("data: ");
                let t = to_json_text(d);
                out.append(t.as_str());
                out.append("\n\n");
                out
            },
            StreamOutput::Event(e, d) => {
                let mut out = concat("event: ", e.as_str());
                out.append("\ndata: ");
                let t = to_json_text(d);
                out.append(t.as_str());
                out.append("\n\n");
                out
            },
            StreamOutput::Done => owned("data: [DONE]\n\n"),
        }
    }
}

proof fn lemma_outputs_push(v: Seq<StreamOutput>, o: StreamOutput)
    ensures
        outputs_view(v.push(o)) == outputs_view(v).push(o@),
{
    assert(outputs_view(v.push(o)) =~= outputs_view(v).push(o@));
}

fn push_output(pending: &mut Vec<StreamOutput>, o: StreamOutput)
    ensures
        outputs_view(final(pending)@) == outputs_view(old(pending)@).push(o@),
{
    proof {
        lemma_outputs_push(pending@, o);
    }
    pending.push(o);
}

// ─── small JSON shapes ───

pub open spec fn jn(n: nat) -> JsonV {
    JsonV::Number(decimal(n))
}

fn num(n: u64) -> (r: Json)
    ensures
        r@ == jn(n as nat),
{
    Json::Number(u64_text(n))
}

/// `{"prompt_tokens", "completion_tokens", "total_tokens"}` of a usage.
pub open spec fn chat_usage_json(u: ChatUsage) -> JsonV {
    JsonV::Object(
        seq![
            ("prompt_tokens"@, jn(u.prompt_tokens as nat)),
            ("completion_tokens"@, jn(u.completion_tokens as nat)),
            ("total_tokens"@, jn(u.total_tokens as nat)),
        ],
    )
}

pub fn chat_usage_value(usage: &ChatUsage) -> (r: Json)
    ensures
        r@ == chat_usage_json(*usage),
{
    let mut es: Vec<(String, Json)> = Vec::new();
    proof {
        lemma_jentries_empty(es@);
    }
    push_member(&mut es, "prompt_tokens", num(usage.prompt_tokens as u64));
    push_member(&mut es, "completion_tokens", num(usage.completion_tokens as u64));
    push_member(&mut es, "total_tokens", num(usage.total_tokens as u64));
    assert(jentries(es@) =~= (chat_usage_json(*usage))->Object_0);
    Json::Object(es)
}

/// `{"input_tokens", "output_tokens"}` of a usage.
pub open spec fn anthropic_usage_json(u: ChatUsage) -> JsonV {
    JsonV::Object(
        seq![("input_tokens"@, jn(u.prompt_tokens as nat)), ("output_tokens"@, jn(u.completion_tokens as nat))],
    )
}

pub fn anthropic_usage_value(usage: &ChatUsage) -> (r: Json)
    ensures
        r@ == anthropic_usage_json(*usage),
{
    let mut es: Vec<(String, Json)> = Vec::new();
    proof {
        lemma_jentries_empty(es@);
    }
    push_member(&mut es, "input_tokens", num(usage.prompt_tokens as u64));
    push_member(&mut es, "output_tokens", num(usage.completion_tokens as u64));
    assert(jentries(es@) =~= (anthropic_usage_json(*usage))->Object_0);
    Json::Object(es)
}

/// An optional member.
pub open spec fn opt_member(k: Seq<char>, v: Option<JsonV>) -> Seq<(Seq<char>, JsonV)> {
    match v {
        Some(x) => seq![(k, x)],
        None => Seq::empty(),
    }
}

pub open spec fn opt_text_json(o: Option<Seq<char>>) -> Option<JsonV> {
    match o {
        Some(s) => Some(JsonV::Str(s)),
        None => None,
    }
}

/// The JSON of a streamed tool-call delta: `index`, then `id`, `type` and
/// `function` (`name`, `arguments`) where present.
pub open spec fn tool_call_delta_json(t: ChatChunkToolCallV) -> JsonV {
    let f = match t.function {
        Some((n, a)) => Some(JsonV::Object(opt_member("name"@, opt_text_json(n)) + opt_member("arguments"@, opt_text_json(a)))),
        None => None,
    };
    JsonV::Object(
        seq![("index"@, jn(t.index as nat))] + opt_member("id"@, opt_text_json(t.id)) + opt_member(
            "type"@,
            opt_text_json(t.call_type),
        ) + opt_member("function"@, f),
    )
}

fn push_opt_str(es: &mut Vec<(String, Json)>, key: &str, v: &Option<String>)
    ensures
        jentries(final(es)@) == jentries(old(es)@) + opt_member(key@, opt_text_json(opt_str(*v))),
{
    match v {
        Some(s) => {
            push_member(es, key, Json::Str(s.clone()));
            assert(jentries(es@) =~= jentries(old(es)@) + opt_member(key@, opt_text_json(opt_str(*v))));
        },
        None => {
            assert(jentries(es@) =~= jentries(es@) + Seq::<(Seq<char>, JsonV)>::empty());
        },
    }
}

pub fn chat_tool_call_delta_value(tool_call: &ChatChunkToolCall) -> (r: Json)
    ensures
        r@ == tool_call_delta_json(tool_call@),
{
    let mut es: Vec<(String, Json)> = Vec::new();
    proof {
        lemma_jentries_empty(es@);
    }
    push_member(&mut es, "index", num(tool_call.index as u64));
    assert(jentries(es@) =~= seq![("index"@, jn(tool_call.index as nat))]);
    push_opt_str(&mut es, "id", &tool_call.id);
    push_opt_str(&mut es, "type", &tool_call.call_type);
    match &tool_call.function {
        Some(f) => {
            let mut fs: Vec<(String, Json)> = Vec::new();
            proof {
                lemma_jentries_empty(fs@);
            }
            push_opt_str(&mut fs, "name", &f.name);
            push_opt_str(&mut fs, "arguments", &f.arguments);
            assert(jentries(fs@) =~= Seq::<(Seq<char>, JsonV)>::empty() + opt_member("name"@, opt_text_json(opt_str(f.name))) + opt_member("arguments"@, opt_text_json(opt_str(f.arguments))));
            let ghost before = jentries(es@);
            let ghost fv = jentries(fs@);
            push_member(&mut es, "function", Json::Object(fs));
            assert(jentries(es@) =~= before + opt_member("function"@, Some(JsonV::Object(fv))));
        },
        None => {
            assert(jentries(es@) =~= jentries(es@) + Seq::<(Seq<char>, JsonV)>::empty());
        },
    }
    assert(jentries(es@) =~= (tool_call_delta_json(tool_call@))->Object_0);
    Json::Object(es)
}

/// The JSON of a chunk delta: `role`, `content`, `reasoning_content` and
/// `tool_calls` where present.
pub open spec fn delta_json(d: ChatChunkDeltaV) -> JsonV {
    let calls = match d.tool_calls {
        Some(ts) => Some(JsonV::Array(ts.map_values(|t: ChatChunkToolCallV| tool_call_delta_json(t)))),
        None => None,
    };
    JsonV::Object(
        opt_member("role"@, opt_text_json(d.role)) + opt_member("content"@, opt_text_json(d.content)) + opt_member(
            "reasoning_content"@,
            opt_text_json(d.reasoning_content),
        ) + opt_member("tool_calls"@, calls),
    )
}

pub fn chat_delta_value(delta: &ChatChunkDelta) -> (r: Json)
    ensures
        r@ == delta_json(delta@),
{
    let mut es: Vec<(String, Json)> = Vec::new();
    proof {
        lemma_jentries_empty(es@);
    }
    push_opt_str(&mut es, "role", &delta.role);
    push_opt_str(&mut es, "content", &delta.content);
    push_opt_str(&mut es, "reasoning_content", &delta.reasoning_content);
    match &delta.tool_calls {
        Some(ts) => {
            let mut items: Vec<Json> = Vec::new();
            let mut i: usize = 0;
            while i < ts.len()
                invariant
                    i <= ts@.len(),
                    jviews(items@) == ts@.take(i as int).map_values(|t: ChatChunkToolCall| tool_call_delta_json(t@)),
                decreases ts.len() - i,
            {
                let v = chat_tool_call_delta_value(&ts[i]);
                let ghost before = items@;
                items.push(v);
                proof {
                    lemma_jviews(before);
                    lemma_jviews(items@);
                    assert(jviews(items@) =~= jviews(before).push(v@));
                    assert(ts@.take(i + 1) =~= ts@.take(i as int).push(ts@[i as int]));
                    assert(ts@.take(i + 1).map_values(|t: ChatChunkToolCall| tool_call_delta_json(t@)) =~= ts@.take(
                        i as int,
                    ).map_values(|t: ChatChunkToolCall| tool_call_delta_json(t@)).push(tool_call_delta_json(ts@[i as int]@)));
                }
                i = i + 1;
            }
            assert(ts@.take(ts@.len() as int) =~= ts@);
            assert(jviews(items@) =~= ts@.map_values(|t: ChatChunkToolCall| t@).map_values(|t: ChatChunkToolCallV| tool_call_delta_json(t)));
            let ghost before = jentries(es@);
            let ghost iv = jviews(items@);
            push_member(&mut es, "tool_calls", Json::Array(items));
            assert(jentries(es@) =~= before + opt_member("tool_calls"@, Some(JsonV::Array(iv))));
        },
        None => {
            assert(jentries(es@) =~= jentries(es@) + Seq::<(Seq<char>, JsonV)>::empty());
        },
    }
    assert(jentries(es@) =~= (delta_json(delta@))->Object_0);
    Json::Object(es)
}

/// Chat token counts from a Responses `usage` object (each count as a
/// `u32`, truncated); none unless all three counts are there.
pub open spec fn usage_from_responses(v: JsonV) -> Option<ChatUsage> {
    let i = ju64(jget(v, "input_tokens"@));
    let o = ju64(jget(v, "output_tokens"@));
    let t = ju64(jget(v, "total_tokens"@));
    if i is Some && o is Some && t is Some {
        Some(ChatUsage {
            prompt_tokens: (i->0 as u64) as u32,
            completion_tokens: (o->0 as u64) as u32,
            total_tokens: (t->0 as u64) as u32,
        })
    } else {
        None
    }
}

pub fn chat_usage_from_responses_usage(value: &Json) -> (r: Option<ChatUsage>)
    ensures
        r == usage_from_responses(value@),
{
    let i = match value.get_u64("input_tokens") {
        Some(x) => x,
        None => {
            return None;
        },
    };
    let o = match value.get_u64("output_tokens") {
        Some(x) => x,
        None => {
            return None;
        },
    };
    let t = match value.get_u64("total_tokens") {
        Some(x) => x,
        None => {
            return None;
        },
    };
    Some(ChatUsage { prompt_tokens: i as u32, completion_tokens: o as u32, total_tokens: t as u32 })
}

/// The Anthropic stop reason for a Chat finish reason.
pub open spec fn stop_reason_of(reason: Seq<char>) -> Seq<char> {
    if reason == "length"@ {
        "max_tokens"@
    } else if reason == "tool_calls"@ {
        "tool_use"@
    } else {
        "end_turn"@
    }
}

pub fn anthropic_stop_reason(reason: &str) -> (r: &'static str)
    ensures
        r@ == stop_reason_of(reason@),
{
    if str_eq(reason, "length") {
        "max_tokens"
    } else if str_eq(reason, "tool_calls") {
        "tool_use"
    } else {
        "end_turn"
    }
}

// ─── Chat chunks ───

pub open spec fn empty_delta_v() -> ChatChunkDeltaV {
    ChatChunkDeltaV { role: None, content: None, reasoning_content: None, tool_calls: None }
}

/// A one-choice chunk with an empty id.
pub open spec fn one_choice_chunk(id: Seq<char>, model: Seq<char>, delta: ChatChunkDeltaV, finish: Option<Seq<char>>, usage: Option<ChatUsage>) -> ChatChunkV {
    ChatChunkV {
        id,
        model,
        choices: seq![ChatChunkChoiceV { index: 0, delta, finish_reason: finish }],
        usage,
    }
}

fn one_choice_exec(id: String, model: &str, delta: ChatChunkDelta, finish: Option<String>, usage: Option<ChatUsage>) -> (r: ChatChunk)
    ensures
        r@ == one_choice_chunk(id@, model@, delta@, opt_str(finish), usage),
{
    let choice = ChatChunkChoice { index: 0, delta, finish_reason: finish };
    let mut choices: Vec<ChatChunkChoice> = Vec::new();
    choices.push(choice);
    assert(choices@.map_values(|c: ChatChunkChoice| c@) =~= seq![choice@]);
    ChatChunk { id, model: owned(model), choices, usage }
}

/// A chunk carrying text.
pub fn text_chat_chunk(model: &str, content: &str) -> (r: ChatChunk)
    ensures
        r@ == one_choice_chunk(Seq::empty(), model@, ChatChunkDeltaV { content: Some(content@), ..empty_delta_v() }, None, None),
{
    let delta = ChatChunkDelta { role: None, content: Some(owned(content)), reasoning_content: None, tool_calls: None };
    one_choice_exec(String::new(), model, delta, None, None)
}

pub open spec fn opt_ref_view(o: Option<&str>) -> Option<Seq<char>> {
    match o {
        Some(s) => Some(s@),
        None => None,
    }
}

fn opt_owned(o: Option<&str>) -> (r: Option<String>)
    ensures
        opt_str(r) == opt_ref_view(o),
{
    match o {
        Some(s) => Some(owned(s)),
        None => None,
    }
}

/// A chunk carrying one tool-call fragment (type `function`).
pub fn tool_chat_chunk(model: &str, index: u32, id: Option<&str>, name: Option<&str>, arguments: Option<&str>) -> (r: ChatChunk)
    ensures
        r@ == one_choice_chunk(
            Seq::empty(),
            model@,
            ChatChunkDeltaV {
                tool_calls: Some(seq![ChatChunkToolCallV {
                    index,
                    id: opt_ref_view(id),
                    call_type: Some("function"@),
                    function: Some((opt_ref_view(name), opt_ref_view(arguments))),
                }]),
                ..empty_delta_v()
            },
            None,
            None,
        ),
{
    let call = ChatChunkToolCall {
        index,
        id: opt_owned(id),
        call_type: Some(owned("function")),
        function: Some(ChatChunkFunction { name: opt_owned(name), arguments: opt_owned(arguments) }),
    };
    let mut calls: Vec<ChatChunkToolCall> = Vec::new();
    calls.push(call);
    assert(calls@.map_values(|x: ChatChunkToolCall| x@) =~= seq![call@]);
    let delta = ChatChunkDelta { role: None, content: None, reasoning_content: None, tool_calls: Some(calls) };
    one_choice_exec(String::new(), model, delta, None, None)
}

/// A chunk finishing the choice with `reason`.
pub fn finish_chat_chunk(id: &str, model: &str, reason: &str, usage: Option<ChatUsage>) -> (r: ChatChunk)
    ensures
        r@ == one_choice_chunk(id@, model@, empty_delta_v(), Some(reason@), usage),
{
    let delta = ChatChunkDelta { role: None, content: None, reasoning_content: None, tool_calls: None };
    one_choice_exec(owned(id), model, delta, Some(owned(reason)), usage)
}

/// The Chat chunks one Responses stream event stands for: text deltas as
/// text, a function-call item or argument delta as a tool-call fragment
/// (marking that tools were called), and `response.completed` as the
/// finishing chunk (`tool_calls` if tools were called, else `stop`).
pub open spec fn response_event_chunks(v: JsonV, model: Seq<char>, saw_tool_call: bool) -> (Seq<ChatChunkV>, bool) {
    let t = jget_str(v, "type"@);
    let index: u32 = match ju64(jget(v, "output_index"@)) {
        Some(n) => (n as u64) as u32,
        None => 0,
    };
    if t == Some("response.output_text.delta"@) {
        match jget_str(v, "delta"@) {
            Some(text) => {
                let d = ChatChunkDeltaV { role: None, content: Some(text), reasoning_content: None, tool_calls: None };
                let c = one_choice_chunk(Seq::empty(), model, d, None, None);
                (seq![c], saw_tool_call)
            },
            None => (Seq::empty(), saw_tool_call),
        }
    } else if t == Some("response.output_item.added"@) {
        match jget(v, "item"@) {
            Some(item) => if jget_str(item, "type"@) == Some("function_call"@) {
                let id = match jget(item, "call_id"@) {
                    Some(c) => jget_str(item, "call_id"@),
                    None => jget_str(item, "id"@),
                };
                let call = ChatChunkToolCallV {
                    index,
                    id,
                    call_type: Some("function"@),
                    function: Some((jget_str(item, "name"@), None)),
                };
                let d = ChatChunkDeltaV { role: None, content: None, reasoning_content: None, tool_calls: Some(seq![call]) };
                let c = one_choice_chunk(Seq::empty(), model, d, None, None);
                (seq![c], true)
            } else {
                (Seq::empty(), saw_tool_call)
            },
            None => (Seq::empty(), saw_tool_call),
        }
    } else if t == Some("response.function_call_arguments.delta"@) {
        let call = ChatChunkToolCallV {
            index,
            id: None,
            call_type: Some("function"@),
            function: Some((None, jget_str(v, "delta"@))),
        };
        let d = ChatChunkDeltaV { role: None, content: None, reasoning_content: None, tool_calls: Some(seq![call]) };
        let c = one_choice_chunk(Seq::empty(), model, d, None, None);
        (seq![c], true)
    } else if t == Some("response.completed"@) {
        let response = match jget(v, "response"@) {
            Some(r) => r,
            None => v,
        };
        let usage = match jget(response, "usage"@) {
            Some(u) => usage_from_responses(u),
            None => None,
        };
        let m = match jget_str(response, "model"@) {
            Some(x) => x,
            None => model,
        };
        let reason = if saw_tool_call {
            "tool_calls"@
        } else {
            "stop"@
        };
        let c = one_choice_chunk(Seq::empty(), m, empty_delta_v(), Some(reason), usage);
        (seq![c], saw_tool_call)
    } else {
        (Seq::empty(), saw_tool_call)
    }
}

/// What Responses stream events become as Chat chunks: a text delta
/// forwards exactly its text as content; an argument delta forwards
/// exactly its text as the tool call's arguments and marks that tools were
/// called; the completion finishes with `tool_calls` exactly when tools
/// were called (else `stop`) and carries the token counts by meaning (input
/// as prompt, output as completion).
pub proof fn lemma_response_events_as_chunks(v: JsonV, model: Seq<char>, saw: bool)
    ensures
        (jget_str(v, "type"@) == Some("response.output_text.delta"@) && jget_str(v, "delta"@) is Some) ==> ({
            let r = response_event_chunks(v, model, saw);
            &&& r.0.len() == 1
            &&& r.0[0].choices.len() == 1
            &&& r.0[0].choices[0].delta.content == jget_str(v, "delta"@)
            &&& r.0[0].choices[0].delta.tool_calls is None
            &&& r.0[0].choices[0].finish_reason is None
            &&& r.1 == saw
        }),
        jget_str(v, "type"@) == Some("response.function_call_arguments.delta"@) ==> ({
            let r = response_event_chunks(v, model, saw);
            &&& r.0.len() == 1
            &&& r.0[0].choices[0].delta.tool_calls matches Some(tcs) && tcs.len() == 1
            &&& (r.0[0].choices[0].delta.tool_calls->0)[0].function == Some((None::<Seq<char>>, jget_str(v, "delta"@)))
            &&& r.0[0].choices[0].delta.content is None
            &&& r.1
        }),
        jget_str(v, "type"@) == Some("response.completed"@) ==> ({
            let r = response_event_chunks(v, model, saw);
            let response = match jget(v, "response"@) {
                Some(x) => x,
                None => v,
            };
            &&& r.0.len() == 1
            &&& r.0[0].choices[0].finish_reason == Some(if saw { "tool_calls"@ } else { "stop"@ })
            &&& (jget(response, "usage"@) is Some && r.0[0].usage is Some) ==> ({
                let u = jget(response, "usage"@)->0;
                let cu = r.0[0].usage->0;
                &&& ju64(jget(u, "input_tokens"@)) is Some && ju64(jget(u, "output_tokens"@)) is Some
                &&& ju64(jget(u, "input_tokens"@))->0 <= u32::MAX ==> cu.prompt_tokens == ju64(jget(u, "input_tokens"@))->0
                &&& ju64(jget(u, "output_tokens"@))->0 <= u32::MAX ==> cu.completion_tokens == ju64(jget(u, "output_tokens"@))->0
            })
        }),
{
    reveal_strlit("response.output_text.delta");
    reveal_strlit("response.output_item.added");
    reveal_strlit("response.function_call_arguments.delta");
    reveal_strlit("response.completed");
    assert("response.output_item.added"@[16] != "response.output_text.delta"@[16]);
    assert("response.function_call_arguments.delta"@.len() != "response.output_text.delta"@.len());
    assert("response.function_call_arguments.delta"@.len() != "response.output_item.added"@.len());
    assert("response.completed"@.len() != "response.output_text.delta"@.len());
    assert("response.completed"@.len() != "response.output_item.added"@.len());
    assert("response.completed"@.len() != "response.function_call_arguments.delta"@.len());
    let response = match jget(v, "response"@) {
        Some(x) => x,
        None => v,
    };
    match jget(response, "usage"@) {
        Some(u) => {
            let i = ju64(jget(u, "input_tokens"@));
            let o = ju64(jget(u, "output_tokens"@));
            if let Some(n) = i {
                if n <= u32::MAX {
                    let m: u64 = n as u64;
                    assert((m as u32) == m) by (bit_vector)
                        requires
                            m <= 0xffff_ffff,
                    ;
                }
            }
            if let Some(n) = o {
                if n <= u32::MAX {
                    let m: u64 = n as u64;
                    assert((m as u32) == m) by (bit_vector)
                        requires
                            m <= 0xffff_ffff,
                    ;
                }
            }
        },
        None => {},
    }
}

pub open spec fn chunks_view(v: Seq<ChatChunk>) -> Seq<ChatChunkV> {
    v.map_values(|c: ChatChunk| c@)
}

fn single(c: ChatChunk) -> (r: Vec<ChatChunk>)
    ensures
        chunks_view(r@) == seq![c@],
{
    let mut v: Vec<ChatChunk> = Vec::new();
    v.push(c);
    assert(chunks_view(v@) =~= seq![c@]);
    v
}

fn output_index_of(value: &Json) -> (r: u32)
    ensures
        r == match ju64(jget(value@, "output_index"@)) {
            Some(n) => (n as u64) as u32,
            None => 0u32,
        },
{
    match value.get_u64("output_index") {
        Some(n) => n as u32,
        None => 0,
    }
}

/// The Chat chunks one Responses stream event stands for (see
/// [`response_event_chunks`]).
pub fn response_event_to_chat_chunks(value: &Json, model: &str, saw_tool_call: &mut bool) -> (r: Vec<ChatChunk>)
    ensures
        (chunks_view(r@), *final(saw_tool_call)) == response_event_chunks(value@, model@, *old(saw_tool_call)),
{
    let none: Vec<ChatChunk> = Vec::new();
    assert(chunks_view(none@) =~= Seq::<ChatChunkV>::empty());
    assert(""@ =~= Seq::<char>::empty()) by {
        reveal_strlit("");
    }
    let t = match value.get_str("type") {
        Some(t) => t,
        None => {
            return none;
        },
    };
    if str_eq(t, "response.output_text.delta") {
        match value.get_str("delta") {
            Some(text) => single(text_chat_chunk(model, text)),
            None => none,
        }
    } else if str_eq(t, "response.output_item.added") {
        let item = match value.get("item") {
            Some(i) => i,
            None => {
                return none;
            },
        };
        match item.get_str("type") {
            Some(ty) => {
                if !str_eq(ty, "function_call") {
                    return none;
                }
            },
            None => {
                return none;
            },
        }
        *saw_tool_call = true;
        let index = output_index_of(value);
        let id = match item.get("call_id") {
            Some(_) => item.get_str("call_id"),
            None => item.get_str("id"),
        };
        single(tool_chat_chunk(model, index, id, item.get_str("name"), None))
    } else if str_eq(t, "response.function_call_arguments.delta") {
        *saw_tool_call = true;
        let index = output_index_of(value);
        single(tool_chat_chunk(model, index, None, None, value.get_str("delta")))
    } else if str_eq(t, "response.completed") {
        let response = match value.get("response") {
            Some(r) => r,
            None => value,
        };
        let usage = match response.get("usage") {
            Some(u) => chat_usage_from_responses_usage(u),
            None => None,
        };
        let m = match response.get_str("model") {
            Some(x) => x,
            None => model,
        };
        let reason = if *saw_tool_call {
            "tool_calls"
        } else {
            "stop"
        };
        single(finish_chat_chunk("", m, reason, usage))
    } else {
        none
    }
}

// ─── Chat Completions encoder ───

/// Writes Chat Completions chunks: each choice as one `data:` item, and a
/// single `[DONE]` after the first finished choice.
#[derive(Debug)]
pub struct ChatSseEncoder {
    pub id: String,
    pub model: String,
    pub completed: bool,
}

pub struct ChatEncoderV {
    pub id: Seq<char>,
    pub model: Seq<char>,
    pub completed: bool,
}

impl View for ChatSseEncoder {
    type V = ChatEncoderV;

    open spec fn view(&self) -> ChatEncoderV {
        ChatEncoderV { id: self.id@, model: self.model@, completed: self.completed }
    }
}

/// The data of one chunk item written for one choice.
pub open spec fn chat_payload(id: Seq<char>, created: u64, model: Seq<char>, c: ChatChunkChoiceV, usage: Option<ChatUsage>) -> JsonV {
    let finish = match c.finish_reason {
        Some(r) => JsonV::Str(r),
        None => JsonV::Null,
    };
    let choice = JsonV::Object(seq![("index"@, jn(c.index as nat)), ("delta"@, delta_json(c.delta)), ("finish_reason"@, finish)]);
    let u = match usage {
        Some(x) => Some(chat_usage_json(x)),
        None => None,
    };
    JsonV::Object(
        seq![
            ("id"@, JsonV::Str(id)),
            ("object"@, JsonV::Str("chat.completion.chunk"@)),
            ("created"@, jn(created as nat)),
            ("model"@, JsonV::Str(model)),
            ("choices"@, JsonV::Array(seq![choice])),
        ] + opt_member("usage"@, u),
    )
}

/// Token counts as written: Chat counts under their own names, and for
/// Anthropic the prompt as `input_tokens` and the completion as
/// `output_tokens`.
pub proof fn lemma_usage_json(u: ChatUsage)
    ensures
        jget(chat_usage_json(u), "prompt_tokens"@) == Some(jn(u.prompt_tokens as nat)),
        jget(chat_usage_json(u), "completion_tokens"@) == Some(jn(u.completion_tokens as nat)),
        jget(chat_usage_json(u), "total_tokens"@) == Some(jn(u.total_tokens as nat)),
        jget(anthropic_usage_json(u), "input_tokens"@) == Some(jn(u.prompt_tokens as nat)),
        jget(anthropic_usage_json(u), "output_tokens"@) == Some(jn(u.completion_tokens as nat)),
{
    reveal_strlit("prompt_tokens");
    reveal_strlit("completion_tokens");
    reveal_strlit("total_tokens");
    reveal_strlit("input_tokens");
    reveal_strlit("output_tokens");
    let c = chat_usage_json(u)->Object_0;
    crate::json::lemma_obj_get_first(c, 0, "prompt_tokens"@);
    assert(c[0].0.len() != "completion_tokens"@.len());
    crate::json::lemma_obj_get_first(c, 1, "completion_tokens"@);
    assert(c[0].0.len() != "total_tokens"@.len());
    assert(c[1].0.len() != "total_tokens"@.len());
    crate::json::lemma_obj_get_first(c, 2, "total_tokens"@);
    let a = anthropic_usage_json(u)->Object_0;
    crate::json::lemma_obj_get_first(a, 0, "input_tokens"@);
    assert(a[0].0.len() != "output_tokens"@.len());
    crate::json::lemma_obj_get_first(a, 1, "output_tokens"@);
}

/// A Chat chunk as written to a Chat client: its text is forwarded
/// exactly as the choice's `delta.content`, its finish reason as the
/// choice's `finish_reason` (null when it has none), under the given model.
pub proof fn lemma_chat_payload(id: Seq<char>, created: u64, model: Seq<char>, c: ChatChunkChoiceV, usage: Option<ChatUsage>)
    ensures
        ({
            let v = chat_payload(id, created, model, c, usage);
            let chs = jarr(jget(v, "choices"@));
            &&& jget_str(v, "model"@) == Some(model)
            &&& chs is Some && chs->0.len() == 1
            &&& c.delta.content matches Some(t) ==> (jget(chs->0[0], "delta"@) is Some && jget_str(
                jget(chs->0[0], "delta"@)->0,
                "content"@,
            ) == Some(t))
            &&& c.finish_reason matches Some(r) ==> jget_str(chs->0[0], "finish_reason"@) == Some(r)
            &&& c.finish_reason is None ==> jget(chs->0[0], "finish_reason"@) == Some(JsonV::Null)
        }),
{
    reveal_strlit("id");
    reveal_strlit("object");
    reveal_strlit("created");
    reveal_strlit("model");
    reveal_strlit("choices");
    reveal_strlit("index");
    reveal_strlit("delta");
    reveal_strlit("finish_reason");
    reveal_strlit("role");
    reveal_strlit("content");
    let finish = match c.finish_reason {
        Some(r) => JsonV::Str(r),
        None => JsonV::Null,
    };
    let ces = seq![("index"@, jn(c.index as nat)), ("delta"@, delta_json(c.delta)), ("finish_reason"@, finish)];
    let choice = JsonV::Object(ces);
    let u = match usage {
        Some(x) => Some(chat_usage_json(x)),
        None => None,
    };
    let head = seq![
        ("id"@, JsonV::Str(id)),
        ("object"@, JsonV::Str("chat.completion.chunk"@)),
        ("created"@, jn(created as nat)),
        ("model"@, JsonV::Str(model)),
        ("choices"@, JsonV::Array(seq![choice])),
    ];
    let es = head + opt_member("usage"@, u);
    assert(chat_payload(id, created, model, c, usage) == JsonV::Object(es));
    assert(es[3] == head[3] && es[4] == head[4]);
    assert forall|j: int| 0 <= j < 3 implies (#[trigger] es[j]).0 != "model"@ by {
        assert(es[j] == head[j]);
        if j == 1 {
            assert("object"@[0] != "model"@[0]);
        } else {
            assert(es[j].0.len() != "model"@.len());
        }
    }
    crate::json::lemma_obj_get_first(es, 3, "model"@);
    assert forall|j: int| 0 <= j < 4 implies (#[trigger] es[j]).0 != "choices"@ by {
        assert(es[j] == head[j]);
        if j == 2 {
            assert("created"@[1] != "choices"@[1]);
        } else {
            assert(es[j].0.len() != "choices"@.len());
        }
    }
    crate::json::lemma_obj_get_first(es, 4, "choices"@);
    assert("index"@[0] != "delta"@[0]);
    crate::json::lemma_obj_get_first(ces, 1, "delta"@);
    assert(ces[0].0.len() != "finish_reason"@.len());
    assert(ces[1].0.len() != "finish_reason"@.len());
    crate::json::lemma_obj_get_first(ces, 2, "finish_reason"@);
    if let Some(t) = c.delta.content {
        let ds = delta_json(c.delta)->Object_0;
        let rl = opt_member("role"@, opt_text_json(c.delta.role));
        let k = rl.len() as int;
        assert(ds[k] == ("content"@, JsonV::Str(t)));
        assert forall|j: int| 0 <= j < k implies (#[trigger] ds[j]).0 != "content"@ by {
            assert(ds[j] == rl[j]);
            assert("role"@.len() != "content"@.len());
        }
        crate::json::lemma_obj_get_first(ds, k, "content"@);
    }
}

/// The items written for a chunk's choices (`created` holds the time
/// stamp of each).
pub open spec fn chat_choices_out(
    e: ChatEncoderV,
    id: Seq<char>,
    cs: Seq<ChatChunkChoiceV>,
    usage: Option<ChatUsage>,
    created: Seq<u64>,
) -> (ChatEncoderV, Seq<StreamOutputV>)
    decreases cs.len(),
{
    if cs.len() == 0 {
        (e, Seq::empty())
    } else {
        let (e1, o1) = chat_choices_out(e, id, cs.drop_last(), usage, created.drop_last());
        let c = cs.last();
        let data = StreamOutputV::Data(chat_payload(id, created.last(), e1.model, c, usage));
        if c.finish_reason is Some && !e1.completed {
            (ChatEncoderV { completed: true, ..e1 }, o1.push(data).push(StreamOutputV::Done))
        } else {
            (e1, o1.push(data))
        }
    }
}

/// What writing a chunk does: the chunk's model (when given) becomes the
/// encoder's, the chunk's id (when given) labels its items, and each
/// choice is written (see [`chat_choices_out`]).
pub open spec fn chat_push(e: ChatEncoderV, chunk: ChatChunkV, created: Seq<u64>) -> (ChatEncoderV, Seq<StreamOutputV>) {
    let e1 = ChatEncoderV {
        model: if chunk.model.len() > 0 {
            chunk.model
        } else {
            e.model
        },
        ..e
    };
    let id = if chunk.id.len() == 0 {
        e.id
    } else {
        chunk.id
    };
    chat_choices_out(e1, id, chunk.choices, chunk.usage, created)
}

/// Finishing: unless already complete, a finishing chunk with the encoder's
/// id and model, then `[DONE]`.
pub open spec fn chat_finish(e: ChatEncoderV, reason: Seq<char>, usage: Option<ChatUsage>, created: u64) -> (ChatEncoderV, Seq<StreamOutputV>) {
    if e.completed {
        (e, Seq::empty())
    } else {
        let c = ChatChunkChoiceV { index: 0, delta: empty_delta_v(), finish_reason: Some(reason) };
        (
            ChatEncoderV { completed: true, ..e },
            seq![StreamOutputV::Data(chat_payload(e.id, created, e.model, c, usage)), StreamOutputV::Done],
        )
    }
}

fn chat_payload_exec(id: &str, created: u64, model: &str, c: &ChatChunkChoice, usage: Option<ChatUsage>) -> (r: Json)
    ensures
        r@ == chat_payload(id@, created, model@, c@, usage),
{
    let mut ch: Vec<(String, Json)> = Vec::new();
    proof {
        lemma_jentries_empty(ch@);
    }
    push_member(&mut ch, "index", num(c.index as u64));
    push_member(&mut ch, "delta", chat_delta_value(&c.delta));
    let finish = match &c.finish_reason {
        Some(r) => Json::Str(r.clone()),
        None => Json::Null,
    };
    let ghost fv = finish@;
    push_member(&mut ch, "finish_reason", finish);
    let ghost chv = jentries(ch@);
    assert(chv =~= seq![("index"@, jn(c.index as nat)), ("delta"@, delta_json(c@.delta)), ("finish_reason"@, fv)]);
    let mut choices: Vec<Json> = Vec::new();
    choices.push(Json::Object(ch));
    proof {
        lemma_jviews(choices@);
    }
    assert(jviews(choices@) =~= seq![JsonV::Object(chv)]);
    let mut es: Vec<(String, Json)> = Vec::new();
    proof {
        lemma_jentries_empty(es@);
    }
    push_member(&mut es, "id", Json::string(id));
    push_member(&mut es, "object", Json::string("chat.completion.chunk"));
    push_member(&mut es, "created", num(created));
    push_member(&mut es, "model", Json::string(model));
    push_member(&mut es, "choices", Json::Array(choices));
    match &usage {
        Some(u) => {
            push_member(&mut es, "usage", chat_usage_value(u));
        },
        None => {},
    }
    assert(jentries(es@) =~= (chat_payload(id@, created, model@, c@, usage))->Object_0);
    Json::Object(es)
}

impl ChatSseEncoder {
    /// An encoder with a fresh `chatcmpl_…` id.
    pub fn new(model: String) -> (r: Self)
        ensures
            is_generated_id(r.id@, "chatcmpl"@),
            r.model@ == model@,
            !r.completed,
    {
        ChatSseEncoder { id: gen_id("chatcmpl"), model, completed: false }
    }

    /// The model the chunks name.
    pub fn model(&self) -> (r: &str)
        ensures
            r@ == self.model@,
    {
        self.model.as_str()
    }

    /// Writes a chunk (see [`chat_push`]); each item is stamped with the
    /// current time.
    pub fn push_chunk(&mut self, chunk: &ChatChunk, pending: &mut Vec<StreamOutput>)
        ensures
            exists|created: Seq<u64>|
                created.len() == chunk@.choices.len() && final(self)@ == (#[trigger] chat_push(old(self)@, chunk@, created)).0
                    && outputs_view(final(pending)@) == outputs_view(old(pending)@) + chat_push(old(self)@, chunk@, created).1,
    {
        let ghost p0 = outputs_view(pending@);
        if chunk.model.unicode_len() > 0 {
            self.model = chunk.model.clone();
        }
        let id = if chunk.id.unicode_len() == 0 {
            self.id.clone()
        } else {
            chunk.id.clone()
        };
        let ghost e1 = self@;
        let ghost cs = chunk@.choices;
        let ghost mut created: Seq<u64> = Seq::empty();
        assert(outputs_view(pending@) =~= p0 + Seq::<StreamOutputV>::empty());
        let mut i: usize = 0;
        while i < chunk.choices.len()
            invariant
                i <= chunk.choices@.len(),
                cs == chunk@.choices,
                cs.len() == chunk.choices@.len(),
                forall|j: int| 0 <= j < cs.len() ==> #[trigger] cs[j] == chunk.choices@[j]@,
                created.len() == i,
                self.id@ == e1.id,
                (self@, outputs_view(pending@)) == ({
                    let (e, o) = chat_choices_out(e1, id@, cs.take(i as int), chunk@.usage, created);
                    (e, p0 + o)
                }),
            decreases chunk.choices.len() - i,
        {
            let c = &chunk.choices[i];
            let t = now_secs();
            let ghost prev = chat_choices_out(e1, id@, cs.take(i as int), chunk@.usage, created);
            let data = chat_payload_exec(id.as_str(), t, self.model.as_str(), c, chunk.usage);
            push_output(pending, StreamOutput::Data(data));
            if c.finish_reason.is_some() && !self.completed {
                push_output(pending, StreamOutput::Done);
                self.completed = true;
            }
            proof {
                let nc = created.push(t);
                assert(cs.take(i + 1).drop_last() =~= cs.take(i as int));
                assert(nc.drop_last() =~= created);
                assert(cs.take(i + 1).last() == c@);
                let (ea, oa) = chat_choices_out(e1, id@, cs.take(i + 1), chunk@.usage, nc);
                assert(outputs_view(pending@) =~= p0 + oa);
                created = nc;
            }
            i = i + 1;
        }
        assert(cs.take(cs.len() as int) =~= cs);
        assert(chat_push(old(self)@, chunk@, created) == chat_choices_out(e1, id@, cs, chunk@.usage, created));
    }

    /// Finishes the stream with `reason`, unless it is complete already (see
    /// [`chat_finish`]).
    pub fn finish(&mut self, reason: &str, usage: Option<ChatUsage>, pending: &mut Vec<StreamOutput>)
        ensures
            exists|created: u64| final(self)@ == (#[trigger] chat_finish(old(self)@, reason@, usage, created)).0
                && outputs_view(final(pending)@) == outputs_view(old(pending)@) + chat_finish(old(self)@, reason@, usage, created).1,
    {
        if self.completed {
            assert(outputs_view(pending@) =~= outputs_view(pending@) + Seq::<StreamOutputV>::empty());
            assert(chat_finish(self@, reason@, usage, 0u64).0 == self@);
            return;
        }
        let ghost p0 = outputs_view(pending@);
        let t = now_secs();
        let delta = ChatChunkDelta { role: None, content: None, reasoning_content: None, tool_calls: None };
        let c = ChatChunkChoice { index: 0, delta, finish_reason: Some(owned(reason)) };
        let data = chat_payload_exec(self.id.as_str(), t, self.model.as_str(), &c, usage);
        push_output(pending, StreamOutput::Data(data));
        push_output(pending, StreamOutput::Done);
        self.completed = true;
        assert(outputs_view(pending@) =~= p0 + chat_finish(old(self)@, reason@, usage, t).1);
    }
}

/// Once complete, finishing writes nothing more: `[DONE]` goes out at most
/// once.
pub proof fn lemma_chat_finish_once(e: ChatEncoderV, reason: Seq<char>, usage: Option<ChatUsage>, t1: u64, t2: u64)
    ensures
        chat_finish(chat_finish(e, reason, usage, t1).0, reason, usage, t2).1 == Seq::<StreamOutputV>::empty(),
        chat_finish(e, reason, usage, t1).0.completed,
{
}

// ─── Anthropic Messages encoder ───

/// Writes Anthropic stream events: `message_start` once, a text block,
/// JSON deltas for tool calls, and the closing `message_delta` and
/// `message_stop` once.
#[derive(Debug)]
pub struct AnthropicSseEncoder {
    pub id: String,
    pub model: String,
    pub started: bool,
    pub text_started: bool,
    pub completed: bool,
}

pub struct AnthropicEncoderV {
    pub id: Seq<char>,
    pub model: Seq<char>,
    pub started: bool,
    pub text_started: bool,
    pub completed: bool,
}

impl View for AnthropicSseEncoder {
    type V = AnthropicEncoderV;

    open spec fn view(&self) -> AnthropicEncoderV {
        AnthropicEncoderV {
            id: self.id@,
            model: self.model@,
            started: self.started,
            text_started: self.text_started,
            completed: self.completed,
        }
    }
}

pub open spec fn ev(name: Seq<char>, fields: Seq<(Seq<char>, JsonV)>) -> StreamOutputV {
    StreamOutputV::Event(name, JsonV::Object(seq![("type"@, JsonV::Str(name))] + fields))
}

pub open spec fn zero_usage_json() -> JsonV {
    JsonV::Object(seq![("input_tokens"@, jn(0)), ("output_tokens"@, jn(0))])
}

pub open spec fn message_start_event(id: Seq<char>, model: Seq<char>) -> StreamOutputV {
    let message = JsonV::Object(
        seq![
            ("id"@, JsonV::Str(id)),
            ("type"@, JsonV::Str("message"@)),
            ("role"@, JsonV::Str("assistant"@)),
            ("model"@, JsonV::Str(model)),
            ("content"@, JsonV::Array(Seq::empty())),
            ("stop_reason"@, JsonV::Null),
            ("stop_sequence"@, JsonV::Null),
            ("usage"@, zero_usage_json()),
        ],
    );
    ev("message_start"@, seq![("message"@, message)])
}

pub open spec fn block_start_event() -> StreamOutputV {
    let block = JsonV::Object(seq![("type"@, JsonV::Str("text"@)), ("text"@, JsonV::Str(Seq::empty()))]);
    ev("content_block_start"@, seq![("index"@, jn(0)), ("content_block"@, block)])
}

pub open spec fn text_delta_event(text: Seq<char>) -> StreamOutputV {
    let delta = JsonV::Object(seq![("type"@, JsonV::Str("text_delta"@)), ("text"@, JsonV::Str(text))]);
    ev("content_block_delta"@, seq![("index"@, jn(0)), ("delta"@, delta)])
}

pub open spec fn json_delta_event(index: u32, partial: Seq<char>) -> StreamOutputV {
    let delta = JsonV::Object(seq![("type"@, JsonV::Str("input_json_delta"@)), ("partial_json"@, JsonV::Str(partial))]);
    ev("content_block_delta"@, seq![("index"@, jn(index as nat)), ("delta"@, delta)])
}

pub open spec fn block_stop_event() -> StreamOutputV {
    ev("content_block_stop"@, seq![("index"@, jn(0))])
}

pub open spec fn message_delta_event(reason: Seq<char>, usage: Option<ChatUsage>) -> StreamOutputV {
    let delta = JsonV::Object(seq![("stop_reason"@, JsonV::Str(reason)), ("stop_sequence"@, JsonV::Null)]);
    let u = match usage {
        Some(x) => anthropic_usage_json(x),
        None => zero_usage_json(),
    };
    ev("message_delta"@, seq![("delta"@, delta), ("usage"@, u)])
}

pub open spec fn message_stop_event() -> StreamOutputV {
    ev("message_stop"@, Seq::empty())
}

pub open spec fn a_start(e: AnthropicEncoderV) -> (AnthropicEncoderV, Seq<StreamOutputV>) {
    if e.started {
        (e, Seq::empty())
    } else {
        (AnthropicEncoderV { started: true, ..e }, seq![message_start_event(e.id, e.model)])
    }
}

pub open spec fn a_start_text(e: AnthropicEncoderV) -> (AnthropicEncoderV, Seq<StreamOutputV>) {
    if e.text_started {
        (e, Seq::empty())
    } else {
        (AnthropicEncoderV { text_started: true, ..e }, seq![block_start_event()])
    }
}

/// Closing the message, once: started if need be, the text block closed
/// if open, then `message_delta` (stop reason, usage) and `message_stop`.
pub open spec fn a_finish(e: AnthropicEncoderV, reason: Seq<char>, usage: Option<ChatUsage>) -> (AnthropicEncoderV, Seq<StreamOutputV>) {
    if e.completed {
        (e, Seq::empty())
    } else {
        let (e1, o1) = a_start(e);
        let o2: Seq<StreamOutputV> = if e1.text_started {
            seq![block_stop_event()]
        } else {
            Seq::empty()
        };
        (AnthropicEncoderV { completed: true, ..e1 }, o1 + o2 + seq![message_delta_event(reason, usage), message_stop_event()])
    }
}

pub open spec fn partial_of(t: ChatChunkToolCallV) -> Seq<char> {
    match t.function {
        Some((_, Some(a))) => a,
        _ => Seq::empty(),
    }
}

pub open spec fn a_tool_deltas(ts: Seq<ChatChunkToolCallV>) -> Seq<StreamOutputV> {
    ts.map_values(|t: ChatChunkToolCallV| json_delta_event(t.index, partial_of(t)))
}

/// What one choice writes: its text (opening the text block first), its
/// tool-call argument fragments, and the close when it has a finish reason.
pub open spec fn a_choice(e: AnthropicEncoderV, c: ChatChunkChoiceV, usage: Option<ChatUsage>) -> (AnthropicEncoderV, Seq<StreamOutputV>) {
    let (e1, o1) = match c.delta.content {
        Some(t) => {
            let (ea, oa) = a_start_text(e);
            (ea, oa.push(text_delta_event(t)))
        },
        None => (e, Seq::empty()),
    };
    let o2 = match c.delta.tool_calls {
        Some(ts) => a_tool_deltas(ts),
        None => Seq::empty(),
    };
    let (e3, o3) = match c.finish_reason {
        Some(r) => a_finish(e1, stop_reason_of(r), usage),
        None => (e1, Seq::empty()),
    };
    (e3, o1 + o2 + o3)
}

/// The text a written event forwards: the `delta.text` of a
/// `content_block_delta` event.
pub open spec fn text_piece(o: StreamOutputV) -> Option<Seq<char>> {
    match o {
        StreamOutputV::Event(n, d) => if n == "content_block_delta"@ {
            match jget(d, "delta"@) {
                Some(x) => jget_str(x, "text"@),
                None => None,
            }
        } else {
            None
        },
        _ => None,
    }
}

/// The stop reason a written event announces: the `delta.stop_reason` of a
/// `message_delta` event.
pub open spec fn stop_piece(o: StreamOutputV) -> Option<Seq<char>> {
    match o {
        StreamOutputV::Event(n, d) => if n == "message_delta"@ {
            match jget(d, "delta"@) {
                Some(x) => jget_str(x, "stop_reason"@),
                None => None,
            }
        } else {
            None
        },
        _ => None,
    }
}

proof fn lemma_text_piece(t: Seq<char>)
    ensures
        text_piece(text_delta_event(t)) == Some(t),
{
    reveal_strlit("type");
    reveal_strlit("index");
    reveal_strlit("delta");
    reveal_strlit("text");
    assert("index"@[0] != "delta"@[0]);
    assert("type"@[1] != "text"@[1]);
    let delta = JsonV::Object(seq![("type"@, JsonV::Str("text_delta"@)), ("text"@, JsonV::Str(t))]);
    let es = seq![("type"@, JsonV::Str("content_block_delta"@))] + seq![("index"@, jn(0)), ("delta"@, delta)];
    assert(es[0].0.len() != "delta"@.len());
    crate::json::lemma_obj_get_first(es, 2, "delta"@);
    crate::json::lemma_obj_get_first(delta->Object_0, 1, "text"@);
}

proof fn lemma_stop_piece(reason: Seq<char>, usage: Option<ChatUsage>)
    ensures
        stop_piece(message_delta_event(reason, usage)) == Some(reason),
{
    reveal_strlit("type");
    reveal_strlit("delta");
    reveal_strlit("stop_reason");
    let delta = JsonV::Object(seq![("stop_reason"@, JsonV::Str(reason)), ("stop_sequence"@, JsonV::Null)]);
    let u = match usage {
        Some(x) => anthropic_usage_json(x),
        None => zero_usage_json(),
    };
    let es = seq![("type"@, JsonV::Str("message_delta"@))] + seq![("delta"@, delta), ("usage"@, u)];
    assert(es[0].0.len() != "delta"@.len());
    crate::json::lemma_obj_get_first(es, 1, "delta"@);
    crate::json::lemma_obj_get_first(delta->Object_0, 0, "stop_reason"@);
}

/// What a Chat choice becomes in an Anthropic stream: its text is
/// forwarded exactly, as the text of a `content_block_delta`; and a finish
/// reason (on an encoder not yet completed) is announced as the
/// `message_delta` stop reason, `tool_calls` as `tool_use`, `length` as
/// `max_tokens` and anything else as `end_turn`.
pub proof fn lemma_anthropic_choice_law(e: AnthropicEncoderV, c: ChatChunkChoiceV, usage: Option<ChatUsage>)
    ensures
        c.delta.content matches Some(t) ==> exists|i: int|
            0 <= i < a_choice(e, c, usage).1.len() && #[trigger] text_piece(a_choice(e, c, usage).1[i]) == Some(t),
        (c.finish_reason is Some && !e.completed) ==> exists|i: int|
            0 <= i < a_choice(e, c, usage).1.len() && #[trigger] stop_piece(a_choice(e, c, usage).1[i]) == Some(
                if c.finish_reason->0 == "tool_calls"@ {
                    "tool_use"@
                } else if c.finish_reason->0 == "length"@ {
                    "max_tokens"@
                } else {
                    "end_turn"@
                },
            ),
{
    reveal_strlit("tool_calls");
    reveal_strlit("length");
    assert("tool_calls"@.len() != "length"@.len());
    let (e1, o1) = match c.delta.content {
        Some(t) => {
            let (ea, oa) = a_start_text(e);
            (ea, oa.push(text_delta_event(t)))
        },
        None => (e, Seq::empty()),
    };
    let o2 = match c.delta.tool_calls {
        Some(ts) => a_tool_deltas(ts),
        None => Seq::empty(),
    };
    let (e3, o3) = match c.finish_reason {
        Some(r) => a_finish(e1, stop_reason_of(r), usage),
        None => (e1, Seq::empty()),
    };
    let out = o1 + o2 + o3;
    assert(a_choice(e, c, usage).1 == out);
    if let Some(t) = c.delta.content {
        lemma_text_piece(t);
        let i: int = o1.len() - 1;
        assert(out[i] == o1[i]);
        assert(text_piece(out[i]) == Some(t));
    }
    if let Some(r) = c.finish_reason {
        if !e.completed {
            lemma_stop_piece(stop_reason_of(r), usage);
            let (ea, oa) = a_start(e1);
            let ob: Seq<StreamOutputV> = if ea.text_started {
                seq![block_stop_event()]
            } else {
                Seq::empty()
            };
            let tail = seq![message_delta_event(stop_reason_of(r), usage), message_stop_event()];
            assert(o3 == oa + ob + tail);
            let i: int = (o1.len() + o2.len() + oa.len() + ob.len()) as int;
            let j: int = (oa.len() + ob.len()) as int;
            assert(out[i] == o3[j]);
            assert(o3[j] == tail[0]);
            assert(stop_piece(out[i]) == Some(stop_reason_of(r)));
        }
    }
}

pub open spec fn a_choices(e: AnthropicEncoderV, cs: Seq<ChatChunkChoiceV>, usage: Option<ChatUsage>) -> (AnthropicEncoderV, Seq<StreamOutputV>)
    decreases cs.len(),
{
    if cs.len() == 0 {
        (e, Seq::empty())
    } else {
        let (e1, o1) = a_choices(e, cs.drop_last(), usage);
        let (e2, o2) = a_choice(e1, cs.last(), usage);
        (e2, o1 + o2)
    }
}

/// What writing a chunk does: its model (when given) becomes the
/// encoder's, the message is started, and each choice is written.
pub open spec fn a_push(e: AnthropicEncoderV, chunk: ChatChunkV) -> (AnthropicEncoderV, Seq<StreamOutputV>) {
    let e0 = AnthropicEncoderV {
        model: if chunk.model.len() > 0 {
            chunk.model
        } else {
            e.model
        },
        ..e
    };
    let (e1, o1) = a_start(e0);
    let (e2, o2) = a_choices(e1, chunk.choices, chunk.usage);
    (e2, o1 + o2)
}

fn event_out(name: &str, fields: Vec<(String, Json)>) -> (r: StreamOutput)
    ensures
        r@ == StreamOutputV::Event(name@, JsonV::Object(seq![("type"@, JsonV::Str(name@))] + jentries(fields@))),
{
    let mut es: Vec<(String, Json)> = Vec::new();
    proof {
        lemma_jentries_empty(es@);
    }
    push_member(&mut es, "type", Json::string(name));
    let ghost fv = jentries(fields@);
    let mut i: usize = 0;
    proof {
        crate::json::lemma_jentries(fields@);
    }
    while i < fields.len()
        invariant
            i <= fields@.len(),
            fv == jentries(fields@),
            fv.len() == fields@.len(),
            forall|j: int| 0 <= j < fields@.len() ==> #[trigger] fv[j] == (fields@[j].0@, fields@[j].1@),
            jentries(es@) == seq![("type"@, JsonV::Str(name@))] + fv.take(i as int),
        decreases fields.len() - i,
    {
        let ghost before = jentries(es@);
        push_member(&mut es, fields[i].0.as_str(), fields[i].1.deep_clone());
        assert(fv.take(i + 1) =~= fv.take(i as int).push(fv[i as int]));
        assert(jentries(es@) =~= seq![("type"@, JsonV::Str(name@))] + fv.take(i + 1));
        i = i + 1;
    }
    assert(fv.take(fv.len() as int) =~= fv);
    StreamOutput::Event(owned(name), Json::Object(es))
}

fn fields0() -> (r: Vec<(String, Json)>)
    ensures
        jentries(r@) == Seq::<(Seq<char>, JsonV)>::empty(),
{
    let es: Vec<(String, Json)> = Vec::new();
    proof {
        lemma_jentries_empty(es@);
    }
    es
}

fn zero_usage_exec() -> (r: Json)
    ensures
        r@ == zero_usage_json(),
{
    let mut es = fields0();
    push_member(&mut es, "input_tokens", num(0));
    push_member(&mut es, "output_tokens", num(0));
    assert(jentries(es@) =~= (zero_usage_json())->Object_0);
    Json::Object(es)
}

impl AnthropicSseEncoder {
    /// An encoder with a fresh `msg_…` id.
    pub fn new(model: String) -> (r: Self)
        ensures
            is_generated_id(r.id@, "msg"@),
            r.model@ == model@,
            !r.started && !r.text_started && !r.completed,
    {
        AnthropicSseEncoder { id: gen_id("msg"), model, started: false, text_started: false, completed: false }
    }

    /// The model the events name.
    pub fn model(&self) -> (r: &str)
        ensures
            r@ == self.model@,
    {
        self.model.as_str()
    }

    fn start(&mut self, pending: &mut Vec<StreamOutput>)
        ensures
            (final(self)@, outputs_view(final(pending)@)) == ({
                let (e, o) = a_start(old(self)@);
                (e, outputs_view(old(pending)@) + o)
            }),
    {
        if self.started {
            assert(outputs_view(pending@) =~= outputs_view(pending@) + Seq::<StreamOutputV>::empty());
            return;
        }
        let ghost p0 = outputs_view(pending@);
        let mut m = fields0();
        push_member(&mut m, "id", Json::string(self.id.as_str()));
        push_member(&mut m, "type", Json::string("message"));
        push_member(&mut m, "role", Json::string("assistant"));
        push_member(&mut m, "model", Json::string(self.model.as_str()));
        let empty: Vec<Json> = Vec::new();
        proof {
            lemma_jviews(empty@);
        }
        assert(jviews(empty@) =~= Seq::<JsonV>::empty());
        push_member(&mut m, "content", Json::Array(empty));
        push_member(&mut m, "stop_reason", Json::Null);
        push_member(&mut m, "stop_sequence", Json::Null);
        push_member(&mut m, "usage", zero_usage_exec());
        let ghost mv = jentries(m@);
        let mut f = fields0();
        push_member(&mut f, "message", Json::Object(m));
        let o = event_out("message_start", f);
        assert(mv =~= (match message_start_event(self.id@, self.model@) {
            StreamOutputV::Event(_, JsonV::Object(es)) => es[1].1,
            _ => JsonV::Null,
        })->Object_0);
        assert(o@ == message_start_event(self.id@, self.model@)) by {
            assert(seq![("type"@, JsonV::Str("message_start"@))] + seq![("message"@, JsonV::Object(mv))] =~= seq![("type"@, JsonV::Str("message_start"@)), ("message"@, JsonV::Object(mv))]);
        }
        push_output(pending, o);
        self.started = true;
        assert(outputs_view(pending@) =~= p0 + seq![o@]);
    }

    fn start_text(&mut self, pending: &mut Vec<StreamOutput>)
        ensures
            (final(self)@, outputs_view(final(pending)@)) == ({
                let (e, o) = a_start_text(old(self)@);
                (e, outputs_view(old(pending)@) + o)
            }),
    {
        if self.text_started {
            assert(outputs_view(pending@) =~= outputs_view(pending@) + Seq::<StreamOutputV>::empty());
            return;
        }
        let ghost p0 = outputs_view(pending@);
        let mut b = fields0();
        push_member(&mut b, "type", Json::string("text"));
        push_member(&mut b, "text", Json::Str(String::new()));
        let ghost bv = jentries(b@);
        assert(bv =~= seq![("type"@, JsonV::Str("text"@)), ("text"@, JsonV::Str(Seq::empty()))]);
        let mut f = fields0();
        push_member(&mut f, "index", num(0));
        push_member(&mut f, "content_block", Json::Object(b));
        assert(jentries(f@) =~= seq![("index"@, jn(0)), ("content_block"@, JsonV::Object(bv))]);
        let o = event_out("content_block_start", f);
        assert(o@ =~~= block_start_event());
        push_output(pending, o);
        self.text_started = true;
        assert(outputs_view(pending@) =~= p0 + seq![o@]);
    }

    /// Closes the message once (see [`a_finish`]).
    pub fn finish(&mut self, reason: &str, usage: Option<ChatUsage>, pending: &mut Vec<StreamOutput>)
        ensures
            (final(self)@, outputs_view(final(pending)@)) == ({
                let (e, o) = a_finish(old(self)@, reason@, usage);
                (e, outputs_view(old(pending)@) + o)
            }),
    {
        if self.completed {
            assert(outputs_view(pending@) =~= outputs_view(pending@) + Seq::<StreamOutputV>::empty());
            return;
        }
        let ghost p0 = outputs_view(pending@);
        self.start(pending);
        let ghost p1 = outputs_view(pending@);
        if self.text_started {
            let mut f = fields0();
            push_member(&mut f, "index", num(0));
            assert(jentries(f@) =~= seq![("index"@, jn(0))]);
            let o = event_out("content_block_stop", f);
            assert(o@ =~~= block_stop_event());
            push_output(pending, o);
        }
        let ghost p2 = outputs_view(pending@);
        let mut d = fields0();
        push_member(&mut d, "stop_reason", Json::string(reason));
        push_member(&mut d, "stop_sequence", Json::Null);
        let ghost dv = jentries(d@);
        let u = match &usage {
            Some(x) => anthropic_usage_value(x),
            None => zero_usage_exec(),
        };
        let ghost uv = u@;
        let mut f = fields0();
        push_member(&mut f, "delta", Json::Object(d));
        push_member(&mut f, "usage", u);
        assert(dv =~= seq![("stop_reason"@, JsonV::Str(reason@)), ("stop_sequence"@, JsonV::Null)]);
        assert(jentries(f@) =~= seq![("delta"@, JsonV::Object(dv)), ("usage"@, uv)]);
        let o1 = event_out("message_delta", f);
        assert(o1@ =~~= message_delta_event(reason@, usage));
        push_output(pending, o1);
        let o2 = event_out("message_stop", fields0());
        assert(o2@ =~~= message_stop_event());
        push_output(pending, o2);
        self.completed = true;
        assert(outputs_view(pending@) =~= p0 + a_finish(old(self)@, reason@, usage).1);
    }

    fn push_choice(&mut self, c: &ChatChunkChoice, usage: Option<ChatUsage>, pending: &mut Vec<StreamOutput>)
        ensures
            (final(self)@, outputs_view(final(pending)@)) == ({
                let (e, o) = a_choice(old(self)@, c@, usage);
                (e, outputs_view(old(pending)@) + o)
            }),
    {
        let ghost p0 = outputs_view(pending@);
        let ghost e0 = self@;
        match &c.delta.content {
            Some(t) => {
                self.start_text(pending);
                let mut d = fields0();
                push_member(&mut d, "type", Json::string("text_delta"));
                push_member(&mut d, "text", Json::Str(t.clone()));
                let ghost dv = jentries(d@);
                let mut f = fields0();
                push_member(&mut f, "index", num(0));
                push_member(&mut f, "delta", Json::Object(d));
                assert(dv =~= seq![("type"@, JsonV::Str("text_delta"@)), ("text"@, JsonV::Str(t@))]);
                assert(jentries(f@) =~= seq![("index"@, jn(0)), ("delta"@, JsonV::Object(dv))]);
                let o = event_out("content_block_delta", f);
                assert(o@ =~~= text_delta_event(t@));
                push_output(pending, o);
            },
            None => {},
        }
        let ghost p1 = outputs_view(pending@);
        match &c.delta.tool_calls {
            Some(ts) => {
                let mut i: usize = 0;
                while i < ts.len()
                    invariant
                        i <= ts@.len(),
                        outputs_view(pending@) == p1 + ts@.take(i as int).map_values(
                            |t: ChatChunkToolCall| json_delta_event(t.index, partial_of(t@)),
                        ),
                    decreases ts.len() - i,
                {
                    let t = &ts[i];
                    let partial: String = match &t.function {
                        Some(f) => match &f.arguments {
                            Some(a) => a.clone(),
                            None => String::new(),
                        },
                        None => String::new(),
                    };
                    let mut d = fields0();
                    push_member(&mut d, "type", Json::string("input_json_delta"));
                    push_member(&mut d, "partial_json", Json::Str(partial));
                    let ghost dv = jentries(d@);
                    let mut f = fields0();
                    push_member(&mut f, "index", num(t.index as u64));
                    push_member(&mut f, "delta", Json::Object(d));
                    assert(dv =~= seq![("type"@, JsonV::Str("input_json_delta"@)), ("partial_json"@, JsonV::Str(partial_of(t@)))]);
                    assert(jentries(f@) =~= seq![("index"@, jn(t.index as nat)), ("delta"@, JsonV::Object(dv))]);
                    let o = event_out("content_block_delta", f);
                    assert(o@ =~~= json_delta_event(t.index, partial_of(t@)));
                    let ghost before = outputs_view(pending@);
                    push_output(pending, o);
                    assert(ts@.take(i + 1) =~= ts@.take(i as int).push(ts@[i as int]));
                    assert(outputs_view(pending@) =~= p1 + ts@.take(i + 1).map_values(
                        |t: ChatChunkToolCall| json_delta_event(t.index, partial_of(t@)),
                    ));
                    i = i + 1;
                }
                assert(ts@.take(ts@.len() as int) =~= ts@);
                assert(ts@.map_values(|t: ChatChunkToolCall| json_delta_event(t.index, partial_of(t@))) =~= a_tool_deltas(
                    ts@.map_values(|t: ChatChunkToolCall| t@),
                ));
            },
            None => {
                assert(outputs_view(pending@) =~= p1 + Seq::<StreamOutputV>::empty());
            },
        }
        let ghost p2 = outputs_view(pending@);
        match &c.finish_reason {
            Some(r) => {
                self.finish(anthropic_stop_reason(r.as_str()), usage, pending);
            },
            None => {
                assert(outputs_view(pending@) =~= p2 + Seq::<StreamOutputV>::empty());
            },
        }
        assert(outputs_view(pending@) =~= p0 + a_choice(e0, c@, usage).1);
    }

    /// Writes a chunk (see [`a_push`]).
    pub fn push_chunk(&mut self, chunk: &ChatChunk, pending: &mut Vec<StreamOutput>)
        ensures
            (final(self)@, outputs_view(final(pending)@)) == ({
                let (e, o) = a_push(old(self)@, chunk@);
                (e, outputs_view(old(pending)@) + o)
            }),
    {
        let ghost p0 = outputs_view(pending@);
        if chunk.model.unicode_len() > 0 {
            self.model = chunk.model.clone();
        }
        self.start(pending);
        let ghost e1 = self@;
        let ghost p1 = outputs_view(pending@);
        let ghost cs = chunk@.choices;
        let mut i: usize = 0;
        assert(outputs_view(pending@) =~= p1 + Seq::<StreamOutputV>::empty());
        while i < chunk.choices.len()
            invariant
                i <= chunk.choices@.len(),
                cs == chunk@.choices,
                cs.len() == chunk.choices@.len(),
                forall|j: int| 0 <= j < cs.len() ==> #[trigger] cs[j] == chunk.choices@[j]@,
                self@ == a_choices(e1, cs.take(i as int), chunk@.usage).0,
                outputs_view(pending@) == p1 + a_choices(e1, cs.take(i as int), chunk@.usage).1,
            decreases chunk.choices.len() - i,
        {
            let ghost pi = outputs_view(pending@);
            self.push_choice(&chunk.choices[i], chunk.usage, pending);
            assert(cs.take(i + 1).drop_last() =~= cs.take(i as int));
            assert(cs.take(i + 1).last() == chunk.choices@[i as int]@);
            assert(outputs_view(pending@) =~= p1 + a_choices(e1, cs.take(i + 1), chunk@.usage).1);
            i = i + 1;
        }
        assert(cs.take(cs.len() as int) =~= cs);
        assert(outputs_view(pending@) =~= p0 + a_push(old(self)@, chunk@).1);
    }
}

/// The Anthropic stream is closed at most once: after a close, further
/// closes write nothing.
pub proof fn lemma_anthropic_finish_once(e: AnthropicEncoderV, r1: Seq<char>, u1: Option<ChatUsage>, r2: Seq<char>, u2: Option<ChatUsage>)
    ensures
        a_finish(a_finish(e, r1, u1).0, r2, u2).1 == Seq::<StreamOutputV>::empty(),
        a_finish(e, r1, u1).0.completed,
        !e.completed ==> a_finish(e, r1, u1).0.started,
{
}

// ─── one upstream item at a time ───

/// Anthropic token counts as Chat token counts.
pub open spec fn usage_as_chat(u: crate::types::AnthropicUsage) -> ChatUsage {
    ChatUsage {
        prompt_tokens: u.input_tokens,
        completion_tokens: u.output_tokens,
        total_tokens: (u.input_tokens + u.output_tokens) as u32,
    }
}

/// The latest token counts after an Anthropic event.
pub open spec fn next_usage(event: AnthropicStreamEvent, last: Option<ChatUsage>) -> Option<ChatUsage> {
    match stream_event_usage(event) {
        Some(u) => Some(usage_as_chat(u)),
        None => last,
    }
}

/// A chunk that carries the latest token counts when it has none.
pub open spec fn with_usage(c: ChatChunkV, u: Option<ChatUsage>) -> ChatChunkV {
    if c.usage is None {
        ChatChunkV { usage: u, ..c }
    } else {
        c
    }
}

/// What one Anthropic event does to a Chat stream: its token counts become
/// the latest, the chunk it stands for (carrying the latest counts) is
/// written, and `message_stop` finishes the stream with `stop`.
pub open spec fn chat_on_anthropic(
    e: ChatEncoderV,
    event: AnthropicStreamEvent,
    last: Option<ChatUsage>,
    created: Seq<u64>,
    t: u64,
) -> (ChatEncoderV, Seq<StreamOutputV>) {
    let lu = next_usage(event, last);
    let (e1, o1) = match stream_event_delta(event) {
        Some(dv) => chat_push(e, with_usage(single_choice_chunk(e.model, dv.0, dv.1), lu), created),
        None => (e, Seq::empty()),
    };
    let (e2, o2) = if event.event_type@ == "message_stop"@ {
        chat_finish(e1, "stop"@, lu, t)
    } else {
        (e1, Seq::empty())
    };
    (e2, o1 + o2)
}

impl ChatSseEncoder {
    /// Handles one Anthropic stream event (see [`chat_on_anthropic`]).
    pub fn on_anthropic_event(
        &mut self,
        event: &AnthropicStreamEvent,
        last_usage: &mut Option<ChatUsage>,
        pending: &mut Vec<StreamOutput>,
    )
        requires
            stream_event_usage(*event) matches Some(u) ==> usage_sum_fits(u),
        ensures
            *final(last_usage) == next_usage(*event, *old(last_usage)),
            exists|created: Seq<u64>, t: u64|
                final(self)@ == (#[trigger] chat_on_anthropic(old(self)@, *event, *old(last_usage), created, t)).0
                    && outputs_view(final(pending)@) == outputs_view(old(pending)@) + chat_on_anthropic(
                    old(self)@,
                    *event,
                    *old(last_usage),
                    created,
                    t,
                ).1,
    {
        let ghost e0 = self@;
        let ghost p0 = outputs_view(pending@);
        let ghost l0 = *last_usage;
        match anthropic_stream_event_usage(event) {
            Some(u) => {
                *last_usage = Some(u);
            },
            None => {},
        }
        let ghost lu = *last_usage;
        let ghost mut created: Seq<u64> = Seq::empty();
        let ghost mut t: u64 = 0;
        let mut pushed = false;
        match anthropic_stream_event_to_chat_chunk(event, self.model.as_str()) {
            Some(chunk) => {
                let mut chunk = chunk;
                if chunk.usage.is_none() {
                    chunk.usage = *last_usage;
                }
                let ghost cv = chunk@;
                self.push_chunk(&chunk, pending);
                proof {
                    let c = choose|c: Seq<u64>| c.len() == cv.choices.len() && self@ == (#[trigger] chat_push(e0, cv, c)).0
                        && outputs_view(pending@) == p0 + chat_push(e0, cv, c).1;
                    created = c;
                }
                pushed = true;
            },
            None => {
                assert(outputs_view(pending@) =~= p0 + Seq::<StreamOutputV>::empty());
            },
        }
        let ghost e1 = self@;
        let ghost p1 = outputs_view(pending@);
        if anthropic_stream_event_is_stop(event) {
            self.finish("stop", *last_usage, pending);
            proof {
                let tt = choose|tt: u64| self@ == (#[trigger] chat_finish(e1, "stop"@, lu, tt)).0
                    && outputs_view(pending@) == p1 + chat_finish(e1, "stop"@, lu, tt).1;
                t = tt;
            }
        } else {
            assert(outputs_view(pending@) =~= p1 + Seq::<StreamOutputV>::empty());
        }
        assert(self@ == chat_on_anthropic(e0, *event, l0, created, t).0);
        assert(outputs_view(pending@) =~= p0 + chat_on_anthropic(e0, *event, l0, created, t).1);
    }
}

/// What one upstream Chat chunk does to an Anthropic stream: its token
/// counts become the latest (or it takes the latest), and it is written.
pub open spec fn anthropic_on_chat(e: AnthropicEncoderV, chunk: ChatChunkV, last: Option<ChatUsage>) -> (AnthropicEncoderV, Seq<StreamOutputV>, Option<ChatUsage>) {
    let lu = if chunk.usage is Some {
        chunk.usage
    } else {
        last
    };
    let (e1, o1) = a_push(e, ChatChunkV { usage: lu, ..chunk });
    (e1, o1, lu)
}

impl AnthropicSseEncoder {
    /// Handles one upstream Chat chunk (see [`anthropic_on_chat`]).
    pub fn on_chat_chunk(&mut self, chunk: ChatChunk, last_usage: &mut Option<ChatUsage>, pending: &mut Vec<StreamOutput>)
        ensures
            ({
                let (e, o, lu) = anthropic_on_chat(old(self)@, chunk@, *old(last_usage));
                &&& final(self)@ == e
                &&& outputs_view(final(pending)@) == outputs_view(old(pending)@) + o
                &&& *final(last_usage) == lu
            }),
    {
        let mut chunk = chunk;
        match chunk.usage {
            Some(u) => {
                *last_usage = Some(u);
            },
            None => {
                chunk.usage = *last_usage;
            },
        }
        self.push_chunk(&chunk, pending);
    }
}

} // verus!
