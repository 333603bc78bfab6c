//! Reading Anthropic Messages stream events: the model they announce, the
//! token counts they carry, and the Chat Completions chunk each stands for.

use vstd::prelude::*;
use crate::convert::responses::{anthropic_usage_to_chat_usage, usage_fits, usage_sum_fits};
use crate::text::{owned, str_eq};
use crate::types::{
    AnthropicStreamEvent, AnthropicUsage, ChatChunk, ChatChunkChoice, ChatChunkDelta,
    ChatChunkDeltaV, ChatChunkFunction, ChatChunkToolCall, ChatChunkToolCallV, ChatChunkV,
    ChatChunkChoiceV, ChatUsage, clone_opt_str, opt_str,
};

verus! {

/// The model named by a `message_start` event.
pub open spec fn stream_event_model(ev: AnthropicStreamEvent) -> Option<Seq<char>> {
    if ev.event_type@ == "message_start"@ {
        match ev.message {
            Some(m) => Some(m.model@),
            None => None,
        }
    } else {
        None
    }
}

/// The model announced by a `message_start` event; `None` for any other
/// event.
pub fn anthropic_stream_event_model(event: &AnthropicStreamEvent) -> (r: Option<&str>)
    ensures
        r matches Some(m) ==> stream_event_model(*event) == Some(m@),
        r is None ==> stream_event_model(*event) is None,
{
    if str_eq(event.event_type.as_str(), "message_start") {
        match &event.message {
            Some(m) => Some(m.model.as_str()),
            None => None,
        }
    } else {
        None
    }
}

/// The token counts an event carries: its own, else those of its delta.
pub open spec fn stream_event_usage(ev: AnthropicStreamEvent) -> Option<AnthropicUsage> {
    match ev.usage {
        Some(u) => Some(u),
        None => match ev.delta {
            Some(d) => d.usage,
            None => None,
        },
    }
}

/// Whether the token counts an event carries (its own, else its delta's)
/// fit their sum: what converting the event asks.
pub fn stream_event_usage_fits(event: &AnthropicStreamEvent) -> (r: bool)
    ensures
        r == (stream_event_usage(*event) matches Some(u) ==> usage_sum_fits(u)),
{
    match &event.usage {
        Some(_) => usage_fits(&event.usage),
        None => match &event.delta {
            Some(d) => usage_fits(&d.usage),
            None => true,
        },
    }
}

/// The token counts an event carries (its own, else its delta's), as Chat
/// Completions token counts.
pub fn anthropic_stream_event_usage(event: &AnthropicStreamEvent) -> (r: Option<ChatUsage>)
    requires
        stream_event_usage(*event) matches Some(u) ==> usage_sum_fits(u),
    ensures
        r is Some <==> stream_event_usage(*event) is Some,
        r matches Some(c) ==> ({
            let u = stream_event_usage(*event)->0;
            &&& c.prompt_tokens == u.input_tokens
            &&& c.completion_tokens == u.output_tokens
            &&& c.total_tokens == u.input_tokens + u.output_tokens
        }),
{
    let picked: Option<&AnthropicUsage> = match &event.usage {
        Some(u) => Some(u),
        None => match &event.delta {
            Some(d) => match &d.usage {
                Some(u) => Some(u),
                None => None,
            },
            None => None,
        },
    };
    match picked {
        Some(u) => Some(anthropic_usage_to_chat_usage(u)),
        None => None,
    }
}

/// Whether the event ends the message stream.
pub fn anthropic_stream_event_is_stop(event: &AnthropicStreamEvent) -> (r: bool)
    ensures
        r == (event.event_type@ == "message_stop"@),
{
    str_eq(event.event_type.as_str(), "message_stop")
}

/// A delta that carries nothing.
pub open spec fn empty_delta() -> ChatChunkDeltaV {
    ChatChunkDeltaV { role: None, content: None, reasoning_content: None, tool_calls: None }
}

/// A delta carrying one streamed tool-call fragment.
pub open spec fn tool_call_delta(call: ChatChunkToolCallV) -> ChatChunkDeltaV {
    ChatChunkDeltaV { role: None, content: None, reasoning_content: None, tool_calls: Some(seq![call]) }
}

/// The Chat Completions finish reason for an Anthropic stop reason.
pub open spec fn finish_reason_of(stop_reason: Seq<char>) -> Seq<char> {
    if stop_reason == "tool_use"@ {
        "tool_calls"@
    } else {
        "stop"@
    }
}

/// The delta and finish reason an event stands for, or `None` when it
/// gives no chunk: a `tool_use` block start opens a tool call; a block
/// delta adds text or tool arguments; a message delta with a stop reason
/// finishes the choice.
pub open spec fn stream_event_delta(ev: AnthropicStreamEvent) -> Option<(ChatChunkDeltaV, Option<Seq<char>>)> {
    let idx: u32 = match ev.index {
        Some(i) => i,
        None => 0,
    };
    if ev.event_type@ == "content_block_start"@ {
        match ev.content_block {
            Some(b) => if b.block_type@ == "tool_use"@ {
                Some((tool_call_delta(ChatChunkToolCallV {
                    index: idx,
                    id: opt_str(b.id),
                    call_type: Some("function"@),
                    function: Some((opt_str(b.name), None)),
                }), None))
            } else {
                None
            },
            None => None,
        }
    } else if ev.event_type@ == "content_block_delta"@ {
        match ev.delta {
            Some(d) => match d.text {
                Some(t) => Some((ChatChunkDeltaV {
                    role: None,
                    content: Some(t@),
                    reasoning_content: None,
                    tool_calls: None,
                }, None)),
                None => match d.partial_json {
                    Some(p) => Some((tool_call_delta(ChatChunkToolCallV {
                        index: idx,
                        id: None,
                        call_type: None,
                        function: Some((None, Some(p@))),
                    }), None)),
                    None => None,
                },
            },
            None => None,
        }
    } else if ev.event_type@ == "message_delta"@ {
        match ev.delta {
            Some(d) => match d.stop_reason {
                Some(s) => Some((empty_delta(), Some(finish_reason_of(s@)))),
                None => None,
            },
            None => None,
        }
    } else {
        None
    }
}

/// An Anthropic `message_delta` event with a stop reason finishes the Chat
/// choice: `tool_use` (the turn ends in tool calls) becomes `tool_calls`,
/// and every other stop reason becomes `stop`.
pub proof fn lemma_message_delta_finish(ev: AnthropicStreamEvent)
    ensures
        (ev.event_type@ == "message_delta"@ && ev.delta is Some && (ev.delta->0).stop_reason is Some) ==> ({
            let sr = ((ev.delta->0).stop_reason->0)@;
            &&& stream_event_delta(ev) is Some
            &&& sr == "tool_use"@ ==> (stream_event_delta(ev)->0).1 == Some("tool_calls"@)
            &&& sr != "tool_use"@ ==> (stream_event_delta(ev)->0).1 == Some("stop"@)
        }),
{
    reveal_strlit("message_delta");
    reveal_strlit("content_block_start");
    reveal_strlit("content_block_delta");
    assert("message_delta"@.len() != "content_block_start"@.len());
    assert("message_delta"@.len() != "content_block_delta"@.len());
}

/// The content events of an Anthropic stream, as Chat deltas: a text delta
/// forwards exactly its text as content; a JSON fragment forwards exactly
/// its text as the arguments of the tool call at the block's index; a
/// `tool_use` block start opens that tool call with the block's id and
/// name. None of them finishes the choice.
pub proof fn lemma_content_events_as_deltas(ev: AnthropicStreamEvent)
    ensures
        (ev.event_type@ == "content_block_delta"@ && ev.delta is Some && (ev.delta->0).text is Some) ==> ({
            let d = stream_event_delta(ev);
            &&& d is Some
            &&& (d->0).0.content == Some(((ev.delta->0).text->0)@)
            &&& (d->0).0.tool_calls is None
            &&& (d->0).1 is None
        }),
        (ev.event_type@ == "content_block_delta"@ && ev.delta is Some && (ev.delta->0).text is None
            && (ev.delta->0).partial_json is Some) ==> ({
            let d = stream_event_delta(ev);
            &&& d is Some
            &&& (d->0).0.content is None
            &&& (d->0).0.tool_calls matches Some(tcs) && tcs.len() == 1
            &&& ((d->0).0.tool_calls->0)[0].function == Some((None::<Seq<char>>, Some(((ev.delta->0).partial_json->0)@)))
            &&& ((d->0).0.tool_calls->0)[0].index == (match ev.index { Some(i) => i, None => 0u32 })
            &&& (d->0).1 is None
        }),
        (ev.event_type@ == "content_block_start"@ && ev.content_block is Some
            && (ev.content_block->0).block_type@ == "tool_use"@) ==> ({
            let d = stream_event_delta(ev);
            let b = ev.content_block->0;
            &&& d is Some
            &&& (d->0).0.tool_calls matches Some(tcs) && tcs.len() == 1
            &&& ((d->0).0.tool_calls->0)[0].id == opt_str(b.id)
            &&& ((d->0).0.tool_calls->0)[0].function == Some((opt_str(b.name), None::<Seq<char>>))
            &&& (d->0).1 is None
        }),
{
    reveal_strlit("message_delta");
    reveal_strlit("content_block_start");
    reveal_strlit("content_block_delta");
    assert("content_block_start"@[14] != "content_block_delta"@[14]);
}

/// A one-choice chunk with the given delta and finish reason.
pub open spec fn single_choice_chunk(
    model: Seq<char>,
    delta: ChatChunkDeltaV,
    finish: Option<Seq<char>>,
) -> ChatChunkV {
    ChatChunkV {
        id: Seq::empty(),
        model,
        choices: seq![ChatChunkChoiceV { index: 0, delta, finish_reason: finish }],
        usage: None,
    }
}

/// A delta holding one tool-call fragment.
fn tool_call_delta_exec(call: ChatChunkToolCall) -> (r: ChatChunkDelta)
    ensures
        r@ == tool_call_delta(call@),
{
    let mut calls: Vec<ChatChunkToolCall> = Vec::new();
    calls.push(call);
    assert(calls@.map_values(|x: ChatChunkToolCall| x@) =~= seq![call@]);
    ChatChunkDelta { role: None, content: None, reasoning_content: None, tool_calls: Some(calls) }
}

/// The Chat Completions chunk an Anthropic stream event stands for (see
/// [`stream_event_delta`]), with an empty id and the given model; `None`
/// for events that give no chunk.
pub fn anthropic_stream_event_to_chat_chunk(event: &AnthropicStreamEvent, model: &str) -> (r: Option<ChatChunk>)
    ensures
        r is Some <==> stream_event_delta(*event) is Some,
        r matches Some(c) ==> ({
            let d = stream_event_delta(*event)->0;
            c@ == single_choice_chunk(model@, d.0, d.1)
        }),
        (event.event_type@ == "message_delta"@ && event.delta is Some && (event.delta->0).stop_reason is Some) ==> (
        r is Some && (r->0)@.choices.len() == 1 && (r->0)@.model == model@ && (r->0)@.choices[0].finish_reason == Some(
            if ((event.delta->0).stop_reason->0)@ == "tool_use"@ {
                "tool_calls"@
            } else {
                "stop"@
            },
        )),
{
    proof {
        lemma_message_delta_finish(*event);
    }
    let idx: u32 = match event.index {
        Some(i) => i,
        None => 0,
    };
    let delta: ChatChunkDelta;
    let mut finish_reason: Option<String> = None;
    if str_eq(event.event_type.as_str(), "content_block_start") {
        match &event.content_block {
            Some(b) => {
                if !str_eq(b.block_type.as_str(), "tool_use") {
                    return None;
                }
                delta = tool_call_delta_exec(ChatChunkToolCall {
                    index: idx,
                    id: clone_opt_str(&b.id),
                    call_type: Some(owned("function")),
                    function: Some(ChatChunkFunction { name: clone_opt_str(&b.name), arguments: None }),
                });
            },
            None => {
                return None;
            },
        }
    } else if str_eq(event.event_type.as_str(), "content_block_delta") {
        match &event.delta {
            Some(d) => match &d.text {
                Some(t) => {
                    delta = ChatChunkDelta {
                        role: None,
                        content: Some(t.clone()),
                        reasoning_content: None,
                        tool_calls: None,
                    };
                },
                None => match &d.partial_json {
                    Some(p) => {
                        delta = tool_call_delta_exec(ChatChunkToolCall {
                            index: idx,
                            id: None,
                            call_type: None,
                            function: Some(ChatChunkFunction { name: None, arguments: Some(p.clone()) }),
                        });
                    },
                    None => {
                        return None;
                    },
                },
            },
            None => {
                return None;
            },
        }
    } else if str_eq(event.event_type.as_str(), "message_delta") {
        match &event.delta {
            Some(d) => match &d.stop_reason {
                Some(s) => {
                    if str_eq(s.as_str(), "tool_use") {
                        finish_reason = Some(owned("tool_calls"));
                    } else {
                        finish_reason = Some(owned("stop"));
                    }
                    delta = ChatChunkDelta { role: None, content: None, reasoning_content: None, tool_calls: None };
                },
                None => {
                    return None;
                },
            },
            None => {
                return None;
            },
        }
    } else {
        return None;
    }
    let choice = ChatChunkChoice { index: 0, delta, finish_reason };
    let mut choices: Vec<ChatChunkChoice> = Vec::new();
    choices.push(choice);
    assert(choices@.map_values(|c: ChatChunkChoice| c@) =~= seq![choice@]);
    Some(ChatChunk { id: String::new(), model: owned(model), choices, usage: None })
}

} // verus!
