//! Request-side conversions: a Responses API request into a Chat
//! Completions request or an Anthropic Messages request.

use vstd::prelude::*;
use crate::json::{Json, JsonV, json_text, json_parse, parse_json_text, to_json_text, push_member, lemma_jentries_empty, array1, entries_get, entries_insert, jentries, jget, jget_str, jstr, jview, jviews, lemma_jentries, lemma_jviews, obj_get, obj_insert, obj1, obj2};
use crate::text::{owned, str_eq};
use crate::types::{AnthropicMessage, AnthropicMessageV, AnthropicRequest, AnthropicRequestV, AnthropicTool, AnthropicToolV, ChatFunction, ChatMessage, ChatMessageV, ChatRequest, ChatRequestV, ChatTool, ChatToolCall, ChatToolCallV, ChatToolFunction, ChatToolV, ResponsesInput, ResponsesInputItem, ResponsesRequest, ResponsesTool, clone_opt_json, clone_opt_str, opt_json, opt_str};

verus! {

/// `o.as_deref() == Some(lit)`.
pub fn opt_is(o: &Option<String>, lit: &str) -> (r: bool)
    ensures
        r == (opt_str(*o) == Some(lit@)),
{
    match o {
        Some(s) => str_eq(s.as_str(), lit),
        None => false,
    }
}

/// `o.as_deref() == Some(lit)` for a borrowed optional string.
pub fn opt_ref_is(o: Option<&str>, lit: &str) -> (r: bool)
    ensures
        r == (match o {
            Some(s) => s@ == lit@,
            None => false,
        }),
{
    match o {
        Some(s) => str_eq(s, lit),
        None => false,
    }
}

/// The characters of an optional string, or nothing.
pub open spec fn or_empty(o: Option<Seq<char>>) -> Seq<char> {
    match o {
        Some(s) => s,
        None => Seq::empty(),
    }
}

/// `o.clone().unwrap_or_default()`.
pub fn string_or_empty(o: &Option<String>) -> (r: String)
    ensures
        r@ == or_empty(opt_str(*o)),
{
    match o {
        Some(s) => s.clone(),
        None => String::new(),
    }
}

/// `jstr` applied to an optional borrowed value.
pub fn opt_json_str<'a>(o: Option<&'a Json>) -> (r: Option<&'a str>)
    ensures
        r matches Some(s) ==> o is Some && jstr(Some(o->0@)) == Some(s@),
        r is None ==> (o is None || jstr(Some(o->0@)) is None),
{
    match o {
        Some(v) => v.as_str(),
        None => None,
    }
}

// ─── content parts ───

/// A Responses content part as a Chat Completions content part:
/// `input_text`/`output_text` become `text`, `input_image` becomes
/// `image_url`; anything else is kept.
pub open spec fn map_content_part(part: JsonV) -> JsonV {
    if part is Object {
        let t = jget_str(part, "type"@);
        if t == Some("input_text"@) || t == Some("output_text"@) {
            let text = match jget(part, "text"@) {
                Some(x) => x,
                None => JsonV::Str(Seq::empty()),
            };
            JsonV::Object(seq![("type"@, JsonV::Str("text"@)), ("text"@, text)])
        } else if t == Some("input_image"@) {
            let url = match jget(part, "image_url"@) {
                Some(u) => Some(u),
                None => jget(part, "url"@),
            };
            match url {
                Some(u) => JsonV::Object(
                    seq![
                        ("type"@, JsonV::Str("image_url"@)),
                        ("image_url"@, JsonV::Object(seq![("url"@, u)])),
                    ],
                ),
                None => part,
            }
        } else {
            part
        }
    } else {
        part
    }
}

pub fn map_responses_content_part(part: &Json) -> (r: Json)
    ensures
        r@ == map_content_part(part@),
{
    if part.is_object() {
        let t = part.get_str("type");
        if opt_ref_is(t, "input_text") || opt_ref_is(t, "output_text") {
            let text = match part.get("text") {
                Some(x) => x.deep_clone(),
                None => Json::string(""),
            };
            assert(""@ =~= Seq::<char>::empty()) by {
                reveal_strlit("");
            }
            assert(text@ == match jget(part@, "text"@) {
                Some(x) => x,
                None => JsonV::Str(Seq::empty()),
            });
            let ghost tv = text@;
            let ty = Json::string("text");
            let r = obj2("type", ty, "text", text);
            assert(r@ == JsonV::Object(seq![("type"@, JsonV::Str("text"@)), ("text"@, tv)]));
            assert(jget_str(part@, "type"@) == Some("input_text"@) || jget_str(part@, "type"@) == Some("output_text"@));
            return r;
        }
        if opt_ref_is(t, "input_image") {
            let url = match part.get("image_url") {
                Some(u) => Some(u),
                None => part.get("url"),
            };
            if let Some(u) = url {
                return obj2(
                    "type",
                    Json::string("image_url"),
                    "image_url",
                    obj1("url", u.deep_clone()),
                );
            }
        }
    }
    part.deep_clone()
}

/// A text part (`input_text` or `output_text` with a string `text`).
pub open spec fn is_text_part(part: JsonV) -> bool {
    let t = jget_str(part, "type"@);
    &&& (t == Some("input_text"@) || t == Some("output_text"@))
    &&& jget_str(part, "text"@) is Some
}

/// The concatenated `text` of text parts.
pub open spec fn concat_texts(parts: Seq<JsonV>) -> Seq<char>
    decreases parts.len(),
{
    if parts.len() == 0 {
        Seq::empty()
    } else {
        concat_texts(parts.drop_last()) + or_empty(jget_str(parts.last(), "text"@))
    }
}

/// Responses message content as Chat content: a list made only of text
/// parts becomes one string, other lists have each part mapped, and other
/// values are kept.
pub open spec fn chat_content_of(content: Option<JsonV>) -> Option<JsonV> {
    match content {
        None => None,
        Some(JsonV::Array(parts)) => if forall|i: int|
            0 <= i < parts.len() ==> is_text_part(#[trigger] parts[i]) {
            Some(JsonV::Str(concat_texts(parts)))
        } else {
            Some(JsonV::Array(parts.map_values(|p: JsonV| map_content_part(p))))
        },
        Some(other) => Some(other),
    }
}

pub fn responses_content_to_chat_content(content: &Option<Json>) -> (r: Option<Json>)
    ensures
        opt_json(r) == chat_content_of(opt_json(*content)),
{
    let c = match content {
        Some(c) => c,
        None => return None,
    };
    match c {
        Json::Array(parts) => {
            proof {
                lemma_jviews(parts@);
            }
            let ghost pv = jviews(parts@);
            let mut text = String::new();
            let mut all_text = true;
            let mut i: usize = 0;
            while i < parts.len()
                invariant
                    i <= parts@.len(),
                    pv == jviews(parts@),
                    pv.len() == parts@.len(),
                    forall|j: int| 0 <= j < parts@.len() ==> #[trigger] pv[j] == jview(parts@[j]),
                    all_text ==> forall|j: int| 0 <= j < i ==> is_text_part(#[trigger] pv[j]),
                    all_text ==> text@ == concat_texts(pv.subrange(0, i as int)),
                    !all_text ==> exists|j: int| 0 <= j < parts@.len() && !is_text_part(
                        #[trigger] pv[j],
                    ),
                ensures
                    i <= parts@.len(),
                    all_text ==> i == parts@.len(),
                    all_text ==> forall|j: int| 0 <= j < i ==> is_text_part(#[trigger] pv[j]),
                    all_text ==> text@ == concat_texts(pv.subrange(0, i as int)),
                    !all_text ==> exists|j: int| 0 <= j < parts@.len() && !is_text_part(
                        #[trigger] pv[j],
                    ),
                decreases parts.len() - i,
            {
                let part = &parts[i];
                let t = part.get_str("type");
                let tx = part.get_str("text");
                if (opt_ref_is(t, "input_text") || opt_ref_is(t, "output_text")) && tx.is_some() {
                    let value = tx.unwrap();
                    text.append(value);
                    proof {
                        assert(pv.subrange(0, i + 1).drop_last() =~= pv.subrange(0, i as int));
                    }
                } else {
                    all_text = false;
                    assert(!is_text_part(pv[i as int]));
                    break;
                }
                i = i + 1;
            }
            if all_text {
                assert(pv.subrange(0, parts@.len() as int) =~= pv);
                Some(Json::Str(text))
            } else {
                let mut out: Vec<Json> = Vec::new();
                let mut k: usize = 0;
                while k < parts.len()
                    invariant
                        k <= parts@.len(),
                        pv == jviews(parts@),
                        pv.len() == parts@.len(),
                        forall|j: int| 0 <= j < parts@.len() ==> #[trigger] pv[j] == jview(parts@[j]),
                        out@.len() == k,
                        forall|j: int|
                            0 <= j < k ==> jview(#[trigger] out@[j]) == map_content_part(pv[j]),
                    decreases parts.len() - k,
                {
                    out.push(map_responses_content_part(&parts[k]));
                    k = k + 1;
                }
                proof {
                    lemma_jviews(out@);
                    assert(jviews(out@) =~= pv.map_values(|p: JsonV| map_content_part(p)));
                }
                Some(Json::Array(out))
            }
        },
        _ => Some(c.deep_clone()),
    }
}


// ─── tool choice, role, extra parameters ───

/// A Responses `{"type": "function", "name": n}` tool choice becomes the
/// Chat shape `{"type": "function", "function": {"name": n}}`; choices that
/// already carry `function`, and all others, are kept.
pub open spec fn chat_tool_choice_of(tool_choice: Option<JsonV>) -> Option<JsonV> {
    match tool_choice {
        None => None,
        Some(v) => if jget(v, "function"@) is Some {
            Some(v)
        } else if jget_str(v, "type"@) == Some("function"@) && jget_str(v, "name"@) is Some {
            let name = JsonV::Str(jget_str(v, "name"@)->0);
            Some(
                JsonV::Object(
                    seq![
                        ("type"@, JsonV::Str("function"@)),
                        ("function"@, JsonV::Object(seq![("name"@, name)])),
                    ],
                ),
            )
        } else {
            Some(v)
        },
    }
}

pub fn chat_compatible_tool_choice(tool_choice: Option<&Json>) -> (r: Option<Json>)
    ensures
        opt_json(r) == chat_tool_choice_of(
            match tool_choice {
                Some(v) => Some(v@),
                None => None,
            },
        ),
{
    let value = match tool_choice {
        Some(v) => v,
        None => return None,
    };
    if value.get("function").is_some() {
        return Some(value.deep_clone());
    }
    if opt_ref_is(value.get_str("type"), "function") {
        if let Some(name) = value.get_str("name") {
            return Some(
                obj2(
                    "type",
                    Json::string("function"),
                    "function",
                    obj1("name", Json::string(name)),
                ),
            );
        }
    }
    Some(value.deep_clone())
}

/// The Chat-compatible role: `developer` becomes `system`.
pub open spec fn chat_role_of(role: Seq<char>) -> Seq<char> {
    if role == "developer"@ {
        "system"@
    } else {
        role
    }
}

pub fn chat_compatible_role(role: &str) -> (r: &str)
    ensures
        r@ == chat_role_of(role@),
{
    if str_eq(role, "developer") {
        "system"
    } else {
        role
    }
}

/// Request members that Chat Completions accepts beside the modelled ones.
pub open spec fn is_chat_extra_key(k: Seq<char>) -> bool {
    ||| k == "frequency_penalty"@
    ||| k == "logit_bias"@
    ||| k == "logprobs"@
    ||| k == "max_completion_tokens"@
    ||| k == "metadata"@
    ||| k == "n"@
    ||| k == "parallel_tool_calls"@
    ||| k == "presence_penalty"@
    ||| k == "response_format"@
    ||| k == "seed"@
    ||| k == "stop"@
    ||| k == "stream_options"@
    ||| k == "top_logprobs"@
    ||| k == "user"@
}

fn is_chat_extra_key_exec(k: &str) -> (r: bool)
    ensures
        r == is_chat_extra_key(k@),
{
    str_eq(k, "frequency_penalty") || str_eq(k, "logit_bias") || str_eq(k, "logprobs") || str_eq(
        k,
        "max_completion_tokens",
    ) || str_eq(k, "metadata") || str_eq(k, "n") || str_eq(k, "parallel_tool_calls") || str_eq(
        k,
        "presence_penalty",
    ) || str_eq(k, "response_format") || str_eq(k, "seed") || str_eq(k, "stop") || str_eq(
        k,
        "stream_options",
    ) || str_eq(k, "top_logprobs") || str_eq(k, "user")
}

/// The entries of `es` whose key satisfies `keep`, in order.
pub open spec fn keep_entries(es: Seq<(Seq<char>, JsonV)>, keep: spec_fn(Seq<char>) -> bool) -> Seq<
    (Seq<char>, JsonV),
>
    decreases es.len(),
{
    if es.len() == 0 {
        Seq::empty()
    } else {
        let rest = keep_entries(es.drop_last(), keep);
        if keep(es.last().0) {
            rest.push(es.last())
        } else {
            rest
        }
    }
}

/// The extra members forwarded to a Chat upstream: the accepted keys, plus
/// `text.format` as `response_format`.
pub open spec fn chat_extra_of(extra: Seq<(Seq<char>, JsonV)>) -> Seq<(Seq<char>, JsonV)> {
    let base = keep_entries(extra, |k: Seq<char>| is_chat_extra_key(k));
    match obj_get(extra, "text"@) {
        Some(t) => match jget(t, "format"@) {
            Some(f) => obj_insert(base, "response_format"@, f),
            None => base,
        },
        None => base,
    }
}

/// The entries of `extra` whose key is accepted, in order.
fn filter_extra(extra: &Vec<(String, Json)>, anthropic: bool) -> (r: Vec<(String, Json)>)
    ensures
        !anthropic ==> jentries(r@) == keep_entries(
            jentries(extra@),
            |k: Seq<char>| is_chat_extra_key(k),
        ),
        anthropic ==> jentries(r@) == keep_entries(
            jentries(extra@),
            |k: Seq<char>| is_anthropic_extra_key(k),
        ),
{
    proof {
        lemma_jentries(extra@);
    }
    let ghost ev = jentries(extra@);
    let ghost keep = if anthropic {
        |k: Seq<char>| is_anthropic_extra_key(k)
    } else {
        |k: Seq<char>| is_chat_extra_key(k)
    };
    let mut out: Vec<(String, Json)> = Vec::new();
    let mut i: usize = 0;
    while i < extra.len()
        invariant
            i <= extra@.len(),
            ev == jentries(extra@),
            ev.len() == extra@.len(),
            forall|j: int| 0 <= j < extra@.len() ==> #[trigger] ev[j] == (extra@[j].0@, jview(extra@[j].1)),
            keep == (if anthropic {
                |k: Seq<char>| is_anthropic_extra_key(k)
            } else {
                |k: Seq<char>| is_chat_extra_key(k)
            }),
            jentries(out@) == keep_entries(ev.subrange(0, i as int), keep),
        decreases extra.len() - i,
    {
        let key = extra[i].0.as_str();
        let accepted = if anthropic {
            is_anthropic_extra_key_exec(key)
        } else {
            is_chat_extra_key_exec(key)
        };
        let ghost before = out@;
        if accepted {
            out.push((extra[i].0.clone(), extra[i].1.deep_clone()));
            proof {
                lemma_jentries(out@);
                lemma_jentries(before);
                assert(jentries(out@) =~= jentries(before).push(ev[i as int]));
            }
        }
        proof {
            assert(ev.subrange(0, i + 1).drop_last() =~= ev.subrange(0, i as int));
        }
        i = i + 1;
    }
    assert(ev.subrange(0, extra@.len() as int) =~= ev);
    out
}

pub fn chat_compatible_extra(extra: &Vec<(String, Json)>) -> (r: Vec<(String, Json)>)
    ensures
        jentries(r@) == chat_extra_of(jentries(extra@)),
{
    let mut out = filter_extra(extra, false);
    if let Some(text) = entries_get(extra, "text") {
        if let Some(format) = text.get("format") {
            entries_insert(&mut out, "response_format", format.deep_clone());
        }
    }
    out
}

/// Request members that Anthropic Messages accepts beside the modelled
/// ones.
pub open spec fn is_anthropic_extra_key(k: Seq<char>) -> bool {
    ||| k == "metadata"@
    ||| k == "stop_sequences"@
    ||| k == "thinking"@
    ||| k == "top_k"@
}

fn is_anthropic_extra_key_exec(k: &str) -> (r: bool)
    ensures
        r == is_anthropic_extra_key(k@),
{
    str_eq(k, "metadata") || str_eq(k, "stop_sequences") || str_eq(k, "thinking") || str_eq(
        k,
        "top_k",
    )
}

// ─── Responses → Chat Completions ───

/// A message with only a role, content and reasoning text.
pub open spec fn plain_message(role: Seq<char>, content: Option<JsonV>, reasoning: Option<Seq<char>>) -> ChatMessageV {
    ChatMessageV {
        role,
        content,
        reasoning_content: reasoning,
        tool_calls: None,
        tool_call_id: None,
        name: None,
    }
}

/// The Chat message for one Responses input item: a `function_call` is an
/// assistant message carrying the tool call, a `function_call_output` a
/// `tool` message answering it, anything else a message of its role
/// (`user` by default) with its content converted.
pub open spec fn item_message(item: ResponsesInputItem) -> ChatMessageV {
    let t = opt_str(item.item_type);
    if t == Some("function_call"@) {
        ChatMessageV {
            role: "assistant"@,
            content: None,
            reasoning_content: opt_str(item.reasoning_content),
            tool_calls: Some(seq![ChatToolCallV {
                id: or_empty(opt_str(item.call_id)),
                call_type: "function"@,
                name: or_empty(opt_str(item.name)),
                arguments: or_empty(opt_str(item.arguments)),
            }]),
            tool_call_id: None,
            name: None,
        }
    } else if t == Some("function_call_output"@) {
        ChatMessageV {
            role: "tool"@,
            content: Some(JsonV::Str(or_empty(opt_str(item.output)))),
            reasoning_content: None,
            tool_calls: None,
            tool_call_id: opt_str(item.call_id),
            name: None,
        }
    } else {
        plain_message(
            chat_role_of(
                match opt_str(item.role) {
                    Some(r) => r,
                    None => "user"@,
                },
            ),
            chat_content_of(opt_json(item.content)),
            opt_str(item.reasoning_content),
        )
    }
}

/// The Chat messages of a Responses request: the instructions as a system
/// message, then the input (a text as one user message, or one message per
/// item).
pub open spec fn chat_messages_of(req: ResponsesRequest) -> Seq<ChatMessageV> {
    let sys = match req.instructions {
        Some(i) => seq![plain_message("system"@, Some(JsonV::Str(i@)), None)],
        None => Seq::empty(),
    };
    sys + match req.input {
        ResponsesInput::Text(s) => seq![plain_message("user"@, Some(JsonV::Str(s@)), None)],
        ResponsesInput::Items(items) => items@.map_values(|it: ResponsesInputItem| item_message(it)),
    }
}

/// A `function_call` input item becomes, at its place among the Chat
/// messages (after the system message, if any), an assistant message with
/// exactly one tool call that carries the item's `call_id`, `name` and
/// `arguments` text unchanged (empty where the item has none).
pub proof fn lemma_function_call_item(req: ResponsesRequest, i: int)
    requires
        req.input matches ResponsesInput::Items(items) && 0 <= i < items@.len() && opt_str(
            items@[i].item_type,
        ) == Some("function_call"@),
    ensures
        ({
            let items = req.input->Items_0@;
            let item = items[i];
            let k = (if req.instructions is Some { 1int } else { 0int }) + i;
            let ms = chat_request_of(req).messages;
            &&& ms.len() == (if req.instructions is Some { 1int } else { 0int }) + items.len()
            &&& ms[k].role == "assistant"@
            &&& ms[k].tool_calls matches Some(tcs) && tcs.len() == 1
            &&& (item.arguments matches Some(a) ==> ms[k].tool_calls->0[0].arguments == a@)
            &&& (item.arguments is None ==> ms[k].tool_calls->0[0].arguments.len() == 0)
            &&& (item.call_id matches Some(c) ==> ms[k].tool_calls->0[0].id == c@)
            &&& (item.name matches Some(n) ==> ms[k].tool_calls->0[0].name == n@)
        }),
{
    let items = req.input->Items_0@;
    let k = (if req.instructions is Some { 1int } else { 0int }) + i;
    let ms = chat_request_of(req).messages;
    let tail = items.map_values(|it: ResponsesInputItem| item_message(it));
    assert(tail[i] == item_message(items[i]));
    let sys = match req.instructions {
        Some(x) => seq![plain_message("system"@, Some(JsonV::Str(x@)), None)],
        None => Seq::<ChatMessageV>::empty(),
    };
    assert(ms == sys + tail);
    assert(ms[k] == tail[i]);
}

/// The shape of a Chat request made from a Responses request: the
/// instructions come first as a system message; a text input is one user
/// message with that text; a `function_call_output` item answers its call
/// as a `tool` message carrying the call id and the output text; a message
/// item keeps its role (`developer` read as `system`, `user` by default);
/// the model, stream flag and token limit carry over.
pub proof fn lemma_chat_request_shape(req: ResponsesRequest)
    ensures
        ({
            let out = chat_request_of(req);
            let ms = out.messages;
            let sys: int = if req.instructions is Some { 1 } else { 0 };
            &&& out.model == req.model@
            &&& out.stream == req.stream
            &&& out.max_tokens == req.max_output_tokens
            &&& req.instructions matches Some(i) ==> ms[0].role == "system"@ && ms[0].content == Some(JsonV::Str(i@))
            &&& req.input matches ResponsesInput::Text(t) ==> ms.len() == sys + 1 && ms[sys].role == "user"@
                && ms[sys].content == Some(JsonV::Str(t@))
            &&& req.input matches ResponsesInput::Items(items) ==> ms.len() == sys + items@.len()
                && forall|i: int| 0 <= i < items@.len() ==> {
                    let item = #[trigger] items@[i];
                    let m = ms[sys + i];
                    &&& opt_str(item.item_type) == Some("function_call_output"@) ==> m.role == "tool"@
                        && m.tool_call_id == opt_str(item.call_id) && m.content == Some(JsonV::Str(or_empty(opt_str(item.output))))
                    &&& (opt_str(item.item_type) != Some("function_call"@) && opt_str(item.item_type) != Some("function_call_output"@))
                        ==> m.role == (match opt_str(item.role) {
                            Some(r) => if r == "developer"@ { "system"@ } else { r },
                            None => "user"@,
                        }) && m.tool_calls is None
                }
        }),
{
    reveal_strlit("function_call");
    reveal_strlit("function_call_output");
    reveal_strlit("user");
    reveal_strlit("developer");
    assert("function_call"@.len() != "function_call_output"@.len());
    assert("user"@.len() != "developer"@.len());
    let sys_m = match req.instructions {
        Some(x) => seq![plain_message("system"@, Some(JsonV::Str(x@)), None)],
        None => Seq::<ChatMessageV>::empty(),
    };
    match req.input {
        ResponsesInput::Text(t) => {
            let tail = seq![plain_message("user"@, Some(JsonV::Str(t@)), None)];
            let ms = chat_request_of(req).messages;
            assert(ms == sys_m + tail);
            assert(ms[sys_m.len() as int] == tail[0]);
            if req.instructions is Some {
                assert(ms[0] == sys_m[0]);
            }
        },
        ResponsesInput::Items(items) => {
            let tail = items@.map_values(|it: ResponsesInputItem| item_message(it));
            let ms = chat_request_of(req).messages;
            assert(ms == sys_m + tail);
            assert forall|i: int| 0 <= i < items@.len() implies ms[sys_m.len() + i] == item_message(#[trigger] items@[i]) by {
                assert(tail[i] == item_message(items@[i]));
            }
            if req.instructions is Some {
                assert(ms[0] == sys_m[0]);
            }
        },
    }
}

/// What carries over from a Responses request to an Anthropic request: the
/// model, the stream flag and the sampling settings as they are, and the
/// token limit, which Anthropic requires: the request's own, else 4096.
pub proof fn lemma_anthropic_request_settings(req: ResponsesRequest)
    ensures
        anthropic_request_of(req).model == req.model@,
        anthropic_request_of(req).stream == req.stream,
        anthropic_request_of(req).temperature == opt_str(req.temperature),
        anthropic_request_of(req).top_p == opt_str(req.top_p),
        req.max_output_tokens matches Some(n) ==> anthropic_request_of(req).max_tokens == n,
        req.max_output_tokens is None ==> anthropic_request_of(req).max_tokens == 4096,
{
}

/// A function tool choice of the flat Responses shape becomes the nested
/// Chat shape naming the same function; a choice already naming a
/// `function` object, and any other choice, is passed on as it is.
pub proof fn lemma_chat_tool_choice(req: ResponsesRequest)
    ensures
        ({
            let tc = opt_json(req.tool_choice);
            let out = chat_request_of(req).tool_choice;
            &&& tc is None ==> out is None
            &&& (tc matches Some(v) && jget(v, "function"@) is None && jget_str(v, "type"@) == Some("function"@)
                && jget_str(v, "name"@) is Some) ==> (out is Some && jget_str(out->0, "type"@) == Some("function"@)
                && jget(out->0, "function"@) is Some && jget_str(jget(out->0, "function"@)->0, "name"@) == jget_str(
                tc->0,
                "name"@,
            ))
            &&& (tc matches Some(v) && (jget(v, "function"@) is Some || jget_str(v, "type"@) != Some("function"@)
                || jget_str(v, "name"@) is None)) ==> out == tc
        }),
{
    reveal_strlit("type");
    reveal_strlit("function");
    reveal_strlit("name");
    assert("type"@.len() != "function"@.len());
    let tc = opt_json(req.tool_choice);
    if let Some(v) = tc {
        if jget(v, "function"@) is None && jget_str(v, "type"@) == Some("function"@) && jget_str(v, "name"@) is Some {
            let name = JsonV::Str(jget_str(v, "name"@)->0);
            let inner = seq![("name"@, name)];
            let es = seq![("type"@, JsonV::Str("function"@)), ("function"@, JsonV::Object(inner))];
            crate::json::lemma_obj_get_first(es, 0, "type"@);
            crate::json::lemma_obj_get_first(es, 1, "function"@);
            crate::json::lemma_obj_get_first(inner, 0, "name"@);
        }
    }
}

/// The function tools of a Responses request as Chat tools (other tool
/// kinds are dropped).
pub open spec fn function_tools(ts: Seq<ResponsesTool>) -> Seq<ChatToolV>
    decreases ts.len(),
{
    if ts.len() == 0 {
        Seq::empty()
    } else {
        let rest = function_tools(ts.drop_last());
        let t = ts.last();
        if t.tool_type@ == "function"@ {
            rest.push(ChatToolV {
                tool_type: "function"@,
                name: or_empty(opt_str(t.name)),
                description: opt_str(t.description),
                parameters: opt_json(t.parameters),
            })
        } else {
            rest
        }
    }
}

/// A Responses request as a Chat Completions request.
pub open spec fn chat_request_of(req: ResponsesRequest) -> ChatRequestV {
    ChatRequestV {
        model: req.model@,
        messages: chat_messages_of(req),
        stream: req.stream,
        temperature: opt_str(req.temperature),
        max_tokens: req.max_output_tokens,
        top_p: opt_str(req.top_p),
        tools: match req.tools {
            Some(ts) => Some(function_tools(ts@)),
            None => None,
        },
        tool_choice: chat_tool_choice_of(opt_json(req.tool_choice)),
        extra: chat_extra_of(jentries(req.extra@)),
    }
}

fn item_to_message(item: &ResponsesInputItem) -> (r: ChatMessage)
    ensures
        r@ == item_message(*item),
{
    if opt_is(&item.item_type, "function_call") {
        let call = ChatToolCall {
            id: string_or_empty(&item.call_id),
            call_type: owned("function"),
            function: ChatFunction { name: string_or_empty(&item.name), arguments: string_or_empty(&item.arguments) },
        };
        let mut calls: Vec<ChatToolCall> = Vec::new();
        calls.push(call);
        let r = ChatMessage {
            role: owned("assistant"),
            content: None,
            reasoning_content: clone_opt_str(&item.reasoning_content),
            tool_calls: Some(calls),
            tool_call_id: None,
            name: None,
        };
        assert(calls@.map_values(|c: ChatToolCall| c@) =~= seq![call@]);
        r
    } else if opt_is(&item.item_type, "function_call_output") {
        ChatMessage {
            role: owned("tool"),
            content: Some(Json::Str(string_or_empty(&item.output))),
            reasoning_content: None,
            tool_calls: None,
            tool_call_id: clone_opt_str(&item.call_id),
            name: None,
        }
    } else {
        let role = match &item.role {
            Some(r) => chat_compatible_role(r.as_str()),
            None => chat_compatible_role("user"),
        };
        ChatMessage {
            role: owned(role),
            content: responses_content_to_chat_content(&item.content),
            reasoning_content: clone_opt_str(&item.reasoning_content),
            tool_calls: None,
            tool_call_id: None,
            name: None,
        }
    }
}

fn text_message(role: &str, text: &str) -> (r: ChatMessage)
    ensures
        r@ == plain_message(role@, Some(JsonV::Str(text@)), None),
{
    ChatMessage {
        role: owned(role),
        content: Some(Json::string(text)),
        reasoning_content: None,
        tool_calls: None,
        tool_call_id: None,
        name: None,
    }
}

pub open spec fn messages_view(v: Seq<ChatMessage>) -> Seq<ChatMessageV> {
    v.map_values(|m: ChatMessage| m@)
}

fn chat_tools(ts: &Vec<ResponsesTool>) -> (r: Vec<ChatTool>)
    ensures
        r@.map_values(|x: ChatTool| x@) == function_tools(ts@),
{
    let mut out: Vec<ChatTool> = Vec::new();
    let mut i: usize = 0;
    while i < ts.len()
        invariant
            i <= ts@.len(),
            out@.map_values(|x: ChatTool| x@) == function_tools(ts@.take(i as int)),
        decreases ts.len() - i,
    {
        assert(ts@.take(i + 1).drop_last() =~= ts@.take(i as int));
        assert(ts@.take(i + 1).last() == ts@[i as int]);
        let t = &ts[i];
        if str_eq(t.tool_type.as_str(), "function") {
            let tool = ChatTool {
                tool_type: owned("function"),
                function: ChatToolFunction {
                    name: string_or_empty(&t.name),
                    description: clone_opt_str(&t.description),
                    parameters: clone_opt_json(&t.parameters),
                },
            };
            let ghost before = out@;
            out.push(tool);
            assert(out@.map_values(|x: ChatTool| x@) =~= before.map_values(|x: ChatTool| x@).push(tool@));
        }
        i = i + 1;
    }
    assert(ts@.take(ts@.len() as int) =~= ts@);
    out
}

/// A Responses API request as a Chat Completions request (see
/// [`chat_request_of`]).
pub fn responses_to_chat(req: &ResponsesRequest) -> (r: ChatRequest)
    ensures
        r@ == chat_request_of(*req),
{
    let mut messages: Vec<ChatMessage> = Vec::new();
    match &req.instructions {
        Some(i) => {
            messages.push(text_message("system", i.as_str()));
        },
        None => {},
    }
    let ghost sys = messages_view(messages@);
    match &req.input {
        ResponsesInput::Text(t) => {
            messages.push(text_message("user", t.as_str()));
        },
        ResponsesInput::Items(items) => {
            let mut i: usize = 0;
            while i < items.len()
                invariant
                    i <= items@.len(),
                    messages_view(messages@) == sys + items@.take(i as int).map_values(
                        |it: ResponsesInputItem| item_message(it),
                    ),
                decreases items.len() - i,
            {
                let m = item_to_message(&items[i]);
                let ghost before = messages@;
                messages.push(m);
                assert(messages_view(messages@) =~= messages_view(before).push(m@));
                assert(items@.take(i + 1) =~= items@.take(i as int).push(items@[i as int]));
                assert(items@.take(i + 1).map_values(|it: ResponsesInputItem| item_message(it)) =~= items@.take(
                    i as int,
                ).map_values(|it: ResponsesInputItem| item_message(it)).push(item_message(items@[i as int])));
                assert(messages_view(messages@) =~= sys + items@.take(i + 1).map_values(
                    |it: ResponsesInputItem| item_message(it),
                ));
                i = i + 1;
            }
            assert(items@.take(items@.len() as int) =~= items@);
        },
    }
    assert(messages_view(messages@) =~= chat_messages_of(*req));
    let tools = match &req.tools {
        Some(ts) => Some(chat_tools(ts)),
        None => None,
    };
    let tool_choice = match &req.tool_choice {
        Some(tc) => chat_compatible_tool_choice(Some(tc)),
        None => chat_compatible_tool_choice(None),
    };
    ChatRequest {
        model: req.model.clone(),
        messages,
        stream: req.stream,
        temperature: clone_opt_str(&req.temperature),
        max_tokens: req.max_output_tokens,
        top_p: clone_opt_str(&req.top_p),
        tools,
        tool_choice,
        extra: chat_compatible_extra(&req.extra),
    }
}

// ─── Responses → Anthropic Messages ───

/// The text of Chat content: a string as it is, the `text` members of a
/// part list joined, any other value as its JSON text.
pub open spec fn content_text(content: Option<JsonV>) -> Option<Seq<char>> {
    match content {
        None => None,
        Some(JsonV::Str(s)) => Some(s),
        Some(JsonV::Array(ps)) => Some(concat_texts(ps)),
        Some(other) => Some(json_text(other)),
    }
}

fn concat_text_members(parts: &Vec<Json>) -> (r: String)
    ensures
        r@ == concat_texts(jviews(parts@)),
{
    proof {
        lemma_jviews(parts@);
    }
    let ghost pv = jviews(parts@);
    let mut out = String::new();
    let mut i: usize = 0;
    while i < parts.len()
        invariant
            i <= parts@.len(),
            pv == jviews(parts@),
            pv.len() == parts@.len(),
            forall|j: int| 0 <= j < parts@.len() ==> #[trigger] pv[j] == parts@[j]@,
            out@ == concat_texts(pv.take(i as int)),
        decreases parts.len() - i,
    {
        assert(pv.take(i + 1).drop_last() =~= pv.take(i as int));
        assert(pv.take(i + 1).last() == parts@[i as int]@);
        match parts[i].get_str("text") {
            Some(t) => {
                out.append(t);
            },
            None => {
                assert(out@ =~= out@ + Seq::<char>::empty());
            },
        }
        i = i + 1;
    }
    assert(pv.take(pv.len() as int) =~= pv);
    out
}

pub fn chat_content_to_text(content: Option<&Json>) -> (r: Option<String>)
    ensures
        match r {
            Some(t) => Some(t@),
            None => None,
        } == content_text(
            match content {
                Some(c) => Some(c@),
                None => None,
            },
        ),
{
    match content {
        None => None,
        Some(c) => match c {
            Json::Str(s) => Some(s.clone()),
            Json::Array(ps) => Some(concat_text_members(ps)),
            _ => Some(to_json_text(c)),
        },
    }
}

/// A Chat content part as an Anthropic content block: `text` stays text,
/// `image_url` becomes an `image` with a URL source, others are kept.
pub open spec fn anthropic_part_of(part: JsonV) -> JsonV {
    let t = jget_str(part, "type"@);
    if t == Some("text"@) {
        let text = match jget(part, "text"@) {
            Some(x) => x,
            None => JsonV::Str(Seq::empty()),
        };
        JsonV::Object(seq![("type"@, JsonV::Str("text"@)), ("text"@, text)])
    } else if t == Some("image_url"@) {
        let url = match jget(part, "image_url"@) {
            Some(iu) => or_empty(jget_str(iu, "url"@)),
            None => Seq::empty(),
        };
        JsonV::Object(
            seq![
                ("type"@, JsonV::Str("image"@)),
                ("source"@, JsonV::Object(seq![("type"@, JsonV::Str("url"@)), ("url"@, JsonV::Str(url))])),
            ],
        )
    } else {
        part
    }
}

pub fn chat_content_part_to_anthropic_part(part: &Json) -> (r: Json)
    ensures
        r@ == anthropic_part_of(part@),
{
    assert(""@ =~= Seq::<char>::empty()) by {
        reveal_strlit("");
    }
    let t = part.get_str("type");
    if opt_ref_is(t, "text") {
        let text = match part.get("text") {
            Some(x) => x.deep_clone(),
            None => Json::string(""),
        };
        assert(text@ == match jget(part@, "text"@) {
            Some(x) => x,
            None => JsonV::Str(Seq::empty()),
        });
        let ghost tv = text@;
        let r = obj2("type", Json::string("text"), "text", text);
        assert(r@ == JsonV::Object(seq![("type"@, JsonV::Str("text"@)), ("text"@, tv)]));
        assert(jget_str(part@, "type"@) == Some("text"@));
        r
    } else if opt_ref_is(t, "image_url") {
        let url: String = match part.get("image_url") {
            Some(iu) => match iu.get_str("url") {
                Some(u) => owned(u),
                None => String::new(),
            },
            None => String::new(),
        };
        let ghost uv = url@;
        assert(uv == match jget(part@, "image_url"@) {
            Some(iu) => or_empty(jget_str(iu, "url"@)),
            None => Seq::empty(),
        });
        let r = obj2("type", Json::string("image"), "source", obj2("type", Json::string("url"), "url", Json::Str(url)));
        assert(jget_str(part@, "type"@) == Some("image_url"@));
        assert("image_url"@ != "text"@) by {
            reveal_strlit("image_url");
            reveal_strlit("text");
            assert("image_url"@.len() != "text"@.len());
        }
        r
    } else {
        part.deep_clone()
    }
}

fn map_parts(ps: &Vec<Json>) -> (r: Vec<Json>)
    ensures
        jviews(r@) == jviews(ps@).map_values(|p: JsonV| anthropic_part_of(p)),
{
    proof {
        lemma_jviews(ps@);
    }
    let mut out: Vec<Json> = Vec::new();
    let mut i: usize = 0;
    while i < ps.len()
        invariant
            i <= ps@.len(),
            jviews(ps@).len() == ps@.len(),
            forall|j: int| 0 <= j < ps@.len() ==> #[trigger] jviews(ps@)[j] == ps@[j]@,
            jviews(out@) == jviews(ps@).take(i as int).map_values(|p: JsonV| anthropic_part_of(p)),
        decreases ps.len() - i,
    {
        let x = chat_content_part_to_anthropic_part(&ps[i]);
        let ghost before = out@;
        out.push(x);
        proof {
            lemma_jviews(before);
            lemma_jviews(out@);
            assert(jviews(out@) =~= jviews(before).push(x@));
            assert(jviews(ps@).take(i + 1) =~= jviews(ps@).take(i as int).push(ps@[i as int]@));
            assert(jviews(ps@).take(i + 1).map_values(|p: JsonV| anthropic_part_of(p)) =~= jviews(ps@).take(
                i as int,
            ).map_values(|p: JsonV| anthropic_part_of(p)).push(anthropic_part_of(ps@[i as int]@)));
        }
        i = i + 1;
    }
    assert(jviews(ps@).take(ps@.len() as int) =~= jviews(ps@));
    out
}

/// Chat content as Anthropic content: strings stay, part lists have each
/// part converted, other values become their JSON text, no content an
/// empty string.
pub open spec fn anthropic_content_of(content: Option<JsonV>) -> JsonV {
    match content {
        Some(JsonV::Str(s)) => JsonV::Str(s),
        Some(JsonV::Array(ps)) => JsonV::Array(ps.map_values(|p: JsonV| anthropic_part_of(p))),
        Some(other) => JsonV::Str(json_text(other)),
        None => JsonV::Str(Seq::empty()),
    }
}

pub fn chat_content_to_anthropic_content(content: Option<&Json>) -> (r: Json)
    ensures
        r@ == anthropic_content_of(
            match content {
                Some(c) => Some(c@),
                None => None,
            },
        ),
{
    match content {
        Some(c) => match c {
            Json::Str(s) => Json::Str(s.clone()),
            Json::Array(ps) => Json::Array(map_parts(ps)),
            _ => Json::Str(to_json_text(c)),
        },
        None => Json::Str(String::new()),
    }
}

/// A `text` block.
pub open spec fn text_block(text: Seq<char>) -> JsonV {
    JsonV::Object(seq![("type"@, JsonV::Str("text"@)), ("text"@, JsonV::Str(text))])
}

/// The blocks contributed by a message's content: a non-empty string as
/// one text block, a part list converted part by part, any other value
/// (an empty string too) as a text block of its JSON text.
pub open spec fn content_parts(content: Option<JsonV>) -> Seq<JsonV> {
    match content {
        Some(JsonV::Str(s)) => if s.len() > 0 {
            seq![text_block(s)]
        } else {
            seq![text_block(json_text(JsonV::Str(s)))]
        },
        Some(JsonV::Array(vs)) => vs.map_values(|p: JsonV| anthropic_part_of(p)),
        Some(v) => seq![text_block(json_text(v))],
        None => Seq::empty(),
    }
}

fn text_block_exec(text: String) -> (r: Json)
    ensures
        r@ == text_block(text@),
{
    obj2("type", Json::string("text"), "text", Json::Str(text))
}

pub fn append_anthropic_parts_from_chat_content(parts: &mut Vec<Json>, content: Option<&Json>)
    ensures
        jviews(final(parts)@) == jviews(old(parts)@) + content_parts(
            match content {
                Some(c) => Some(c@),
                None => None,
            },
        ),
{
    let ghost before = parts@;
    proof {
        lemma_jviews(before);
    }
    match content {
        Some(c) => match c {
            Json::Str(s) => {
                let b = if s.unicode_len() > 0 {
                    text_block_exec(s.clone())
                } else {
                    text_block_exec(to_json_text(c))
                };
                parts.push(b);
                proof {
                    lemma_jviews(parts@);
                    assert(jviews(parts@) =~= jviews(before) + seq![b@]);
                }
            },
            Json::Array(vs) => {
                let mapped = map_parts(vs);
                let mut k: usize = 0;
                proof {
                    lemma_jviews(mapped@);
                }
                while k < mapped.len()
                    invariant
                        k <= mapped@.len(),
                        jviews(mapped@).len() == mapped@.len(),
                        forall|j: int| 0 <= j < mapped@.len() ==> #[trigger] jviews(mapped@)[j] == mapped@[j]@,
                        jviews(parts@) == jviews(before) + jviews(mapped@).take(k as int),
                    decreases mapped.len() - k,
                {
                    let ghost b2 = parts@;
                    let item = mapped[k].deep_clone();
                    parts.push(item);
                    proof {
                        lemma_jviews(b2);
                        lemma_jviews(parts@);
                        assert(jviews(parts@) =~= jviews(b2).push(item@));
                        assert(jviews(mapped@).take(k + 1) =~= jviews(mapped@).take(k as int).push(mapped@[k as int]@));
                        assert(jviews(parts@) =~= jviews(before) + jviews(mapped@).take(k + 1));
                    }
                    k = k + 1;
                }
                assert(jviews(mapped@).take(mapped@.len() as int) =~= jviews(mapped@));
            },
            _ => {
                let b = text_block_exec(to_json_text(c));
                parts.push(b);
                proof {
                    lemma_jviews(parts@);
                    assert(jviews(parts@) =~= jviews(before) + seq![b@]);
                }
            },
        },
        None => {
            assert(jviews(parts@) =~= jviews(before) + Seq::<JsonV>::empty());
        },
    }
}

/// A tool call's arguments as a JSON object: the parsed arguments when
/// they are an object, else `{}`.
pub open spec fn tool_arguments_value(args: Seq<char>) -> JsonV {
    match json_parse(args) {
        Some(v) => if v is Object {
            v
        } else {
            JsonV::Object(Seq::empty())
        },
        None => JsonV::Object(Seq::empty()),
    }
}

pub fn parse_tool_arguments(arguments: &str) -> (r: Json)
    ensures
        r@ == tool_arguments_value(arguments@),
{
    match parse_json_text(arguments) {
        Some(v) => if v.is_object() {
            v
        } else {
            Json::empty_object()
        },
        None => Json::empty_object(),
    }
}

/// A `tool_use` block for a Chat tool call.
pub open spec fn tool_use_block(tc: ChatToolCallV) -> JsonV {
    JsonV::Object(
        seq![
            ("type"@, JsonV::Str("tool_use"@)),
            ("id"@, JsonV::Str(tc.id)),
            ("name"@, JsonV::Str(tc.name)),
            ("input"@, tool_arguments_value(tc.arguments)),
        ],
    )
}

/// An assistant message as Anthropic content: its content blocks, then a
/// `tool_use` block per tool call; a lone text block collapses to its text.
pub open spec fn assistant_content(m: ChatMessageV) -> JsonV {
    let parts = content_parts(m.content) + match m.tool_calls {
        Some(tcs) => tcs.map_values(|tc: ChatToolCallV| tool_use_block(tc)),
        None => Seq::empty(),
    };
    if parts.len() == 1 && jget_str(parts[0], "type"@) == Some("text"@) && jget_str(parts[0], "text"@) is Some {
        JsonV::Str(jget_str(parts[0], "text"@)->0)
    } else {
        JsonV::Array(parts)
    }
}

pub fn assistant_message_to_anthropic_content(message: &ChatMessage) -> (r: Json)
    ensures
        r@ == assistant_content(message@),
{
    let mut parts: Vec<Json> = Vec::new();
    proof {
        lemma_jviews(parts@);
        assert(jviews(parts@) =~= Seq::<JsonV>::empty());
    }
    let content = match &message.content {
        Some(c) => Some(c),
        None => None,
    };
    append_anthropic_parts_from_chat_content(&mut parts, content);
    let ghost base = jviews(parts@);
    match &message.tool_calls {
        Some(tcs) => {
            let mut i: usize = 0;
            while i < tcs.len()
                invariant
                    i <= tcs@.len(),
                    jviews(parts@) == base + tcs@.take(i as int).map_values(|tc: ChatToolCall| tool_use_block(tc@)),
                decreases tcs.len() - i,
            {
                let tc = &tcs[i];
                let mut es: Vec<(String, Json)> = Vec::new();
                proof {
                    lemma_jentries_empty(es@);
                }
                push_member(&mut es, "type", Json::string("tool_use"));
                push_member(&mut es, "id", Json::Str(tc.id.clone()));
                push_member(&mut es, "name", Json::Str(tc.function.name.clone()));
                push_member(&mut es, "input", parse_tool_arguments(tc.function.arguments.as_str()));
                assert(jentries(es@) =~= (tool_use_block(tc@))->Object_0);
                let b = Json::Object(es);
                let ghost before = parts@;
                parts.push(b);
                proof {
                    lemma_jviews(before);
                    lemma_jviews(parts@);
                    assert(jviews(parts@) =~= jviews(before).push(b@));
                    assert(tcs@.take(i + 1) =~= tcs@.take(i as int).push(tcs@[i as int]));
                    assert(tcs@.take(i + 1).map_values(|tc: ChatToolCall| tool_use_block(tc@)) =~= tcs@.take(
                        i as int,
                    ).map_values(|tc: ChatToolCall| tool_use_block(tc@)).push(tool_use_block(tcs@[i as int]@)));
                }
                i = i + 1;
            }
            assert(tcs@.take(tcs@.len() as int) =~= tcs@);
            assert(tcs@.map_values(|tc: ChatToolCall| tool_use_block(tc@)) =~= tcs@.map_values(
                |c: ChatToolCall| c@,
            ).map_values(|tc: ChatToolCallV| tool_use_block(tc)));
        },
        None => {
            assert(jviews(parts@) =~= base + Seq::<JsonV>::empty());
        },
    }
    proof {
        lemma_jviews(parts@);
    }
    if parts.len() == 1 {
        if opt_ref_is(parts[0].get_str("type"), "text") {
            match parts[0].get_str("text") {
                Some(t) => {
                    return Json::string(t);
                },
                None => {},
            }
        }
    }
    Json::Array(parts)
}

/// A tool choice as Anthropic understands it: `auto` stays automatic,
/// `required` becomes `any`, `none` is dropped, a function choice (either
/// shape) becomes `{"type": "tool", "name": …}`; others are kept.
pub open spec fn anthropic_tool_choice_of(tool_choice: Option<JsonV>) -> Option<JsonV> {
    match tool_choice {
        None => None,
        Some(v) => match v {
            JsonV::Str(c) => if c == "auto"@ {
                Some(JsonV::Object(seq![("type"@, JsonV::Str("auto"@))]))
            } else if c == "required"@ {
                Some(JsonV::Object(seq![("type"@, JsonV::Str("any"@))]))
            } else if c == "none"@ {
                None
            } else {
                Some(v)
            },
            _ => {
                let ct = jget_str(v, "type"@);
                let fname = match jget(v, "function"@) {
                    Some(f) => jget_str(f, "name"@),
                    None => None,
                };
                if ct == Some("function"@) && jget_str(v, "name"@) is Some {
                    let n = jget_str(v, "name"@)->0;
                    Some(JsonV::Object(seq![("type"@, JsonV::Str("tool"@)), ("name"@, JsonV::Str(n))]))
                } else if ct == Some("function"@) && fname is Some {
                    let n = fname->0;
                    Some(JsonV::Object(seq![("type"@, JsonV::Str("tool"@)), ("name"@, JsonV::Str(n))]))
                } else if ct == Some("required"@) {
                    Some(JsonV::Object(seq![("type"@, JsonV::Str("any"@))]))
                } else if ct == Some("none"@) {
                    None
                } else {
                    Some(v)
                }
            },
        },
    }
}

fn type_object(t: &str) -> (r: Json)
    ensures
        r@ == JsonV::Object(seq![("type"@, JsonV::Str(t@))]),
{
    obj1("type", Json::string(t))
}

pub fn anthropic_compatible_tool_choice(tool_choice: Option<&Json>) -> (r: Option<Json>)
    ensures
        opt_json(r) == anthropic_tool_choice_of(
            match tool_choice {
                Some(v) => Some(v@),
                None => None,
            },
        ),
{
    let value = match tool_choice {
        Some(v) => v,
        None => {
            return None;
        },
    };
    match value.as_str() {
        Some(c) => {
            if str_eq(c, "auto") {
                return Some(type_object("auto"));
            } else if str_eq(c, "required") {
                return Some(type_object("any"));
            } else if str_eq(c, "none") {
                return None;
            } else {
                return Some(value.deep_clone());
            }
        },
        None => {},
    }
    let ct = value.get_str("type");
    if opt_ref_is(ct, "function") {
        match value.get_str("name") {
            Some(n) => {
                return Some(obj2("type", Json::string("tool"), "name", Json::string(n)));
            },
            None => {},
        }
        match value.get("function") {
            Some(f) => match f.get_str("name") {
                Some(n) => {
                    return Some(obj2("type", Json::string("tool"), "name", Json::string(n)));
                },
                None => {},
            },
            None => {},
        }
    }
    if opt_ref_is(ct, "required") {
        Some(type_object("any"))
    } else if opt_ref_is(ct, "none") {
        None
    } else {
        Some(value.deep_clone())
    }
}

/// The extra members forwarded to an Anthropic upstream: the accepted keys,
/// plus `stop` as `stop_sequences` (a string as a one-element list, a list
/// as it is).
pub open spec fn anthropic_extra_of(extra: Seq<(Seq<char>, JsonV)>) -> Seq<(Seq<char>, JsonV)> {
    let base = keep_entries(extra, |k: Seq<char>| is_anthropic_extra_key(k));
    match obj_get(extra, "stop"@) {
        Some(JsonV::Str(s)) => obj_insert(base, "stop_sequences"@, JsonV::Array(seq![JsonV::Str(s)])),
        Some(JsonV::Array(a)) => obj_insert(base, "stop_sequences"@, JsonV::Array(a)),
        _ => base,
    }
}

pub fn anthropic_compatible_extra(extra: &Vec<(String, Json)>) -> (r: Vec<(String, Json)>)
    ensures
        jentries(r@) == anthropic_extra_of(jentries(extra@)),
{
    let mut out = filter_extra(extra, true);
    match entries_get(extra, "stop") {
        Some(stop) => match stop {
            Json::Str(s) => {
                entries_insert(&mut out, "stop_sequences", array1(Json::Str(s.clone())));
            },
            Json::Array(_) => {
                entries_insert(&mut out, "stop_sequences", stop.deep_clone());
            },
            _ => {},
        },
        None => {},
    }
    out
}

/// The function tools of a Responses request as Anthropic tools (a tool
/// without parameters gets `{"type": "object"}`).
pub open spec fn anthropic_tools_of(ts: Seq<ResponsesTool>) -> Seq<AnthropicToolV>
    decreases ts.len(),
{
    if ts.len() == 0 {
        Seq::empty()
    } else {
        let rest = anthropic_tools_of(ts.drop_last());
        let t = ts.last();
        if t.tool_type@ == "function"@ {
            let schema = match opt_json(t.parameters) {
                Some(p) => p,
                None => JsonV::Object(seq![("type"@, JsonV::Str("object"@))]),
            };
            rest.push(AnthropicToolV { name: or_empty(opt_str(t.name)), description: opt_str(t.description), input_schema: schema })
        } else {
            rest
        }
    }
}

fn anthropic_tools(ts: &Vec<ResponsesTool>) -> (r: Vec<AnthropicTool>)
    ensures
        r@.map_values(|x: AnthropicTool| x@) == anthropic_tools_of(ts@),
{
    let mut out: Vec<AnthropicTool> = Vec::new();
    let mut i: usize = 0;
    while i < ts.len()
        invariant
            i <= ts@.len(),
            out@.map_values(|x: AnthropicTool| x@) == anthropic_tools_of(ts@.take(i as int)),
        decreases ts.len() - i,
    {
        assert(ts@.take(i + 1).drop_last() =~= ts@.take(i as int));
        assert(ts@.take(i + 1).last() == ts@[i as int]);
        let t = &ts[i];
        if str_eq(t.tool_type.as_str(), "function") {
            let schema = match &t.parameters {
                Some(p) => p.deep_clone(),
                None => type_object("object"),
            };
            let tool = AnthropicTool {
                name: string_or_empty(&t.name),
                description: clone_opt_str(&t.description),
                input_schema: schema,
            };
            let ghost before = out@;
            out.push(tool);
            assert(out@.map_values(|x: AnthropicTool| x@) =~= before.map_values(|x: AnthropicTool| x@).push(tool@));
        }
        i = i + 1;
    }
    assert(ts@.take(ts@.len() as int) =~= ts@);
    out
}

/// The `tool_result` content answering a tool call.
pub open spec fn tool_result_content(m: ChatMessageV) -> JsonV {
    let block = JsonV::Object(
        seq![
            ("type"@, JsonV::Str("tool_result"@)),
            ("tool_use_id"@, JsonV::Str(or_empty(m.tool_call_id))),
            ("content"@, JsonV::Str(or_empty(content_text(m.content)))),
        ],
    );
    JsonV::Array(seq![block])
}

/// The Anthropic messages of a list of Chat messages: system messages are
/// left out (they become the system prompt), assistant messages keep their
/// role, tool messages become user messages holding a tool result, and all
/// others become user messages.
pub open spec fn anthropic_messages_of(ms: Seq<ChatMessageV>) -> Seq<AnthropicMessageV>
    decreases ms.len(),
{
    if ms.len() == 0 {
        Seq::empty()
    } else {
        let rest = anthropic_messages_of(ms.drop_last());
        let m = ms.last();
        if m.role == "system"@ {
            rest
        } else if m.role == "assistant"@ {
            rest.push(AnthropicMessageV { role: "assistant"@, content: assistant_content(m) })
        } else if m.role == "tool"@ {
            rest.push(AnthropicMessageV { role: "user"@, content: tool_result_content(m) })
        } else {
            rest.push(AnthropicMessageV { role: "user"@, content: anthropic_content_of(m.content) })
        }
    }
}

/// The texts of the system messages, in order.
pub open spec fn system_parts_of(ms: Seq<ChatMessageV>) -> Seq<Seq<char>>
    decreases ms.len(),
{
    if ms.len() == 0 {
        Seq::empty()
    } else {
        let rest = system_parts_of(ms.drop_last());
        let m = ms.last();
        if m.role == "system"@ && content_text(m.content) is Some {
            rest.push(content_text(m.content)->0)
        } else {
            rest
        }
    }
}

/// `parts.join(sep)`.
pub open spec fn join_with(parts: Seq<Seq<char>>, sep: Seq<char>) -> Seq<char>
    decreases parts.len(),
{
    if parts.len() == 0 {
        Seq::empty()
    } else if parts.len() == 1 {
        parts[0]
    } else {
        join_with(parts.drop_last(), sep) + sep + parts.last()
    }
}

/// A Responses request as an Anthropic Messages request: the Chat form's
/// messages converted (see [`anthropic_messages_of`]), system texts joined
/// by blank lines into the system prompt, at most 4096 tokens unless
/// given.
pub open spec fn anthropic_request_of(req: ResponsesRequest) -> AnthropicRequestV {
    let ms = chat_messages_of(req);
    let parts = system_parts_of(ms);
    AnthropicRequestV {
        model: req.model@,
        max_tokens: match req.max_output_tokens {
            Some(n) => n,
            None => 4096,
        },
        messages: anthropic_messages_of(ms),
        system: if parts.len() == 0 {
            None
        } else {
            Some(join_with(parts, "\n\n"@))
        },
        stream: req.stream,
        temperature: opt_str(req.temperature),
        top_p: opt_str(req.top_p),
        tools: match req.tools {
            Some(ts) => Some(anthropic_tools_of(ts@)),
            None => None,
        },
        tool_choice: anthropic_tool_choice_of(opt_json(req.tool_choice)),
        extra: anthropic_extra_of(jentries(req.extra@)),
    }
}

/// What a Responses tool choice becomes for Anthropic: `"auto"` asks
/// Anthropic to choose (`{"type": "auto"}`), and only `"required"` forces a
/// tool call (`{"type": "any"}`); `"none"` and a missing choice send none;
/// any other string is passed on as it is; a function choice naming a
/// function asks for that tool (`{"type": "tool", "name": …}`).
pub proof fn lemma_anthropic_tool_choice(req: ResponsesRequest)
    ensures
        ({
            let tc = opt_json(req.tool_choice);
            let out = anthropic_request_of(req).tool_choice;
            &&& tc == Some(JsonV::Str("auto"@)) ==> out is Some && jget_str(out->0, "type"@) == Some("auto"@)
            &&& tc == Some(JsonV::Str("required"@)) ==> out is Some && jget_str(out->0, "type"@) == Some("any"@)
            &&& tc == Some(JsonV::Str("none"@)) ==> out is None
            &&& tc is None ==> out is None
            &&& (tc matches Some(JsonV::Str(c)) && c != "auto"@ && c != "required"@ && c != "none"@) ==> out == tc
            &&& (tc matches Some(v) && v is Object && jget_str(v, "type"@) == Some("function"@) && jget_str(v, "name"@) is Some)
                ==> (out is Some && jget_str(out->0, "type"@) == Some("tool"@) && jget_str(out->0, "name"@) == jget_str(tc->0, "name"@))
        }),
{
    reveal_strlit("type");
    reveal_strlit("name");
    assert("type"@[0] != "name"@[0]);
    reveal_strlit("auto");
    reveal_strlit("required");
    reveal_strlit("none");
    reveal_strlit("function");
    assert("auto"@.len() != "required"@.len());
    assert("auto"@[0] != "none"@[0]);
    assert("required"@.len() != "none"@.len());
    assert("function"@[0] != "required"@[0]);
    assert("function"@.len() != "none"@.len());
    let tc = opt_json(req.tool_choice);
    if let Some(v) = tc {
        if v is Object && jget_str(v, "type"@) == Some("function"@) && jget_str(v, "name"@) is Some {
            let n = jget_str(v, "name"@)->0;
            let es = seq![("type"@, JsonV::Str("tool"@)), ("name"@, JsonV::Str(n))];
            assert(es.subrange(1, 2)[0] == es[1]);
            assert(crate::json::obj_get(es.subrange(1, 2), "name"@) == Some(JsonV::Str(n)));
            assert(crate::json::obj_get(es, "name"@) == Some(JsonV::Str(n)));
        }
    }
}

/// The Responses default when no `max_output_tokens` is given.
pub const DEFAULT_ANTHROPIC_MAX_TOKENS: u32 = 4096;

fn tool_result_exec(m: &ChatMessage) -> (r: Json)
    ensures
        r@ == tool_result_content(m@),
{
    let content_ref = match &m.content {
        Some(c) => Some(c),
        None => None,
    };
    let text = match chat_content_to_text(content_ref) {
        Some(t) => t,
        None => String::new(),
    };
    let mut es: Vec<(String, Json)> = Vec::new();
    proof {
        lemma_jentries_empty(es@);
    }
    push_member(&mut es, "type", Json::string("tool_result"));
    push_member(&mut es, "tool_use_id", Json::Str(string_or_empty(&m.tool_call_id)));
    push_member(&mut es, "content", Json::Str(text));
    let ghost bv = jentries(es@);
    assert(bv =~= seq![
        ("type"@, JsonV::Str("tool_result"@)),
        ("tool_use_id"@, JsonV::Str(or_empty(m@.tool_call_id))),
        ("content"@, JsonV::Str(or_empty(content_text(m@.content)))),
    ]);
    array1(Json::Object(es))
}

/// A Responses API request as an Anthropic Messages request (see
/// [`anthropic_request_of`]).
#[verifier::spinoff_prover]
pub fn responses_to_anthropic(req: &ResponsesRequest) -> (r: AnthropicRequest)
    ensures
        r@ == anthropic_request_of(*req),
{
    let chat = responses_to_chat(req);
    let ghost ms = chat@.messages;
    let mut system = String::new();
    let mut system_count: usize = 0;
    let mut messages: Vec<AnthropicMessage> = Vec::new();
    let mut i: usize = 0;
    while i < chat.messages.len()
        invariant
            i <= chat.messages@.len(),
            ms == chat@.messages,
            ms.len() == chat.messages@.len(),
            forall|j: int| 0 <= j < ms.len() ==> #[trigger] ms[j] == chat.messages@[j]@,
            messages@.map_values(|m: AnthropicMessage| m@) == anthropic_messages_of(ms.take(i as int)),
            system_count == system_parts_of(ms.take(i as int)).len(),
            system_count <= i,
            system@ == join_with(system_parts_of(ms.take(i as int)), "\n\n"@),
        decreases chat.messages.len() - i,
    {
        let m = &chat.messages[i];
        assert(ms[i as int] == m@);
        assert(ms.take(i + 1).drop_last() =~= ms.take(i as int));
        assert(ms.take(i + 1).last() == m@);
        let ghost before = messages@;
        if str_eq(m.role.as_str(), "system") {
            let content_ref = match &m.content {
                Some(c) => Some(c),
                None => None,
            };
            let ghost prev = system_parts_of(ms.take(i as int));
            match chat_content_to_text(content_ref) {
                Some(t) => {
                    assert(system_parts_of(ms.take(i + 1)) == prev.push(t@));
                    if system_count > 0 {
                        system.append("\n\n");
                        assert(prev.push(t@).drop_last() =~= prev);
                    } else {
                        assert(system@ =~= Seq::<char>::empty());
                        assert(Seq::<char>::empty() + t@ =~= t@);
                    }
                    system.append(t.as_str());
                    system_count = system_count + 1;
                },
                None => {},
            }
        } else if str_eq(m.role.as_str(), "assistant") {
            let am = AnthropicMessage { role: owned("assistant"), content: assistant_message_to_anthropic_content(m) };
            messages.push(am);
            assert(messages@.map_values(|m: AnthropicMessage| m@) =~= before.map_values(|m: AnthropicMessage| m@).push(am@));
        } else if str_eq(m.role.as_str(), "tool") {
            let am = AnthropicMessage { role: owned("user"), content: tool_result_exec(m) };
            messages.push(am);
            assert(messages@.map_values(|m: AnthropicMessage| m@) =~= before.map_values(|m: AnthropicMessage| m@).push(am@));
        } else {
            let content_ref = match &m.content {
                Some(c) => Some(c),
                None => None,
            };
            let am = AnthropicMessage { role: owned("user"), content: chat_content_to_anthropic_content(content_ref) };
            messages.push(am);
            assert(messages@.map_values(|m: AnthropicMessage| m@) =~= before.map_values(|m: AnthropicMessage| m@).push(am@));
        }
        i = i + 1;
    }
    assert(ms.take(ms.len() as int) =~= ms);
    let tools = match &req.tools {
        Some(ts) => Some(anthropic_tools(ts)),
        None => None,
    };
    let tool_choice = match &req.tool_choice {
        Some(tc) => anthropic_compatible_tool_choice(Some(tc)),
        None => anthropic_compatible_tool_choice(None),
    };
    AnthropicRequest {
        model: req.model.clone(),
        max_tokens: match req.max_output_tokens {
            Some(n) => n,
            None => DEFAULT_ANTHROPIC_MAX_TOKENS,
        },
        messages,
        system: if system_count == 0 {
            None
        } else {
            Some(system)
        },
        stream: req.stream,
        temperature: clone_opt_str(&req.temperature),
        top_p: clone_opt_str(&req.top_p),
        tools,
        tool_choice,
        extra: anthropic_compatible_extra(&req.extra),
    }
}

} // verus!
