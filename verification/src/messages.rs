//! Anthropic Messages traffic carried to upstreams that speak another API:
//! a Messages request read into the Responses form, and a Chat completion
//! written back as a Messages response.

use vstd::prelude::*;
use crate::chat::{
    content_or_null, count_value, items_view, member_or, message_item, message_item_exec,
    messages_of, number_text, number_text_exec, output_text_exec, output_text_of, part_type_for,
    text_part, text_part_exec, text_part_type, tools_view,
};
use crate::convert::requests::or_empty;
use crate::json::{
    array_of, jarr, jbool, jentries, jget, jget_str, ju64, jview, jviews, json_parse, json_text,
    lemma_jentries_empty, lemma_jviews, lemma_jviews_push, obj2, parse_json_text,
    push_member, to_json_text, Json, JsonV,
};
use crate::text::{owned, str_eq};
use crate::types::{
    opt_str, ChatResponse, ChatToolCall, ResponsesInput, ResponsesInputItem, ResponsesInputItemV,
    ResponsesInputV, ResponsesRequest, ResponsesRequestV, ResponsesTool, ResponsesToolV,
};

verus! {

// ─── Messages request → Responses request ───

/// `assistant` stays, every other role becomes `user`.
pub open spec fn normalised_role(role: Seq<char>) -> Seq<char> {
    if role == "assistant"@ {
        "assistant"@
    } else {
        "user"@
    }
}

/// The items so far, with the pending text parts closed into a message.
pub open spec fn flush(
    items: Seq<ResponsesInputItemV>,
    pending: Seq<JsonV>,
    role: Seq<char>,
) -> Seq<ResponsesInputItemV> {
    if pending.len() > 0 {
        items.push(message_item(role, pending))
    } else {
        items
    }
}

/// The `function_call` item for a `tool_use` block: its id, its name and
/// its `input` (else `{}`) as JSON text.
pub open spec fn tool_use_item(part: JsonV) -> ResponsesInputItemV {
    ResponsesInputItemV {
        item_type: Some("function_call"@),
        role: None,
        content: None,
        reasoning_content: None,
        call_id: Some(or_empty(jget_str(part, "id"@))),
        name: Some(or_empty(jget_str(part, "name"@))),
        arguments: Some(json_text(member_or(part, "input"@, JsonV::Object(Seq::empty())))),
        output: None,
    }
}

/// The `function_call_output` item for a `tool_result` block.
pub open spec fn tool_result_item(part: JsonV) -> ResponsesInputItemV {
    ResponsesInputItemV {
        item_type: Some("function_call_output"@),
        role: None,
        content: None,
        reasoning_content: None,
        call_id: Some(or_empty(jget_str(part, "tool_use_id"@))),
        name: None,
        arguments: None,
        output: Some(output_text_of(jget(part, "content"@))),
    }
}

/// One content block read into (items, pending text parts): a text block
/// joins the pending parts; a `tool_use` or `tool_result` block closes them
/// into a message and adds its own item; any other block is skipped.
pub open spec fn anthropic_step(
    acc: (Seq<ResponsesInputItemV>, Seq<JsonV>),
    role: Seq<char>,
    part: JsonV,
) -> (Seq<ResponsesInputItemV>, Seq<JsonV>) {
    let items = acc.0;
    let pending = acc.1;
    match jget_str(part, "type"@) {
        Some(t) => {
            if t == "text"@ {
                match jget_str(part, "text"@) {
                    Some(text) => (items, pending.push(text_part(text_part_type(role), text))),
                    None => acc,
                }
            } else if t == "tool_use"@ {
                (flush(items, pending, role).push(tool_use_item(part)), Seq::empty())
            } else if t == "tool_result"@ {
                (flush(items, pending, role).push(tool_result_item(part)), Seq::empty())
            } else {
                acc
            }
        },
        None => acc,
    }
}

pub open spec fn anthropic_fold(role: Seq<char>, parts: Seq<JsonV>) -> (
    Seq<ResponsesInputItemV>,
    Seq<JsonV>,
)
    decreases parts.len(),
{
    if parts.len() == 0 {
        (Seq::empty(), Seq::empty())
    } else {
        anthropic_step(anthropic_fold(role, parts.drop_last()), role, parts.last())
    }
}

/// The input items for the content of a Messages message: a string is one
/// message; blocks keep their order, text runs becoming messages between
/// the tool calls and results; anything else is nothing.
pub open spec fn anthropic_content_items(role: Seq<char>, content: JsonV) -> Seq<ResponsesInputItemV> {
    let r = normalised_role(role);
    match content {
        JsonV::Str(text) => {
            let part = text_part(text_part_type(r), text);
            seq![message_item(r, seq![part])]
        },
        JsonV::Array(parts) => {
            let acc = anthropic_fold(r, parts);
            flush(acc.0, acc.1, r)
        },
        _ => Seq::empty(),
    }
}

fn normalised_role_exec(role: &str) -> (r: &'static str)
    ensures
        r@ == normalised_role(role@),
{
    if str_eq(role, "assistant") {
        "assistant"
    } else {
        "user"
    }
}

fn flush_exec(items: &mut Vec<ResponsesInputItem>, pending: &mut Vec<Json>, role: &str)
    ensures
        items_view(final(items)@) == flush(items_view(old(items)@), jviews(old(pending)@), role@),
        final(pending)@.len() == 0,
{
    proof {
        lemma_jviews(pending@);
    }
    if pending.len() > 0 {
        let mut parts: Vec<Json> = Vec::new();
        std::mem::swap(&mut parts, pending);
        let item = message_item_exec(role, parts);
        let ghost before = items@;
        items.push(item);
        assert(items_view(items@) =~= items_view(before).push(item@));
    }
}

fn tool_use_item_exec(part: &Json) -> (r: ResponsesInputItem)
    ensures
        r@ == tool_use_item(part@),
{
    let id = match part.get_str("id") {
        Some(s) => owned(s),
        None => String::new(),
    };
    let name = match part.get_str("name") {
        Some(s) => owned(s),
        None => String::new(),
    };
    let input = match part.get("input") {
        Some(x) => x.deep_clone(),
        None => Json::empty_object(),
    };
    ResponsesInputItem {
        item_type: Some(owned("function_call")),
        role: None,
        content: None,
        reasoning_content: None,
        call_id: Some(id),
        name: Some(name),
        arguments: Some(to_json_text(&input)),
        output: None,
    }
}

fn tool_result_item_exec(part: &Json) -> (r: ResponsesInputItem)
    ensures
        r@ == tool_result_item(part@),
{
    let call_id = match part.get_str("tool_use_id") {
        Some(s) => owned(s),
        None => String::new(),
    };
    ResponsesInputItem {
        item_type: Some(owned("function_call_output")),
        role: None,
        content: None,
        reasoning_content: None,
        call_id: Some(call_id),
        name: None,
        arguments: None,
        output: Some(output_text_exec(part.get("content"))),
    }
}

/// The Responses input items for the content of one Messages message (see
/// [`anthropic_content_items`]).
pub fn anthropic_message_to_responses_items(role: &str, content: &Json) -> (r: Vec<ResponsesInputItem>)
    ensures
        items_view(r@) == anthropic_content_items(role@, content@),
{
    let nrole = normalised_role_exec(role);
    let text_kind = part_type_for(nrole);
    let mut items: Vec<ResponsesInputItem> = Vec::new();
    match content {
        Json::Str(text) => {
            let mut parts: Vec<Json> = Vec::new();
            let part = text_part_exec(text_kind, text.as_str());
            parts.push(part);
            proof {
                lemma_jviews(parts@);
                assert(jviews(parts@) =~= seq![part@]);
            }
            let item = message_item_exec(nrole, parts);
            items.push(item);
            assert(items_view(items@) =~= seq![item@]);
        },
        Json::Array(parts) => {
            proof {
                lemma_jviews(parts@);
            }
            let ghost ps = jviews(parts@);
            let mut pending: Vec<Json> = Vec::new();
            let mut i: usize = 0;
            while i < parts.len()
                invariant
                    i <= parts@.len(),
                    ps == jviews(parts@),
                    ps.len() == parts@.len(),
                    forall|j: int| 0 <= j < ps.len() ==> #[trigger] ps[j] == jview(parts@[j]),
                    nrole@ == normalised_role(role@),
                    text_kind@ == text_part_type(nrole@),
                    (items_view(items@), jviews(pending@)) == anthropic_fold(nrole@, ps.take(i as int)),
                decreases parts.len() - i,
            {
                assert(ps.take(i + 1).drop_last() =~= ps.take(i as int));
                assert(ps.take(i + 1).last() == ps[i as int]);
                let part = &parts[i];
                match part.get_str("type") {
                    Some(t) => {
                        if str_eq(t, "text") {
                            match part.get_str("text") {
                                Some(text) => {
                                    let p = text_part_exec(text_kind, text);
                                    proof {
                                        lemma_jviews_push(pending@, p);
                                    }
                                    pending.push(p);
                                },
                                None => {},
                            }
                        } else if str_eq(t, "tool_use") {
                            flush_exec(&mut items, &mut pending, nrole);
                            let item = tool_use_item_exec(part);
                            let ghost before = items@;
                            items.push(item);
                            assert(items_view(items@) =~= items_view(before).push(item@));
                            assert(jviews(pending@) =~= Seq::<JsonV>::empty());
                        } else if str_eq(t, "tool_result") {
                            flush_exec(&mut items, &mut pending, nrole);
                            let item = tool_result_item_exec(part);
                            let ghost before = items@;
                            items.push(item);
                            assert(items_view(items@) =~= items_view(before).push(item@));
                            assert(jviews(pending@) =~= Seq::<JsonV>::empty());
                        }
                    },
                    None => {},
                }
                i = i + 1;
            }
            assert(ps.take(ps.len() as int) =~= ps);
            flush_exec(&mut items, &mut pending, nrole);
        },
        _ => {
            assert(items_view(items@) =~= Seq::<ResponsesInputItemV>::empty());
        },
    }
    items
}

/// The input items of one Messages message; a message without a string
/// role contributes nothing.
pub open spec fn anthropic_message_items(m: JsonV) -> Seq<ResponsesInputItemV> {
    match jget_str(m, "role"@) {
        Some(role) => anthropic_content_items(role, content_or_null(m)),
        None => Seq::empty(),
    }
}

pub open spec fn anthropic_messages_items(ms: Seq<JsonV>) -> Seq<ResponsesInputItemV>
    decreases ms.len(),
{
    if ms.len() == 0 {
        Seq::empty()
    } else {
        anthropic_messages_items(ms.drop_last()) + anthropic_message_items(ms.last())
    }
}

/// The Responses tool for a Messages tool with a string name.
pub open spec fn anthropic_tool_of(t: JsonV) -> Option<ResponsesToolV> {
    match jget_str(t, "name"@) {
        Some(n) => Some(
            ResponsesToolV {
                tool_type: "function"@,
                name: Some(n),
                description: jget_str(t, "description"@),
                parameters: jget(t, "input_schema"@),
            },
        ),
        None => None,
    }
}

pub open spec fn anthropic_tools_of_value(ts: Seq<JsonV>) -> Seq<ResponsesToolV>
    decreases ts.len(),
{
    if ts.len() == 0 {
        Seq::empty()
    } else {
        let rest = anthropic_tools_of_value(ts.drop_last());
        match anthropic_tool_of(ts.last()) {
            Some(t) => rest.push(t),
            None => rest,
        }
    }
}

/// A Messages tool choice in the Responses form: `any` is `"required"`,
/// `auto` is `"auto"`, `tool` names a function; anything else is kept.
pub open spec fn translated_tool_choice(v: JsonV) -> JsonV {
    match jget_str(v, "type"@) {
        Some(t) => {
            if t == "any"@ {
                JsonV::Str("required"@)
            } else if t == "auto"@ {
                JsonV::Str("auto"@)
            } else if t == "tool"@ {
                JsonV::Object(
                    seq![
                        ("type"@, JsonV::Str("function"@)),
                        ("name"@, JsonV::Str(or_empty(jget_str(v, "name"@)))),
                    ],
                )
            } else {
                v
            }
        },
        None => v,
    }
}

/// The Messages tool choice in the Responses form (see
/// [`translated_tool_choice`]).
pub fn translate_anthropic_tool_choice(value: Json) -> (r: Json)
    ensures
        r@ == translated_tool_choice(value@),
{
    let kind: Option<String> = match value.get_str("type") {
        Some(t) => Some(owned(t)),
        None => None,
    };
    match kind {
        Some(t) => {
            if str_eq(t.as_str(), "any") {
                Json::string("required")
            } else if str_eq(t.as_str(), "auto") {
                Json::string("auto")
            } else if str_eq(t.as_str(), "tool") {
                let name = match value.get_str("name") {
                    Some(n) => owned(n),
                    None => String::new(),
                };
                obj2("type", Json::string("function"), "name", Json::Str(name))
            } else {
                value
            }
        },
        None => value,
    }
}

/// The Responses form of a Messages request object: a string `system` as
/// the instructions, the messages as input items, the named tools, the
/// tool choice translated.
pub open spec fn responses_request_from_anthropic(v: JsonV) -> ResponsesRequestV {
    ResponsesRequestV {
        model: or_empty(jget_str(v, "model"@)),
        instructions: jget_str(v, "system"@),
        input: ResponsesInputV::Items(anthropic_messages_items(messages_of(v))),
        stream: jbool(jget(v, "stream"@)),
        temperature: number_text(jget(v, "temperature"@)),
        top_p: number_text(jget(v, "top_p"@)),
        max_output_tokens: match ju64(jget(v, "max_tokens"@)) {
            Some(n) => Some(n as u32),
            None => None,
        },
        tools: match jarr(jget(v, "tools"@)) {
            Some(ts) => Some(anthropic_tools_of_value(ts)),
            None => None,
        },
        tool_choice: match jget(v, "tool_choice"@) {
            Some(tc) => Some(translated_tool_choice(tc)),
            None => None,
        },
        extra: Seq::empty(),
    }
}

/// What an Anthropic Messages request becomes as a Responses request: the
/// model, a string `system` as the instructions, the stream flag and the
/// token limit carry over; a tool choice `any` (a tool must be called)
/// becomes `"required"`, `auto` stays `"auto"`, `tool` asks for that
/// function by name, and other choices are kept.
pub proof fn lemma_responses_request_from_anthropic(v: JsonV)
    ensures
        ({
            let r = responses_request_from_anthropic(v);
            &&& jget_str(v, "model"@) matches Some(m) ==> r.model == m
            &&& r.instructions == jget_str(v, "system"@)
            &&& r.stream == jbool(jget(v, "stream"@))
            &&& (ju64(jget(v, "max_tokens"@)) is Some && ju64(jget(v, "max_tokens"@))->0 <= u32::MAX) ==> r.max_output_tokens
                == Some((ju64(jget(v, "max_tokens"@))->0) as u32)
            &&& jget(v, "tool_choice"@) is None ==> r.tool_choice is None
            &&& (jget(v, "tool_choice"@) matches Some(tc) && jget_str(tc, "type"@) == Some("any"@)) ==> r.tool_choice
                == Some(JsonV::Str("required"@))
            &&& (jget(v, "tool_choice"@) matches Some(tc) && jget_str(tc, "type"@) == Some("auto"@)) ==> r.tool_choice
                == Some(JsonV::Str("auto"@))
            &&& (jget(v, "tool_choice"@) matches Some(tc) && jget_str(tc, "type"@) == Some("tool"@)
                && jget_str(tc, "name"@) is Some) ==> (r.tool_choice is Some && jget_str(r.tool_choice->0, "type"@)
                == Some("function"@) && jget_str(r.tool_choice->0, "name"@) == jget_str(jget(v, "tool_choice"@)->0, "name"@))
            &&& (jget(v, "tool_choice"@) matches Some(tc) && jget_str(tc, "type"@) != Some("any"@)
                && jget_str(tc, "type"@) != Some("auto"@) && jget_str(tc, "type"@) != Some("tool"@)) ==> r.tool_choice
                == jget(v, "tool_choice"@)
        }),
{
    reveal_strlit("any");
    reveal_strlit("auto");
    reveal_strlit("tool");
    reveal_strlit("type");
    reveal_strlit("name");
    assert("any"@.len() != "auto"@.len());
    assert("any"@.len() != "tool"@.len());
    assert("auto"@[0] != "tool"@[0]);
    assert("type"@[0] != "name"@[0]);
    if let Some(tc) = jget(v, "tool_choice"@) {
        if jget_str(tc, "type"@) == Some("tool"@) && jget_str(tc, "name"@) is Some {
            let es = seq![
                ("type"@, JsonV::Str("function"@)),
                ("name"@, JsonV::Str(or_empty(jget_str(tc, "name"@)))),
            ];
            crate::json::lemma_obj_get_first(es, 0, "type"@);
            crate::json::lemma_obj_get_first(es, 1, "name"@);
        }
    }
    if let Some(n) = ju64(jget(v, "max_tokens"@)) {
        if n <= u32::MAX {
            let m: u64 = n as u64;
            assert((m as u32) == m) by (bit_vector)
                requires
                    m <= 0xffff_ffff,
            ;
        }
    }
}

/// A `tool_use` block becomes a `function_call` item that keeps the
/// block's id as the call id, its name, and its `input` as JSON text; a
/// `tool_result` block becomes a `function_call_output` answering the
/// call its `tool_use_id` names.
pub proof fn lemma_tool_blocks_as_items(part: JsonV)
    ensures
        tool_use_item(part).item_type == Some("function_call"@),
        jget_str(part, "id"@) matches Some(id) ==> tool_use_item(part).call_id == Some(id),
        jget_str(part, "name"@) matches Some(n) ==> tool_use_item(part).name == Some(n),
        jget(part, "input"@) matches Some(inp) ==> tool_use_item(part).arguments == Some(json_text(inp)),
        tool_result_item(part).item_type == Some("function_call_output"@),
        jget_str(part, "tool_use_id"@) matches Some(id) ==> tool_result_item(part).call_id == Some(id),
{
}

fn anthropic_tool_exec(t: &Json) -> (r: Option<ResponsesTool>)
    ensures
        r matches Some(x) ==> anthropic_tool_of(t@) == Some(x@),
        r is None ==> anthropic_tool_of(t@) is None,
{
    match t.get_str("name") {
        Some(n) => {
            let description = match t.get_str("description") {
                Some(d) => Some(owned(d)),
                None => None,
            };
            let parameters = match t.get("input_schema") {
                Some(p) => Some(p.deep_clone()),
                None => None,
            };
            Some(ResponsesTool { tool_type: owned("function"), name: Some(owned(n)), description, parameters })
        },
        None => None,
    }
}

fn anthropic_tools_exec(ts: &Vec<Json>) -> (r: Vec<ResponsesTool>)
    ensures
        tools_view(r@) == anthropic_tools_of_value(jviews(ts@)),
{
    proof {
        lemma_jviews(ts@);
    }
    let ghost tv = jviews(ts@);
    let mut out: Vec<ResponsesTool> = Vec::new();
    let mut i: usize = 0;
    while i < ts.len()
        invariant
            i <= ts@.len(),
            tv == jviews(ts@),
            tv.len() == ts@.len(),
            forall|j: int| 0 <= j < tv.len() ==> #[trigger] tv[j] == jview(ts@[j]),
            tools_view(out@) == anthropic_tools_of_value(tv.take(i as int)),
        decreases ts.len() - i,
    {
        assert(tv.take(i + 1).drop_last() =~= tv.take(i as int));
        assert(tv.take(i + 1).last() == tv[i as int]);
        match anthropic_tool_exec(&ts[i]) {
            Some(t) => {
                let ghost before = out@;
                out.push(t);
                assert(tools_view(out@) =~= tools_view(before).push(t@));
            },
            None => {},
        }
        i = i + 1;
    }
    assert(tv.take(tv.len() as int) =~= tv);
    out
}

/// A Messages request object in the Responses form (see
/// [`responses_request_from_anthropic`]); fails on a value that is not an
/// object or has no string `model`.
pub fn anthropic_value_to_responses_request(value: &Json) -> (r: Result<ResponsesRequest, String>)
    ensures
        !(value@ is Object) ==> (r matches Err(e) && e@ == "anthropic request must be a JSON object"@),
        value@ is Object && jget_str(value@, "model"@) is None ==> (r matches Err(e) && e@
            == "anthropic request missing `model`"@),
        value@ is Object && jget_str(value@, "model"@) is Some ==> (r matches Ok(q) && q@
            == responses_request_from_anthropic(value@)),
{
    if !value.is_object() {
        return Err(owned("anthropic request must be a JSON object"));
    }
    let model = match value.get_str("model") {
        Some(m) => owned(m),
        None => {
            return Err(owned("anthropic request missing `model`"));
        },
    };
    let stream = value.get_bool("stream");
    let temperature = number_text_exec(value.get("temperature"));
    let top_p = number_text_exec(value.get("top_p"));
    let max_output_tokens = match value.get_u64("max_tokens") {
        Some(n) => Some(n as u32),
        None => None,
    };
    let instructions = match value.get_str("system") {
        Some(s) => Some(owned(s)),
        None => None,
    };
    let mut items: Vec<ResponsesInputItem> = Vec::new();
    let ghost ms = messages_of(value@);
    match value.get_array("messages") {
        Some(messages) => {
            proof {
                lemma_jviews(messages@);
            }
            let mut i: usize = 0;
            while i < messages.len()
                invariant
                    i <= messages@.len(),
                    ms == jviews(messages@),
                    ms.len() == messages@.len(),
                    forall|j: int| 0 <= j < ms.len() ==> #[trigger] ms[j] == jview(messages@[j]),
                    items_view(items@) == anthropic_messages_items(ms.take(i as int)),
                decreases messages.len() - i,
            {
                assert(ms.take(i + 1).drop_last() =~= ms.take(i as int));
                assert(ms.take(i + 1).last() == ms[i as int]);
                let m = &messages[i];
                match m.get_str("role") {
                    Some(role) => {
                        let null = Json::Null;
                        let content = match m.get("content") {
                            Some(c) => c,
                            None => &null,
                        };
                        let mut new_items = anthropic_message_to_responses_items(role, content);
                        let ghost before = items_view(items@);
                        let ghost added = items_view(new_items@);
                        items.append(&mut new_items);
                        assert(items_view(items@) =~= before + added);
                    },
                    None => {
                        assert(items_view(items@) =~= items_view(items@) + Seq::<ResponsesInputItemV>::empty());
                    },
                }
                i = i + 1;
            }
            assert(ms.take(ms.len() as int) =~= ms);
        },
        None => {
            assert(ms =~= Seq::<JsonV>::empty());
            assert(items_view(items@) =~= Seq::<ResponsesInputItemV>::empty());
        },
    }
    let tools = match value.get_array("tools") {
        Some(ts) => Some(anthropic_tools_exec(ts)),
        None => None,
    };
    let tool_choice = match value.get("tool_choice") {
        Some(tc) => Some(translate_anthropic_tool_choice(tc.deep_clone())),
        None => None,
    };
    let req = ResponsesRequest {
        model,
        instructions,
        input: ResponsesInput::Items(items),
        stream,
        temperature,
        top_p,
        max_output_tokens,
        tools,
        tool_choice,
        extra: Vec::new(),
    };
    proof {
        assert(jentries(req.extra@) =~= Seq::<(Seq<char>, JsonV)>::empty());
    }
    Ok(req)
}

} // verus!

verus! {

// ─── Chat completion → Messages response ───

/// A message text, `None` when absent or empty.
pub open spec fn message_text_of(content: Option<Seq<char>>) -> Option<Seq<char>> {
    match content {
        Some(t) => if t.len() > 0 {
            Some(t)
        } else {
            None
        },
        None => None,
    }
}

/// The text of a Chat response message, `None` when absent or empty.
pub fn chat_message_text(content: &Option<String>) -> (r: Option<String>)
    ensures
        opt_str(r) == message_text_of(opt_str(*content)),
{
    match content {
        Some(t) => if t.as_str().unicode_len() > 0 {
            Some(t.clone())
        } else {
            None
        },
        None => None,
    }
}

/// A Chat finish reason as a Messages stop reason: `tool_calls` is
/// `tool_use`, `length` is `max_tokens`, `stop` (and no reason) is
/// `end_turn`; any other reason is kept.
pub open spec fn finish_to_stop_reason(finish: Option<Seq<char>>) -> Seq<char> {
    match finish {
        Some(f) => {
            if f == "tool_calls"@ {
                "tool_use"@
            } else if f == "length"@ {
                "max_tokens"@
            } else if f == "stop"@ {
                "end_turn"@
            } else {
                f
            }
        },
        None => "end_turn"@,
    }
}

/// A tool call's arguments as parsed JSON, `{}` when they are not JSON.
pub open spec fn parsed_input(args: Seq<char>) -> JsonV {
    match json_parse(args) {
        Some(v) => v,
        None => JsonV::Object(Seq::empty()),
    }
}

/// The `tool_use` block for a Chat tool call.
pub open spec fn tool_use_block_of(tc: ChatToolCall) -> JsonV {
    JsonV::Object(
        seq![
            ("type"@, JsonV::Str("tool_use"@)),
            ("id"@, JsonV::Str(tc.id@)),
            ("name"@, JsonV::Str(tc.function.name@)),
            ("input"@, parsed_input(tc.function.arguments@)),
        ],
    )
}

/// The content blocks of the first choice: its text (when not empty) then
/// its tool calls.
pub open spec fn anthropic_blocks_of(resp: ChatResponse) -> Seq<JsonV> {
    if resp.choices@.len() == 0 {
        Seq::empty()
    } else {
        let m = resp.choices@[0].message;
        let text_blocks = match message_text_of(opt_str(m.content)) {
            Some(t) => {
                let block = JsonV::Object(
                    seq![("type"@, JsonV::Str("text"@)), ("text"@, JsonV::Str(t))],
                );
                seq![block]
            },
            None => Seq::empty(),
        };
        let call_blocks = match m.tool_calls {
            Some(cs) => cs@.map_values(|tc: ChatToolCall| tool_use_block_of(tc)),
            None => Seq::empty(),
        };
        text_blocks + call_blocks
    }
}

/// A Chat completion as a Messages response: id, model, the first
/// choice's blocks and stop reason, and the token counts when given.
pub open spec fn anthropic_value_of_chat_response(resp: ChatResponse) -> JsonV {
    let finish = if resp.choices@.len() == 0 {
        None
    } else {
        opt_str(resp.choices@[0].finish_reason)
    };
    let base = seq![
        ("id"@, JsonV::Str(resp.id@)),
        ("type"@, JsonV::Str("message"@)),
        ("role"@, JsonV::Str("assistant"@)),
        ("model"@, JsonV::Str(resp.model@)),
        ("content"@, JsonV::Array(anthropic_blocks_of(resp))),
        ("stop_reason"@, JsonV::Str(finish_to_stop_reason(finish))),
    ];
    match resp.usage {
        Some(u) => {
            let usage = JsonV::Object(
                seq![
                    ("input_tokens"@, count_value(u.prompt_tokens as nat)),
                    ("output_tokens"@, count_value(u.completion_tokens as nat)),
                ],
            );
            JsonV::Object(base.push(("usage"@, usage)))
        },
        None => JsonV::Object(base),
    }
}

/// What a Chat completion becomes as a Messages response: its stop reason
/// maps `tool_calls` to `tool_use`, `length` to `max_tokens` and `stop`
/// (or no finish reason) to `end_turn`, any other reason passing as it is;
/// and its token counts carry over, the Chat prompt as Anthropic input and
/// the Chat completion as Anthropic output.
pub proof fn lemma_anthropic_answer_of_chat(resp: ChatResponse)
    ensures
        ({
            let v = anthropic_value_of_chat_response(resp);
            let finish = if resp.choices@.len() == 0 {
                None
            } else {
                opt_str(resp.choices@[0].finish_reason)
            };
            &&& finish == Some("tool_calls"@) ==> jget_str(v, "stop_reason"@) == Some("tool_use"@)
            &&& finish == Some("length"@) ==> jget_str(v, "stop_reason"@) == Some("max_tokens"@)
            &&& finish == Some("stop"@) ==> jget_str(v, "stop_reason"@) == Some("end_turn"@)
            &&& finish is None ==> jget_str(v, "stop_reason"@) == Some("end_turn"@)
            &&& (finish matches Some(f) && f != "tool_calls"@ && f != "length"@ && f != "stop"@) ==> jget_str(
                v,
                "stop_reason"@,
            ) == finish
            &&& resp.usage matches Some(u) ==> ({
                &&& jget(v, "usage"@) is Some
                &&& jget(jget(v, "usage"@)->0, "input_tokens"@) == Some(count_value(u.prompt_tokens as nat))
                &&& jget(jget(v, "usage"@)->0, "output_tokens"@) == Some(count_value(u.completion_tokens as nat))
            })
        }),
{
    reveal_strlit("id");
    reveal_strlit("type");
    reveal_strlit("role");
    reveal_strlit("model");
    reveal_strlit("content");
    reveal_strlit("stop_reason");
    reveal_strlit("usage");
    reveal_strlit("input_tokens");
    reveal_strlit("output_tokens");
    assert("model"@[0] != "usage"@[0]);
    let finish = if resp.choices@.len() == 0 {
        None
    } else {
        opt_str(resp.choices@[0].finish_reason)
    };
    let base = seq![
        ("id"@, JsonV::Str(resp.id@)),
        ("type"@, JsonV::Str("message"@)),
        ("role"@, JsonV::Str("assistant"@)),
        ("model"@, JsonV::Str(resp.model@)),
        ("content"@, JsonV::Array(anthropic_blocks_of(resp))),
        ("stop_reason"@, JsonV::Str(finish_to_stop_reason(finish))),
    ];
    assert forall|j: int| 0 <= j < 5 implies (#[trigger] base[j]).0 != "stop_reason"@ by {
        assert(base[j].0.len() != "stop_reason"@.len());
    }
    crate::json::lemma_obj_get_first(base, 5, "stop_reason"@);
    match resp.usage {
        Some(u) => {
            let usage = JsonV::Object(
                seq![
                    ("input_tokens"@, count_value(u.prompt_tokens as nat)),
                    ("output_tokens"@, count_value(u.completion_tokens as nat)),
                ],
            );
            let es = base.push(("usage"@, usage));
            assert forall|j: int| 0 <= j < 6 implies (#[trigger] es[j]).0 != "usage"@ by {
                assert(es[j] == base[j]);
                if j != 3 {
                    assert(es[j].0.len() != "usage"@.len());
                }
            }
            crate::json::lemma_obj_get_first(es, 6, "usage"@);
            assert forall|j: int| 0 <= j < 5 implies (#[trigger] es[j]).0 != "stop_reason"@ by {
                assert(es[j] == base[j]);
                assert(base[j].0.len() != "stop_reason"@.len());
            }
            crate::json::lemma_obj_get_first(es, 5, "stop_reason"@);
            let us = seq![
                ("input_tokens"@, count_value(u.prompt_tokens as nat)),
                ("output_tokens"@, count_value(u.completion_tokens as nat)),
            ];
            crate::json::lemma_obj_get_first(us, 0, "input_tokens"@);
            assert(us[0].0.len() != "output_tokens"@.len());
            crate::json::lemma_obj_get_first(us, 1, "output_tokens"@);
        },
        None => {},
    }
    reveal_strlit("tool_calls");
    reveal_strlit("length");
    reveal_strlit("stop");
    assert("tool_calls"@.len() != "length"@.len());
    assert("tool_calls"@.len() != "stop"@.len());
    assert("length"@.len() != "stop"@.len());
}

fn stop_reason_exec(finish: Option<&str>) -> (r: String)
    ensures
        r@ == finish_to_stop_reason(
            match finish {
                Some(f) => Some(f@),
                None => None,
            },
        ),
{
    match finish {
        Some(f) => {
            if str_eq(f, "tool_calls") {
                owned("tool_use")
            } else if str_eq(f, "length") {
                owned("max_tokens")
            } else if str_eq(f, "stop") {
                owned("end_turn")
            } else {
                owned(f)
            }
        },
        None => owned("end_turn"),
    }
}

fn tool_use_block_exec(tc: &ChatToolCall) -> (r: Json)
    ensures
        r@ == tool_use_block_of(*tc),
{
    let input = match parse_json_text(tc.function.arguments.as_str()) {
        Some(v) => v,
        None => Json::empty_object(),
    };
    let mut es: Vec<(String, Json)> = Vec::new();
    proof {
        lemma_jentries_empty(es@);
    }
    let ghost iv = input@;
    push_member(&mut es, "type", Json::string("tool_use"));
    push_member(&mut es, "id", Json::Str(tc.id.clone()));
    push_member(&mut es, "name", Json::Str(tc.function.name.clone()));
    push_member(&mut es, "input", input);
    assert(jentries(es@) =~= seq![
        ("type"@, JsonV::Str("tool_use"@)),
        ("id"@, JsonV::Str(tc.id@)),
        ("name"@, JsonV::Str(tc.function.name@)),
        ("input"@, iv),
    ]);
    Json::Object(es)
}

/// A Chat completion as a Messages response object (see
/// [`anthropic_value_of_chat_response`]).
pub fn chat_response_to_anthropic_value(resp: &ChatResponse) -> (r: Json)
    ensures
        r@ == anthropic_value_of_chat_response(*resp),
{
    let mut blocks: Vec<Json> = Vec::new();
    let mut finish: Option<&str> = None;
    if resp.choices.len() > 0 {
        let choice = &resp.choices[0];
        finish = match &choice.finish_reason {
            Some(f) => Some(f.as_str()),
            None => None,
        };
        let message = &choice.message;
        match chat_message_text(&message.content) {
            Some(text) => {
                let block = obj2("type", Json::string("text"), "text", Json::Str(text));
                proof {
                    lemma_jviews_push(blocks@, block);
                }
                blocks.push(block);
            },
            None => {},
        }
        let ghost text_blocks = jviews(blocks@);
        match &message.tool_calls {
            Some(calls) => {
                let mut i: usize = 0;
                while i < calls.len()
                    invariant
                        i <= calls@.len(),
                        jviews(blocks@) == text_blocks + calls@.take(i as int).map_values(
                            |tc: ChatToolCall| tool_use_block_of(tc),
                        ),
                    decreases calls.len() - i,
                {
                    let block = tool_use_block_exec(&calls[i]);
                    proof {
                        lemma_jviews_push(blocks@, block);
                    }
                    blocks.push(block);
                    assert(calls@.take(i + 1) =~= calls@.take(i as int).push(calls@[i as int]));
                    assert(calls@.take(i + 1).map_values(|tc: ChatToolCall| tool_use_block_of(tc))
                        =~= calls@.take(i as int).map_values(|tc: ChatToolCall| tool_use_block_of(tc)).push(
                        tool_use_block_of(calls@[i as int]),
                    ));
                    i = i + 1;
                }
                assert(calls@.take(calls@.len() as int) =~= calls@);
            },
            None => {
                assert(jviews(blocks@) =~= text_blocks + Seq::<JsonV>::empty());
            },
        }
        proof {
            if resp.choices@.len() > 0 {
                let m = resp.choices@[0].message;
                assert(m == message);
            }
        }
        assert(jviews(blocks@) =~= anthropic_blocks_of(*resp));
    } else {
        proof {
            lemma_jviews(blocks@);
        }
        assert(jviews(blocks@) =~= anthropic_blocks_of(*resp));
    }
    let ghost fv = if resp.choices@.len() == 0 {
        None
    } else {
        opt_str(resp.choices@[0].finish_reason)
    };
    assert(match finish {
        Some(f) => Some(f@),
        None => None,
    } == fv);
    let stop_reason = stop_reason_exec(finish);
    let ghost bv = jviews(blocks@);
    let mut es: Vec<(String, Json)> = Vec::new();
    proof {
        lemma_jentries_empty(es@);
    }
    push_member(&mut es, "id", Json::Str(resp.id.clone()));
    push_member(&mut es, "type", Json::string("message"));
    push_member(&mut es, "role", Json::string("assistant"));
    push_member(&mut es, "model", Json::Str(resp.model.clone()));
    push_member(&mut es, "content", array_of(blocks));
    push_member(&mut es, "stop_reason", Json::Str(stop_reason));
    let ghost base = seq![
        ("id"@, JsonV::Str(resp.id@)),
        ("type"@, JsonV::Str("message"@)),
        ("role"@, JsonV::Str("assistant"@)),
        ("model"@, JsonV::Str(resp.model@)),
        ("content"@, JsonV::Array(bv)),
        ("stop_reason"@, JsonV::Str(finish_to_stop_reason(fv))),
    ];
    assert(jentries(es@) =~= base);
    match &resp.usage {
        Some(u) => {
            let usage = obj2(
                "input_tokens",
                Json::from_u64(u.prompt_tokens as u64),
                "output_tokens",
                Json::from_u64(u.completion_tokens as u64),
            );
            let ghost uv = usage@;
            push_member(&mut es, "usage", usage);
            assert(jentries(es@) =~= base.push(("usage"@, uv)));
        },
        None => {},
    }
    Json::Object(es)
}

/// A request object with its `model` replaced by `upstream_model`; a value
/// that is not an object is kept as it is.
pub open spec fn with_model(request: JsonV, upstream_model: Seq<char>) -> JsonV {
    match request {
        JsonV::Object(es) => JsonV::Object(
            crate::json::obj_insert(es, "model"@, JsonV::Str(upstream_model)),
        ),
        other => other,
    }
}

/// The request to send upstream when a route names another model for it
/// (see [`with_model`]).
pub fn with_upstream_model(request: &Json, upstream_model: &str) -> (r: Json)
    ensures
        r@ == with_model(request@, upstream_model@),
{
    let mut out = request.deep_clone();
    out.insert("model", Json::string(upstream_model));
    out
}

} // verus!
