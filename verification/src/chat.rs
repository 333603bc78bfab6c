//! Chat Completions traffic carried to upstreams that speak another API:
//! a Chat request read into the Responses form, and Responses results
//! written back as Chat completions.

use vstd::prelude::*;
use crate::convert::requests::{join_with, or_empty};
use crate::json::{
    jarr, jbool, jentries, jget, jget_str, ju64, jview, jviews, json_text, lemma_jviews, lemma_jviews_push,
    array1, lemma_jentries_empty, obj2, obj3, push_member, to_json_text, Json, JsonV,
};
use crate::text::{decimal, owned, str_eq};
use crate::types::{
    opt_str,    ResponsesInput, ResponsesInputItem, ResponsesInputItemV, ResponsesInputV, ResponsesRequest,
    ResponsesRequestV, ResponsesTool, ResponsesToolV, ResponseContentPart, ResponseOutputItem,
    ResponsesResponse,
};

verus! {

// ─── Chat request → Responses request ───

/// The part type of text in a message of `role`.
pub open spec fn text_part_type(role: Seq<char>) -> Seq<char> {
    if role == "assistant"@ {
        "output_text"@
    } else {
        "input_text"@
    }
}

/// `{"type": kind, "text": text}`.
pub open spec fn text_part(kind: Seq<char>, text: Seq<char>) -> JsonV {
    JsonV::Object(seq![("type"@, JsonV::Str(kind)), ("text"@, JsonV::Str(text))])
}

/// A `message` input item of `role` holding the given content parts.
pub open spec fn message_item(role: Seq<char>, parts: Seq<JsonV>) -> ResponsesInputItemV {
    ResponsesInputItemV {
        item_type: Some("message"@),
        role: Some(role),
        content: Some(JsonV::Array(parts)),
        reasoning_content: None,
        call_id: None,
        name: None,
        arguments: None,
        output: None,
    }
}

/// The parts kept from a Chat content array: each part with a string
/// `type` and a string `text`, a `text` part retyped for `role`.
pub open spec fn kept_parts(role: Seq<char>, parts: Seq<JsonV>) -> Seq<JsonV>
    decreases parts.len(),
{
    if parts.len() == 0 {
        Seq::empty()
    } else {
        let rest = kept_parts(role, parts.drop_last());
        let p = parts.last();
        match (jget_str(p, "type"@), jget_str(p, "text"@)) {
            (Some(kind), Some(text)) => {
                let k = if kind == "text"@ {
                    text_part_type(role)
                } else {
                    kind
                };
                rest.push(text_part(k, text))
            },
            _ => rest,
        }
    }
}

/// The input items for the content of a Chat message of `role`: a
/// non-empty string, or an array with kept parts, becomes one message;
/// anything else becomes nothing.
pub open spec fn role_content_items(role: Seq<char>, content: JsonV) -> Seq<ResponsesInputItemV> {
    match content {
        JsonV::Str(text) => {
            if text.len() > 0 {
                let part = text_part(text_part_type(role), text);
                seq![message_item(role, seq![part])]
            } else {
                Seq::empty()
            }
        },
        JsonV::Array(parts) => {
            let kept = kept_parts(role, parts);
            if kept.len() > 0 {
                seq![message_item(role, kept)]
            } else {
                Seq::empty()
            }
        },
        _ => Seq::empty(),
    }
}

pub open spec fn items_view(s: Seq<ResponsesInputItem>) -> Seq<ResponsesInputItemV> {
    s.map_values(|i: ResponsesInputItem| i@)
}

pub(crate) fn part_type_for(role: &str) -> (r: &'static str)
    ensures
        r@ == text_part_type(role@),
{
    if str_eq(role, "assistant") {
        "output_text"
    } else {
        "input_text"
    }
}

pub(crate) fn text_part_exec(kind: &str, text: &str) -> (r: Json)
    ensures
        r@ == text_part(kind@, text@),
{
    obj2("type", Json::string(kind), "text", Json::string(text))
}

pub(crate) fn message_item_exec(role: &str, parts: Vec<Json>) -> (r: ResponsesInputItem)
    ensures
        r@ == message_item(role@, jviews(parts@)),
{
    ResponsesInputItem {
        item_type: Some(owned("message")),
        role: Some(owned(role)),
        content: Some(Json::Array(parts)),
        reasoning_content: None,
        call_id: None,
        name: None,
        arguments: None,
        output: None,
    }
}

fn kept_parts_exec(role: &str, parts: &Vec<Json>) -> (r: Vec<Json>)
    ensures
        jviews(r@) == kept_parts(role@, jviews(parts@)),
{
    proof {
        lemma_jviews(parts@);
    }
    let ghost ps = jviews(parts@);
    let text_kind = part_type_for(role);
    let mut out: Vec<Json> = Vec::new();
    let mut i: usize = 0;
    while i < parts.len()
        invariant
            i <= parts@.len(),
            ps == jviews(parts@),
            ps.len() == parts@.len(),
            forall|j: int| 0 <= j < ps.len() ==> #[trigger] ps[j] == jview(parts@[j]),
            text_kind@ == text_part_type(role@),
            jviews(out@) == kept_parts(role@, ps.take(i as int)),
        decreases parts.len() - i,
    {
        assert(ps.take(i + 1).drop_last() =~= ps.take(i as int));
        assert(ps.take(i + 1).last() == ps[i as int]);
        let p = &parts[i];
        match (p.get_str("type"), p.get_str("text")) {
            (Some(kind), Some(text)) => {
                let k = if str_eq(kind, "text") {
                    text_kind
                } else {
                    kind
                };
                let part = text_part_exec(k, text);
                proof {
                    lemma_jviews_push(out@, part);
                }
                out.push(part);
            },
            _ => {},
        }
        i = i + 1;
    }
    assert(ps.take(ps.len() as int) =~= ps);
    out
}

/// The Responses input items for the content of a Chat message of `role`
/// (see [`role_content_items`]).
pub fn chat_role_content_to_responses_items(role: &str, content: &Json) -> (r: Vec<ResponsesInputItem>)
    ensures
        items_view(r@) == role_content_items(role@, content@),
{
    let mut out: Vec<ResponsesInputItem> = Vec::new();
    match content {
        Json::Str(text) => {
            if text.as_str().unicode_len() > 0 {
                let part = text_part_exec(part_type_for(role), text.as_str());
                let mut parts: Vec<Json> = Vec::new();
                parts.push(part);
                proof {
                    lemma_jviews(parts@);
                    assert(jviews(parts@) =~= seq![part@]);
                }
                let item = message_item_exec(role, parts);
                out.push(item);
                assert(items_view(out@) =~= seq![item@]);
            }
        },
        Json::Array(parts) => {
            let kept = kept_parts_exec(role, parts);
            proof {
                lemma_jviews(kept@);
            }
            if kept.len() > 0 {
                let item = message_item_exec(role, kept);
                out.push(item);
                assert(items_view(out@) =~= seq![item@]);
            }
        },
        _ => {},
    }
    assert(items_view(out@) =~= role_content_items(role@, content@));
    out
}

/// The role of a Chat message, `user` when it has none.
pub open spec fn msg_role(m: JsonV) -> Seq<char> {
    match jget_str(m, "role"@) {
        Some(r) => r,
        None => "user"@,
    }
}

/// The content of a Chat message, `null` when it has none.
pub open spec fn content_or_null(m: JsonV) -> JsonV {
    match jget(m, "content"@) {
        Some(c) => c,
        None => JsonV::Null,
    }
}

pub open spec fn is_instruction_role(role: Seq<char>) -> bool {
    role == "system"@ || role == "developer"@
}

/// The output text of a tool message: a string as it is, any other value
/// as its JSON text, nothing when absent.
pub open spec fn output_text_of(content: Option<JsonV>) -> Seq<char> {
    match content {
        Some(JsonV::Str(s)) => s,
        Some(other) => json_text(other),
        None => Seq::empty(),
    }
}

/// A string member of a tool call's `function` object.
pub open spec fn fn_member(tc: JsonV, key: Seq<char>) -> Option<Seq<char>> {
    match jget(tc, "function"@) {
        Some(f) => jget_str(f, key),
        None => None,
    }
}

/// The `function_call` item for a Chat tool call.
pub open spec fn call_item(tc: JsonV) -> ResponsesInputItemV {
    ResponsesInputItemV {
        item_type: Some("function_call"@),
        role: None,
        content: None,
        reasoning_content: None,
        call_id: Some(or_empty(jget_str(tc, "id"@))),
        name: Some(or_empty(fn_member(tc, "name"@))),
        arguments: Some(
            match fn_member(tc, "arguments"@) {
                Some(a) => a,
                None => "{}"@,
            },
        ),
        output: None,
    }
}

/// The `function_call_output` item for a Chat tool message.
pub open spec fn output_item(m: JsonV) -> ResponsesInputItemV {
    ResponsesInputItemV {
        item_type: Some("function_call_output"@),
        role: None,
        content: None,
        reasoning_content: None,
        call_id: Some(or_empty(jget_str(m, "tool_call_id"@))),
        name: None,
        arguments: None,
        output: Some(output_text_of(jget(m, "content"@))),
    }
}

pub open spec fn tool_calls_of(m: JsonV) -> Seq<JsonV> {
    match jarr(jget(m, "tool_calls"@)) {
        Some(a) => a,
        None => Seq::empty(),
    }
}

/// The input items of one Chat message: none for a system or developer
/// message (its text goes to the instructions), a `function_call_output`
/// for a tool message, the tool calls then the content for an assistant
/// message, and the content as a user message for any other role.
pub open spec fn chat_message_items(m: JsonV) -> Seq<ResponsesInputItemV> {
    let role = msg_role(m);
    if is_instruction_role(role) {
        Seq::empty()
    } else if role == "tool"@ {
        seq![output_item(m)]
    } else if role == "assistant"@ {
        tool_calls_of(m).map_values(|tc: JsonV| call_item(tc)) + role_content_items(
            "assistant"@,
            content_or_null(m),
        )
    } else {
        role_content_items("user"@, content_or_null(m))
    }
}

/// The instruction text a Chat message contributes: the string content of
/// a system or developer message.
pub open spec fn instruction_of(m: JsonV) -> Option<Seq<char>> {
    if is_instruction_role(msg_role(m)) {
        jget_str(m, "content"@)
    } else {
        None
    }
}

pub open spec fn chat_messages_items(ms: Seq<JsonV>) -> Seq<ResponsesInputItemV>
    decreases ms.len(),
{
    if ms.len() == 0 {
        Seq::empty()
    } else {
        chat_messages_items(ms.drop_last()) + chat_message_items(ms.last())
    }
}

pub open spec fn chat_instructions(ms: Seq<JsonV>) -> Seq<Seq<char>>
    decreases ms.len(),
{
    if ms.len() == 0 {
        Seq::empty()
    } else {
        let rest = chat_instructions(ms.drop_last());
        match instruction_of(ms.last()) {
            Some(t) => rest.push(t),
            None => rest,
        }
    }
}

/// The Responses tool for a Chat tool with a named `function`.
pub open spec fn chat_tool_of(t: JsonV) -> Option<ResponsesToolV> {
    match jget(t, "function"@) {
        Some(f) => match jget_str(f, "name"@) {
            Some(n) => Some(
                ResponsesToolV {
                    tool_type: "function"@,
                    name: Some(n),
                    description: jget_str(f, "description"@),
                    parameters: jget(f, "parameters"@),
                },
            ),
            None => None,
        },
        None => None,
    }
}

pub open spec fn chat_tools_of(ts: Seq<JsonV>) -> Seq<ResponsesToolV>
    decreases ts.len(),
{
    if ts.len() == 0 {
        Seq::empty()
    } else {
        let rest = chat_tools_of(ts.drop_last());
        match chat_tool_of(ts.last()) {
            Some(t) => rest.push(t),
            None => rest,
        }
    }
}

/// The text of a JSON number (`as_f64` succeeds on every number).
pub open spec fn number_text(v: Option<JsonV>) -> Option<Seq<char>> {
    match v {
        Some(JsonV::Number(t)) => Some(t),
        _ => None,
    }
}

/// `max_tokens` (or, when that key is absent, `max_completion_tokens`) as
/// an unsigned integer, truncated to 32 bits.
pub open spec fn chat_max_output_tokens(v: JsonV) -> Option<u32> {
    let src = match jget(v, "max_tokens"@) {
        Some(x) => Some(x),
        None => jget(v, "max_completion_tokens"@),
    };
    match ju64(src) {
        Some(n) => Some(n as u32),
        None => None,
    }
}

/// Instruction texts joined by blank lines, `None` when there are none.
pub open spec fn joined_instructions(parts: Seq<Seq<char>>) -> Option<Seq<char>> {
    if parts.len() == 0 {
        None
    } else {
        Some(join_with(parts, "\n\n"@))
    }
}

pub open spec fn messages_of(v: JsonV) -> Seq<JsonV> {
    match jarr(jget(v, "messages"@)) {
        Some(a) => a,
        None => Seq::empty(),
    }
}

/// The Responses form of a Chat request object.
pub open spec fn responses_request_from_chat(v: JsonV) -> ResponsesRequestV {
    let ms = messages_of(v);
    ResponsesRequestV {
        model: or_empty(jget_str(v, "model"@)),
        instructions: joined_instructions(chat_instructions(ms)),
        input: ResponsesInputV::Items(chat_messages_items(ms)),
        stream: jbool(jget(v, "stream"@)),
        temperature: number_text(jget(v, "temperature"@)),
        top_p: number_text(jget(v, "top_p"@)),
        max_output_tokens: chat_max_output_tokens(v),
        tools: match jarr(jget(v, "tools"@)) {
            Some(ts) => Some(chat_tools_of(ts)),
            None => None,
        },
        tool_choice: jget(v, "tool_choice"@),
        extra: Seq::empty(),
    }
}

/// What a Chat request becomes as a Responses request: model, stream flag
/// and tool choice carry over; a system or developer message gives no
/// input item (its text goes to the instructions); a tool message answers
/// its call as a `function_call_output` carrying the `tool_call_id` and
/// the text it returned; each tool call of an assistant message becomes a
/// `function_call` item with the call's id, function name and arguments
/// text unchanged.
pub proof fn lemma_responses_request_from_chat(v: JsonV, m: JsonV, tc: JsonV)
    ensures
        jget_str(v, "model"@) matches Some(x) ==> responses_request_from_chat(v).model == x,
        responses_request_from_chat(v).stream == jbool(jget(v, "stream"@)),
        responses_request_from_chat(v).tool_choice == jget(v, "tool_choice"@),
        is_instruction_role(msg_role(m)) ==> chat_message_items(m).len() == 0,
        msg_role(m) == "tool"@ ==> ({
            let it = chat_message_items(m);
            &&& it.len() == 1
            &&& it[0].item_type == Some("function_call_output"@)
            &&& (jget_str(m, "tool_call_id"@) matches Some(id) ==> it[0].call_id == Some(id))
            &&& (jget_str(m, "content"@) matches Some(t) ==> it[0].output == Some(t))
        }),
        call_item(tc).item_type == Some("function_call"@),
        jget_str(tc, "id"@) matches Some(id) ==> call_item(tc).call_id == Some(id),
        fn_member(tc, "name"@) matches Some(n) ==> call_item(tc).name == Some(n),
        fn_member(tc, "arguments"@) matches Some(a) ==> call_item(tc).arguments == Some(a),
{
    reveal_strlit("tool");
    reveal_strlit("system");
    reveal_strlit("developer");
    assert("tool"@.len() != "system"@.len());
    assert("tool"@.len() != "developer"@.len());
}

fn string_member_or(v: &Json, key: &str, default: &str) -> (r: String)
    ensures
        r@ == match jget_str(v@, key@) {
            Some(s) => s,
            None => default@,
        },
{
    match v.get_str(key) {
        Some(s) => owned(s),
        None => owned(default),
    }
}

fn fn_member_exec<'a>(tc: &'a Json, key: &str) -> (r: Option<&'a str>)
    ensures
        r matches Some(s) ==> fn_member(tc@, key@) == Some(s@),
        r is None ==> fn_member(tc@, key@) is None,
{
    match tc.get("function") {
        Some(f) => f.get_str(key),
        None => None,
    }
}

fn call_item_exec(tc: &Json) -> (r: ResponsesInputItem)
    ensures
        r@ == call_item(tc@),
{
    let call_id = match tc.get_str("id") {
        Some(s) => owned(s),
        None => String::new(),
    };
    let name = match fn_member_exec(tc, "name") {
        Some(n) => owned(n),
        None => String::new(),
    };
    let arguments = match fn_member_exec(tc, "arguments") {
        Some(a) => owned(a),
        None => owned("{}"),
    };
    ResponsesInputItem {
        item_type: Some(owned("function_call")),
        role: None,
        content: None,
        reasoning_content: None,
        call_id: Some(call_id),
        name: Some(name),
        arguments: Some(arguments),
        output: None,
    }
}

pub(crate) fn output_text_exec(content: Option<&Json>) -> (r: String)
    ensures
        r@ == output_text_of(
            match content {
                Some(c) => Some(c@),
                None => None,
            },
        ),
{
    match content {
        Some(c) => match c.as_str() {
            Some(s) => owned(s),
            None => to_json_text(c),
        },
        None => String::new(),
    }
}

fn output_item_exec(m: &Json) -> (r: ResponsesInputItem)
    ensures
        r@ == output_item(m@),
{
    let call_id = match m.get_str("tool_call_id") {
        Some(s) => owned(s),
        None => String::new(),
    };
    let output = output_text_exec(m.get("content"));
    ResponsesInputItem {
        item_type: Some(owned("function_call_output")),
        role: None,
        content: None,
        reasoning_content: None,
        call_id: Some(call_id),
        name: None,
        arguments: None,
        output: Some(output),
    }
}

/// The input items of one Chat message, and the instruction text it
/// contributes.
fn chat_message_to_items(m: &Json) -> (r: (Vec<ResponsesInputItem>, Option<String>))
    ensures
        items_view(r.0@) == chat_message_items(m@),
        r.1 matches Some(t) ==> instruction_of(m@) == Some(t@),
        r.1 is None ==> instruction_of(m@) is None,
{
    let role = match m.get_str("role") {
        Some(r) => r,
        None => "user",
    };
    assert(role@ == msg_role(m@));
    let mut items: Vec<ResponsesInputItem> = Vec::new();
    if str_eq(role, "system") || str_eq(role, "developer") {
        let text = match m.get_str("content") {
            Some(t) => Some(owned(t)),
            None => None,
        };
        assert(items_view(items@) =~= Seq::<ResponsesInputItemV>::empty());
        return (items, text);
    }
    let null = Json::Null;
    let content = match m.get("content") {
        Some(c) => c,
        None => &null,
    };
    assert(content@ == content_or_null(m@));
    if str_eq(role, "tool") {
        let item = output_item_exec(m);
        items.push(item);
        assert(items_view(items@) =~= seq![item@]);
    } else if str_eq(role, "assistant") {
        match m.get_array("tool_calls") {
            Some(calls) => {
                proof {
                    lemma_jviews(calls@);
                }
                let ghost cs = jviews(calls@);
                let mut i: usize = 0;
                while i < calls.len()
                    invariant
                        i <= calls@.len(),
                        cs == jviews(calls@),
                        cs.len() == calls@.len(),
                        forall|j: int| 0 <= j < cs.len() ==> #[trigger] cs[j] == jview(calls@[j]),
                        items_view(items@) == cs.take(i as int).map_values(|tc: JsonV| call_item(tc)),
                    decreases calls.len() - i,
                {
                    let item = call_item_exec(&calls[i]);
                    let ghost before = items@;
                    items.push(item);
                    assert(items_view(items@) =~= items_view(before).push(item@));
                    assert(cs.take(i + 1) =~= cs.take(i as int).push(cs[i as int]));
                    assert(cs.take(i + 1).map_values(|tc: JsonV| call_item(tc)) =~= cs.take(
                        i as int,
                    ).map_values(|tc: JsonV| call_item(tc)).push(call_item(cs[i as int])));
                    i = i + 1;
                }
                assert(cs.take(cs.len() as int) =~= cs);
            },
            None => {
                assert(items_view(items@) =~= tool_calls_of(m@).map_values(|tc: JsonV| call_item(tc)));
            },
        }
        let ghost calls_part = items_view(items@);
        let mut rest = chat_role_content_to_responses_items("assistant", content);
        let ghost rest_v = items_view(rest@);
        items.append(&mut rest);
        assert(items_view(items@) =~= calls_part + rest_v);
    } else {
        items = chat_role_content_to_responses_items("user", content);
    }
    (items, None)
}

fn chat_tool_exec(t: &Json) -> (r: Option<ResponsesTool>)
    ensures
        r matches Some(x) ==> chat_tool_of(t@) == Some(x@),
        r is None ==> chat_tool_of(t@) is None,
{
    match t.get("function") {
        Some(f) => match f.get_str("name") {
            Some(n) => {
                let description = match f.get_str("description") {
                    Some(d) => Some(owned(d)),
                    None => None,
                };
                let parameters = match f.get("parameters") {
                    Some(p) => Some(p.deep_clone()),
                    None => None,
                };
                Some(
                    ResponsesTool {
                        tool_type: owned("function"),
                        name: Some(owned(n)),
                        description,
                        parameters,
                    },
                )
            },
            None => None,
        },
        None => None,
    }
}

pub open spec fn tools_view(s: Seq<ResponsesTool>) -> Seq<ResponsesToolV> {
    s.map_values(|t: ResponsesTool| t@)
}

fn chat_tools_exec(ts: &Vec<Json>) -> (r: Vec<ResponsesTool>)
    ensures
        tools_view(r@) == chat_tools_of(jviews(ts@)),
{
    proof {
        lemma_jviews(ts@);
    }
    let ghost tv = jviews(ts@);
    let mut out: Vec<ResponsesTool> = Vec::new();
    let mut i: usize = 0;
    while i < ts.len()
        invariant
            i <= ts@.len(),
            tv == jviews(ts@),
            tv.len() == ts@.len(),
            forall|j: int| 0 <= j < tv.len() ==> #[trigger] tv[j] == jview(ts@[j]),
            tools_view(out@) == chat_tools_of(tv.take(i as int)),
        decreases ts.len() - i,
    {
        assert(tv.take(i + 1).drop_last() =~= tv.take(i as int));
        assert(tv.take(i + 1).last() == tv[i as int]);
        match chat_tool_exec(&ts[i]) {
            Some(t) => {
                let ghost before = out@;
                out.push(t);
                assert(tools_view(out@) =~= tools_view(before).push(t@));
            },
            None => {},
        }
        i = i + 1;
    }
    assert(tv.take(tv.len() as int) =~= tv);
    out
}

pub(crate) fn number_text_exec(v: Option<&Json>) -> (r: Option<String>)
    ensures
        opt_str(r) == number_text(
            match v {
                Some(x) => Some(x@),
                None => None,
            },
        ),
{
    match v {
        Some(Json::Number(t)) => Some(t.clone()),
        _ => None,
    }
}

/// A Chat Completions request object in the Responses form (see
/// [`responses_request_from_chat`]); fails on a value that is not an
/// object or has no string `model`.
pub fn chat_value_to_responses_request(value: &Json) -> (r: Result<ResponsesRequest, String>)
    ensures
        !(value@ is Object) ==> (r matches Err(e) && e@ == "chat request must be a JSON object"@),
        value@ is Object && jget_str(value@, "model"@) is None ==> (r matches Err(e) && e@
            == "chat request missing `model`"@),
        value@ is Object && jget_str(value@, "model"@) is Some ==> (r matches Ok(q) && q@
            == responses_request_from_chat(value@)),
{
    if !value.is_object() {
        return Err(owned("chat request must be a JSON object"));
    }
    let model = match value.get_str("model") {
        Some(m) => owned(m),
        None => {
            return Err(owned("chat request missing `model`"));
        },
    };
    let stream = value.get_bool("stream");
    let temperature = number_text_exec(value.get("temperature"));
    let top_p = number_text_exec(value.get("top_p"));
    let max_source = match value.get("max_tokens") {
        Some(x) => Some(x),
        None => value.get("max_completion_tokens"),
    };
    let max_output_tokens = match max_source {
        Some(x) => match x.as_u64() {
            Some(n) => Some(n as u32),
            None => None,
        },
        None => None,
    };
    let mut instructions = String::new();
    let mut instruction_count: usize = 0;
    let mut items: Vec<ResponsesInputItem> = Vec::new();
    let ghost ms = messages_of(value@);
    match value.get_array("messages") {
        Some(messages) => {
            proof {
                lemma_jviews(messages@);
            }
            assert(ms == jviews(messages@));
            let mut i: usize = 0;
            while i < messages.len()
                invariant
                    i <= messages@.len(),
                    ms == jviews(messages@),
                    ms.len() == messages@.len(),
                    forall|j: int| 0 <= j < ms.len() ==> #[trigger] ms[j] == jview(messages@[j]),
                    items_view(items@) == chat_messages_items(ms.take(i as int)),
                    instruction_count == chat_instructions(ms.take(i as int)).len(),
                    instruction_count <= i,
                    instructions@ == join_with(chat_instructions(ms.take(i as int)), "\n\n"@),
                decreases messages.len() - i,
            {
                assert(ms.take(i + 1).drop_last() =~= ms.take(i as int));
                assert(ms.take(i + 1).last() == ms[i as int]);
                let (mut new_items, text) = chat_message_to_items(&messages[i]);
                let ghost before = items_view(items@);
                let ghost added = items_view(new_items@);
                items.append(&mut new_items);
                assert(items_view(items@) =~= before + added);
                let ghost prev = chat_instructions(ms.take(i as int));
                match text {
                    Some(t) => {
                        assert(chat_instructions(ms.take(i + 1)) == prev.push(t@));
                        if instruction_count > 0 {
                            instructions.append("\n\n");
                            assert(prev.push(t@).drop_last() =~= prev);
                        } else {
                            assert(instructions@ =~= Seq::<char>::empty());
                            assert(Seq::<char>::empty() + t@ =~= t@);
                        }
                        instructions.append(t.as_str());
                        instruction_count = instruction_count + 1;
                    },
                    None => {},
                }
                i = i + 1;
            }
            assert(ms.take(ms.len() as int) =~= ms);
        },
        None => {
            assert(ms =~= Seq::<JsonV>::empty());
            assert(items_view(items@) =~= Seq::<ResponsesInputItemV>::empty());
        },
    }
    let tools = match value.get_array("tools") {
        Some(ts) => Some(chat_tools_exec(ts)),
        None => None,
    };
    let tool_choice = match value.get("tool_choice") {
        Some(tc) => Some(tc.deep_clone()),
        None => None,
    };
    let req = ResponsesRequest {
        model,
        instructions: if instruction_count == 0 {
            None
        } else {
            Some(instructions)
        },
        input: ResponsesInput::Items(items),
        stream,
        temperature,
        top_p,
        max_output_tokens,
        tools,
        tool_choice,
        extra: Vec::new(),
    };
    proof {
        assert(jentries(req.extra@) =~= Seq::<(Seq<char>, JsonV)>::empty());
    }
    Ok(req)
}

} // verus!

verus! {

// ─── Responses result → Chat completion ───

/// A Chat tool call: `{"id", "type": "function", "function": {"name", "arguments"}}`.
pub open spec fn tool_call_value(id: JsonV, name: JsonV, arguments: JsonV) -> JsonV {
    let function = JsonV::Object(seq![("name"@, name), ("arguments"@, arguments)]);
    JsonV::Object(
        seq![("id"@, id), ("type"@, JsonV::Str("function"@)), ("function"@, function)],
    )
}

/// The assistant message of a Chat completion: its text (`null` when
/// empty), the reasoning text when there is one, and the tool calls when
/// there are any.
pub open spec fn chat_message_value(
    text: Seq<char>,
    reasoning: Option<Seq<char>>,
    calls: Seq<JsonV>,
) -> JsonV {
    let content = if text.len() == 0 {
        JsonV::Null
    } else {
        JsonV::Str(text)
    };
    let base = seq![("role"@, JsonV::Str("assistant"@)), ("content"@, content)];
    let with_reasoning = match reasoning {
        Some(r) => base.push(("reasoning_content"@, JsonV::Str(r))),
        None => base,
    };
    if calls.len() > 0 {
        JsonV::Object(with_reasoning.push(("tool_calls"@, JsonV::Array(calls))))
    } else {
        JsonV::Object(with_reasoning)
    }
}

/// `tool_calls` when any tool was called, `stop` otherwise.
pub open spec fn finish_of(calls: Seq<JsonV>) -> Seq<char> {
    if calls.len() > 0 {
        "tool_calls"@
    } else {
        "stop"@
    }
}

/// A `chat.completion` object with one choice.
pub open spec fn chat_completion_value(
    id: JsonV,
    created: JsonV,
    model: JsonV,
    message: JsonV,
    finish: Seq<char>,
    usage: JsonV,
) -> JsonV {
    let choice = JsonV::Object(
        seq![
            ("index"@, JsonV::Number(decimal(0))),
            ("message"@, message),
            ("finish_reason"@, JsonV::Str(finish)),
        ],
    );
    JsonV::Object(
        seq![
            ("id"@, id),
            ("object"@, JsonV::Str("chat.completion"@)),
            ("created"@, created),
            ("model"@, model),
            ("choices"@, JsonV::Array(seq![choice])),
            ("usage"@, usage),
        ],
    )
}

/// A JSON number for a count.
pub open spec fn count_value(n: nat) -> JsonV {
    JsonV::Number(decimal(n))
}

/// The texts of a message's content parts, concatenated.
pub open spec fn parts_text(parts: Seq<ResponseContentPart>) -> Seq<char>
    decreases parts.len(),
{
    if parts.len() == 0 {
        Seq::empty()
    } else {
        parts_text(parts.drop_last()) + parts.last().text@
    }
}

/// The texts of all output messages, concatenated.
pub open spec fn output_texts(items: Seq<ResponseOutputItem>) -> Seq<char>
    decreases items.len(),
{
    if items.len() == 0 {
        Seq::empty()
    } else {
        let t = match items.last() {
            ResponseOutputItem::Message { content, .. } => parts_text(content@),
            ResponseOutputItem::FunctionCall { .. } => Seq::empty(),
        };
        output_texts(items.drop_last()) + t
    }
}

/// The reasoning text of the last output message that has one.
pub open spec fn output_reasoning(items: Seq<ResponseOutputItem>) -> Option<Seq<char>>
    decreases items.len(),
{
    if items.len() == 0 {
        None
    } else {
        match items.last() {
            ResponseOutputItem::Message { reasoning_content: Some(r), .. } => Some(r@),
            _ => output_reasoning(items.drop_last()),
        }
    }
}

/// The function calls of the output, as Chat tool calls.
pub open spec fn output_calls(items: Seq<ResponseOutputItem>) -> Seq<JsonV>
    decreases items.len(),
{
    if items.len() == 0 {
        Seq::empty()
    } else {
        let rest = output_calls(items.drop_last());
        match items.last() {
            ResponseOutputItem::FunctionCall { call_id, name, arguments, .. } => rest.push(
                tool_call_value(JsonV::Str(call_id@), JsonV::Str(name@), JsonV::Str(arguments@)),
            ),
            _ => rest,
        }
    }
}

/// A Responses response as a Chat completion: the message texts joined,
/// the last reasoning text, each function call as a tool call (finishing
/// with `tool_calls`), and the token counts renamed.
pub open spec fn chat_value_of_response(resp: ResponsesResponse) -> JsonV {
    let calls = output_calls(resp.output@);
    let usage = JsonV::Object(
        seq![
            ("prompt_tokens"@, count_value(resp.usage.input_tokens as nat)),
            ("completion_tokens"@, count_value(resp.usage.output_tokens as nat)),
            ("total_tokens"@, count_value(resp.usage.total_tokens as nat)),
        ],
    );
    chat_completion_value(
        JsonV::Str(resp.id@),
        count_value(resp.created_at as nat),
        JsonV::Str(resp.model@),
        chat_message_value(output_texts(resp.output@), output_reasoning(resp.output@), calls),
        finish_of(calls),
        usage,
    )
}

/// Whether some output item is a function call.
pub open spec fn has_function_call(items: Seq<ResponseOutputItem>) -> bool {
    exists|i: int| 0 <= i < items.len() && (#[trigger] items[i]) is FunctionCall
}

proof fn lemma_output_calls_nonempty(items: Seq<ResponseOutputItem>)
    ensures
        output_calls(items).len() > 0 <==> has_function_call(items),
    decreases items.len(),
{
    if items.len() > 0 {
        let p = items.drop_last();
        lemma_output_calls_nonempty(p);
        if has_function_call(p) {
            let i = choose|i: int| 0 <= i < p.len() && (#[trigger] p[i]) is FunctionCall;
            assert(items[i] == p[i]);
        }
        if has_function_call(items) && !(items.last() is FunctionCall) {
            let i = choose|i: int| 0 <= i < items.len() && (#[trigger] items[i]) is FunctionCall;
            assert(p[i] == items[i]);
        }
    }
}

/// What a Responses response becomes as a Chat completion: the one
/// choice finishes with `tool_calls` exactly when the output holds a
/// function call (else `stop`), and the token counts carry over by meaning
/// (Responses input as Chat prompt, output as completion, the total as the
/// total).
pub proof fn lemma_chat_answer_of_response(resp: ResponsesResponse)
    ensures
        ({
            let v = chat_value_of_response(resp);
            let choices = jarr(jget(v, "choices"@));
            let u = jget(v, "usage"@);
            &&& choices is Some && choices->0.len() == 1
            &&& has_function_call(resp.output@) ==> jget_str(choices->0[0], "finish_reason"@) == Some("tool_calls"@)
            &&& !has_function_call(resp.output@) ==> jget_str(choices->0[0], "finish_reason"@) == Some("stop"@)
            &&& u is Some
            &&& jget(u->0, "prompt_tokens"@) == Some(count_value(resp.usage.input_tokens as nat))
            &&& jget(u->0, "completion_tokens"@) == Some(count_value(resp.usage.output_tokens as nat))
            &&& jget(u->0, "total_tokens"@) == Some(count_value(resp.usage.total_tokens as nat))
        }),
{
    reveal_strlit("id");
    reveal_strlit("object");
    reveal_strlit("created");
    reveal_strlit("model");
    reveal_strlit("choices");
    reveal_strlit("usage");
    reveal_strlit("index");
    reveal_strlit("message");
    reveal_strlit("finish_reason");
    reveal_strlit("prompt_tokens");
    reveal_strlit("completion_tokens");
    reveal_strlit("total_tokens");
    lemma_output_calls_nonempty(resp.output@);
    let calls = output_calls(resp.output@);
    let usage = JsonV::Object(
        seq![
            ("prompt_tokens"@, count_value(resp.usage.input_tokens as nat)),
            ("completion_tokens"@, count_value(resp.usage.output_tokens as nat)),
            ("total_tokens"@, count_value(resp.usage.total_tokens as nat)),
        ],
    );
    let message = chat_message_value(output_texts(resp.output@), output_reasoning(resp.output@), calls);
    let choice_es = seq![
        ("index"@, JsonV::Number(decimal(0))),
        ("message"@, message),
        ("finish_reason"@, JsonV::Str(finish_of(calls))),
    ];
    let choice = JsonV::Object(choice_es);
    let es = seq![
        ("id"@, JsonV::Str(resp.id@)),
        ("object"@, JsonV::Str("chat.completion"@)),
        ("created"@, count_value(resp.created_at as nat)),
        ("model"@, JsonV::Str(resp.model@)),
        ("choices"@, JsonV::Array(seq![choice])),
        ("usage"@, usage),
    ];
    assert(chat_value_of_response(resp) == JsonV::Object(es));
    assert("model"@[0] != "usage"@[0]);
    assert forall|j: int| 0 <= j < 4 implies (#[trigger] es[j]).0 != "choices"@ by {
        if j == 2 {
            assert("created"@[1] != "choices"@[1]);
        } else {
            assert(es[j].0.len() != "choices"@.len());
        }
    }
    crate::json::lemma_obj_get_first(es, 4, "choices"@);
    assert forall|j: int| 0 <= j < 5 implies (#[trigger] es[j]).0 != "usage"@ by {
        assert(es[j].0.len() != "usage"@.len() || es[j].0[0] != "usage"@[0]);
    }
    crate::json::lemma_obj_get_first(es, 5, "usage"@);
    assert forall|j: int| 0 <= j < 2 implies (#[trigger] choice_es[j]).0 != "finish_reason"@ by {
        assert(choice_es[j].0.len() != "finish_reason"@.len());
    }
    crate::json::lemma_obj_get_first(choice_es, 2, "finish_reason"@);
    let us = usage->Object_0;
    crate::json::lemma_obj_get_first(us, 0, "prompt_tokens"@);
    assert(us[0].0.len() != "completion_tokens"@.len());
    crate::json::lemma_obj_get_first(us, 1, "completion_tokens"@);
    assert(us[0].0.len() != "total_tokens"@.len());
    assert(us[1].0.len() != "total_tokens"@.len());
    crate::json::lemma_obj_get_first(us, 2, "total_tokens"@);
}

fn tool_call_json(id: Json, name: Json, arguments: Json) -> (r: Json)
    ensures
        r@ == tool_call_value(id@, name@, arguments@),
{
    let function = obj2("name", name, "arguments", arguments);
    obj3("id", id, "type", Json::string("function"), "function", function)
}

fn chat_message_json(text: String, reasoning: Option<String>, calls: Vec<Json>) -> (r: Json)
    ensures
        r@ == chat_message_value(text@, opt_str(reasoning), jviews(calls@)),
{
    proof {
        lemma_jviews(calls@);
    }
    let ghost tv = text@;
    let ghost rv = opt_str(reasoning);
    let ghost cv = jviews(calls@);
    let mut es: Vec<(String, Json)> = Vec::new();
    proof {
        lemma_jentries_empty(es@);
    }
    push_member(&mut es, "role", Json::string("assistant"));
    let content = if text.as_str().unicode_len() == 0 {
        Json::Null
    } else {
        Json::Str(text)
    };
    push_member(&mut es, "content", content);
    let ghost content_v = if tv.len() == 0 {
        JsonV::Null
    } else {
        JsonV::Str(tv)
    };
    assert(content@ == content_v);
    let ghost base = seq![("role"@, JsonV::Str("assistant"@)), ("content"@, content_v)];
    assert(jentries(es@) =~= base);
    match reasoning {
        Some(r) => {
            push_member(&mut es, "reasoning_content", Json::Str(r));
        },
        None => {},
    }
    let ghost with_reasoning = match rv {
        Some(r) => base.push(("reasoning_content"@, JsonV::Str(r))),
        None => base,
    };
    assert(jentries(es@) =~= with_reasoning);
    if calls.len() > 0 {
        push_member(&mut es, "tool_calls", Json::Array(calls));
        assert(jentries(es@) =~= with_reasoning.push(("tool_calls"@, JsonV::Array(cv))));
    }
    Json::Object(es)
}

fn finish_exec(has_calls: bool) -> (r: &'static str)
    ensures
        has_calls ==> r@ == "tool_calls"@,
        !has_calls ==> r@ == "stop"@,
{
    if has_calls {
        "tool_calls"
    } else {
        "stop"
    }
}

fn chat_completion_json(
    id: Json,
    created: Json,
    model: Json,
    message: Json,
    finish: &str,
    usage: Json,
) -> (r: Json)
    ensures
        r@ == chat_completion_value(id@, created@, model@, message@, finish@, usage@),
{
    let ghost (iv, cv, mv, msv, uv) = (id@, created@, model@, message@, usage@);
    let choice = obj3("index", Json::from_u64(0), "message", message, "finish_reason", Json::string(finish));
    let ghost choice_v = choice@;
    let mut es: Vec<(String, Json)> = Vec::new();
    proof {
        lemma_jentries_empty(es@);
    }
    push_member(&mut es, "id", id);
    push_member(&mut es, "object", Json::string("chat.completion"));
    push_member(&mut es, "created", created);
    push_member(&mut es, "model", model);
    push_member(&mut es, "choices", array1(choice));
    push_member(&mut es, "usage", usage);
    assert(jentries(es@) =~= seq![
        ("id"@, iv),
        ("object"@, JsonV::Str("chat.completion"@)),
        ("created"@, cv),
        ("model"@, mv),
        ("choices"@, JsonV::Array(seq![choice_v])),
        ("usage"@, uv),
    ]);
    Json::Object(es)
}

fn append_parts_text(text: &mut String, parts: &Vec<ResponseContentPart>)
    ensures
        final(text)@ == old(text)@ + parts_text(parts@),
{
    let ghost start = text@;
    let mut i: usize = 0;
    while i < parts.len()
        invariant
            i <= parts@.len(),
            text@ == start + parts_text(parts@.take(i as int)),
        decreases parts.len() - i,
    {
        assert(parts@.take(i + 1).drop_last() =~= parts@.take(i as int));
        assert(parts@.take(i + 1).last() == parts@[i as int]);
        text.append(parts[i].text.as_str());
        i = i + 1;
    }
    assert(parts@.take(parts@.len() as int) =~= parts@);
}

/// A Responses response as a Chat completion object (see
/// [`chat_value_of_response`]).
pub fn responses_response_to_chat_value(resp: &ResponsesResponse) -> (r: Json)
    ensures
        r@ == chat_value_of_response(*resp),
{
    let mut text = String::new();
    let mut calls: Vec<Json> = Vec::new();
    let mut reasoning: Option<String> = None;
    let mut i: usize = 0;
    while i < resp.output.len()
        invariant
            i <= resp.output@.len(),
            text@ == output_texts(resp.output@.take(i as int)),
            jviews(calls@) == output_calls(resp.output@.take(i as int)),
            opt_str(reasoning) == output_reasoning(resp.output@.take(i as int)),
        decreases resp.output.len() - i,
    {
        let ghost items = resp.output@.take(i + 1);
        assert(items.drop_last() =~= resp.output@.take(i as int));
        assert(items.last() == resp.output@[i as int]);
        match &resp.output[i] {
            ResponseOutputItem::Message { content, reasoning_content, .. } => {
                match reasoning_content {
                    Some(r) => {
                        reasoning = Some(r.clone());
                    },
                    None => {},
                }
                assert(parts_text(Seq::<ResponseContentPart>::empty()) =~= Seq::<char>::empty());
                append_parts_text(&mut text, content);
            },
            ResponseOutputItem::FunctionCall { call_id, name, arguments, .. } => {
                let call = tool_call_json(
                    Json::Str(call_id.clone()),
                    Json::Str(name.clone()),
                    Json::Str(arguments.clone()),
                );
                proof {
                    lemma_jviews_push(calls@, call);
                }
                calls.push(call);
                assert(text@ =~= text@ + Seq::<char>::empty());
            },
        }
        i = i + 1;
    }
    assert(resp.output@.take(resp.output@.len() as int) =~= resp.output@);
    proof {
        lemma_jviews(calls@);
    }
    let has_calls = calls.len() > 0;
    let message = chat_message_json(text, reasoning, calls);
    let usage = obj3(
        "prompt_tokens",
        Json::from_u64(resp.usage.input_tokens as u64),
        "completion_tokens",
        Json::from_u64(resp.usage.output_tokens as u64),
        "total_tokens",
        Json::from_u64(resp.usage.total_tokens as u64),
    );
    chat_completion_json(
        Json::Str(resp.id.clone()),
        Json::from_u64(resp.created_at),
        Json::Str(resp.model.clone()),
        message,
        finish_exec(has_calls),
        usage,
    )
}

} // verus!

verus! {

/// A member of `v`, or `default` when absent.
pub open spec fn member_or(v: JsonV, key: Seq<char>, default: JsonV) -> JsonV {
    match jget(v, key) {
        Some(x) => x,
        None => default,
    }
}

/// The string `text` members of content parts, concatenated.
pub open spec fn part_texts(parts: Seq<JsonV>) -> Seq<char>
    decreases parts.len(),
{
    if parts.len() == 0 {
        Seq::empty()
    } else {
        part_texts(parts.drop_last()) + or_empty(jget_str(parts.last(), "text"@))
    }
}

pub open spec fn is_message_value(item: JsonV) -> bool {
    jget_str(item, "type"@) == Some("message"@)
}

/// The texts of all `message` output items, concatenated.
pub open spec fn value_texts(items: Seq<JsonV>) -> Seq<char>
    decreases items.len(),
{
    if items.len() == 0 {
        Seq::empty()
    } else {
        let it = items.last();
        let t = if is_message_value(it) {
            match jarr(jget(it, "content"@)) {
                Some(ps) => part_texts(ps),
                None => Seq::empty(),
            }
        } else {
            Seq::empty()
        };
        value_texts(items.drop_last()) + t
    }
}

/// The reasoning text of the last `message` output item with one.
pub open spec fn value_reasoning(items: Seq<JsonV>) -> Option<Seq<char>>
    decreases items.len(),
{
    if items.len() == 0 {
        None
    } else {
        let it = items.last();
        if is_message_value(it) && jget_str(it, "reasoning_content"@) is Some {
            jget_str(it, "reasoning_content"@)
        } else {
            value_reasoning(items.drop_last())
        }
    }
}

/// A `function_call` output item as a Chat tool call: its `call_id` (else
/// its `id`, else `null`), its `name` (else `null`) and its `arguments`
/// (else `"{}"`), each copied as it stands.
pub open spec fn value_call(item: JsonV) -> JsonV {
    let id = match jget(item, "call_id"@) {
        Some(x) => x,
        None => member_or(item, "id"@, JsonV::Null),
    };
    tool_call_value(
        id,
        member_or(item, "name"@, JsonV::Null),
        member_or(item, "arguments"@, JsonV::Str("{}"@)),
    )
}

pub open spec fn value_calls(items: Seq<JsonV>) -> Seq<JsonV>
    decreases items.len(),
{
    if items.len() == 0 {
        Seq::empty()
    } else {
        let rest = value_calls(items.drop_last());
        let it = items.last();
        if jget_str(it, "type"@) == Some("function_call"@) {
            rest.push(value_call(it))
        } else {
            rest
        }
    }
}

pub open spec fn zero_usage() -> JsonV {
    JsonV::Object(
        seq![
            ("prompt_tokens"@, count_value(0)),
            ("completion_tokens"@, count_value(0)),
            ("total_tokens"@, count_value(0)),
        ],
    )
}

/// A usage object with its counts under the Chat names (`prompt_tokens`,
/// else `input_tokens`; `completion_tokens`, else `output_tokens`;
/// `total_tokens`; `0` for a missing one); a non-object as it is.
pub open spec fn normalised_usage(u: JsonV) -> JsonV {
    if u is Object {
        let prompt = match jget(u, "prompt_tokens"@) {
            Some(x) => x,
            None => member_or(u, "input_tokens"@, count_value(0)),
        };
        let completion = match jget(u, "completion_tokens"@) {
            Some(x) => x,
            None => member_or(u, "output_tokens"@, count_value(0)),
        };
        JsonV::Object(
            seq![
                ("prompt_tokens"@, prompt),
                ("completion_tokens"@, completion),
                ("total_tokens"@, member_or(u, "total_tokens"@, count_value(0))),
            ],
        )
    } else {
        u
    }
}

/// Token counts of a raw Responses object in Chat names: the input count
/// as `prompt_tokens` and the output count as `completion_tokens` (Chat
/// names already there win), the total as `total_tokens`.
pub proof fn lemma_normalised_usage(u: JsonV)
    requires
        u is Object,
    ensures
        ({
            let r = normalised_usage(u);
            &&& jget(u, "prompt_tokens"@) is None && jget(u, "input_tokens"@) is Some ==> jget(r, "prompt_tokens"@) == jget(
                u,
                "input_tokens"@,
            )
            &&& jget(u, "completion_tokens"@) is None && jget(u, "output_tokens"@) is Some ==> jget(
                r,
                "completion_tokens"@,
            ) == jget(u, "output_tokens"@)
            &&& jget(u, "prompt_tokens"@) is Some ==> jget(r, "prompt_tokens"@) == jget(u, "prompt_tokens"@)
            &&& jget(u, "completion_tokens"@) is Some ==> jget(r, "completion_tokens"@) == jget(u, "completion_tokens"@)
            &&& jget(u, "total_tokens"@) is Some ==> jget(r, "total_tokens"@) == jget(u, "total_tokens"@)
        }),
{
    reveal_strlit("prompt_tokens");
    reveal_strlit("completion_tokens");
    reveal_strlit("total_tokens");
    let es = normalised_usage(u)->Object_0;
    crate::json::lemma_obj_get_first(es, 0, "prompt_tokens"@);
    assert(es[0].0.len() != "completion_tokens"@.len());
    crate::json::lemma_obj_get_first(es, 1, "completion_tokens"@);
    assert(es[0].0.len() != "total_tokens"@.len());
    assert(es[1].0.len() != "total_tokens"@.len());
    crate::json::lemma_obj_get_first(es, 2, "total_tokens"@);
}

/// A Chat tool call as written: its id, and a `function` holding the name
/// and the arguments exactly as given.
pub proof fn lemma_tool_call_value(id: JsonV, name: JsonV, arguments: JsonV)
    ensures
        jget(tool_call_value(id, name, arguments), "id"@) == Some(id),
        jget_str(tool_call_value(id, name, arguments), "type"@) == Some("function"@),
        jget(tool_call_value(id, name, arguments), "function"@) is Some,
        jget(jget(tool_call_value(id, name, arguments), "function"@)->0, "name"@) == Some(name),
        jget(jget(tool_call_value(id, name, arguments), "function"@)->0, "arguments"@) == Some(arguments),
{
    reveal_strlit("id");
    reveal_strlit("type");
    reveal_strlit("function");
    reveal_strlit("name");
    reveal_strlit("arguments");
    let es = tool_call_value(id, name, arguments)->Object_0;
    crate::json::lemma_obj_get_first(es, 0, "id"@);
    assert(es[0].0.len() != "type"@.len());
    crate::json::lemma_obj_get_first(es, 1, "type"@);
    assert(es[0].0.len() != "function"@.len());
    assert(es[1].0.len() != "function"@.len());
    crate::json::lemma_obj_get_first(es, 2, "function"@);
    let fs = seq![("name"@, name), ("arguments"@, arguments)];
    crate::json::lemma_obj_get_first(fs, 0, "name"@);
    assert(fs[0].0.len() != "arguments"@.len());
    crate::json::lemma_obj_get_first(fs, 1, "arguments"@);
}

pub open spec fn output_values(resp: JsonV) -> Seq<JsonV> {
    match jarr(jget(resp, "output"@)) {
        Some(a) => a,
        None => Seq::empty(),
    }
}

/// A raw Responses response object as a Chat completion.
pub open spec fn chat_value_of_responses_value(resp: JsonV) -> JsonV {
    let items = output_values(resp);
    let calls = value_calls(items);
    let id = match jget_str(resp, "id"@) {
        Some(s) => s,
        None => "chatcmpl_unknown"@,
    };
    let created = match ju64(jget(resp, "created_at"@)) {
        Some(n) => n,
        None => 0,
    };
    chat_completion_value(
        JsonV::Str(id),
        count_value(created),
        JsonV::Str(or_empty(jget_str(resp, "model"@))),
        chat_message_value(value_texts(items), value_reasoning(items), calls),
        finish_of(calls),
        normalised_usage(member_or(resp, "usage"@, zero_usage())),
    )
}

fn member_or_exec(v: &Json, key: &str, default: Json) -> (r: Json)
    ensures
        r@ == member_or(v@, key@, default@),
{
    match v.get(key) {
        Some(x) => x.deep_clone(),
        None => default,
    }
}

fn append_part_texts(text: &mut String, parts: &Vec<Json>)
    ensures
        final(text)@ == old(text)@ + part_texts(jviews(parts@)),
{
    proof {
        lemma_jviews(parts@);
    }
    let ghost ps = jviews(parts@);
    let ghost start = text@;
    let mut i: usize = 0;
    while i < parts.len()
        invariant
            i <= parts@.len(),
            ps == jviews(parts@),
            ps.len() == parts@.len(),
            forall|j: int| 0 <= j < ps.len() ==> #[trigger] ps[j] == jview(parts@[j]),
            text@ == start + part_texts(ps.take(i as int)),
        decreases parts.len() - i,
    {
        assert(ps.take(i + 1).drop_last() =~= ps.take(i as int));
        assert(ps.take(i + 1).last() == ps[i as int]);
        match parts[i].get_str("text") {
            Some(t) => {
                text.append(t);
            },
            None => {
                assert(text@ =~= text@ + Seq::<char>::empty());
            },
        }
        i = i + 1;
    }
    assert(ps.take(ps.len() as int) =~= ps);
}

fn value_call_exec(item: &Json) -> (r: Json)
    ensures
        r@ == value_call(item@),
{
    let id = match item.get("call_id") {
        Some(x) => x.deep_clone(),
        None => member_or_exec(item, "id", Json::Null),
    };
    tool_call_json(
        id,
        member_or_exec(item, "name", Json::Null),
        member_or_exec(item, "arguments", Json::string("{}")),
    )
}

fn normalised_usage_exec(u: Json) -> (r: Json)
    ensures
        r@ == normalised_usage(u@),
{
    if u.is_object() {
        let prompt = match u.get("prompt_tokens") {
            Some(x) => x.deep_clone(),
            None => member_or_exec(&u, "input_tokens", Json::from_u64(0)),
        };
        let completion = match u.get("completion_tokens") {
            Some(x) => x.deep_clone(),
            None => member_or_exec(&u, "output_tokens", Json::from_u64(0)),
        };
        let total = member_or_exec(&u, "total_tokens", Json::from_u64(0));
        obj3("prompt_tokens", prompt, "completion_tokens", completion, "total_tokens", total)
    } else {
        u
    }
}

/// A raw Responses response object as a Chat completion object (see
/// [`chat_value_of_responses_value`]).
pub fn responses_value_to_chat_value(resp: &Json) -> (r: Json)
    ensures
        r@ == chat_value_of_responses_value(resp@),
{
    let id = string_member_or(resp, "id", "chatcmpl_unknown");
    let model = match resp.get_str("model") {
        Some(m) => owned(m),
        None => String::new(),
    };
    let created = match resp.get_u64("created_at") {
        Some(n) => n,
        None => 0,
    };
    let mut text = String::new();
    let mut calls: Vec<Json> = Vec::new();
    let mut reasoning: Option<String> = None;
    let ghost items = output_values(resp@);
    match resp.get_array("output") {
        Some(output) => {
            proof {
                lemma_jviews(output@);
            }
            let mut i: usize = 0;
            while i < output.len()
                invariant
                    i <= output@.len(),
                    items == jviews(output@),
                    items.len() == output@.len(),
                    forall|j: int| 0 <= j < items.len() ==> #[trigger] items[j] == jview(output@[j]),
                    text@ == value_texts(items.take(i as int)),
                    jviews(calls@) == value_calls(items.take(i as int)),
                    opt_str(reasoning) == value_reasoning(items.take(i as int)),
                decreases output.len() - i,
            {
                assert(items.take(i + 1).drop_last() =~= items.take(i as int));
                assert(items.take(i + 1).last() == items[i as int]);
                let item = &output[i];
                match item.get_str("type") {
                    Some(t) => {
                        if str_eq(t, "message") {
                            proof {
                                reveal_strlit("message");
                                reveal_strlit("function_call");
                                assert("message"@.len() == 7);
                                assert("function_call"@.len() == 13);
                            }
                            match item.get_str("reasoning_content") {
                                Some(r) => {
                                    reasoning = Some(owned(r));
                                },
                                None => {},
                            }
                            match item.get_array("content") {
                                Some(parts) => {
                                    append_part_texts(&mut text, parts);
                                },
                                None => {
                                    assert(text@ =~= text@ + Seq::<char>::empty());
                                },
                            }
                        } else {
                            if str_eq(t, "function_call") {
                                let call = value_call_exec(item);
                                proof {
                                    lemma_jviews_push(calls@, call);
                                }
                                calls.push(call);
                            }
                            assert(text@ =~= text@ + Seq::<char>::empty());
                        }
                    },
                    None => {
                        assert(text@ =~= text@ + Seq::<char>::empty());
                    },
                }
                i = i + 1;
            }
            assert(items.take(items.len() as int) =~= items);
        },
        None => {
            assert(items =~= Seq::<JsonV>::empty());
            assert(jviews(calls@) =~= Seq::<JsonV>::empty());
        },
    }
    proof {
        lemma_jviews(calls@);
    }
    let has_calls = calls.len() > 0;
    let message = chat_message_json(text, reasoning, calls);
    let zero = obj3(
        "prompt_tokens",
        Json::from_u64(0),
        "completion_tokens",
        Json::from_u64(0),
        "total_tokens",
        Json::from_u64(0),
    );
    let usage = normalised_usage_exec(member_or_exec(resp, "usage", zero));
    chat_completion_json(
        Json::Str(id),
        Json::from_u64(created),
        Json::Str(model),
        message,
        finish_exec(has_calls),
        usage,
    )
}

} // verus!
