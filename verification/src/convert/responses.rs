//! Response-side conversions: a Chat Completions or Anthropic Messages
//! response into a Responses API response.

use vstd::prelude::*;
use crate::convert::ids::{gen_id, is_generated_id, now_secs};
use crate::convert::requests::{or_empty, string_or_empty};
use crate::json::{json_text, to_json_text};
use crate::text::{owned, str_eq};
use crate::types::{
    AnthropicContentBlock, AnthropicResponse, AnthropicUsage, ChatChoice, ChatResponse,
    ChatToolCall, ChatUsage, ResponseContentPart, ResponseContentPartV, ResponseOutputItem,
    ResponseOutputItemV, ResponsesResponse, ResponsesUsage, clone_opt_str, opt_str,
};

verus! {

/// An `output_text` content part holding `text`.
pub open spec fn output_text_part(text: Seq<char>) -> ResponseContentPartV {
    ResponseContentPartV { part_type: "output_text"@, text, annotations: Seq::empty() }
}

/// A completed message output item, with its identifier left empty.
pub open spec fn message_item(
    role: Seq<char>,
    reasoning: Option<Seq<char>>,
    text: Seq<char>,
) -> ResponseOutputItemV {
    ResponseOutputItemV::Message {
        id: Seq::empty(),
        status: "completed"@,
        role,
        reasoning_content: reasoning,
        content: seq![output_text_part(text)],
    }
}

/// A completed function-call output item, with its identifier left empty.
pub open spec fn call_item(call_id: Seq<char>, name: Seq<char>, arguments: Seq<char>) -> ResponseOutputItemV {
    ResponseOutputItemV::FunctionCall {
        id: Seq::empty(),
        status: "completed"@,
        call_id,
        name,
        arguments,
    }
}

/// An output item with its identifier cleared.
pub open spec fn without_id(i: ResponseOutputItemV) -> ResponseOutputItemV {
    match i {
        ResponseOutputItemV::Message { id, status, role, reasoning_content, content } =>
            ResponseOutputItemV::Message { id: Seq::empty(), status, role, reasoning_content, content },
        ResponseOutputItemV::FunctionCall { id, status, call_id, name, arguments } =>
            ResponseOutputItemV::FunctionCall { id: Seq::empty(), status, call_id, name, arguments },
    }
}

/// The identifier of an output item.
pub open spec fn id_of(i: ResponseOutputItemV) -> Seq<char> {
    match i {
        ResponseOutputItemV::Message { id, .. } => id,
        ResponseOutputItemV::FunctionCall { id, .. } => id,
    }
}

/// The prefix of a generated identifier for an item of this kind.
pub open spec fn id_prefix_of(i: ResponseOutputItemV) -> Seq<char> {
    match i {
        ResponseOutputItemV::Message { .. } => "msg"@,
        ResponseOutputItemV::FunctionCall { .. } => "fc"@,
    }
}

/// The output items, identifiers cleared.
pub open spec fn shapes(out: Seq<ResponseOutputItem>) -> Seq<ResponseOutputItemV> {
    out.map_values(|o: ResponseOutputItem| without_id(o@))
}

/// Every output item carries a freshly generated identifier of its kind.
pub open spec fn ids_generated(out: Seq<ResponseOutputItem>) -> bool {
    forall|k: int| 0 <= k < out.len() ==> is_generated_id(
        #[trigger] id_of(out[k]@),
        id_prefix_of(out[k]@),
    )
}

/// The function-call items of a list of tool calls.
pub open spec fn call_items(calls: Seq<ChatToolCall>) -> Seq<ResponseOutputItemV> {
    calls.map_values(|tc: ChatToolCall| call_item(tc.id@, tc.function.name@, tc.function.arguments@))
}

/// The output items of one Chat Completions choice: its tool calls, then
/// its text as a message when the text is not empty.
pub open spec fn choice_items(c: ChatChoice) -> Seq<ResponseOutputItemV> {
    let calls = match c.message.tool_calls {
        Some(v) => call_items(v@),
        None => Seq::empty(),
    };
    match c.message.content {
        Some(t) => if t@.len() > 0 {
            calls.push(message_item(c.message.role@, opt_str(c.message.reasoning_content), t@))
        } else {
            calls
        },
        None => calls,
    }
}

/// The output items of all choices, in order.
pub open spec fn chat_output_items(cs: Seq<ChatChoice>) -> Seq<ResponseOutputItemV>
    decreases cs.len(),
{
    if cs.len() == 0 {
        Seq::empty()
    } else {
        chat_output_items(cs.drop_last()) + choice_items(cs.last())
    }
}

/// What one Chat choice gives as Responses output: each tool call, in
/// order, a completed `function_call` with the call's id, function name
/// and arguments text unchanged; then a non-empty text as a completed
/// message of the choice's role whose one part carries that text.
pub proof fn lemma_choice_items(c: ChatChoice)
    ensures
        ({
            let items = choice_items(c);
            let n: int = match c.message.tool_calls {
                Some(v) => v@.len() as int,
                None => 0,
            };
            &&& c.message.tool_calls matches Some(v) ==> forall|k: int| 0 <= k < v@.len() ==> ({
                let tc = #[trigger] v@[k];
                &&& items[k] is FunctionCall
                &&& items[k]->FunctionCall_call_id == tc.id@
                &&& items[k]->FunctionCall_name == tc.function.name@
                &&& items[k]->FunctionCall_arguments == tc.function.arguments@
                &&& items[k]->FunctionCall_status == "completed"@
            })
            &&& (c.message.content is Some && (c.message.content->0)@.len() > 0) ==> ({
                &&& items.len() == n + 1
                &&& items[n] is Message
                &&& items[n]->Message_role == c.message.role@
                &&& items[n]->Message_content.len() == 1
                &&& items[n]->Message_content[0].text == (c.message.content->0)@
            })
            &&& !(c.message.content is Some && (c.message.content->0)@.len() > 0) ==> items.len() == n
        }),
{
    let calls = match c.message.tool_calls {
        Some(v) => call_items(v@),
        None => Seq::empty(),
    };
    if let Some(v) = c.message.tool_calls {
        assert forall|k: int| 0 <= k < v@.len() implies calls[k] == call_item(
            (#[trigger] v@[k]).id@,
            v@[k].function.name@,
            v@[k].function.arguments@,
        ) by {}
    }
}

/// What one Anthropic content block gives as Responses output: a non-empty
/// text block a completed message of the response's role carrying that
/// text; a `tool_use` block a completed `function_call` with the block's
/// id, name, and input as JSON text (`{}` without input).
pub proof fn lemma_block_items(role: Seq<char>, b: AnthropicContentBlock)
    ensures
        (b.block_type@ == "text"@ && b.text is Some && (b.text->0)@.len() > 0) ==> ({
            let items = block_items(role, b);
            &&& items.len() == 1
            &&& items[0] is Message
            &&& items[0]->Message_role == role
            &&& items[0]->Message_content.len() == 1
            &&& items[0]->Message_content[0].text == (b.text->0)@
        }),
        b.block_type@ == "tool_use"@ ==> ({
            let items = block_items(role, b);
            &&& items.len() == 1
            &&& items[0] is FunctionCall
            &&& b.id matches Some(id) ==> items[0]->FunctionCall_call_id == id@
            &&& b.name matches Some(n) ==> items[0]->FunctionCall_name == n@
            &&& b.input matches Some(j) ==> items[0]->FunctionCall_arguments == json_text(j@)
            &&& b.input is None ==> items[0]->FunctionCall_arguments == "{}"@
        }),
{
    reveal_strlit("text");
    reveal_strlit("tool_use");
    assert("text"@.len() != "tool_use"@.len());
}

/// Zero token counts.
pub open spec fn zero_usage() -> ResponsesUsage {
    ResponsesUsage { input_tokens: 0, output_tokens: 0, total_tokens: 0 }
}

/// Chat Completions token counts as Responses token counts.
pub open spec fn chat_usage_as_responses(u: Option<ChatUsage>) -> ResponsesUsage {
    match u {
        Some(u) => ResponsesUsage {
            input_tokens: u.prompt_tokens,
            output_tokens: u.completion_tokens,
            total_tokens: u.total_tokens,
        },
        None => zero_usage(),
    }
}

/// Anthropic token counts fit the sum of input and output.
pub open spec fn usage_sum_fits(u: AnthropicUsage) -> bool {
    u.input_tokens + u.output_tokens <= u32::MAX
}

/// Whether token counts, if any, fit the sum of input and output (see
/// [`usage_sum_fits`]): what the conversions of Anthropic answers ask.
pub fn usage_fits(u: &Option<AnthropicUsage>) -> (r: bool)
    ensures
        r == (*u matches Some(x) ==> usage_sum_fits(x)),
{
    match u {
        Some(x) => (x.input_tokens as u64) + (x.output_tokens as u64) <= 0xffff_ffffu64,
        None => true,
    }
}

/// Anthropic token counts as Responses token counts.
pub open spec fn anthropic_usage_as_responses(u: Option<AnthropicUsage>) -> ResponsesUsage {
    match u {
        Some(u) => ResponsesUsage {
            input_tokens: u.input_tokens,
            output_tokens: u.output_tokens,
            total_tokens: (u.input_tokens + u.output_tokens) as u32,
        },
        None => zero_usage(),
    }
}

/// Token counts carry over by meaning: the Chat prompt is the Responses
/// input and the Chat completion is the Responses output (Anthropic input
/// and output likewise, with their sum as the total); no counts give zero.
pub proof fn lemma_usage_carries_over(c: Option<ChatUsage>, a: Option<AnthropicUsage>)
    requires
        a matches Some(u) ==> usage_sum_fits(u),
    ensures
        c matches Some(u) ==> chat_usage_as_responses(c).input_tokens == u.prompt_tokens
            && chat_usage_as_responses(c).output_tokens == u.completion_tokens
            && chat_usage_as_responses(c).total_tokens == u.total_tokens,
        a matches Some(u) ==> anthropic_usage_as_responses(a).input_tokens == u.input_tokens
            && anthropic_usage_as_responses(a).output_tokens == u.output_tokens
            && anthropic_usage_as_responses(a).total_tokens == u.input_tokens + u.output_tokens,
        c is None ==> chat_usage_as_responses(c).input_tokens == 0 && chat_usage_as_responses(c).output_tokens == 0
            && chat_usage_as_responses(c).total_tokens == 0,
        a is None ==> anthropic_usage_as_responses(a).input_tokens == 0
            && anthropic_usage_as_responses(a).output_tokens == 0
            && anthropic_usage_as_responses(a).total_tokens == 0,
{
}

proof fn lemma_shapes_push(out: Seq<ResponseOutputItem>, x: ResponseOutputItem)
    ensures
        shapes(out.push(x)) == shapes(out).push(without_id(x@)),
{
    assert(shapes(out.push(x)) =~= shapes(out).push(without_id(x@)));
}

proof fn lemma_call_items_take(calls: Seq<ChatToolCall>, j: int)
    requires
        0 <= j < calls.len(),
    ensures
        call_items(calls.take(j + 1)) == call_items(calls.take(j)).push(
            call_item(calls[j].id@, calls[j].function.name@, calls[j].function.arguments@),
        ),
{
    assert(call_items(calls.take(j + 1)) =~= call_items(calls.take(j)).push(
        call_item(calls[j].id@, calls[j].function.name@, calls[j].function.arguments@),
    ));
}

/// A new completed function-call output item.
fn new_call_item(call_id: String, name: String, arguments: String) -> (r: ResponseOutputItem)
    ensures
        without_id(r@) == call_item(call_id@, name@, arguments@),
        is_generated_id(id_of(r@), id_prefix_of(r@)),
{
    let id = gen_id("fc");
    ResponseOutputItem::FunctionCall { id, status: owned("completed"), call_id, name, arguments }
}

/// A new completed message output item holding one `output_text` part.
fn new_message_item(role: String, reasoning: Option<String>, text: String) -> (r: ResponseOutputItem)
    ensures
        without_id(r@) == message_item(role@, opt_str(reasoning), text@),
        is_generated_id(id_of(r@), id_prefix_of(r@)),
{
    let id = gen_id("msg");
    let part = ResponseContentPart { part_type: owned("output_text"), text, annotations: Vec::new() };
    assert(part.annotations@.map_values(|a: crate::json::Json| a@) =~= Seq::empty());
    assert(part@ == output_text_part(text@));
    let mut content: Vec<ResponseContentPart> = Vec::new();
    content.push(part);
    let r = ResponseOutputItem::Message {
        id,
        status: owned("completed"),
        role,
        reasoning_content: reasoning,
        content,
    };
    assert(content@.map_values(|p: ResponseContentPart| p@) =~= seq![output_text_part(text@)]);
    r
}

/// Appends the output items of one choice.
fn push_choice_items(c: &ChatChoice, out: &mut Vec<ResponseOutputItem>)
    requires
        ids_generated(old(out)@),
    ensures
        shapes(final(out)@) == shapes(old(out)@) + choice_items(*c),
        ids_generated(final(out)@),
{
    let ghost start = shapes(out@);
    match &c.message.tool_calls {
        Some(calls) => {
            let mut j: usize = 0;
            while j < calls.len()
                invariant
                    j <= calls@.len(),
                    shapes(out@) == start + call_items(calls@.take(j as int)),
                    ids_generated(out@),
                decreases calls.len() - j,
            {
                let tc = &calls[j];
                let item = new_call_item(tc.id.clone(), tc.function.name.clone(), tc.function.arguments.clone());
                proof {
                    lemma_shapes_push(out@, item);
                    lemma_call_items_take(calls@, j as int);
                }
                out.push(item);
                j = j + 1;
                assert(start + call_items(calls@.take(j as int)) =~= (start + call_items(calls@.take(j - 1))).push(without_id(item@)));
            }
            assert(calls@.take(calls@.len() as int) =~= calls@);
        },
        None => {
            assert(start + Seq::<ResponseOutputItemV>::empty() =~= start);
        },
    }
    let ghost mid = shapes(out@);
    match &c.message.content {
        Some(t) => {
            if t.unicode_len() > 0 {
                let item = new_message_item(
                    c.message.role.clone(),
                    clone_opt_str(&c.message.reasoning_content),
                    t.clone(),
                );
                proof {
                    lemma_shapes_push(out@, item);
                }
                out.push(item);
                assert(shapes(out@) =~= mid.push(without_id(item@)));
            }
        },
        None => {},
    }
}

/// A Chat Completions response as a Responses API response: each choice
/// gives its tool calls as `function_call` items and its non-empty text as
/// a `message` item; token counts carry over (zero when absent).
pub fn chat_to_responses(resp: &ChatResponse) -> (r: ResponsesResponse)
    ensures
        is_generated_id(r.id@, "resp"@),
        r.object@ == "response"@,
        r.model@ == resp.model@,
        r.status@ == "completed"@,
        shapes(r.output@) == chat_output_items(resp.choices@),
        ids_generated(r.output@),
        r.usage == chat_usage_as_responses(resp.usage),
        resp.usage matches Some(u) ==> r.usage.input_tokens == u.prompt_tokens && r.usage.output_tokens
            == u.completion_tokens && r.usage.total_tokens == u.total_tokens,
        resp.usage is None ==> r.usage.input_tokens == 0 && r.usage.output_tokens == 0 && r.usage.total_tokens == 0,
{
    let resp_id = gen_id("resp");
    let mut output: Vec<ResponseOutputItem> = Vec::new();
    let mut i: usize = 0;
    while i < resp.choices.len()
        invariant
            i <= resp.choices@.len(),
            shapes(output@) == chat_output_items(resp.choices@.take(i as int)),
            ids_generated(output@),
        decreases resp.choices.len() - i,
    {
        push_choice_items(&resp.choices[i], &mut output);
        assert(resp.choices@.take(i + 1).drop_last() =~= resp.choices@.take(i as int));
        i = i + 1;
    }
    assert(resp.choices@.take(resp.choices@.len() as int) =~= resp.choices@);
    let usage = match &resp.usage {
        Some(u) => ResponsesUsage {
            input_tokens: u.prompt_tokens,
            output_tokens: u.completion_tokens,
            total_tokens: u.total_tokens,
        },
        None => ResponsesUsage { input_tokens: 0, output_tokens: 0, total_tokens: 0 },
    };
    ResponsesResponse {
        id: resp_id,
        object: owned("response"),
        created_at: now_secs(),
        model: resp.model.clone(),
        status: owned("completed"),
        output,
        usage,
    }
}

/// The output items of one Anthropic content block: non-empty `text`
/// becomes a message, `tool_use` a function call whose arguments are the
/// JSON text of its input (`{}` without one); other blocks give nothing.
pub open spec fn block_items(role: Seq<char>, b: AnthropicContentBlock) -> Seq<ResponseOutputItemV> {
    if b.block_type@ == "text"@ {
        match b.text {
            Some(t) => if t@.len() > 0 {
                seq![message_item(role, None, t@)]
            } else {
                Seq::empty()
            },
            None => Seq::empty(),
        }
    } else if b.block_type@ == "tool_use"@ {
        seq![call_item(
            or_empty(opt_str(b.id)),
            or_empty(opt_str(b.name)),
            match b.input {
                Some(j) => json_text(j@),
                None => "{}"@,
            },
        )]
    } else {
        Seq::empty()
    }
}

/// The output items of all content blocks, in order.
pub open spec fn anthropic_output_items(role: Seq<char>, bs: Seq<AnthropicContentBlock>) -> Seq<
    ResponseOutputItemV,
>
    decreases bs.len(),
{
    if bs.len() == 0 {
        Seq::empty()
    } else {
        anthropic_output_items(role, bs.drop_last()) + block_items(role, bs.last())
    }
}

/// Appends the output items of one content block.
fn push_block_items(role: &String, b: &AnthropicContentBlock, out: &mut Vec<ResponseOutputItem>)
    requires
        ids_generated(old(out)@),
    ensures
        shapes(final(out)@) == shapes(old(out)@) + block_items(role@, *b),
        ids_generated(final(out)@),
{
    let ghost start = shapes(out@);
    if str_eq(b.block_type.as_str(), "text") {
        match &b.text {
            Some(t) => {
                if t.unicode_len() > 0 {
                    let item = new_message_item(role.clone(), None, t.clone());
                    proof {
                        lemma_shapes_push(out@, item);
                    }
                    out.push(item);
                    assert(shapes(out@) =~= start + seq![without_id(item@)]);
                } else {
                    assert(start + Seq::<ResponseOutputItemV>::empty() =~= start);
                }
            },
            None => {
                assert(start + Seq::<ResponseOutputItemV>::empty() =~= start);
            },
        }
    } else if str_eq(b.block_type.as_str(), "tool_use") {
        let arguments = match &b.input {
            Some(input) => to_json_text(input),
            None => owned("{}"),
        };
        let item = new_call_item(string_or_empty(&b.id), string_or_empty(&b.name), arguments);
        proof {
            lemma_shapes_push(out@, item);
        }
        out.push(item);
        assert(shapes(out@) =~= start + seq![without_id(item@)]);
    } else {
        assert(start + Seq::<ResponseOutputItemV>::empty() =~= start);
    }
}

/// An Anthropic Messages response as a Responses API response (see
/// [`block_items`]); token counts carry over with their sum as the total
/// (zero when absent).
pub fn anthropic_to_responses(resp: &AnthropicResponse) -> (r: ResponsesResponse)
    requires
        resp.usage matches Some(u) ==> usage_sum_fits(u),
    ensures
        is_generated_id(r.id@, "resp"@),
        r.object@ == "response"@,
        r.model@ == resp.model@,
        r.status@ == "completed"@,
        shapes(r.output@) == anthropic_output_items(resp.role@, resp.content@),
        ids_generated(r.output@),
        r.usage == anthropic_usage_as_responses(resp.usage),
        resp.usage matches Some(u) ==> r.usage.input_tokens == u.input_tokens && r.usage.output_tokens
            == u.output_tokens && r.usage.total_tokens == u.input_tokens + u.output_tokens,
        resp.usage is None ==> r.usage.input_tokens == 0 && r.usage.output_tokens == 0 && r.usage.total_tokens == 0,
{
    let mut output: Vec<ResponseOutputItem> = Vec::new();
    let mut i: usize = 0;
    while i < resp.content.len()
        invariant
            i <= resp.content@.len(),
            shapes(output@) == anthropic_output_items(resp.role@, resp.content@.take(i as int)),
            ids_generated(output@),
        decreases resp.content.len() - i,
    {
        push_block_items(&resp.role, &resp.content[i], &mut output);
        assert(resp.content@.take(i + 1).drop_last() =~= resp.content@.take(i as int));
        i = i + 1;
    }
    assert(resp.content@.take(resp.content@.len() as int) =~= resp.content@);
    let usage = match &resp.usage {
        Some(u) => anthropic_usage_to_responses_usage(u),
        None => ResponsesUsage { input_tokens: 0, output_tokens: 0, total_tokens: 0 },
    };
    ResponsesResponse {
        id: gen_id("resp"),
        object: owned("response"),
        created_at: now_secs(),
        model: resp.model.clone(),
        status: owned("completed"),
        output,
        usage,
    }
}

/// Anthropic token counts as Chat Completions token counts, the total being
/// their sum.
pub fn anthropic_usage_to_chat_usage(usage: &AnthropicUsage) -> (r: ChatUsage)
    requires
        usage_sum_fits(*usage),
    ensures
        r.prompt_tokens == usage.input_tokens,
        r.completion_tokens == usage.output_tokens,
        r.total_tokens == usage.input_tokens + usage.output_tokens,
{
    ChatUsage {
        prompt_tokens: usage.input_tokens,
        completion_tokens: usage.output_tokens,
        total_tokens: usage.input_tokens + usage.output_tokens,
    }
}

/// Anthropic token counts as Responses token counts, the total being their
/// sum.
pub fn anthropic_usage_to_responses_usage(usage: &AnthropicUsage) -> (r: ResponsesUsage)
    requires
        usage_sum_fits(*usage),
    ensures
        r == anthropic_usage_as_responses(Some(*usage)),
{
    ResponsesUsage {
        input_tokens: usage.input_tokens,
        output_tokens: usage.output_tokens,
        total_tokens: usage.input_tokens + usage.output_tokens,
    }
}

} // verus!
