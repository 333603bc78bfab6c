//! Retrying Anthropic requests that an upstream rejected for their thinking
//! settings: recognising the error, then either dropping thinking blocks
//! and signatures, or raising the thinking budget.

use vstd::prelude::*;
use crate::config::RectifierConfig;
use crate::json::{Json, JsonV, entries_get, entries_insert, entries_remove, jentries, jget, jget_str, json_parse_bytes, json_text, jviews, lemma_jviews, obj_get, obj_index, obj_insert, obj_remove, parse_json_bytes, to_json_text};
use crate::text::{contains, contains_spec, lower_spec, owned, str_eq, to_ascii_lowercase};
use crate::types::{AnthropicMessage, AnthropicMessageV, AnthropicRequest, AnthropicRequestV};

verus! {

/// The largest thinking budget the rectifier sets.
pub const MAX_THINKING_BUDGET: u64 = 32_000;

/// The `max_tokens` the rectifier sets when it is too small for the budget.
pub const MAX_TOKENS_VALUE: u64 = 64_000;

/// The smallest `max_tokens` that leaves room for the budget.
pub const MIN_MAX_TOKENS_FOR_BUDGET: u64 = 32_001;

// ─── recognising the error ───

/// The error message of an upstream error body: `error.message`, else
/// `message`, else the whole JSON text; none when the body is not JSON.
pub open spec fn error_message_of(bytes: Seq<u8>) -> Option<Seq<char>> {
    match json_parse_bytes(bytes) {
        Some(v) => Some(error_message_of_value(v)),
        None => None,
    }
}

/// The error message of a parsed error body: `error.message`, else
/// `message`, else the whole JSON text.
pub open spec fn error_message_of_value(v: JsonV) -> Seq<char> {
    let nested = match jget(v, "error"@) {
        Some(e) => jget(e, "message"@),
        None => None,
    };
    let picked = match nested {
        Some(m) => Some(m),
        None => jget(v, "message"@),
    };
    match picked {
        Some(JsonV::Str(s)) => s,
        _ => json_text(v),
    }
}

pub fn extract_error_message(error_bytes: &[u8]) -> (r: Option<String>)
    ensures
        match r {
            Some(s) => Some(s@),
            None => None,
        } == error_message_of(error_bytes@),
{
    match parse_json_bytes(error_bytes) {
        Some(v) => Some(error_message_of_json(&v)),
        None => None,
    }
}

/// The error message of a parsed error body (see
/// [`error_message_of_value`]).
pub fn error_message_of_json(value: &Json) -> (r: String)
    ensures
        r@ == error_message_of_value(value@),
{
    let nested = match value.get("error") {
        Some(e) => e.get("message"),
        None => None,
    };
    let picked = match nested {
        Some(m) => Some(m),
        None => value.get("message"),
    };
    match picked {
        Some(m) => match m.as_str() {
            Some(s) => owned(s),
            None => to_json_text(value),
        },
        None => to_json_text(value),
    }
}

/// An error about thinking blocks or their signatures (ASCII case
/// ignored).
pub open spec fn signature_error(msg: Seq<char>) -> bool {
    let l = lower_spec(msg);
    ||| (contains_spec(l, "invalid"@) && contains_spec(l, "signature"@) && contains_spec(l, "thinking"@)
        && contains_spec(l, "block"@))
    ||| (contains_spec(l, "thought signature"@) && (contains_spec(l, "not valid"@) || contains_spec(
        l,
        "invalid"@,
    )))
    ||| contains_spec(l, "must start with a thinking block"@)
    ||| (contains_spec(l, "expected"@) && (contains_spec(l, "thinking"@) || contains_spec(
        l,
        "redacted_thinking"@,
    )) && contains_spec(l, "found"@) && contains_spec(l, "tool_use"@))
    ||| (contains_spec(l, "signature"@) && contains_spec(l, "field required"@))
    ||| (contains_spec(l, "signature"@) && contains_spec(l, "extra inputs are not permitted"@))
    ||| ((contains_spec(l, "thinking"@) || contains_spec(l, "redacted_thinking"@)) && contains_spec(
        l,
        "cannot be modified"@,
    ))
    ||| contains_spec(l, "invalid request"@)
    ||| contains_spec(l, "illegal request"@)
    ||| contains_spec(l, "非法请求"@)
}

/// Whether an error calls for dropping thinking blocks and signatures.
pub fn should_rectify_thinking_signature(error_message: Option<&str>) -> (r: bool)
    ensures
        r == match error_message {
            Some(m) => signature_error(m@),
            None => false,
        },
{
    let message = match error_message {
        Some(m) => m,
        None => {
            return false;
        },
    };
    let lower = to_ascii_lowercase(message);
    let l = lower.as_str();
    (contains(l, "invalid") && contains(l, "signature") && contains(l, "thinking") && contains(l, "block"))
        || (contains(l, "thought signature") && (contains(l, "not valid") || contains(l, "invalid")))
        || contains(l, "must start with a thinking block")
        || (contains(l, "expected") && (contains(l, "thinking") || contains(l, "redacted_thinking"))
        && contains(l, "found") && contains(l, "tool_use"))
        || (contains(l, "signature") && contains(l, "field required"))
        || (contains(l, "signature") && contains(l, "extra inputs are not permitted"))
        || ((contains(l, "thinking") || contains(l, "redacted_thinking")) && contains(l, "cannot be modified"))
        || contains(l, "invalid request")
        || contains(l, "illegal request")
        || contains(l, "非法请求")
}

/// An error about a thinking budget below 1024 tokens (ASCII case
/// ignored).
pub open spec fn budget_error(msg: Seq<char>) -> bool {
    let l = lower_spec(msg);
    let has_budget = contains_spec(l, "budget_tokens"@) || contains_spec(l, "budget tokens"@);
    let has_thinking = contains_spec(l, "thinking"@);
    let has_minimum = contains_spec(l, "greater than or equal to 1024"@) || contains_spec(l, ">= 1024"@)
        || (contains_spec(l, "1024"@) && contains_spec(l, "input should be"@));
    has_budget && has_thinking && has_minimum
}

/// Whether an error calls for raising the thinking budget.
pub fn should_rectify_thinking_budget(error_message: Option<&str>) -> (r: bool)
    ensures
        r == match error_message {
            Some(m) => budget_error(m@),
            None => false,
        },
{
    let message = match error_message {
        Some(m) => m,
        None => {
            return false;
        },
    };
    let lower = to_ascii_lowercase(message);
    let l = lower.as_str();
    let has_budget = contains(l, "budget_tokens") || contains(l, "budget tokens");
    let has_thinking = contains(l, "thinking");
    let has_minimum = contains(l, "greater than or equal to 1024") || contains(l, ">= 1024") || (contains(
        l,
        "1024",
    ) && contains(l, "input should be"));
    has_budget && has_thinking && has_minimum
}

// ─── dropping thinking blocks ───

/// A `thinking` or `redacted_thinking` block.
pub open spec fn is_thinking_block(b: JsonV) -> bool {
    let t = jget_str(b, "type"@);
    t == Some("thinking"@) || t == Some("redacted_thinking"@)
}

/// An object block carrying a `signature`.
pub open spec fn has_signature(b: JsonV) -> bool {
    match b {
        JsonV::Object(es) => obj_index(es, "signature"@) is Some,
        _ => false,
    }
}

/// A block without its `signature`.
pub open spec fn without_signature(b: JsonV) -> JsonV {
    match b {
        JsonV::Object(es) => JsonV::Object(obj_remove(es, "signature"@)),
        _ => b,
    }
}

/// The blocks with thinking blocks dropped and signatures removed.
pub open spec fn cleaned_blocks(bs: Seq<JsonV>) -> Seq<JsonV>
    decreases bs.len(),
{
    if bs.len() == 0 {
        Seq::empty()
    } else {
        let rest = cleaned_blocks(bs.drop_last());
        if is_thinking_block(bs.last()) {
            rest
        } else {
            rest.push(without_signature(bs.last()))
        }
    }
}

/// Some block is a thinking block or carries a signature.
pub open spec fn blocks_need_cleaning(bs: Seq<JsonV>) -> bool {
    exists|i: int| 0 <= i < bs.len() && (is_thinking_block(#[trigger] bs[i]) || has_signature(bs[i]))
}

/// A message with its block list cleaned (other content stays).
pub open spec fn cleaned_message(m: AnthropicMessageV) -> AnthropicMessageV {
    match m.content {
        JsonV::Array(bs) => AnthropicMessageV { role: m.role, content: JsonV::Array(cleaned_blocks(bs)) },
        _ => m,
    }
}

/// The message needed cleaning.
pub open spec fn message_needs_cleaning(m: AnthropicMessageV) -> bool {
    match m.content {
        JsonV::Array(bs) => blocks_need_cleaning(bs),
        _ => false,
    }
}

/// The last assistant message.
pub open spec fn last_assistant(ms: Seq<AnthropicMessageV>) -> Option<AnthropicMessageV>
    decreases ms.len(),
{
    if ms.len() == 0 {
        None
    } else if ms.last().role == "assistant"@ {
        Some(ms.last())
    } else {
        last_assistant(ms.drop_last())
    }
}

/// The `thinking` request setting is `{"type": "enabled", …}`.
pub open spec fn thinking_enabled(extra: Seq<(Seq<char>, JsonV)>) -> bool {
    match obj_get(extra, "thinking"@) {
        Some(t) => jget_str(t, "type"@) == Some("enabled"@),
        None => false,
    }
}

/// Thinking is enabled, yet the last assistant message uses tools without
/// starting with a thinking block: the request-level thinking setting has
/// to go.
pub open spec fn remove_top_level_thinking(r: AnthropicRequestV) -> bool {
    &&& thinking_enabled(r.extra)
    &&& match last_assistant(r.messages) {
        Some(m) => match m.content {
            JsonV::Array(bs) => {
                &&& bs.len() > 0
                &&& !is_thinking_block(bs[0])
                &&& exists|i: int| 0 <= i < bs.len() && jget_str(#[trigger] bs[i], "type"@) == Some("tool_use"@)
            },
            _ => false,
        },
        None => false,
    }
}

pub open spec fn messages_view(ms: Seq<AnthropicMessage>) -> Seq<AnthropicMessageV> {
    ms.map_values(|m: AnthropicMessage| m@)
}

fn is_thinking_block_exec(b: &Json) -> (r: bool)
    ensures
        r == is_thinking_block(b@),
{
    match b.get_str("type") {
        Some(t) => str_eq(t, "thinking") || str_eq(t, "redacted_thinking"),
        None => false,
    }
}

/// Cleans one block list; reports whether anything changed.
fn clean_blocks(bs: &Vec<Json>) -> (r: (Vec<Json>, bool))
    ensures
        jviews(r.0@) == cleaned_blocks(jviews(bs@)),
        r.1 == blocks_need_cleaning(jviews(bs@)),
{
    proof {
        lemma_jviews(bs@);
    }
    let ghost bv = jviews(bs@);
    let mut out: Vec<Json> = Vec::new();
    let mut changed = false;
    let mut i: usize = 0;
    while i < bs.len()
        invariant
            i <= bs@.len(),
            bv == jviews(bs@),
            bv.len() == bs@.len(),
            forall|j: int| 0 <= j < bs@.len() ==> #[trigger] bv[j] == bs@[j]@,
            jviews(out@) == cleaned_blocks(bv.take(i as int)),
            changed == blocks_need_cleaning(bv.take(i as int)),
        decreases bs.len() - i,
    {
        let ghost pre = bv.take(i as int);
        let ghost cur = bv.take(i + 1);
        assert(cur.drop_last() =~= pre);
        assert(cur.last() == bs@[i as int]@);
        let b = &bs[i];
        let ghost before = out@;
        proof {
            lemma_jviews(before);
        }
        if is_thinking_block_exec(b) {
            changed = true;
            assert(cur[i as int] == b@);
        } else {
            let mut c = b.deep_clone();
            let removed = c.remove("signature");
            if removed.is_some() {
                changed = true;
                assert(cur[i as int] == b@);
                assert(has_signature(b@)) by {
                    if let JsonV::Object(es) = b@ {
                        if obj_index(es, "signature"@) is None {
                            crate::json::lemma_obj_index_none(es, "signature"@);
                        }
                    }
                }
            } else {
                assert(!has_signature(b@)) by {
                    if let JsonV::Object(es) = b@ {
                        if obj_index(es, "signature"@) is Some {
                            crate::json::lemma_obj_index_some(es, "signature"@);
                        }
                    }
                }
                assert(changed == blocks_need_cleaning(cur)) by {
                    if blocks_need_cleaning(cur) {
                        let k = choose|k: int| 0 <= k < cur.len() && (is_thinking_block(#[trigger] cur[k]) || has_signature(cur[k]));
                        if k < i {
                            assert(pre[k] == cur[k]);
                        }
                    }
                    if changed {
                        let k = choose|k: int| 0 <= k < pre.len() && (is_thinking_block(#[trigger] pre[k]) || has_signature(pre[k]));
                        assert(cur[k] == pre[k]);
                    }
                }
            }
            assert(c@ == without_signature(b@));
            out.push(c);
            proof {
                lemma_jviews(out@);
                assert(jviews(out@) =~= jviews(before).push(c@));
            }
        }
        proof {
            if changed && !blocks_need_cleaning(pre) {
                assert(is_thinking_block(cur[i as int]) || has_signature(cur[i as int]));
            }
            if blocks_need_cleaning(pre) {
                let k = choose|k: int| 0 <= k < pre.len() && (is_thinking_block(#[trigger] pre[k]) || has_signature(pre[k]));
                assert(cur[k] == pre[k]);
            }
        }
        i = i + 1;
    }
    assert(bv.take(bv.len() as int) =~= bv);
    (out, changed)
}

/// Whether the request-level thinking setting has to go (see
/// [`remove_top_level_thinking`]).
pub fn should_remove_top_level_thinking(request: &AnthropicRequest) -> (r: bool)
    ensures
        r == remove_top_level_thinking(request@),
{
    let enabled = match entries_get(&request.extra, "thinking") {
        Some(t) => match t.get_str("type") {
            Some(ty) => str_eq(ty, "enabled"),
            None => false,
        },
        None => false,
    };
    assert(request@.extra == jentries(request.extra@));
    if !enabled {
        return false;
    }
    let ghost mv = messages_view(request.messages@);
    let mut i: usize = request.messages.len();
    assert(mv.take(mv.len() as int) =~= mv);
    while i > 0 && !str_eq(request.messages[i - 1].role.as_str(), "assistant")
        invariant
            i <= request.messages@.len(),
            mv == messages_view(request.messages@),
            mv == request@.messages,
            last_assistant(mv) == last_assistant(mv.take(i as int)),
        decreases i,
    {
        assert(mv.take(i as int).drop_last() =~= mv.take(i - 1));
        assert(mv.take(i as int).last() == request.messages@[i - 1]@);
        i = i - 1;
    }
    if i == 0 {
        assert(mv.take(0) =~= Seq::<AnthropicMessageV>::empty());
        return false;
    }
    let m = &request.messages[i - 1];
    assert(mv.take(i as int).last() == m@);
    assert(last_assistant(mv) == Some(m@));
    let content = match m.content.as_array() {
        Some(c) => c,
        None => {
            return false;
        },
    };
    proof {
        lemma_jviews(content@);
    }
    let ghost cv = jviews(content@);
    if content.len() == 0 {
        return false;
    }
    if is_thinking_block_exec(&content[0]) {
        return false;
    }
    assert(!is_thinking_block(cv[0]));
    let mut k: usize = 0;
    while k < content.len()
        invariant
            k <= content@.len(),
            thinking_enabled(request@.extra),
            last_assistant(request@.messages) == Some(m@),
            m@.content == JsonV::Array(cv),
            cv.len() > 0,
            !is_thinking_block(cv[0]),
            cv == jviews(content@),
            cv.len() == content@.len(),
            forall|j: int| 0 <= j < content@.len() ==> #[trigger] cv[j] == content@[j]@,
            forall|j: int| 0 <= j < k ==> jget_str(#[trigger] cv[j], "type"@) != Some("tool_use"@),
        decreases content.len() - k,
    {
        match content[k].get_str("type") {
            Some(t) => {
                if str_eq(t, "tool_use") {
                    assert(jget_str(cv[k as int], "type"@) == Some("tool_use"@));
                    return true;
                }
            },
            None => {},
        }
        k = k + 1;
    }
    false
}

/// The request after dropping thinking blocks and signatures, and whether
/// anything changed.
pub open spec fn signature_rectified(r: AnthropicRequestV) -> (AnthropicRequestV, bool) {
    let r1 = AnthropicRequestV {
        messages: r.messages.map_values(|m: AnthropicMessageV| cleaned_message(m)),
        ..r
    };
    let changed = exists|i: int| 0 <= i < r.messages.len() && message_needs_cleaning(#[trigger] r.messages[i]);
    if remove_top_level_thinking(r1) {
        (AnthropicRequestV { extra: obj_remove(r1.extra, "thinking"@), ..r1 }, true)
    } else {
        (r1, changed)
    }
}

/// Drops thinking blocks and block signatures from every message, and the
/// request-level thinking setting where it no longer fits; reports whether
/// anything changed.
pub fn rectify_thinking_signature(request: &mut AnthropicRequest) -> (r: bool)
    ensures
        (final(request)@, r) == signature_rectified(old(request)@),
{
    let ghost r0 = request@;
    let mut applied = false;
    let mut next: Vec<AnthropicMessage> = Vec::new();
    let mut i: usize = 0;
    while i < request.messages.len()
        invariant
            i <= request.messages@.len(),
            request@ == r0,
            r0.messages.len() == request.messages@.len(),
            messages_view(next@) == r0.messages.take(i as int).map_values(|m: AnthropicMessageV| cleaned_message(m)),
            applied == exists|j: int| 0 <= j < i && message_needs_cleaning(#[trigger] r0.messages[j]),
        decreases request.messages.len() - i,
    {
        let m = &request.messages[i];
        assert(r0.messages[i as int] == m@);
        let nm = match &m.content {
            Json::Array(bs) => {
                let (cleaned, changed) = clean_blocks(bs);
                if changed {
                    applied = true;
                }
                AnthropicMessage { role: m.role.clone(), content: Json::Array(cleaned) }
            },
            _ => AnthropicMessage { role: m.role.clone(), content: m.content.deep_clone() },
        };
        assert(nm@ == cleaned_message(m@));
        let ghost before = next@;
        next.push(nm);
        proof {
            assert(messages_view(next@) =~= messages_view(before).push(nm@));
            assert(r0.messages.take(i + 1) =~= r0.messages.take(i as int).push(m@));
            assert(r0.messages.take(i + 1).map_values(|m: AnthropicMessageV| cleaned_message(m)) =~= r0.messages.take(
                i as int,
            ).map_values(|m: AnthropicMessageV| cleaned_message(m)).push(cleaned_message(m@)));
            if applied {
                if !(exists|j: int| 0 <= j < i && message_needs_cleaning(#[trigger] r0.messages[j])) {
                    assert(message_needs_cleaning(r0.messages[i as int]));
                }
            }
        }
        i = i + 1;
    }
    assert(r0.messages.take(r0.messages.len() as int) =~= r0.messages);
    request.messages = next;
    if should_remove_top_level_thinking(request) {
        entries_remove(&mut request.extra, "thinking");
        applied = true;
    }
    applied
}

// ─── raising the budget ───

/// The `thinking` setting the budget rectifier writes: the existing object
/// (or a new one) with `type` `enabled` and `budget_tokens` 32000.
pub open spec fn raised_thinking(before: Option<JsonV>) -> JsonV {
    let base = match before {
        Some(JsonV::Object(es)) => es,
        _ => Seq::empty(),
    };
    JsonV::Object(
        obj_insert(obj_insert(base, "type"@, JsonV::Str("enabled"@)), "budget_tokens"@, JsonV::Number("32000"@)),
    )
}

/// The request after raising the thinking budget, and whether anything
/// changed; adaptive thinking is left alone.
pub open spec fn budget_rectified(r: AnthropicRequestV) -> (AnthropicRequestV, bool) {
    let before = obj_get(r.extra, "thinking"@);
    let adaptive = match before {
        Some(t) => jget_str(t, "type"@) == Some("adaptive"@),
        None => false,
    };
    if adaptive {
        (r, false)
    } else {
        let thinking = raised_thinking(before);
        let max_tokens: u32 = if r.max_tokens < 32_001 {
            64_000
        } else {
            r.max_tokens
        };
        (
            AnthropicRequestV { extra: obj_insert(r.extra, "thinking"@, thinking), max_tokens, ..r },
            r.max_tokens != max_tokens || before != Some(thinking),
        )
    }
}

/// Raises the thinking budget to 32000 tokens (and `max_tokens` to 64000
/// when it is too small for that); reports whether anything changed.
pub fn rectify_thinking_budget(request: &mut AnthropicRequest) -> (r: bool)
    ensures
        (final(request)@, r) == budget_rectified(old(request)@),
{
    let ghost r0 = request@;
    let before_max_tokens = request.max_tokens;
    let before = match entries_get(&request.extra, "thinking") {
        Some(t) => Some(t.deep_clone()),
        None => None,
    };
    let adaptive = match &before {
        Some(t) => match t.get_str("type") {
            Some(ty) => str_eq(ty, "adaptive"),
            None => false,
        },
        None => false,
    };
    if adaptive {
        return false;
    }
    let mut thinking = match &before {
        Some(t) => if t.is_object() {
            t.deep_clone()
        } else {
            Json::empty_object()
        },
        None => Json::empty_object(),
    };
    thinking.insert("type", Json::string("enabled"));
    thinking.insert("budget_tokens", Json::Number(owned("32000")));
    let changed_thinking = match &before {
        Some(t) => !t.equals(&thinking),
        None => true,
    };
    entries_insert(&mut request.extra, "thinking", thinking);
    if (before_max_tokens as u64) < MIN_MAX_TOKENS_FOR_BUDGET {
        request.max_tokens = 64_000;
    }
    before_max_tokens != request.max_tokens || changed_thinking
}

/// The request to retry after an upstream error, if a rectifier applies
/// and changed it (`None` when the rectifier is off, the error is not one
/// it handles, or nothing changed).
pub open spec fn retry_request(config: RectifierConfig, r: AnthropicRequestV, error: Option<Seq<char>>) -> Option<
    AnthropicRequestV,
> {
    if !config.enabled {
        None
    } else {
        let sig = config.thinking_signature && match error {
            Some(m) => signature_error(m),
            None => false,
        };
        let (r1, a1) = if sig {
            signature_rectified(r)
        } else {
            (r, false)
        };
        let bud = config.thinking_budget && match error {
            Some(m) => budget_error(m),
            None => false,
        };
        let (r2, a2) = if bud {
            budget_rectified(r1)
        } else {
            (r1, false)
        };
        if a1 || a2 {
            Some(r2)
        } else {
            None
        }
    }
}

/// The rectified request to retry after an upstream rejected `request`
/// with the error body `error_bytes` (see [`retry_request`]).
pub fn rectify_anthropic_retry_body(
    config: &RectifierConfig,
    request: AnthropicRequest,
    error_bytes: &[u8],
) -> (r: Option<AnthropicRequest>)
    ensures
        match r {
            Some(x) => Some(x@),
            None => None,
        } == retry_request(*config, request@, error_message_of(error_bytes@)),
{
    if !config.enabled {
        return None;
    }
    let mut request = request;
    let error_message = extract_error_message(error_bytes);
    let msg: Option<&str> = match &error_message {
        Some(m) => Some(m.as_str()),
        None => None,
    };
    let mut applied = false;
    if config.thinking_signature && should_rectify_thinking_signature(msg) {
        if rectify_thinking_signature(&mut request) {
            applied = true;
        }
    }
    if config.thinking_budget && should_rectify_thinking_budget(msg) {
        if rectify_thinking_budget(&mut request) {
            applied = true;
        }
    }
    if applied {
        Some(request)
    } else {
        None
    }
}

} // verus!
