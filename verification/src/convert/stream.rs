//! Streaming conversion: a sequence of Chat Completions chunks into the
//! Responses API server-sent events (`response.created`, output item,
//! content part and text/argument delta events, `response.completed`).
//!
//! [`StreamState`] carries what earlier chunks established: the text so far,
//! the tool calls by their chunk index, and the output index given to each
//! output item. Output indices are handed out in order and never reused.

use vstd::prelude::*;
use crate::convert::ids::{gen_id, is_generated_id, now_secs};
use crate::json::{Json, JsonV, jentries, jget, jget_str, json_text, jviews, lemma_jentries_empty, lemma_jviews, push_member, to_json_text};
use crate::text::{concat, decimal, owned, str_eq, u64_text};
use crate::types::{ChatChunk, ChatChunkToolCall, ChatChunkToolCallV, ChatChunkV, ChatUsage};

verus! {

/// One server-sent event: its name and its JSON data.
#[derive(Debug)]
pub struct SseEvent {
    pub event: String,
    pub data: Json,
}

pub struct SseEventV {
    pub event: Seq<char>,
    pub data: JsonV,
}

impl View for SseEvent {
    type V = SseEventV;

    open spec fn view(&self) -> SseEventV {
        SseEventV { event: self.event@, data: self.data@ }
    }
}

pub open spec fn events_view(v: Seq<SseEvent>) -> Seq<SseEventV> {
    v.map_values(|e: SseEvent| e@)
}

/// The wire form of an event: `event: {name}\ndata: {json}\n\n`.
pub open spec fn sse_text(e: SseEventV) -> Seq<char> {
    "event: "@ + e.event + "\ndata: "@ + json_text(e.data) + "\n\n"@
}

impl SseEvent {
    /// The wire form of this event.
    pub fn to_sse_text(&self) -> (r: String)
        ensures
            r@ == sse_text(self@),
    {
        let mut out = concat("event: ", self.event.as_str());
        out.append("\ndata: ");
        let data = to_json_text(&self.data);
        out.append(data.as_str());
        out.append("\n\n");
        out
    }
}

/// A tool call being streamed: its ids, the name and arguments received so
/// far, its output index once it has one, and whether its `added` and
/// `done` events went out.
#[derive(Debug)]
pub struct StreamToolCall {
    pub call_id: String,
    pub id: String,
    pub name: String,
    pub arguments: String,
    pub output_index: Option<usize>,
    pub added: bool,
    pub done: bool,
}

pub struct StreamToolCallV {
    pub call_id: Seq<char>,
    pub id: Seq<char>,
    pub name: Seq<char>,
    pub arguments: Seq<char>,
    pub output_index: Option<usize>,
    pub added: bool,
    pub done: bool,
}

impl View for StreamToolCall {
    type V = StreamToolCallV;

    open spec fn view(&self) -> StreamToolCallV {
        StreamToolCallV {
            call_id: self.call_id@,
            id: self.id@,
            name: self.name@,
            arguments: self.arguments@,
            output_index: self.output_index,
            added: self.added,
            done: self.done,
        }
    }
}

/// The state of one streamed response.
#[derive(Debug)]
pub struct StreamState {
    pub response_id: String,
    pub message_item_id: String,
    pub model: String,
    pub started: bool,
    pub content_started: bool,
    pub message_done: bool,
    pub message_output_index: Option<usize>,
    pub accumulated_text: String,
    pub accumulated_reasoning_content: String,
    /// Tool calls by their chunk index, in increasing index order.
    pub current_tool_calls: Vec<(u32, StreamToolCall)>,
    /// Completed output items by output index, in increasing index order.
    pub output_items: Vec<(usize, Json)>,
    /// The next output index to hand out.
    pub next_output_index: usize,
}

pub struct StreamStateV {
    pub response_id: Seq<char>,
    pub message_item_id: Seq<char>,
    pub model: Seq<char>,
    pub started: bool,
    pub content_started: bool,
    pub message_done: bool,
    pub message_output_index: Option<usize>,
    pub text: Seq<char>,
    pub reasoning: Seq<char>,
    pub tool_calls: Seq<(u32, StreamToolCallV)>,
    pub output_items: Seq<(usize, JsonV)>,
    pub next_output_index: usize,
}

pub open spec fn tool_calls_view(v: Seq<(u32, StreamToolCall)>) -> Seq<(u32, StreamToolCallV)> {
    v.map_values(|e: (u32, StreamToolCall)| (e.0, e.1@))
}

pub open spec fn items_view(v: Seq<(usize, Json)>) -> Seq<(usize, JsonV)> {
    v.map_values(|e: (usize, Json)| (e.0, e.1@))
}

impl View for StreamState {
    type V = StreamStateV;

    open spec fn view(&self) -> StreamStateV {
        StreamStateV {
            response_id: self.response_id@,
            message_item_id: self.message_item_id@,
            model: self.model@,
            started: self.started,
            content_started: self.content_started,
            message_done: self.message_done,
            message_output_index: self.message_output_index,
            text: self.accumulated_text@,
            reasoning: self.accumulated_reasoning_content@,
            tool_calls: tool_calls_view(self.current_tool_calls@),
            output_items: items_view(self.output_items@),
            next_output_index: self.next_output_index,
        }
    }
}

// ─── maps kept as key-sorted sequences ───

/// Keys strictly increase along the sequence.
pub open spec fn keys_sorted<K, V>(m: Seq<(K, V)>, key: spec_fn(K) -> int) -> bool {
    forall|i: int, j: int| 0 <= i < j < m.len() ==> key(#[trigger] m[i].0) < key(#[trigger] m[j].0)
}

/// Tool calls are ordered by their chunk index.
pub open spec fn u32_key() -> spec_fn(u32) -> int {
    |k: u32| k as int
}

/// Output items are ordered by their output index.
pub open spec fn usize_key() -> spec_fn(usize) -> int {
    |k: usize| k as int
}

/// The position of key `k`, if present.
pub open spec fn pos_of<K, V>(m: Seq<(K, V)>, k: K) -> Option<int> {
    if exists|i: int| 0 <= i < m.len() && m[i].0 == k {
        Some(choose|i: int| 0 <= i < m.len() && m[i].0 == k)
    } else {
        None
    }
}

/// The value stored under `k`.
pub open spec fn map_get<K, V>(m: Seq<(K, V)>, k: K) -> Option<V> {
    match pos_of(m, k) {
        Some(i) => Some(m[i].1),
        None => None,
    }
}

/// Where a new key goes: after every smaller key.
pub open spec fn insert_pos<K, V>(m: Seq<(K, V)>, k: K, key: spec_fn(K) -> int) -> int
    decreases m.len(),
{
    if m.len() == 0 {
        0
    } else if key(m[0].0) < key(k) {
        1 + insert_pos(m.drop_first(), k, key)
    } else {
        0
    }
}

/// `BTreeMap::insert`: replace the value under `k`, or add `(k, v)` in key
/// order.
pub open spec fn map_set<K, V>(m: Seq<(K, V)>, k: K, v: V, key: spec_fn(K) -> int) -> Seq<(K, V)> {
    match pos_of(m, k) {
        Some(i) => m.update(i, (k, v)),
        None => m.insert(insert_pos(m, k, key), (k, v)),
    }
}

pub proof fn lemma_insert_pos<K, V>(m: Seq<(K, V)>, k: K, key: spec_fn(K) -> int)
    requires
        keys_sorted(m, key),
    ensures
        0 <= insert_pos(m, k, key) <= m.len(),
        forall|i: int| 0 <= i < insert_pos(m, k, key) ==> key(#[trigger] m[i].0) < key(k),
        forall|i: int| insert_pos(m, k, key) <= i < m.len() ==> key(#[trigger] m[i].0) >= key(k),
    decreases m.len(),
{
    if m.len() > 0 {
        let t = m.drop_first();
        assert(keys_sorted(t, key)) by {
            assert forall|i: int, j: int| 0 <= i < j < t.len() implies key(#[trigger] t[i].0) < key(
                #[trigger] t[j].0,
            ) by {
                assert(t[i] == m[i + 1]);
                assert(t[j] == m[j + 1]);
            }
        }
        lemma_insert_pos(t, k, key);
        if key(m[0].0) < key(k) {
            assert forall|i: int| 0 <= i < insert_pos(m, k, key) implies key(#[trigger] m[i].0) < key(k) by {
                if i > 0 {
                    assert(m[i] == t[i - 1]);
                }
            }
            assert forall|i: int| insert_pos(m, k, key) <= i < m.len() implies key(#[trigger] m[i].0) >= key(k) by {
                assert(m[i] == t[i - 1]);
            }
        } else {
            assert forall|i: int| insert_pos(m, k, key) <= i < m.len() implies key(#[trigger] m[i].0) >= key(k) by {
                if i > 0 {
                    assert(key(m[0].0) < key(m[i].0));
                }
            }
        }
    }
}

/// In a key-sorted map with an injective key, a position holding `k` is the
/// position of `k`.
pub proof fn lemma_pos_of_at<K, V>(m: Seq<(K, V)>, k: K, i: int, key: spec_fn(K) -> int)
    requires
        keys_sorted(m, key),
        0 <= i < m.len(),
        m[i].0 == k,
    ensures
        pos_of(m, k) == Some(i),
        map_get(m, k) == Some(m[i].1),
{
    let j = choose|j: int| 0 <= j < m.len() && m[j].0 == k;
    assert(0 <= j < m.len() && m[j].0 == k);
    if j < i {
        assert(key(m[j].0) < key(m[i].0));
    }
    if i < j {
        assert(key(m[i].0) < key(m[j].0));
    }
}

/// Storing under a key keeps the map key-sorted, and afterwards the key
/// holds the new value while every other key keeps its value.
pub proof fn lemma_map_set<K, V>(m: Seq<(K, V)>, k: K, v: V, key: spec_fn(K) -> int)
    requires
        keys_sorted(m, key),
        forall|a: K, b: K| #[trigger] key(a) == #[trigger] key(b) ==> a == b,
    ensures
        keys_sorted(map_set(m, k, v, key), key),
        map_get(map_set(m, k, v, key), k) == Some(v),
        forall|k2: K| k2 != k ==> #[trigger] map_get(map_set(m, k, v, key), k2) == map_get(m, k2),
        map_set(m, k, v, key).len() == m.len() + (if pos_of(m, k) is Some { 0int } else { 1int }),
{
    let r = map_set(m, k, v, key);
    match pos_of(m, k) {
        Some(p) => {
            assert(0 <= p < m.len() && m[p].0 == k);
            assert(keys_sorted(r, key)) by {
                assert forall|i: int, j: int| 0 <= i < j < r.len() implies key(#[trigger] r[i].0) < key(
                    #[trigger] r[j].0,
                ) by {
                    assert(r[i].0 == m[i].0);
                    assert(r[j].0 == m[j].0);
                }
            }
            lemma_pos_of_at(r, k, p, key);
            assert forall|k2: K| k2 != k implies #[trigger] map_get(r, k2) == map_get(m, k2) by {
                if exists|i: int| 0 <= i < m.len() && m[i].0 == k2 {
                    let q = choose|i: int| 0 <= i < m.len() && m[i].0 == k2;
                    lemma_pos_of_at(m, k2, q, key);
                    assert(q != p);
                    lemma_pos_of_at(r, k2, q, key);
                } else {
                    assert forall|i: int| 0 <= i < r.len() implies r[i].0 != k2 by {
                        if i != p {
                            assert(r[i] == m[i]);
                        }
                    }
                }
            }
        },
        None => {
            lemma_insert_pos(m, k, key);
            let p = insert_pos(m, k, key);
            assert forall|i: int| 0 <= i < m.len() implies m[i].0 != k by {
                if m[i].0 == k {
                    assert(exists|j: int| 0 <= j < m.len() && m[j].0 == k);
                }
            }
            assert forall|i: int| p <= i < m.len() implies key(#[trigger] m[i].0) > key(k) by {
                if key(m[i].0) == key(k) {
                    assert(m[i].0 == k);
                }
            }
            assert(r.len() == m.len() + 1);
            assert forall|i: int| 0 <= i < r.len() implies #[trigger] r[i] == (if i < p {
                m[i]
            } else if i == p {
                (k, v)
            } else {
                m[i - 1]
            }) by {}
            assert(keys_sorted(r, key)) by {
                assert forall|i: int, j: int| 0 <= i < j < r.len() implies key(#[trigger] r[i].0) < key(
                    #[trigger] r[j].0,
                ) by {
                    if j < p {
                    } else if j == p {
                    } else if i < p {
                        assert(key(m[j - 1].0) > key(k));
                    } else if i == p {
                        assert(key(m[j - 1].0) > key(k));
                    } else {
                        assert(key(m[i - 1].0) < key(m[j - 1].0));
                    }
                }
            }
            lemma_pos_of_at(r, k, p, key);
            assert forall|k2: K| k2 != k implies #[trigger] map_get(r, k2) == map_get(m, k2) by {
                if exists|i: int| 0 <= i < m.len() && m[i].0 == k2 {
                    let q = choose|i: int| 0 <= i < m.len() && m[i].0 == k2;
                    lemma_pos_of_at(m, k2, q, key);
                    if q < p {
                        lemma_pos_of_at(r, k2, q, key);
                    } else {
                        assert(r[q + 1] == m[q]);
                        lemma_pos_of_at(r, k2, q + 1, key);
                    }
                } else {
                    assert forall|i: int| 0 <= i < r.len() implies r[i].0 != k2 by {
                        if i < p {
                        } else if i > p {
                            assert(r[i] == m[i - 1]);
                        }
                    }
                }
            }
        },
    }
}

/// The position of tool call `k`.
fn find_tool_call(m: &Vec<(u32, StreamToolCall)>, k: u32) -> (r: Option<usize>)
    requires
        keys_sorted(tool_calls_view(m@), u32_key()),
    ensures
        r matches Some(i) ==> i < m@.len() && pos_of(tool_calls_view(m@), k) == Some(i as int),
        r is None ==> pos_of(tool_calls_view(m@), k) is None,
{
    let ghost mv = tool_calls_view(m@);
    let mut i: usize = 0;
    while i < m.len()
        invariant
            i <= m@.len(),
            mv == tool_calls_view(m@),
            mv.len() == m@.len(),
            keys_sorted(mv, u32_key()),
            forall|j: int| 0 <= j < i ==> mv[j].0 != k,
        decreases m.len() - i,
    {
        assert(mv[i as int].0 == m@[i as int].0);
        if m[i].0 == k {
            proof {
                lemma_pos_of_at(mv, k, i as int, u32_key());
            }
            return Some(i);
        }
        i = i + 1;
    }
    None
}

/// Where tool call `k` would be inserted.
fn tool_call_insert_pos(m: &Vec<(u32, StreamToolCall)>, k: u32) -> (r: usize)
    requires
        keys_sorted(tool_calls_view(m@), u32_key()),
    ensures
        r as int == insert_pos(tool_calls_view(m@), k, u32_key()),
{
    let ghost mv = tool_calls_view(m@);
    proof {
        lemma_insert_pos(mv, k, u32_key());
    }
    let mut i: usize = 0;
    while i < m.len() && m[i].0 < k
        invariant
            i <= m@.len(),
            mv == tool_calls_view(m@),
            mv.len() == m@.len(),
            forall|j: int| 0 <= j < i ==> (#[trigger] mv[j]).0 < k,
            i <= insert_pos(mv, k, u32_key()),
            forall|j: int| 0 <= j < insert_pos(mv, k, u32_key()) ==> u32_key()(#[trigger] mv[j].0) < u32_key()(k),
            forall|j: int| insert_pos(mv, k, u32_key()) <= j < mv.len() ==> u32_key()(#[trigger] mv[j].0) >= u32_key()(k),
        decreases m.len() - i,
    {
        assert(mv[i as int].0 == m@[i as int].0);
        i = i + 1;
    }
    if i < m.len() {
        assert(mv[i as int].0 == m@[i as int].0);
    }
    i
}

/// `BTreeMap::insert` on the tool calls.
fn set_tool_call(m: &mut Vec<(u32, StreamToolCall)>, k: u32, v: StreamToolCall)
    requires
        keys_sorted(tool_calls_view(old(m)@), u32_key()),
    ensures
        tool_calls_view(final(m)@) == map_set(tool_calls_view(old(m)@), k, v@, u32_key()),
{
    let ghost vv = v@;
    match find_tool_call(m, k) {
        Some(i) => {
            let ghost before = m@;
            m.set(i, (k, v));
            assert(tool_calls_view(m@) =~= tool_calls_view(before).update(i as int, (k, vv)));
        },
        None => {
            let p = tool_call_insert_pos(m, k);
            proof {
                lemma_insert_pos(tool_calls_view(m@), k, u32_key());
            }
            assert(tool_calls_view(m@).len() == m@.len());
            let ghost before = m@;
            m.insert(p, (k, v));
            assert(tool_calls_view(m@) =~= tool_calls_view(before).insert(p as int, (k, vv)));
        },
    }
}

/// The position of output item `k`.
fn find_item(m: &Vec<(usize, Json)>, k: usize) -> (r: Option<usize>)
    requires
        keys_sorted(items_view(m@), usize_key()),
    ensures
        r matches Some(i) ==> i < m@.len() && pos_of(items_view(m@), k) == Some(i as int),
        r is None ==> pos_of(items_view(m@), k) is None,
{
    let ghost mv = items_view(m@);
    let mut i: usize = 0;
    while i < m.len()
        invariant
            i <= m@.len(),
            mv == items_view(m@),
            mv.len() == m@.len(),
            keys_sorted(mv, usize_key()),
            forall|j: int| 0 <= j < i ==> mv[j].0 != k,
        decreases m.len() - i,
    {
        assert(mv[i as int].0 == m@[i as int].0);
        if m[i].0 == k {
            proof {
                lemma_pos_of_at(mv, k, i as int, usize_key());
            }
            return Some(i);
        }
        i = i + 1;
    }
    None
}

/// Where output item `k` would be inserted.
fn item_insert_pos(m: &Vec<(usize, Json)>, k: usize) -> (r: usize)
    requires
        keys_sorted(items_view(m@), usize_key()),
    ensures
        r as int == insert_pos(items_view(m@), k, usize_key()),
{
    let ghost mv = items_view(m@);
    proof {
        lemma_insert_pos(mv, k, usize_key());
    }
    let mut i: usize = 0;
    while i < m.len() && m[i].0 < k
        invariant
            i <= m@.len(),
            mv == items_view(m@),
            mv.len() == m@.len(),
            forall|j: int| 0 <= j < i ==> (#[trigger] mv[j]).0 < k,
            i <= insert_pos(mv, k, usize_key()),
            forall|j: int| 0 <= j < insert_pos(mv, k, usize_key()) ==> usize_key()(#[trigger] mv[j].0) < usize_key()(k),
            forall|j: int| insert_pos(mv, k, usize_key()) <= j < mv.len() ==> usize_key()(#[trigger] mv[j].0) >= usize_key()(k),
        decreases m.len() - i,
    {
        assert(mv[i as int].0 == m@[i as int].0);
        i = i + 1;
    }
    if i < m.len() {
        assert(mv[i as int].0 == m@[i as int].0);
    }
    i
}

/// `BTreeMap::insert` on the output items.
fn set_item(m: &mut Vec<(usize, Json)>, k: usize, v: Json)
    requires
        keys_sorted(items_view(old(m)@), usize_key()),
    ensures
        items_view(final(m)@) == map_set(items_view(old(m)@), k, v@, usize_key()),
{
    let ghost vv = v@;
    match find_item(m, k) {
        Some(i) => {
            let ghost before = m@;
            m.set(i, (k, v));
            assert(items_view(m@) =~= items_view(before).update(i as int, (k, vv)));
        },
        None => {
            let p = item_insert_pos(m, k);
            proof {
                lemma_insert_pos(items_view(m@), k, usize_key());
            }
            assert(items_view(m@).len() == m@.len());
            let ghost before = m@;
            m.insert(p, (k, v));
            assert(items_view(m@) =~= items_view(before).insert(p as int, (k, vv)));
        },
    }
}

// ─── events ───

pub open spec fn js(s: Seq<char>) -> JsonV {
    JsonV::Str(s)
}

pub open spec fn jn(n: nat) -> JsonV {
    JsonV::Number(decimal(n))
}

/// An event whose data is an object starting with `"type": name`.
pub open spec fn ev(name: Seq<char>, fields: Seq<(Seq<char>, JsonV)>) -> SseEventV {
    SseEventV { event: name, data: JsonV::Object(seq![("type"@, js(name))] + fields) }
}

/// A function-call output item.
pub open spec fn fc_item_json(
    id: Seq<char>,
    call_id: Seq<char>,
    name: Seq<char>,
    arguments: Seq<char>,
    status: Seq<char>,
) -> JsonV {
    JsonV::Object(
        seq![
            ("id"@, js(id)),
            ("type"@, js("function_call"@)),
            ("call_id"@, js(call_id)),
            ("name"@, js(name)),
            ("arguments"@, js(arguments)),
            ("status"@, js(status)),
        ],
    )
}

/// An `output_text` content part.
pub open spec fn output_text_part(text: Seq<char>) -> JsonV {
    JsonV::Object(
        seq![("type"@, js("output_text"@)), ("text"@, js(text)), ("annotations"@, JsonV::Array(Seq::empty()))],
    )
}

/// The completed message output item.
pub open spec fn message_item_json(id: Seq<char>, text: Seq<char>, reasoning: Seq<char>) -> JsonV {
    let base = seq![
        ("id"@, js(id)),
        ("type"@, js("message"@)),
        ("role"@, js("assistant"@)),
        ("status"@, js("completed"@)),
        ("content"@, JsonV::Array(seq![output_text_part(text)])),
    ];
    JsonV::Object(
        if reasoning.len() > 0 {
            base.push(("reasoning_content"@, js(reasoning)))
        } else {
            base
        },
    )
}

pub open spec fn fc_added_event(idx: usize, t: StreamToolCallV) -> SseEventV {
    ev(
        "response.output_item.added"@,
        seq![("output_index"@, jn(idx as nat)), ("item"@, fc_item_json(t.id, t.call_id, t.name, ""@, "in_progress"@))],
    )
}

pub open spec fn args_delta_event(idx: usize, item_id: Seq<char>, delta: Seq<char>) -> SseEventV {
    ev(
        "response.function_call_arguments.delta"@,
        seq![("output_index"@, jn(idx as nat)), ("item_id"@, js(item_id)), ("delta"@, js(delta))],
    )
}

pub open spec fn msg_added_event(idx: usize, msg_id: Seq<char>) -> SseEventV {
    ev(
        "response.output_item.added"@,
        seq![
            ("output_index"@, jn(idx as nat)),
            ("item"@, JsonV::Object(seq![
                ("id"@, js(msg_id)),
                ("type"@, js("message"@)),
                ("role"@, js("assistant"@)),
                ("status"@, js("in_progress"@)),
                ("content"@, JsonV::Array(Seq::empty())),
            ])),
        ],
    )
}

pub open spec fn part_added_event(idx: usize) -> SseEventV {
    ev(
        "response.content_part.added"@,
        seq![("output_index"@, jn(idx as nat)), ("content_index"@, jn(0)), ("part"@, output_text_part(""@))],
    )
}

pub open spec fn text_delta_event(idx: usize, delta: Seq<char>) -> SseEventV {
    ev(
        "response.output_text.delta"@,
        seq![("output_index"@, jn(idx as nat)), ("content_index"@, jn(0)), ("delta"@, js(delta))],
    )
}

pub open spec fn args_done_event(idx: usize, item_id: Seq<char>, arguments: Seq<char>) -> SseEventV {
    ev(
        "response.function_call_arguments.done"@,
        seq![("output_index"@, jn(idx as nat)), ("item_id"@, js(item_id)), ("arguments"@, js(arguments))],
    )
}

pub open spec fn item_done_event(idx: usize, item: JsonV) -> SseEventV {
    ev("response.output_item.done"@, seq![("output_index"@, jn(idx as nat)), ("item"@, item)])
}

pub open spec fn text_done_event(idx: usize, text: Seq<char>) -> SseEventV {
    ev(
        "response.output_text.done"@,
        seq![("output_index"@, jn(idx as nat)), ("content_index"@, jn(0)), ("text"@, js(text))],
    )
}

pub open spec fn part_done_event(idx: usize, text: Seq<char>) -> SseEventV {
    ev(
        "response.content_part.done"@,
        seq![("output_index"@, jn(idx as nat)), ("content_index"@, jn(0)), ("part"@, output_text_part(text))],
    )
}

fn num_json(n: usize) -> (r: Json)
    ensures
        r@ == jn(n as nat),
{
    Json::Number(u64_text(n as u64))
}

fn str_json(s: &str) -> (r: Json)
    ensures
        r@ == js(s@),
{
    Json::string(s)
}

/// Starts the data of an event: `{"type": name}`.
fn event_fields(name: &str) -> (r: Vec<(String, Json)>)
    ensures
        jentries(r@) == seq![("type"@, js(name@))],
{
    let mut es: Vec<(String, Json)> = Vec::new();
    proof {
        lemma_jentries_empty(es@);
    }
    push_member(&mut es, "type", str_json(name));
    assert(jentries(es@) =~= seq![("type"@, js(name@))]);
    es
}

fn fc_item_exec(id: &str, call_id: &str, name: &str, arguments: &str, status: &str) -> (r: Json)
    ensures
        r@ == fc_item_json(id@, call_id@, name@, arguments@, status@),
{
    let mut es: Vec<(String, Json)> = Vec::new();
    proof {
        lemma_jentries_empty(es@);
    }
    push_member(&mut es, "id", str_json(id));
    push_member(&mut es, "type", str_json("function_call"));
    push_member(&mut es, "call_id", str_json(call_id));
    push_member(&mut es, "name", str_json(name));
    push_member(&mut es, "arguments", str_json(arguments));
    push_member(&mut es, "status", str_json(status));
    assert(jentries(es@) =~= (fc_item_json(id@, call_id@, name@, arguments@, status@))->Object_0);
    Json::Object(es)
}

fn output_text_part_exec(text: &str) -> (r: Json)
    ensures
        r@ == output_text_part(text@),
{
    let mut es: Vec<(String, Json)> = Vec::new();
    proof {
        lemma_jentries_empty(es@);
    }
    push_member(&mut es, "type", str_json("output_text"));
    push_member(&mut es, "text", str_json(text));
    let empty: Vec<Json> = Vec::new();
    proof {
        lemma_jviews(empty@);
    }
    assert(jviews(empty@) =~= Seq::<JsonV>::empty());
    push_member(&mut es, "annotations", Json::Array(empty));
    assert(jentries(es@) =~= (output_text_part(text@))->Object_0);
    Json::Object(es)
}

fn message_item_exec(id: &str, text: &str, reasoning: &str) -> (r: Json)
    ensures
        r@ == message_item_json(id@, text@, reasoning@),
{
    let mut es: Vec<(String, Json)> = Vec::new();
    proof {
        lemma_jentries_empty(es@);
    }
    push_member(&mut es, "id", str_json(id));
    push_member(&mut es, "type", str_json("message"));
    push_member(&mut es, "role", str_json("assistant"));
    push_member(&mut es, "status", str_json("completed"));
    let mut content: Vec<Json> = Vec::new();
    content.push(output_text_part_exec(text));
    proof {
        lemma_jviews(content@);
    }
    assert(jviews(content@) =~= seq![output_text_part(text@)]);
    push_member(&mut es, "content", Json::Array(content));
    if reasoning.unicode_len() > 0 {
        push_member(&mut es, "reasoning_content", str_json(reasoning));
    }
    assert(jentries(es@) =~= (message_item_json(id@, text@, reasoning@))->Object_0);
    Json::Object(es)
}

fn fc_added_exec(idx: usize, t: &StreamToolCall) -> (r: SseEvent)
    ensures
        r@ == fc_added_event(idx, t@),
{
    let mut es = event_fields("response.output_item.added");
    push_member(&mut es, "output_index", num_json(idx));
    push_member(&mut es, "item", fc_item_exec(t.id.as_str(), t.call_id.as_str(), t.name.as_str(), "", "in_progress"));
    assert(jentries(es@) =~= (fc_added_event(idx, t@).data)->Object_0);
    SseEvent { event: owned("response.output_item.added"), data: Json::Object(es) }
}

fn args_delta_exec(idx: usize, item_id: &str, delta: &str) -> (r: SseEvent)
    ensures
        r@ == args_delta_event(idx, item_id@, delta@),
{
    let mut es = event_fields("response.function_call_arguments.delta");
    push_member(&mut es, "output_index", num_json(idx));
    push_member(&mut es, "item_id", str_json(item_id));
    push_member(&mut es, "delta", str_json(delta));
    assert(jentries(es@) =~= (args_delta_event(idx, item_id@, delta@).data)->Object_0);
    SseEvent { event: owned("response.function_call_arguments.delta"), data: Json::Object(es) }
}

fn msg_added_exec(idx: usize, msg_id: &str) -> (r: SseEvent)
    ensures
        r@ == msg_added_event(idx, msg_id@),
{
    let mut item: Vec<(String, Json)> = Vec::new();
    proof {
        lemma_jentries_empty(item@);
    }
    push_member(&mut item, "id", str_json(msg_id));
    push_member(&mut item, "type", str_json("message"));
    push_member(&mut item, "role", str_json("assistant"));
    push_member(&mut item, "status", str_json("in_progress"));
    let empty: Vec<Json> = Vec::new();
    proof {
        lemma_jviews(empty@);
    }
    assert(jviews(empty@) =~= Seq::<JsonV>::empty());
    push_member(&mut item, "content", Json::Array(empty));
    assert(jentries(item@) =~= seq![
        ("id"@, js(msg_id@)),
        ("type"@, js("message"@)),
        ("role"@, js("assistant"@)),
        ("status"@, js("in_progress"@)),
        ("content"@, JsonV::Array(Seq::empty())),
    ]);
    let mut es = event_fields("response.output_item.added");
    push_member(&mut es, "output_index", num_json(idx));
    push_member(&mut es, "item", Json::Object(item));
    assert(jentries(es@) =~= (msg_added_event(idx, msg_id@).data)->Object_0);
    SseEvent { event: owned("response.output_item.added"), data: Json::Object(es) }
}

fn part_added_exec(idx: usize) -> (r: SseEvent)
    ensures
        r@ == part_added_event(idx),
{
    let mut es = event_fields("response.content_part.added");
    push_member(&mut es, "output_index", num_json(idx));
    push_member(&mut es, "content_index", num_json(0));
    push_member(&mut es, "part", output_text_part_exec(""));
    assert(jentries(es@) =~= (part_added_event(idx).data)->Object_0);
    SseEvent { event: owned("response.content_part.added"), data: Json::Object(es) }
}

fn text_delta_exec(idx: usize, delta: &str) -> (r: SseEvent)
    ensures
        r@ == text_delta_event(idx, delta@),
{
    let mut es = event_fields("response.output_text.delta");
    push_member(&mut es, "output_index", num_json(idx));
    push_member(&mut es, "content_index", num_json(0));
    push_member(&mut es, "delta", str_json(delta));
    assert(jentries(es@) =~= (text_delta_event(idx, delta@).data)->Object_0);
    SseEvent { event: owned("response.output_text.delta"), data: Json::Object(es) }
}

fn args_done_exec(idx: usize, item_id: &str, arguments: &str) -> (r: SseEvent)
    ensures
        r@ == args_done_event(idx, item_id@, arguments@),
{
    let mut es = event_fields("response.function_call_arguments.done");
    push_member(&mut es, "output_index", num_json(idx));
    push_member(&mut es, "item_id", str_json(item_id));
    push_member(&mut es, "arguments", str_json(arguments));
    assert(jentries(es@) =~= (args_done_event(idx, item_id@, arguments@).data)->Object_0);
    SseEvent { event: owned("response.function_call_arguments.done"), data: Json::Object(es) }
}

fn item_done_exec(idx: usize, item: Json) -> (r: SseEvent)
    ensures
        r@ == item_done_event(idx, item@),
{
    let ghost iv = item@;
    let mut es = event_fields("response.output_item.done");
    push_member(&mut es, "output_index", num_json(idx));
    push_member(&mut es, "item", item);
    assert(jentries(es@) =~= (item_done_event(idx, iv).data)->Object_0);
    SseEvent { event: owned("response.output_item.done"), data: Json::Object(es) }
}

fn text_done_exec(idx: usize, text: &str) -> (r: SseEvent)
    ensures
        r@ == text_done_event(idx, text@),
{
    let mut es = event_fields("response.output_text.done");
    push_member(&mut es, "output_index", num_json(idx));
    push_member(&mut es, "content_index", num_json(0));
    push_member(&mut es, "text", str_json(text));
    assert(jentries(es@) =~= (text_done_event(idx, text@).data)->Object_0);
    SseEvent { event: owned("response.output_text.done"), data: Json::Object(es) }
}

fn part_done_exec(idx: usize, text: &str) -> (r: SseEvent)
    ensures
        r@ == part_done_event(idx, text@),
{
    let mut es = event_fields("response.content_part.done");
    push_member(&mut es, "output_index", num_json(idx));
    push_member(&mut es, "content_index", num_json(0));
    push_member(&mut es, "part", output_text_part_exec(text));
    assert(jentries(es@) =~= (part_done_event(idx, text@).data)->Object_0);
    SseEvent { event: owned("response.content_part.done"), data: Json::Object(es) }
}

// ─── the state machine ───

/// The invariant of a stream state: both maps key-sorted; the message has
/// an output index exactly when its content started; every tool call has
/// an output index; every output index given out is below
/// `next_output_index`, and no two output items share one; a closed tool
/// call, and a closed message, has its item among the output items.
pub open spec fn stream_wf(s: StreamStateV) -> bool {
    &&& keys_sorted(s.tool_calls, u32_key())
    &&& keys_sorted(s.output_items, usize_key())
    &&& (s.content_started <==> s.message_output_index is Some)
    &&& (s.message_output_index matches Some(m) ==> m < s.next_output_index)
    &&& forall|k: u32| #![trigger map_get(s.tool_calls, k)] (map_get(s.tool_calls, k) matches Some(e) ==> (
        e.output_index matches Some(x) && x < s.next_output_index))
    &&& forall|k1: u32, k2: u32|
        #![trigger map_get(s.tool_calls, k1), map_get(s.tool_calls, k2)]
        k1 != k2 && map_get(s.tool_calls, k1) is Some && map_get(s.tool_calls, k2) is Some
            && map_get(s.tool_calls, k1)->0.output_index is Some ==> map_get(s.tool_calls, k1)->0.output_index
            != map_get(s.tool_calls, k2)->0.output_index
    &&& forall|k: u32| #![trigger map_get(s.tool_calls, k)] (map_get(s.tool_calls, k) is Some
        && map_get(s.tool_calls, k)->0.output_index is Some && s.message_output_index is Some)
        ==> map_get(s.tool_calls, k)->0.output_index != s.message_output_index
    &&& forall|k: usize| #![trigger map_get(s.output_items, k)] map_get(s.output_items, k) is Some ==> k < s.next_output_index
    &&& forall|k: u32| #![trigger map_get(s.tool_calls, k)] (map_get(s.tool_calls, k) is Some
        && map_get(s.tool_calls, k)->0.done) ==> map_get(s.output_items, map_get(s.tool_calls, k)->0.output_index->0) is Some
    &&& s.message_done ==> s.content_started && map_get(s.output_items, s.message_output_index->0) is Some
}

/// A tool call seen for the first time, under a fresh id.
pub open spec fn new_tool_call(tc: ChatChunkToolCallV, fresh: Seq<char>) -> StreamToolCallV {
    StreamToolCallV {
        call_id: match tc.id {
            Some(x) => x,
            None => fresh,
        },
        id: fresh,
        name: Seq::empty(),
        arguments: Seq::empty(),
        output_index: None,
        added: false,
        done: false,
    }
}

pub open spec fn name_delta(tc: ChatChunkToolCallV) -> Seq<char> {
    match tc.function {
        Some((Some(n), _)) => n,
        _ => Seq::empty(),
    }
}

pub open spec fn args_delta(tc: ChatChunkToolCallV) -> Seq<char> {
    match tc.function {
        Some((_, Some(a))) => a,
        _ => Seq::empty(),
    }
}

/// One tool-call delta: the call (new under `fresh`, or known) gets an
/// output index if it has none, takes the delta's id, name and argument
/// text, and is announced once; non-empty argument text is forwarded.
pub open spec fn tool_delta_step(s: StreamStateV, tc: ChatChunkToolCallV, fresh: Seq<char>) -> (StreamStateV, Seq<SseEventV>) {
    let k = tc.index;
    let e0 = match map_get(s.tool_calls, k) {
        Some(e) => e,
        None => new_tool_call(tc, fresh),
    };
    let idx: usize = match e0.output_index {
        Some(i) => i,
        None => s.next_output_index,
    };
    let next: usize = match e0.output_index {
        Some(i) => s.next_output_index,
        None => (s.next_output_index + 1) as usize,
    };
    let args = args_delta(tc);
    let e1 = StreamToolCallV {
        call_id: match tc.id {
            Some(x) => x,
            None => e0.call_id,
        },
        id: e0.id,
        name: e0.name + name_delta(tc),
        arguments: e0.arguments + args,
        output_index: Some(idx),
        added: true,
        done: e0.done,
    };
    let added: Seq<SseEventV> = if !e0.added {
        seq![fc_added_event(idx, e1)]
    } else {
        Seq::empty()
    };
    let delta: Seq<SseEventV> = if args.len() > 0 {
        seq![args_delta_event(idx, e1.id, args)]
    } else {
        Seq::empty()
    };
    (StreamStateV { tool_calls: map_set(s.tool_calls, k, e1, u32_key()), next_output_index: next, ..s }, added + delta)
}

/// All tool-call deltas of a chunk, in order (`fresh` holds one fresh id per
/// delta, used by those that open a new call).
pub open spec fn tool_deltas(s: StreamStateV, tcs: Seq<ChatChunkToolCallV>, fresh: Seq<Seq<char>>) -> (StreamStateV, Seq<SseEventV>)
    decreases tcs.len(),
{
    if tcs.len() == 0 {
        (s, Seq::empty())
    } else {
        let (s1, e1) = tool_deltas(s, tcs.drop_last(), fresh.drop_last());
        let (s2, e2) = tool_delta_step(s1, tcs.last(), fresh.last());
        (s2, e1 + e2)
    }
}

/// A text delta: the first one opens the message item and its content
/// part; each is appended to the text and forwarded.
pub open spec fn content_step(s: StreamStateV, content: Seq<char>) -> (StreamStateV, Seq<SseEventV>) {
    let idx0 = s.next_output_index;
    let s1 = if !s.content_started {
        StreamStateV {
            next_output_index: (idx0 + 1) as usize,
            message_output_index: Some(idx0),
            content_started: true,
            ..s
        }
    } else {
        s
    };
    let e1: Seq<SseEventV> = if !s.content_started {
        seq![msg_added_event(idx0, s.message_item_id), part_added_event(idx0)]
    } else {
        Seq::empty()
    };
    let idx: usize = match s1.message_output_index {
        Some(i) => i,
        None => 0,
    };
    (StreamStateV { text: s1.text + content, ..s1 }, e1.push(text_delta_event(idx, content)))
}

/// Closing the message: once its content started and only once, the text,
/// the content part and the item are marked done, and the item is kept.
pub open spec fn complete_message_step(s: StreamStateV) -> (StreamStateV, Seq<SseEventV>) {
    if !s.content_started || s.message_done {
        (s, Seq::empty())
    } else {
        let idx: usize = match s.message_output_index {
            Some(i) => i,
            None => 0,
        };
        let item = message_item_json(s.message_item_id, s.text, s.reasoning);
        (
            StreamStateV {
                output_items: map_set(s.output_items, idx, item, usize_key()),
                message_done: true,
                ..s
            },
            seq![text_done_event(idx, s.text), part_done_event(idx, s.text), item_done_event(idx, item)],
        )
    }
}

/// Closing one tool call: it gets an output index if it has none, is
/// announced if it was not, and its arguments and item are marked done.
pub open spec fn tool_finish_one(s: StreamStateV, k: u32) -> (StreamStateV, Seq<SseEventV>) {
    let e = map_get(s.tool_calls, k)->0;
    let idx: usize = match e.output_index {
        Some(i) => i,
        None => s.next_output_index,
    };
    let next: usize = match e.output_index {
        Some(i) => s.next_output_index,
        None => (s.next_output_index + 1) as usize,
    };
    let e1 = StreamToolCallV { output_index: Some(idx), added: true, done: true, ..e };
    let item = fc_item_json(e.id, e.call_id, e.name, e.arguments, "completed"@);
    let added: Seq<SseEventV> = if !e.added {
        seq![fc_added_event(idx, e1)]
    } else {
        Seq::empty()
    };
    (
        StreamStateV {
            tool_calls: map_set(s.tool_calls, k, e1, u32_key()),
            output_items: map_set(s.output_items, idx, item, usize_key()),
            next_output_index: next,
            ..s
        },
        added + seq![args_done_event(idx, e.id, e.arguments), item_done_event(idx, item)],
    )
}

/// Closing the tool calls with the given keys, in order.
pub open spec fn tool_finish_all(s: StreamStateV, keys: Seq<u32>) -> (StreamStateV, Seq<SseEventV>)
    decreases keys.len(),
{
    if keys.len() == 0 {
        (s, Seq::empty())
    } else {
        let (s1, e1) = tool_finish_all(s, keys.drop_last());
        let (s2, e2) = tool_finish_one(s1, keys.last());
        (s2, e1 + e2)
    }
}

/// The keys of the tool calls, in order.
pub open spec fn tool_keys(m: Seq<(u32, StreamToolCallV)>) -> Seq<u32> {
    m.map_values(|e: (u32, StreamToolCallV)| e.0)
}

/// The keys of the tool calls not yet closed, in order.
pub open spec fn open_tool_keys(m: Seq<(u32, StreamToolCallV)>) -> Seq<u32>
    decreases m.len(),
{
    if m.len() == 0 {
        Seq::empty()
    } else if m.last().1.done {
        open_tool_keys(m.drop_last())
    } else {
        open_tool_keys(m.drop_last()).push(m.last().0)
    }
}

/// The end of the upstream stream (`[DONE]` or a closed connection): the
/// message is closed if it is open, then every tool call not yet closed is
/// closed, in index order.
pub open spec fn finish_step(s: StreamStateV) -> (StreamStateV, Seq<SseEventV>) {
    let (a, ea) = complete_message_step(s);
    let (b, eb) = tool_finish_all(a, open_tool_keys(a.tool_calls));
    (b, ea + eb)
}

pub open spec fn or_empty_text(o: Option<Seq<char>>) -> Seq<char> {
    match o {
        Some(t) => t,
        None => Seq::empty(),
    }
}

/// What one chunk does: only its first choice counts. Its tool-call
/// deltas, reasoning text and content text are taken in that order; a
/// finish reason other than `tool_calls` closes the message, and
/// `tool_calls` closes the message and then every tool call in index order.
pub open spec fn chunk_step(s: StreamStateV, c: ChatChunkV, fresh: Seq<Seq<char>>) -> (StreamStateV, Seq<SseEventV>) {
    if c.choices.len() == 0 {
        (s, Seq::empty())
    } else {
        let ch = c.choices[0];
        let (s1, e1) = match ch.delta.tool_calls {
            Some(tcs) => tool_deltas(s, tcs, fresh),
            None => (s, Seq::empty()),
        };
        let s2 = StreamStateV { reasoning: s1.reasoning + or_empty_text(ch.delta.reasoning_content), ..s1 };
        let (s3, e3) = match ch.delta.content {
            Some(t) => content_step(s2, t),
            None => (s2, Seq::empty()),
        };
        let tool_finish = ch.finish_reason == Some("tool_calls"@);
        let (s4, e4) = if ch.finish_reason is Some && !tool_finish {
            complete_message_step(s3)
        } else {
            (s3, Seq::empty())
        };
        let (s5, e5) = if tool_finish {
            let (a, ea) = complete_message_step(s4);
            let (b, eb) = tool_finish_all(a, tool_keys(a.tool_calls));
            (b, ea + eb)
        } else {
            (s4, Seq::empty())
        };
        (s5, e1 + e3 + e4 + e5)
    }
}

pub proof fn lemma_keys_injective()
    ensures
        forall|a: u32, b: u32| #[trigger] u32_key()(a) == #[trigger] u32_key()(b) ==> a == b,
        forall|a: usize, b: usize| #[trigger] usize_key()(a) == #[trigger] usize_key()(b) ==> a == b,
{
}

/// A tool-call delta keeps the invariant, hands out at most one output
/// index and adds at most one call.
#[verifier::spinoff_prover]
#[verifier::rlimit(40)]
pub proof fn lemma_tool_delta_step(s: StreamStateV, tc: ChatChunkToolCallV, fresh: Seq<char>)
    requires
        stream_wf(s),
        s.next_output_index < usize::MAX,
    ensures
        stream_wf(tool_delta_step(s, tc, fresh).0),
        s.next_output_index <= tool_delta_step(s, tc, fresh).0.next_output_index <= s.next_output_index + 1,
        tool_delta_step(s, tc, fresh).0.tool_calls.len() <= s.tool_calls.len() + 1,
{
    lemma_keys_injective();
    let k = tc.index;
    let e0 = match map_get(s.tool_calls, k) {
        Some(e) => e,
        None => new_tool_call(tc, fresh),
    };
    let t = tool_delta_step(s, tc, fresh).0;
    let idx: usize = match e0.output_index {
        Some(i) => i,
        None => s.next_output_index,
    };
    let e1v = StreamToolCallV {
        call_id: match tc.id {
            Some(x) => x,
            None => e0.call_id,
        },
        id: e0.id,
        name: e0.name + name_delta(tc),
        arguments: e0.arguments + args_delta(tc),
        output_index: Some(idx),
        added: true,
        done: e0.done,
    };
    assert(t.tool_calls == map_set(s.tool_calls, k, e1v, u32_key()));
    lemma_map_set(s.tool_calls, k, e1v, u32_key());
    assert(idx < t.next_output_index);
    assert forall|k2: u32| k2 != k && #[trigger] map_get(s.tool_calls, k2) is Some
        && map_get(s.tool_calls, k2)->0.output_index is Some implies map_get(s.tool_calls, k2)->0.output_index
        != Some(idx) by {
        if map_get(s.tool_calls, k) is None {
            assert(map_get(s.tool_calls, k2)->0.output_index->0 < s.next_output_index);
        }
    }
    assert(s.message_output_index is Some ==> s.message_output_index != Some(idx)) by {
        if map_get(s.tool_calls, k) is None && s.message_output_index is Some {
            assert(s.message_output_index->0 < s.next_output_index);
        }
    }
    assert forall|k2: u32| #![trigger map_get(t.tool_calls, k2)] (map_get(t.tool_calls, k2) matches Some(e) ==> (
        e.output_index matches Some(x) && x < t.next_output_index)) by {
        if k2 != k {
            assert(map_get(t.tool_calls, k2) == map_get(s.tool_calls, k2));
        }
    }
    assert forall|k1: u32, k2: u32|
        #![trigger map_get(t.tool_calls, k1), map_get(t.tool_calls, k2)]
        k1 != k2 && map_get(t.tool_calls, k1) is Some && map_get(t.tool_calls, k2) is Some
            && map_get(t.tool_calls, k1)->0.output_index is Some implies map_get(t.tool_calls, k1)->0.output_index
            != map_get(t.tool_calls, k2)->0.output_index by {
        if k1 != k {
            assert(map_get(t.tool_calls, k1) == map_get(s.tool_calls, k1));
        }
        if k2 != k {
            assert(map_get(t.tool_calls, k2) == map_get(s.tool_calls, k2));
        }
    }
    assert forall|k2: u32| #![trigger map_get(t.tool_calls, k2)] (map_get(t.tool_calls, k2) is Some
        && map_get(t.tool_calls, k2)->0.output_index is Some && t.message_output_index is Some)
        implies map_get(t.tool_calls, k2)->0.output_index != t.message_output_index by {
        if k2 != k {
            assert(map_get(t.tool_calls, k2) == map_get(s.tool_calls, k2));
        }
    }
}

/// Opening or continuing the message text keeps the invariant.
pub proof fn lemma_content_step(s: StreamStateV, content: Seq<char>)
    requires
        stream_wf(s),
        s.next_output_index < usize::MAX,
    ensures
        stream_wf(content_step(s, content).0),
        s.next_output_index <= content_step(s, content).0.next_output_index <= s.next_output_index + 1,
        content_step(s, content).0.tool_calls == s.tool_calls,
{
    let t = content_step(s, content).0;
    assert forall|k2: u32| #![trigger map_get(t.tool_calls, k2)] (map_get(t.tool_calls, k2) matches Some(e) ==> (
        e.output_index matches Some(x) && x < t.next_output_index)) by {
        assert(map_get(t.tool_calls, k2) == map_get(s.tool_calls, k2));
    }
    assert forall|k2: u32| #![trigger map_get(t.tool_calls, k2)] (map_get(t.tool_calls, k2) is Some
        && map_get(t.tool_calls, k2)->0.output_index is Some && t.message_output_index is Some)
        implies map_get(t.tool_calls, k2)->0.output_index != t.message_output_index by {
        assert(map_get(t.tool_calls, k2) == map_get(s.tool_calls, k2));
    }
    assert forall|k: usize| #![trigger map_get(t.output_items, k)] map_get(t.output_items, k) is Some implies k < t.next_output_index by {
        assert(map_get(t.output_items, k) == map_get(s.output_items, k));
    }
}

/// Closing the message keeps the invariant.
pub proof fn lemma_complete_message_step(s: StreamStateV)
    requires
        stream_wf(s),
    ensures
        stream_wf(complete_message_step(s).0),
        complete_message_step(s).0.next_output_index == s.next_output_index,
        complete_message_step(s).0.tool_calls == s.tool_calls,
{
    lemma_keys_injective();
    if s.content_started && !s.message_done {
        let idx: usize = s.message_output_index->0;
        let item = message_item_json(s.message_item_id, s.text, s.reasoning);
        lemma_map_set(s.output_items, idx, item, usize_key());
        let t = complete_message_step(s).0;
        assert forall|k: usize| #![trigger map_get(t.output_items, k)] map_get(t.output_items, k) is Some implies k < t.next_output_index by {
            if k != idx {
                assert(map_get(t.output_items, k) == map_get(s.output_items, k));
            }
        }
    }
}

/// Closing one tool call keeps the invariant and hands out no new output
/// index (the call already has one).
pub proof fn lemma_tool_finish_one(s: StreamStateV, k: u32)
    requires
        stream_wf(s),
        map_get(s.tool_calls, k) is Some,
    ensures
        stream_wf(tool_finish_one(s, k).0),
        tool_finish_one(s, k).0.next_output_index == s.next_output_index,
        map_get(tool_finish_one(s, k).0.tool_calls, k) matches Some(e) && e.done,
        forall|k2: u32| k2 != k ==> #[trigger] map_get(tool_finish_one(s, k).0.tool_calls, k2) == map_get(s.tool_calls, k2),
        tool_finish_one(s, k).0.tool_calls.len() == s.tool_calls.len(),
        tool_keys(tool_finish_one(s, k).0.tool_calls) == tool_keys(s.tool_calls),
{
    lemma_keys_injective();
    let e = map_get(s.tool_calls, k)->0;
    let r = tool_finish_one(s, k);
    let t = r.0;
    let e1 = map_get(t.tool_calls, k)->0;
    let idx = e1.output_index->0;
    let item = fc_item_json(e.id, e.call_id, e.name, e.arguments, "completed"@);
    lemma_map_set(s.tool_calls, k, e1, u32_key());
    lemma_map_set(s.output_items, idx, item, usize_key());
    let p = pos_of(s.tool_calls, k)->0;
    assert(t.tool_calls == s.tool_calls.update(p, (k, e1)));
    assert(tool_keys(t.tool_calls) =~= tool_keys(s.tool_calls));
    assert forall|k2: u32| #![trigger map_get(t.tool_calls, k2)] (map_get(t.tool_calls, k2) matches Some(e) ==> (
        e.output_index matches Some(x) && x < t.next_output_index)) by {
        if k2 != k {
            assert(map_get(t.tool_calls, k2) == map_get(s.tool_calls, k2));
        }
    }
    assert forall|k1: u32, k2: u32|
        #![trigger map_get(t.tool_calls, k1), map_get(t.tool_calls, k2)]
        k1 != k2 && map_get(t.tool_calls, k1) is Some && map_get(t.tool_calls, k2) is Some
            && map_get(t.tool_calls, k1)->0.output_index is Some implies map_get(t.tool_calls, k1)->0.output_index
            != map_get(t.tool_calls, k2)->0.output_index by {
        if k1 != k {
            assert(map_get(t.tool_calls, k1) == map_get(s.tool_calls, k1));
        }
        if k2 != k {
            assert(map_get(t.tool_calls, k2) == map_get(s.tool_calls, k2));
        }
    }
    assert forall|k2: u32| #![trigger map_get(t.tool_calls, k2)] (map_get(t.tool_calls, k2) is Some
        && map_get(t.tool_calls, k2)->0.output_index is Some && t.message_output_index is Some)
        implies map_get(t.tool_calls, k2)->0.output_index != t.message_output_index by {
        if k2 != k {
            assert(map_get(t.tool_calls, k2) == map_get(s.tool_calls, k2));
        }
    }
    assert forall|k3: usize| #![trigger map_get(t.output_items, k3)] map_get(t.output_items, k3) is Some implies k3 < t.next_output_index by {
        if k3 != idx {
            assert(map_get(t.output_items, k3) == map_get(s.output_items, k3));
        }
    }
}

pub proof fn lemma_tool_deltas(s: StreamStateV, tcs: Seq<ChatChunkToolCallV>, fresh: Seq<Seq<char>>)
    requires
        stream_wf(s),
        s.next_output_index + tcs.len() < usize::MAX,
    ensures
        stream_wf(tool_deltas(s, tcs, fresh).0),
        s.next_output_index <= tool_deltas(s, tcs, fresh).0.next_output_index <= s.next_output_index + tcs.len(),
        tool_deltas(s, tcs, fresh).0.tool_calls.len() <= s.tool_calls.len() + tcs.len(),
        tool_deltas(s, tcs, fresh).0.content_started == s.content_started,
        tool_deltas(s, tcs, fresh).0.message_done == s.message_done,
        tool_deltas(s, tcs, fresh).0.message_output_index == s.message_output_index,
        tool_deltas(s, tcs, fresh).0.text == s.text,
        tool_deltas(s, tcs, fresh).0.reasoning == s.reasoning,
        tool_deltas(s, tcs, fresh).0.output_items == s.output_items,
        tool_deltas(s, tcs, fresh).0.message_item_id == s.message_item_id,
    decreases tcs.len(),
{
    if tcs.len() > 0 {
        lemma_tool_deltas(s, tcs.drop_last(), fresh.drop_last());
        let s1 = tool_deltas(s, tcs.drop_last(), fresh.drop_last()).0;
        lemma_tool_delta_step(s1, tcs.last(), fresh.last());
    }
}

pub proof fn lemma_map_get_some_iff_key(m: Seq<(u32, StreamToolCallV)>, k: u32)
    ensures
        map_get(m, k) is Some <==> tool_keys(m).contains(k),
{
    if tool_keys(m).contains(k) {
        let i = choose|i: int| 0 <= i < tool_keys(m).len() && tool_keys(m)[i] == k;
        assert(m[i].0 == k);
    }
    if map_get(m, k) is Some {
        let i = pos_of(m, k)->0;
        assert(tool_keys(m)[i] == k);
    }
}

pub proof fn lemma_tool_finish_all(s: StreamStateV, keys: Seq<u32>)
    requires
        stream_wf(s),
        forall|i: int| 0 <= i < keys.len() ==> tool_keys(s.tool_calls).contains(#[trigger] keys[i]),
    ensures
        stream_wf(tool_finish_all(s, keys).0),
        tool_finish_all(s, keys).0.next_output_index == s.next_output_index,
        tool_keys(tool_finish_all(s, keys).0.tool_calls) == tool_keys(s.tool_calls),
        tool_finish_all(s, keys).0.tool_calls.len() == s.tool_calls.len(),
    decreases keys.len(),
{
    if keys.len() > 0 {
        let pre = keys.drop_last();
        assert forall|i: int| 0 <= i < pre.len() implies tool_keys(s.tool_calls).contains(#[trigger] pre[i]) by {
            assert(pre[i] == keys[i]);
        }
        lemma_tool_finish_all(s, pre);
        let s1 = tool_finish_all(s, pre).0;
        assert(tool_keys(s1.tool_calls).contains(keys.last()));
        lemma_map_get_some_iff_key(s1.tool_calls, keys.last());
        lemma_tool_finish_one(s1, keys.last());
    }
}

/// The open calls' keys are keys of the map.
pub proof fn lemma_open_keys_in(m: Seq<(u32, StreamToolCallV)>)
    ensures
        forall|i: int| 0 <= i < open_tool_keys(m).len() ==> tool_keys(m).contains(#[trigger] open_tool_keys(m)[i]),
    decreases m.len(),
{
    if m.len() > 0 {
        let p = m.drop_last();
        lemma_open_keys_in(p);
        assert(tool_keys(m) =~= tool_keys(p).push(m.last().0));
        assert forall|i: int| 0 <= i < open_tool_keys(m).len() implies tool_keys(m).contains(#[trigger] open_tool_keys(m)[i]) by {
            if i < open_tool_keys(p).len() {
                assert(open_tool_keys(m)[i] == open_tool_keys(p)[i]);
                let j = choose|j: int| 0 <= j < tool_keys(p).len() && tool_keys(p)[j] == open_tool_keys(p)[i];
                assert(tool_keys(m)[j] == tool_keys(p)[j]);
            } else {
                assert(tool_keys(m)[m.len() - 1] == m.last().0);
            }
        }
    }
}

/// A key-sorted map stays key-sorted without its last entry, and keeps the
/// values of its other keys.
proof fn lemma_drop_last_get(m: Seq<(u32, StreamToolCallV)>, k: u32)
    requires
        keys_sorted(m, u32_key()),
        m.len() > 0,
        k != m.last().0,
    ensures
        keys_sorted(m.drop_last(), u32_key()),
        map_get(m.drop_last(), k) == map_get(m, k),
{
    let p = m.drop_last();
    assert(keys_sorted(p, u32_key())) by {
        assert forall|i: int, j: int| 0 <= i < j < p.len() implies u32_key()(#[trigger] p[i].0) < u32_key()(
            #[trigger] p[j].0,
        ) by {
            assert(p[i] == m[i] && p[j] == m[j]);
        }
    }
    if map_get(m, k) is Some {
        let i = pos_of(m, k)->0;
        assert(i < m.len() - 1);
        assert(p[i] == m[i]);
        lemma_pos_of_at(p, k, i, u32_key());
    } else if map_get(p, k) is Some {
        let i = pos_of(p, k)->0;
        assert(p[i] == m[i]);
        lemma_pos_of_at(m, k, i, u32_key());
    }
}

/// Every tool call that is not closed is among the open keys.
pub proof fn lemma_open_keys_complete(m: Seq<(u32, StreamToolCallV)>, k: u32)
    requires
        keys_sorted(m, u32_key()),
        map_get(m, k) matches Some(e) && !e.done,
    ensures
        open_tool_keys(m).contains(k),
    decreases m.len(),
{
    let p = m.drop_last();
    if k == m.last().0 {
        lemma_pos_of_at(m, k, m.len() - 1, u32_key());
        assert(open_tool_keys(m) == open_tool_keys(p).push(k));
        assert(open_tool_keys(m)[open_tool_keys(p).len() as int] == k);
    } else {
        lemma_drop_last_get(m, k);
        lemma_open_keys_complete(p, k);
        let j = choose|j: int| 0 <= j < open_tool_keys(p).len() && open_tool_keys(p)[j] == k;
        if !m.last().1.done {
            assert(open_tool_keys(m)[j] == open_tool_keys(p)[j]);
        }
    }
}

/// With every tool call closed, no key is open.
pub proof fn lemma_no_open_keys(m: Seq<(u32, StreamToolCallV)>)
    requires
        keys_sorted(m, u32_key()),
        forall|k: u32| #![trigger map_get(m, k)] map_get(m, k) matches Some(e) ==> e.done,
    ensures
        open_tool_keys(m) == Seq::<u32>::empty(),
    decreases m.len(),
{
    if m.len() > 0 {
        let p = m.drop_last();
        lemma_pos_of_at(m, m.last().0, m.len() - 1, u32_key());
        assert(keys_sorted(p, u32_key())) by {
            assert forall|i: int, j: int| 0 <= i < j < p.len() implies u32_key()(#[trigger] p[i].0) < u32_key()(
                #[trigger] p[j].0,
            ) by {
                assert(p[i] == m[i] && p[j] == m[j]);
            }
        }
        assert forall|k: u32| #![trigger map_get(p, k)] map_get(p, k) is Some implies map_get(p, k)->0.done by {
            if k != m.last().0 {
                lemma_drop_last_get(m, k);
            } else {
                let i = pos_of(p, k)->0;
                assert(p[i] == m[i]);
                assert(u32_key()(m[i].0) < u32_key()(m[m.len() - 1].0));
            }
        }
        lemma_no_open_keys(p);
    }
}

/// Closing tool calls in turn: each closed key is marked done, every other
/// key keeps its value, and the message is untouched.
pub proof fn lemma_tool_finish_all_marks(s: StreamStateV, keys: Seq<u32>)
    requires
        stream_wf(s),
        forall|i: int| 0 <= i < keys.len() ==> tool_keys(s.tool_calls).contains(#[trigger] keys[i]),
    ensures
        forall|k: u32| #![trigger map_get(tool_finish_all(s, keys).0.tool_calls, k)]
            keys.contains(k) ==> (map_get(tool_finish_all(s, keys).0.tool_calls, k) is Some && map_get(tool_finish_all(s, keys).0.tool_calls, k)->0.done),
        forall|k: u32| #![trigger map_get(tool_finish_all(s, keys).0.tool_calls, k)]
            !keys.contains(k) ==> map_get(tool_finish_all(s, keys).0.tool_calls, k) == map_get(s.tool_calls, k),
        tool_finish_all(s, keys).0.content_started == s.content_started,
        tool_finish_all(s, keys).0.message_done == s.message_done,
    decreases keys.len(),
{
    if keys.len() > 0 {
        let pre = keys.drop_last();
        assert forall|i: int| 0 <= i < pre.len() implies tool_keys(s.tool_calls).contains(#[trigger] pre[i]) by {
            assert(pre[i] == keys[i]);
        }
        lemma_tool_finish_all_marks(s, pre);
        lemma_tool_finish_all(s, pre);
        let s1 = tool_finish_all(s, pre).0;
        assert(tool_keys(s1.tool_calls).contains(keys.last()));
        lemma_map_get_some_iff_key(s1.tool_calls, keys.last());
        lemma_tool_finish_one(s1, keys.last());
        let t = tool_finish_all(s, keys).0;
        assert forall|k: u32| #![trigger map_get(t.tool_calls, k)]
            keys.contains(k) implies (map_get(t.tool_calls, k) is Some && map_get(t.tool_calls, k)->0.done) by {
            if k != keys.last() {
                let j = choose|j: int| 0 <= j < keys.len() && keys[j] == k;
                assert(pre[j] == k);
                assert(pre.contains(k));
            }
        }
        assert forall|k: u32| #![trigger map_get(t.tool_calls, k)]
            !keys.contains(k) implies map_get(t.tool_calls, k) == map_get(s.tool_calls, k) by {
            assert(k != keys[keys.len() - 1]);
            if pre.contains(k) {
                let j = choose|j: int| 0 <= j < pre.len() && pre[j] == k;
                assert(keys[j] == k);
            }
        }
    }
}

/// Whether nothing is left open: the message, once started, is closed, and
/// every tool call is closed; each of them has its item among the output
/// items.
pub open spec fn all_closed(s: StreamStateV) -> bool {
    &&& s.content_started ==> s.message_done && map_get(s.output_items, s.message_output_index->0) is Some
    &&& forall|k: u32| #![trigger map_get(s.tool_calls, k)] map_get(s.tool_calls, k) matches Some(e) ==> e.done
        && map_get(s.output_items, e.output_index->0) is Some
}

/// Finishing the stream leaves nothing open, keeps the invariant, and
/// hands out no new output index.
pub proof fn lemma_finish_closes_all(s: StreamStateV)
    requires
        stream_wf(s),
    ensures
        stream_wf(finish_step(s).0),
        all_closed(finish_step(s).0),
        finish_step(s).0.next_output_index == s.next_output_index,
{
    lemma_complete_message_step(s);
    let a = complete_message_step(s).0;
    let keys = open_tool_keys(a.tool_calls);
    lemma_open_keys_in(a.tool_calls);
    lemma_tool_finish_all(a, keys);
    lemma_tool_finish_all_marks(a, keys);
    let t = finish_step(s).0;
    assert forall|k: u32| #![trigger map_get(t.tool_calls, k)] map_get(t.tool_calls, k) is Some implies map_get(t.tool_calls, k)->0.done by {
        if !keys.contains(k) {
            assert(map_get(t.tool_calls, k) == map_get(a.tool_calls, k));
            if !map_get(a.tool_calls, k)->0.done {
                lemma_open_keys_complete(a.tool_calls, k);
            }
        }
    }
}

/// Once nothing is open, finishing again gives no events and changes
/// nothing.
pub proof fn lemma_finish_when_closed(s: StreamStateV)
    requires
        stream_wf(s),
        all_closed(s),
    ensures
        finish_step(s) == (s, Seq::<SseEventV>::empty()),
{
    lemma_no_open_keys(s.tool_calls);
    assert(Seq::<SseEventV>::empty() + Seq::<SseEventV>::empty() =~= Seq::<SseEventV>::empty());
}

/// How many tool-call deltas a chunk carries.
pub open spec fn chunk_tool_count(c: ChatChunkV) -> nat {
    if c.choices.len() > 0 {
        match c.choices[0].delta.tool_calls {
            Some(t) => t.len(),
            None => 0,
        }
    } else {
        0
    }
}

/// The room a chunk needs below `usize::MAX` for the output indices it may
/// hand out.
pub open spec fn chunk_fits(s: StreamStateV, c: ChatChunkV) -> bool {
    s.next_output_index + 2 * chunk_tool_count(c) + s.tool_calls.len() + 1 < usize::MAX
}

/// A chunk keeps the stream invariant: in particular no two output items
/// ever share an output index.
pub proof fn lemma_chunk_step(s: StreamStateV, c: ChatChunkV, fresh: Seq<Seq<char>>)
    requires
        stream_wf(s),
        chunk_fits(s, c),
    ensures
        stream_wf(chunk_step(s, c, fresh).0),
        chunk_step(s, c, fresh).0.next_output_index >= s.next_output_index,
{
    if c.choices.len() > 0 {
        let ch = c.choices[0];
        let s1 = match ch.delta.tool_calls {
            Some(tcs) => tool_deltas(s, tcs, fresh).0,
            None => s,
        };
        if let Some(tcs) = ch.delta.tool_calls {
            lemma_tool_deltas(s, tcs, fresh);
        }
        let s2 = StreamStateV { reasoning: s1.reasoning + or_empty_text(ch.delta.reasoning_content), ..s1 };
        assert(stream_wf(s2)) by {
            assert forall|k2: u32| #![trigger map_get(s2.tool_calls, k2)] (map_get(s2.tool_calls, k2) matches Some(e) ==> (
                e.output_index matches Some(x) && x < s2.next_output_index)) by {
                assert(map_get(s2.tool_calls, k2) == map_get(s1.tool_calls, k2));
            }
        }
        let s3 = match ch.delta.content {
            Some(t) => content_step(s2, t).0,
            None => s2,
        };
        if let Some(t) = ch.delta.content {
            lemma_content_step(s2, t);
        }
        let tool_finish = ch.finish_reason == Some("tool_calls"@);
        let s4 = if ch.finish_reason is Some && !tool_finish {
            complete_message_step(s3).0
        } else {
            s3
        };
        lemma_complete_message_step(s3);
        if tool_finish {
            lemma_complete_message_step(s4);
            let a = complete_message_step(s4).0;
            let keys = tool_keys(a.tool_calls);
            assert forall|i: int| 0 <= i < keys.len() implies tool_keys(a.tool_calls).contains(#[trigger] keys[i]) by {}
            lemma_tool_finish_all(a, keys);
        }
    }
}

// ─── running the state machine ───

proof fn lemma_events_push(v: Seq<SseEvent>, e: SseEvent)
    ensures
        events_view(v.push(e)) == events_view(v).push(e@),
{
    assert(events_view(v.push(e)) =~= events_view(v).push(e@));
}

/// Applies one tool-call delta, with `fresh` as the id of a call it opens.
fn apply_tool_delta(state: &mut StreamState, tc: &ChatChunkToolCall, fresh: String, events: &mut Vec<SseEvent>)
    requires
        stream_wf(old(state)@),
        old(state)@.next_output_index < usize::MAX,
    ensures
        final(state)@ == tool_delta_step(old(state)@, tc@, fresh@).0,
        events_view(final(events)@) == events_view(old(events)@) + tool_delta_step(old(state)@, tc@, fresh@).1,
{
    let ghost s0 = state@;
    let ghost ev0 = events_view(events@);
    let k = tc.index;
    let ghost fv = fresh@;
    let pos = find_tool_call(&state.current_tool_calls, k);
    let (call_id0, id0, name0, args0, out0, added0, done0) = match pos {
        Some(i) => {
            let e = &state.current_tool_calls[i].1;
            assert(s0.tool_calls[i as int] == (k, e@));
            (e.call_id.clone(), e.id.clone(), e.name.clone(), e.arguments.clone(), e.output_index, e.added, e.done)
        },
        None => {
            let cid = match &tc.id {
                Some(x) => x.clone(),
                None => fresh.clone(),
            };
            (cid, fresh, String::new(), String::new(), None, false, false)
        },
    };
    let ghost e0 = match map_get(s0.tool_calls, k) {
        Some(e) => e,
        None => new_tool_call(tc@, fv),
    };
    assert(call_id0@ == e0.call_id && id0@ == e0.id && name0@ == e0.name && args0@ == e0.arguments
        && out0 == e0.output_index && added0 == e0.added && done0 == e0.done);
    let idx = match out0 {
        Some(i) => i,
        None => {
            let i = state.next_output_index;
            state.next_output_index = i + 1;
            i
        },
    };
    let call_id = match &tc.id {
        Some(x) => x.clone(),
        None => call_id0,
    };
    let mut name = name0;
    let mut arguments = args0;
    let mut delta = String::new();
    match &tc.function {
        Some(f) => {
            match &f.name {
                Some(n) => {
                    name.append(n.as_str());
                },
                None => {},
            }
            match &f.arguments {
                Some(a) => {
                    delta = a.clone();
                    arguments.append(a.as_str());
                },
                None => {},
            }
        },
        None => {},
    }
    assert(name@ == e0.name + name_delta(tc@));
    assert(arguments@ == e0.arguments + args_delta(tc@));
    assert(delta@ == args_delta(tc@));
    let e1 = StreamToolCall {
        call_id,
        id: id0,
        name,
        arguments,
        output_index: Some(idx),
        added: true,
        done: done0,
    };
    if !added0 {
        let ev = fc_added_exec(idx, &e1);
        proof {
            lemma_events_push(events@, ev);
        }
        events.push(ev);
    }
    if delta.unicode_len() > 0 {
        let ev = args_delta_exec(idx, e1.id.as_str(), delta.as_str());
        proof {
            lemma_events_push(events@, ev);
        }
        events.push(ev);
    }
    set_tool_call(&mut state.current_tool_calls, k, e1);
    assert(events_view(events@) =~= ev0 + tool_delta_step(s0, tc@, fv).1);
}

/// Applies one text delta.
fn apply_content(state: &mut StreamState, content: &str, events: &mut Vec<SseEvent>)
    requires
        stream_wf(old(state)@),
        old(state)@.next_output_index < usize::MAX,
    ensures
        final(state)@ == content_step(old(state)@, content@).0,
        events_view(final(events)@) == events_view(old(events)@) + content_step(old(state)@, content@).1,
{
    let ghost s0 = state@;
    let ghost ev0 = events_view(events@);
    if !state.content_started {
        let idx = state.next_output_index;
        state.next_output_index = idx + 1;
        state.message_output_index = Some(idx);
        let e1 = msg_added_exec(idx, state.message_item_id.as_str());
        proof {
            lemma_events_push(events@, e1);
        }
        events.push(e1);
        let e2 = part_added_exec(idx);
        proof {
            lemma_events_push(events@, e2);
        }
        events.push(e2);
        state.content_started = true;
    }
    state.accumulated_text.append(content);
    let idx = match state.message_output_index {
        Some(i) => i,
        None => 0,
    };
    let e3 = text_delta_exec(idx, content);
    proof {
        lemma_events_push(events@, e3);
    }
    events.push(e3);
    assert(events_view(events@) =~= ev0 + content_step(s0, content@).1);
}

/// Closes the message, once.
fn complete_message(state: &mut StreamState, events: &mut Vec<SseEvent>)
    requires
        stream_wf(old(state)@),
    ensures
        final(state)@ == complete_message_step(old(state)@).0,
        events_view(final(events)@) == events_view(old(events)@) + complete_message_step(old(state)@).1,
{
    let ghost s0 = state@;
    let ghost ev0 = events_view(events@);
    if !state.content_started || state.message_done {
        assert(events_view(events@) =~= ev0 + Seq::<SseEventV>::empty());
        return;
    }
    let idx = match state.message_output_index {
        Some(i) => i,
        None => 0,
    };
    let e1 = text_done_exec(idx, state.accumulated_text.as_str());
    proof {
        lemma_events_push(events@, e1);
    }
    events.push(e1);
    let e2 = part_done_exec(idx, state.accumulated_text.as_str());
    proof {
        lemma_events_push(events@, e2);
    }
    events.push(e2);
    let item = message_item_exec(
        state.message_item_id.as_str(),
        state.accumulated_text.as_str(),
        state.accumulated_reasoning_content.as_str(),
    );
    let item2 = item.deep_clone();
    let e3 = item_done_exec(idx, item);
    proof {
        lemma_events_push(events@, e3);
    }
    events.push(e3);
    set_item(&mut state.output_items, idx, item2);
    state.message_done = true;
    assert(events_view(events@) =~= ev0 + complete_message_step(s0).1);
}

/// Closes the tool call under key `k`.
fn finish_tool_call(state: &mut StreamState, k: u32, events: &mut Vec<SseEvent>)
    requires
        stream_wf(old(state)@),
        map_get(old(state)@.tool_calls, k) is Some,
    ensures
        final(state)@ == tool_finish_one(old(state)@, k).0,
        events_view(final(events)@) == events_view(old(events)@) + tool_finish_one(old(state)@, k).1,
{
    let ghost s0 = state@;
    let ghost ev0 = events_view(events@);
    let pos = find_tool_call(&state.current_tool_calls, k);
    let i = match pos {
        Some(i) => i,
        None => {
            assert(false);
            0
        },
    };
    let (call_id, id, name, arguments, out0, added0) = {
        let e = &state.current_tool_calls[i].1;
        assert(s0.tool_calls[i as int] == (k, e@));
        (e.call_id.clone(), e.id.clone(), e.name.clone(), e.arguments.clone(), e.output_index, e.added)
    };
    let idx = match out0 {
        Some(x) => x,
        None => {
            let x = state.next_output_index;
            state.next_output_index = x + 1;
            x
        },
    };
    let e1 = StreamToolCall { call_id, id, name, arguments, output_index: Some(idx), added: true, done: true };
    if !added0 {
        let ev = fc_added_exec(idx, &e1);
        proof {
            lemma_events_push(events@, ev);
        }
        events.push(ev);
    }
    let ev = args_done_exec(idx, e1.id.as_str(), e1.arguments.as_str());
    proof {
        lemma_events_push(events@, ev);
    }
    events.push(ev);
    let item = fc_item_exec(e1.id.as_str(), e1.call_id.as_str(), e1.name.as_str(), e1.arguments.as_str(), "completed");
    let item2 = item.deep_clone();
    let ev = item_done_exec(idx, item);
    proof {
        lemma_events_push(events@, ev);
    }
    events.push(ev);
    set_item(&mut state.output_items, idx, item2);
    set_tool_call(&mut state.current_tool_calls, k, e1);
    assert(events_view(events@) =~= ev0 + tool_finish_one(s0, k).1);
}

/// The views of a chunk's tool-call deltas.
pub open spec fn tc_views(v: Seq<ChatChunkToolCall>) -> Seq<ChatChunkToolCallV> {
    v.map_values(|x: ChatChunkToolCall| x@)
}

/// Fresh ids for new tool calls: one generated `fc_…` id per delta.
pub open spec fn fresh_ids_ok(fresh: Seq<Seq<char>>, n: nat) -> bool {
    &&& fresh.len() == n
    &&& forall|i: int| 0 <= i < fresh.len() ==> is_generated_id(#[trigger] fresh[i], "fc"@)
}

/// Applies a chunk's tool-call deltas in order, each with a freshly
/// generated id for a call it opens.
fn apply_tool_deltas(state: &mut StreamState, tcs: &Vec<ChatChunkToolCall>, events: &mut Vec<SseEvent>) -> (fresh: Ghost<Seq<Seq<char>>>)
    requires
        stream_wf(old(state)@),
        old(state)@.next_output_index + tcs@.len() < usize::MAX,
    ensures
        fresh_ids_ok(fresh@, tcs@.len()),
        final(state)@ == tool_deltas(old(state)@, tc_views(tcs@), fresh@).0,
        events_view(final(events)@) == events_view(old(events)@) + tool_deltas(old(state)@, tc_views(tcs@), fresh@).1,
{
    let ghost s0 = state@;
    let ghost ev0 = events_view(events@);
    let ghost tv = tc_views(tcs@);
    let ghost mut fresh: Seq<Seq<char>> = Seq::empty();
    assert(events_view(events@) =~= ev0 + Seq::<SseEventV>::empty());
    let mut i: usize = 0;
    while i < tcs.len()
        invariant
            i <= tcs@.len(),
            tv == tc_views(tcs@),
            tv.len() == tcs@.len(),
            stream_wf(s0),
            s0.next_output_index + tcs@.len() < usize::MAX,
            fresh_ids_ok(fresh, i as nat),
            state@ == tool_deltas(s0, tv.take(i as int), fresh).0,
            events_view(events@) == ev0 + tool_deltas(s0, tv.take(i as int), fresh).1,
        decreases tcs.len() - i,
    {
        proof {
            lemma_tool_deltas(s0, tv.take(i as int), fresh);
        }
        let f = gen_id("fc");
        let ghost evi = events_view(events@);
        apply_tool_delta(state, &tcs[i], f, events);
        proof {
            let next_fresh = fresh.push(f@);
            assert(tv.take(i + 1).drop_last() =~= tv.take(i as int));
            assert(next_fresh.drop_last() =~= fresh);
            assert(tv.take(i + 1).last() == tcs@[i as int]@);
            assert(ev0 + tool_deltas(s0, tv.take(i + 1), next_fresh).1 =~= evi + tool_delta_step(
                tool_deltas(s0, tv.take(i as int), fresh).0,
                tcs@[i as int]@,
                f@,
            ).1);
            fresh = next_fresh;
        }
        i = i + 1;
    }
    assert(tv.take(tv.len() as int) =~= tv);
    Ghost(fresh)
}

/// Closes the tool calls under `keys`, in that order.
fn finish_tool_calls(state: &mut StreamState, keys: &Vec<u32>, events: &mut Vec<SseEvent>)
    requires
        stream_wf(old(state)@),
        forall|i: int| 0 <= i < keys@.len() ==> tool_keys(old(state)@.tool_calls).contains(#[trigger] keys@[i]),
    ensures
        final(state)@ == tool_finish_all(old(state)@, keys@).0,
        events_view(final(events)@) == events_view(old(events)@) + tool_finish_all(old(state)@, keys@).1,
{
    let ghost a = state@;
    let ghost eva = events_view(events@);
    assert(events_view(events@) =~= eva + Seq::<SseEventV>::empty());
    let mut q: usize = 0;
    while q < keys.len()
        invariant
            q <= keys@.len(),
            stream_wf(a),
            forall|i: int| 0 <= i < keys@.len() ==> tool_keys(a.tool_calls).contains(#[trigger] keys@[i]),
            state@ == tool_finish_all(a, keys@.take(q as int)).0,
            events_view(events@) == eva + tool_finish_all(a, keys@.take(q as int)).1,
        decreases keys.len() - q,
    {
        proof {
            let pre = keys@.take(q as int);
            assert forall|z: int| 0 <= z < pre.len() implies tool_keys(a.tool_calls).contains(#[trigger] pre[z]) by {
                assert(pre[z] == keys@[z]);
            }
            lemma_tool_finish_all(a, pre);
            let s1 = tool_finish_all(a, pre).0;
            assert(tool_keys(a.tool_calls).contains(keys@[q as int]));
            assert(tool_keys(s1.tool_calls).contains(keys@[q as int]));
            lemma_map_get_some_iff_key(s1.tool_calls, keys@[q as int]);
        }
        let ghost evq = events_view(events@);
        let ghost pre = keys@.take(q as int);
        finish_tool_call(state, keys[q], events);
        proof {
            assert(keys@.take(q + 1).drop_last() =~= pre);
            assert(keys@.take(q + 1).last() == keys@[q as int]);
            assert(eva + tool_finish_all(a, keys@.take(q + 1)).1 =~= evq + tool_finish_one(
                tool_finish_all(a, pre).0,
                keys@[q as int],
            ).1);
        }
        q = q + 1;
    }
    assert(keys@.take(keys@.len() as int) =~= keys@);
}

/// The keys of all tool calls, in order.
fn tool_call_keys(state: &StreamState) -> (r: Vec<u32>)
    ensures
        r@ == tool_keys(state@.tool_calls),
{
    let mut keys: Vec<u32> = Vec::new();
    let mut j: usize = 0;
    while j < state.current_tool_calls.len()
        invariant
            j <= state.current_tool_calls@.len(),
            keys@ == tool_keys(tool_calls_view(state.current_tool_calls@)).take(j as int),
        decreases state.current_tool_calls.len() - j,
    {
        keys.push(state.current_tool_calls[j].0);
        j = j + 1;
        assert(keys@ =~= tool_keys(tool_calls_view(state.current_tool_calls@)).take(j as int));
    }
    assert(keys@ =~= tool_keys(state@.tool_calls));
    keys
}

/// The keys of the tool calls not yet closed, in order.
fn open_tool_call_keys(state: &StreamState) -> (r: Vec<u32>)
    ensures
        r@ == open_tool_keys(state@.tool_calls),
{
    let mut keys: Vec<u32> = Vec::new();
    let mut j: usize = 0;
    while j < state.current_tool_calls.len()
        invariant
            j <= state.current_tool_calls@.len(),
            keys@ == open_tool_keys(tool_calls_view(state.current_tool_calls@).take(j as int)),
        decreases state.current_tool_calls.len() - j,
    {
        let ghost m = tool_calls_view(state.current_tool_calls@);
        proof {
            assert(m.take(j + 1).drop_last() =~= m.take(j as int));
            assert(m.take(j + 1).last() == m[j as int]);
        }
        if !state.current_tool_calls[j].1.done {
            keys.push(state.current_tool_calls[j].0);
        }
        j = j + 1;
    }
    assert(tool_calls_view(state.current_tool_calls@).take(state.current_tool_calls@.len() as int)
        =~= state@.tool_calls);
    keys
}

/// Closes every tool call, in index order.
fn finish_all_tool_calls(state: &mut StreamState, events: &mut Vec<SseEvent>)
    requires
        stream_wf(old(state)@),
    ensures
        final(state)@ == tool_finish_all(old(state)@, tool_keys(old(state)@.tool_calls)).0,
        events_view(final(events)@) == events_view(old(events)@) + tool_finish_all(
            old(state)@,
            tool_keys(old(state)@.tool_calls),
        ).1,
{
    let keys = tool_call_keys(state);
    finish_tool_calls(state, &keys, events);
}

/// Converts one Chat Completions chunk into Responses events (see
/// [`chunk_step`]); ids of newly opened tool calls are freshly generated.
/// Every text-delta event forwards exactly the chunk's own text, and the
/// message text grows by exactly what the deltas forward.
pub fn convert_stream_chunk(state: &mut StreamState, chunk: &ChatChunk) -> (r: Vec<SseEvent>)
    requires
        stream_wf(old(state)@),
        chunk_fits(old(state)@, chunk@),
    ensures
        stream_wf(final(state)@),
        exists|fresh: Seq<Seq<char>>|
            fresh_ids_ok(fresh, chunk_tool_count(chunk@)) && (final(state)@, events_view(r@)) == chunk_step(
                old(state)@,
                chunk@,
                fresh,
            ),
        chunk@.choices.len() > 0 ==> deltas_carry(events_view(r@), or_empty_text(chunk@.choices[0].delta.content)),
        delta_text(events_view(r@)) == (if chunk@.choices.len() > 0 {
            or_empty_text(chunk@.choices[0].delta.content)
        } else {
            Seq::empty()
        }),
        final(state)@.text == old(state)@.text + delta_text(events_view(r@)),
{
    let ghost s0 = state@;
    let r = convert_chunk_steps(state, chunk);
    proof {
        let fresh = choose|fresh: Seq<Seq<char>>|
            fresh_ids_ok(fresh, chunk_tool_count(chunk@)) && (state@, events_view(r@)) == chunk_step(s0, chunk@, fresh);
        lemma_chunk_text_deltas(s0, chunk@, fresh);
    }
    r
}

#[verifier::rlimit(40)]
fn convert_chunk_steps(state: &mut StreamState, chunk: &ChatChunk) -> (r: Vec<SseEvent>)
    requires
        stream_wf(old(state)@),
        chunk_fits(old(state)@, chunk@),
    ensures
        stream_wf(final(state)@),
        exists|fresh: Seq<Seq<char>>|
            fresh_ids_ok(fresh, chunk_tool_count(chunk@)) && (final(state)@, events_view(r@)) == chunk_step(
                old(state)@,
                chunk@,
                fresh,
            ),
{
    let ghost s0 = state@;
    let mut events: Vec<SseEvent> = Vec::new();
    assert(events_view(events@) =~= Seq::<SseEventV>::empty());
    if chunk.choices.len() == 0 {
        assert(fresh_ids_ok(Seq::<Seq<char>>::empty(), chunk_tool_count(chunk@)));
        return events;
    }
    let choice = &chunk.choices[0];
    assert(chunk@.choices[0] == choice@);
    let ghost mut fresh: Seq<Seq<char>> = Seq::empty();
    match &choice.delta.tool_calls {
        Some(tcs) => {
            assert(choice@.delta.tool_calls == Some(tc_views(tcs@)));
            let g = apply_tool_deltas(state, tcs, &mut events);
            proof {
                fresh = g@;
                lemma_tool_deltas(s0, tc_views(tcs@), fresh);
            }
        },
        None => {},
    }
    assert(fresh_ids_ok(fresh, chunk_tool_count(chunk@)));
    let ghost st1 = state@;
    let ghost ev1 = events_view(events@);
    match &choice.delta.reasoning_content {
        Some(r) => {
            state.accumulated_reasoning_content.append(r.as_str());
        },
        None => {
            assert(state@.reasoning =~= state@.reasoning + Seq::<char>::empty());
        },
    }
    let ghost st2 = state@;
    assert(stream_wf(st2)) by {
        assert forall|k2: u32| #![trigger map_get(st2.tool_calls, k2)] (map_get(st2.tool_calls, k2) matches Some(e) ==> (
            e.output_index matches Some(x) && x < st2.next_output_index)) by {
            assert(map_get(st2.tool_calls, k2) == map_get(st1.tool_calls, k2));
        }
    }
    match &choice.delta.content {
        Some(t) => {
            proof {
                lemma_content_step(st2, t@);
            }
            apply_content(state, t.as_str(), &mut events);
        },
        None => {
            assert(events_view(events@) =~= ev1 + Seq::<SseEventV>::empty());
        },
    }
    let ghost st3 = state@;
    let ghost ev3 = events_view(events@);
    let tool_finish = match &choice.finish_reason {
        Some(f) => str_eq(f.as_str(), "tool_calls"),
        None => false,
    };
    assert(tool_finish == (chunk@.choices[0].finish_reason == Some("tool_calls"@)));
    proof {
        lemma_complete_message_step(st3);
    }
    if choice.finish_reason.is_some() && !tool_finish {
        complete_message(state, &mut events);
    } else {
        assert(events_view(events@) =~= ev3 + Seq::<SseEventV>::empty());
    }
    let ghost st4 = state@;
    let ghost ev4 = events_view(events@);
    if tool_finish {
        proof {
            lemma_complete_message_step(st4);
        }
        complete_message(state, &mut events);
        finish_all_tool_calls(state, &mut events);
    } else {
        assert(events_view(events@) =~= ev4 + Seq::<SseEventV>::empty());
    }
    proof {
        lemma_chunk_step(s0, chunk@, fresh);
    }
    assert(events_view(events@) =~= chunk_step(s0, chunk@, fresh).1);
    events
}

/// `{"input_tokens": i, "output_tokens": o, "total_tokens": t}`.
pub open spec fn usage_json(i: nat, o: nat, t: nat) -> JsonV {
    JsonV::Object(seq![("input_tokens"@, jn(i)), ("output_tokens"@, jn(o)), ("total_tokens"@, jn(t))])
}

/// The `response.created` event of a response created at `created_at`.
pub open spec fn created_event(id: Seq<char>, created_at: u64, model: Seq<char>) -> SseEventV {
    ev(
        "response.created"@,
        seq![("response"@, JsonV::Object(seq![
            ("id"@, js(id)),
            ("object"@, js("response"@)),
            ("created_at"@, jn(created_at as nat)),
            ("model"@, js(model)),
            ("status"@, js("in_progress"@)),
            ("output"@, JsonV::Array(Seq::empty())),
            ("usage"@, usage_json(0, 0, 0)),
        ]))],
    )
}

/// The `response.in_progress` event.
pub open spec fn in_progress_event(id: Seq<char>) -> SseEventV {
    ev(
        "response.in_progress"@,
        seq![("response"@, JsonV::Object(seq![
            ("id"@, js(id)),
            ("object"@, js("response"@)),
            ("status"@, js("in_progress"@)),
            ("output"@, JsonV::Array(Seq::empty())),
        ]))],
    )
}

/// The token counts reported at the end of a stream.
pub open spec fn end_usage_json(u: Option<ChatUsage>) -> JsonV {
    match u {
        Some(u) => usage_json(u.prompt_tokens as nat, u.completion_tokens as nat, u.total_tokens as nat),
        None => usage_json(0, 0, 0),
    }
}

/// The values of a key-sorted map, in key order.
pub open spec fn item_values(m: Seq<(usize, JsonV)>) -> Seq<JsonV> {
    m.map_values(|e: (usize, JsonV)| e.1)
}

/// The `response.completed` event: every completed output item in output
/// index order, and the token counts.
pub open spec fn completed_event(s: StreamStateV, created_at: u64, u: Option<ChatUsage>) -> SseEventV {
    ev(
        "response.completed"@,
        seq![("response"@, JsonV::Object(seq![
            ("id"@, js(s.response_id)),
            ("object"@, js("response"@)),
            ("created_at"@, jn(created_at as nat)),
            ("model"@, js(s.model)),
            ("status"@, js("completed"@)),
            ("output"@, JsonV::Array(item_values(s.output_items))),
            ("usage"@, end_usage_json(u)),
        ]))],
    )
}

pub open spec fn usage_of_ref(u: Option<&ChatUsage>) -> Option<ChatUsage> {
    match u {
        Some(x) => Some(*x),
        None => None,
    }
}

/// A state before any event: fresh ids, nothing received.
pub open spec fn initial_state(s: StreamStateV) -> bool {
    &&& is_generated_id(s.response_id, "resp"@)
    &&& is_generated_id(s.message_item_id, "msg"@)
    &&& s.model.len() == 0
    &&& !s.started
    &&& !s.content_started
    &&& !s.message_done
    &&& s.message_output_index is None
    &&& s.text.len() == 0
    &&& s.reasoning.len() == 0
    &&& s.tool_calls.len() == 0
    &&& s.output_items.len() == 0
    &&& s.next_output_index == 0
}

fn usage_exec(i: u64, o: u64, t: u64) -> (r: Json)
    ensures
        r@ == usage_json(i as nat, o as nat, t as nat),
{
    let mut es: Vec<(String, Json)> = Vec::new();
    proof {
        lemma_jentries_empty(es@);
    }
    push_member(&mut es, "input_tokens", Json::Number(u64_text(i)));
    push_member(&mut es, "output_tokens", Json::Number(u64_text(o)));
    push_member(&mut es, "total_tokens", Json::Number(u64_text(t)));
    assert(jentries(es@) =~= (usage_json(i as nat, o as nat, t as nat))->Object_0);
    Json::Object(es)
}

fn empty_array() -> (r: Json)
    ensures
        r@ == JsonV::Array(Seq::empty()),
{
    let empty: Vec<Json> = Vec::new();
    proof {
        lemma_jviews(empty@);
    }
    assert(jviews(empty@) =~= Seq::<JsonV>::empty());
    Json::Array(empty)
}

impl StreamState {
    /// A state for a new response, with fresh response and message ids.
    pub fn new() -> (r: Self)
        ensures
            initial_state(r@),
            stream_wf(r@),
    {
        let r = StreamState {
            response_id: gen_id("resp"),
            message_item_id: gen_id("msg"),
            model: String::new(),
            started: false,
            content_started: false,
            message_done: false,
            message_output_index: None,
            accumulated_text: String::new(),
            accumulated_reasoning_content: String::new(),
            current_tool_calls: Vec::new(),
            output_items: Vec::new(),
            next_output_index: 0,
        };
        assert(tool_calls_view(r.current_tool_calls@) =~= Seq::empty());
        assert(items_view(r.output_items@) =~= Seq::empty());
        r
    }
}

/// Opens the stream: `response.created` (stamped with the current time) and
/// `response.in_progress`; the state records the model.
pub fn convert_stream_start(state: &mut StreamState, model: &str) -> (r: Vec<SseEvent>)
    requires
        stream_wf(old(state)@),
    ensures
        final(state)@ == (StreamStateV { started: true, model: model@, ..old(state)@ }),
        stream_wf(final(state)@),
        exists|t: u64| events_view(r@) == seq![#[trigger] created_event(old(state)@.response_id, t, model@), in_progress_event(old(state)@.response_id)],
{
    let created_at = now_secs();
    let mut resp: Vec<(String, Json)> = Vec::new();
    proof {
        lemma_jentries_empty(resp@);
    }
    push_member(&mut resp, "id", str_json(state.response_id.as_str()));
    push_member(&mut resp, "object", str_json("response"));
    push_member(&mut resp, "created_at", Json::Number(u64_text(created_at)));
    push_member(&mut resp, "model", str_json(model));
    push_member(&mut resp, "status", str_json("in_progress"));
    push_member(&mut resp, "output", empty_array());
    push_member(&mut resp, "usage", usage_exec(0, 0, 0));
    assert(jentries(resp@) =~= (created_event(state@.response_id, created_at, model@).data->Object_0)[1].1->Object_0);
    let mut es = event_fields("response.created");
    push_member(&mut es, "response", Json::Object(resp));
    assert(jentries(es@) =~= (created_event(state@.response_id, created_at, model@).data)->Object_0);
    let e1 = SseEvent { event: owned("response.created"), data: Json::Object(es) };

    let mut resp2: Vec<(String, Json)> = Vec::new();
    proof {
        lemma_jentries_empty(resp2@);
    }
    push_member(&mut resp2, "id", str_json(state.response_id.as_str()));
    push_member(&mut resp2, "object", str_json("response"));
    push_member(&mut resp2, "status", str_json("in_progress"));
    push_member(&mut resp2, "output", empty_array());
    assert(jentries(resp2@) =~= (in_progress_event(state@.response_id).data->Object_0)[1].1->Object_0);
    let mut es2 = event_fields("response.in_progress");
    push_member(&mut es2, "response", Json::Object(resp2));
    assert(jentries(es2@) =~= (in_progress_event(state@.response_id).data)->Object_0);
    let e2 = SseEvent { event: owned("response.in_progress"), data: Json::Object(es2) };

    let mut events: Vec<SseEvent> = Vec::new();
    events.push(e1);
    events.push(e2);
    state.started = true;
    state.model = owned(model);
    assert(events_view(events@) =~= seq![e1@, e2@]);
    events
}

/// Flushes what the upstream left open when its stream ends (`[DONE]` or a
/// closed connection): the message, then every tool call not yet closed
/// (see [`finish_step`]). Afterwards nothing is open.
pub fn convert_stream_finish(state: &mut StreamState) -> (r: Vec<SseEvent>)
    requires
        stream_wf(old(state)@),
    ensures
        stream_wf(final(state)@),
        all_closed(final(state)@),
        (final(state)@, events_view(r@)) == finish_step(old(state)@),
{
    let ghost s0 = state@;
    let mut events: Vec<SseEvent> = Vec::new();
    assert(events_view(events@) =~= Seq::<SseEventV>::empty());
    proof {
        lemma_complete_message_step(state@);
        lemma_finish_closes_all(state@);
    }
    complete_message(state, &mut events);
    let ghost a = state@;
    let ghost ea = events_view(events@);
    let keys = open_tool_call_keys(state);
    proof {
        lemma_open_keys_in(a.tool_calls);
    }
    finish_tool_calls(state, &keys, &mut events);
    assert(events_view(events@) =~= finish_step(s0).1);
    events
}

/// The closing `response.completed` event (stamped with the current time).
pub fn convert_stream_end(state: &StreamState, usage: Option<&ChatUsage>) -> (r: SseEvent)
    ensures
        exists|t: u64| r@ == #[trigger] completed_event(state@, t, usage_of_ref(usage)),
{
    let created_at = now_secs();
    let usage_val = match usage {
        Some(u) => usage_exec(u.prompt_tokens as u64, u.completion_tokens as u64, u.total_tokens as u64),
        None => usage_exec(0, 0, 0),
    };
    let mut items: Vec<Json> = Vec::new();
    let mut i: usize = 0;
    while i < state.output_items.len()
        invariant
            i <= state.output_items@.len(),
            jviews(items@) == item_values(items_view(state.output_items@)).take(i as int),
        decreases state.output_items.len() - i,
    {
        let ghost before = items@;
        items.push(state.output_items[i].1.deep_clone());
        proof {
            lemma_jviews(before);
            lemma_jviews(items@);
            assert(jviews(items@) =~= item_values(items_view(state.output_items@)).take(i + 1));
        }
        i = i + 1;
    }
    assert(item_values(items_view(state.output_items@)).take(state.output_items@.len() as int) =~= item_values(
        items_view(state.output_items@),
    ));
    let ghost uo = usage_of_ref(usage);
    let mut resp: Vec<(String, Json)> = Vec::new();
    proof {
        lemma_jentries_empty(resp@);
    }
    push_member(&mut resp, "id", str_json(state.response_id.as_str()));
    push_member(&mut resp, "object", str_json("response"));
    push_member(&mut resp, "created_at", Json::Number(u64_text(created_at)));
    push_member(&mut resp, "model", str_json(state.model.as_str()));
    push_member(&mut resp, "status", str_json("completed"));
    push_member(&mut resp, "output", Json::Array(items));
    push_member(&mut resp, "usage", usage_val);
    assert(jentries(resp@) =~= (completed_event(state@, created_at, uo).data->Object_0)[1].1->Object_0);
    let mut es = event_fields("response.completed");
    push_member(&mut es, "response", Json::Object(resp));
    assert(jentries(es@) =~= (completed_event(state@, created_at, uo).data)->Object_0);
    SseEvent { event: owned("response.completed"), data: Json::Object(es) }
}

// ─── what the text deltas carry ───

/// The name of the event that forwards a piece of the message text.
pub open spec fn text_delta_name() -> Seq<char> {
    "response.output_text.delta"@
}

/// The text the text-delta events of a list forward, in order: the
/// `delta` member of each `response.output_text.delta` event.
pub open spec fn delta_text(evs: Seq<SseEventV>) -> Seq<char>
    decreases evs.len(),
{
    if evs.len() == 0 {
        Seq::empty()
    } else {
        delta_text(evs.drop_last()) + (if evs.last().event == text_delta_name() {
            match jget_str(evs.last().data, "delta"@) {
                Some(t) => t,
                None => Seq::empty(),
            }
        } else {
            Seq::empty()
        })
    }
}

/// Whether every text-delta event of a list forwards exactly `t`.
pub open spec fn deltas_carry(evs: Seq<SseEventV>, t: Seq<char>) -> bool {
    forall|i: int| 0 <= i < evs.len() && (#[trigger] evs[i]).event == text_delta_name() ==> jget_str(evs[i].data, "delta"@) == Some(t)
}

/// Whether a list holds no text-delta event.
pub open spec fn no_text_delta(evs: Seq<SseEventV>) -> bool {
    forall|i: int| 0 <= i < evs.len() ==> (#[trigger] evs[i]).event != text_delta_name()
}

proof fn lemma_delta_text_concat(a: Seq<SseEventV>, b: Seq<SseEventV>)
    ensures
        delta_text(a + b) == delta_text(a) + delta_text(b),
    decreases b.len(),
{
    if b.len() == 0 {
        assert(a + b =~= a);
        assert(delta_text(a) + Seq::<char>::empty() =~= delta_text(a));
    } else {
        lemma_delta_text_concat(a, b.drop_last());
        assert((a + b).drop_last() =~= a + b.drop_last());
        assert((a + b).last() == b.last());
        assert(delta_text(a) + delta_text(b.drop_last()) + (if b.last().event == text_delta_name() {
            match jget_str(b.last().data, "delta"@) {
                Some(t) => t,
                None => Seq::empty(),
            }
        } else {
            Seq::empty()
        }) =~= delta_text(a) + delta_text(b));
    }
}

proof fn lemma_no_text_delta_empty(evs: Seq<SseEventV>)
    requires
        no_text_delta(evs),
    ensures
        delta_text(evs) == Seq::<char>::empty(),
    decreases evs.len(),
{
    if evs.len() > 0 {
        let p = evs.drop_last();
        assert(no_text_delta(p)) by {
            assert forall|i: int| 0 <= i < p.len() implies (#[trigger] p[i]).event != text_delta_name() by {
                assert(p[i] == evs[i]);
            }
        }
        lemma_no_text_delta_empty(p);
        assert(evs[evs.len() - 1].event != text_delta_name());
        assert(Seq::<char>::empty() + Seq::<char>::empty() =~= Seq::<char>::empty());
    }
}

proof fn lemma_no_text_delta_concat(a: Seq<SseEventV>, b: Seq<SseEventV>)
    requires
        no_text_delta(a),
        no_text_delta(b),
    ensures
        no_text_delta(a + b),
{
    assert forall|i: int| 0 <= i < (a + b).len() implies (#[trigger] (a + b)[i]).event != text_delta_name() by {
        if i < a.len() {
            assert((a + b)[i] == a[i]);
        } else {
            assert((a + b)[i] == b[i - a.len()]);
        }
    }
}

/// The names of the other events differ from the text-delta name.
proof fn lemma_other_names()
    ensures
        "response.output_item.added"@ != text_delta_name(),
        "response.function_call_arguments.delta"@ != text_delta_name(),
        "response.content_part.added"@ != text_delta_name(),
        "response.function_call_arguments.done"@ != text_delta_name(),
        "response.output_item.done"@ != text_delta_name(),
        "response.output_text.done"@ != text_delta_name(),
        "response.content_part.done"@ != text_delta_name(),
{
    reveal_strlit("response.output_text.delta");
    reveal_strlit("response.output_item.added");
    reveal_strlit("response.function_call_arguments.delta");
    reveal_strlit("response.content_part.added");
    reveal_strlit("response.function_call_arguments.done");
    reveal_strlit("response.output_item.done");
    reveal_strlit("response.output_text.done");
    reveal_strlit("response.content_part.done");
    assert("response.output_item.added"@[16] != "response.output_text.delta"@[16]);
    assert("response.content_part.done"@[9] != "response.output_text.delta"@[9]);
    assert("response.output_text.done"@[22] != "response.output_text.delta"@[22]);
    assert("response.output_item.done"@[16] != "response.output_text.delta"@[16]);
}

/// A text-delta event forwards the text it was made with, under `delta`.
proof fn lemma_text_delta_payload(idx: usize, t: Seq<char>)
    ensures
        text_delta_event(idx, t).event == text_delta_name(),
        jget_str(text_delta_event(idx, t).data, "delta"@) == Some(t),
{
    reveal_strlit("type");
    reveal_strlit("output_index");
    reveal_strlit("content_index");
    reveal_strlit("delta");
    let es = seq![("type"@, js("response.output_text.delta"@))] + seq![
        ("output_index"@, jn(idx as nat)),
        ("content_index"@, jn(0)),
        ("delta"@, js(t)),
    ];
    assert(es.subrange(1, 4) =~= seq![("content_index"@, jn(0)), ("delta"@, js(t))].insert(0, ("output_index"@, jn(idx as nat))));
    assert("type"@.len() != "delta"@.len());
    assert("output_index"@.len() != "delta"@.len());
    assert("content_index"@.len() != "delta"@.len());
    assert(es[0].0 != "delta"@);
    assert(es[1].0 != "delta"@);
    assert(es[2].0 != "delta"@);
    let e1 = es.subrange(1, 4);
    let e2 = e1.subrange(1, 3);
    let e3 = e2.subrange(1, 2);
    assert(e1[0] == es[1]);
    assert(e2[0] == es[2]);
    assert(e3[0] == es[3]);
    assert(e3.len() == 1);
    assert(es == (text_delta_event(idx, t).data)->Object_0);
    assert(crate::json::obj_get(e3, "delta"@) == Some(js(t)));
    assert(crate::json::obj_get(e2, "delta"@) == Some(js(t)));
    assert(crate::json::obj_get(e1, "delta"@) == Some(js(t)));
    assert(crate::json::obj_get(es, "delta"@) == Some(js(t)));
}

proof fn lemma_tool_delta_events(s: StreamStateV, tc: ChatChunkToolCallV, fresh: Seq<char>)
    ensures
        no_text_delta(tool_delta_step(s, tc, fresh).1),
{
    lemma_other_names();
}

proof fn lemma_tool_deltas_events(s: StreamStateV, tcs: Seq<ChatChunkToolCallV>, fresh: Seq<Seq<char>>)
    ensures
        no_text_delta(tool_deltas(s, tcs, fresh).1),
    decreases tcs.len(),
{
    if tcs.len() > 0 {
        lemma_tool_deltas_events(s, tcs.drop_last(), fresh.drop_last());
        let s1 = tool_deltas(s, tcs.drop_last(), fresh.drop_last()).0;
        lemma_tool_delta_events(s1, tcs.last(), fresh.last());
        lemma_no_text_delta_concat(
            tool_deltas(s, tcs.drop_last(), fresh.drop_last()).1,
            tool_delta_step(s1, tcs.last(), fresh.last()).1,
        );
    } else {
        assert(no_text_delta(Seq::<SseEventV>::empty()));
    }
}

proof fn lemma_complete_message_events(s: StreamStateV)
    ensures
        no_text_delta(complete_message_step(s).1),
{
    lemma_other_names();
}

proof fn lemma_tool_finish_events(s: StreamStateV, keys: Seq<u32>)
    ensures
        no_text_delta(tool_finish_all(s, keys).1),
    decreases keys.len(),
{
    lemma_other_names();
    if keys.len() > 0 {
        lemma_tool_finish_events(s, keys.drop_last());
        let s1 = tool_finish_all(s, keys.drop_last()).0;
        lemma_no_text_delta_concat(tool_finish_all(s, keys.drop_last()).1, tool_finish_one(s1, keys.last()).1);
    }
}

/// A text delta forwards exactly the new text, and it is the only
/// text-delta event of the step.
proof fn lemma_content_events(s: StreamStateV, content: Seq<char>)
    ensures
        deltas_carry(content_step(s, content).1, content),
        delta_text(content_step(s, content).1) == content,
{
    lemma_other_names();
    let evs = content_step(s, content).1;
    let idx: usize = match (if !s.content_started {
        StreamStateV { next_output_index: (s.next_output_index + 1) as usize, message_output_index: Some(s.next_output_index), content_started: true, ..s }
    } else {
        s
    }).message_output_index {
        Some(i) => i,
        None => 0,
    };
    lemma_text_delta_payload(idx, content);
    let head = evs.drop_last();
    assert(no_text_delta(head));
    lemma_no_text_delta_empty(head);
    assert(Seq::<char>::empty() + content =~= content);
}

/// The law of the text deltas, chunk by chunk: every
/// `response.output_text.delta` event a chunk produces forwards exactly the
/// chunk's own text (`delta.content` of its first choice), the deltas of a
/// chunk together forward that text and nothing else, and the message text
/// grows by exactly what they forward. So a client that concatenates the
/// deltas of a stream gets the message text.
pub proof fn lemma_chunk_text_deltas(s: StreamStateV, c: ChatChunkV, fresh: Seq<Seq<char>>)
    requires
        stream_wf(s),
        chunk_fits(s, c),
    ensures
        c.choices.len() > 0 ==> deltas_carry(chunk_step(s, c, fresh).1, or_empty_text(c.choices[0].delta.content)),
        delta_text(chunk_step(s, c, fresh).1) == (if c.choices.len() > 0 {
            or_empty_text(c.choices[0].delta.content)
        } else {
            Seq::empty()
        }),
        chunk_step(s, c, fresh).0.text == s.text + delta_text(chunk_step(s, c, fresh).1),
{
    lemma_chunk_appends_text(s, c, fresh);
    if c.choices.len() == 0 {
        assert(delta_text(Seq::<SseEventV>::empty()) == Seq::<char>::empty());
    } else {
        let ch = c.choices[0];
        let (s1, e1) = match ch.delta.tool_calls {
            Some(tcs) => tool_deltas(s, tcs, fresh),
            None => (s, Seq::empty()),
        };
        match ch.delta.tool_calls {
            Some(tcs) => lemma_tool_deltas_events(s, tcs, fresh),
            None => {},
        }
        assert(no_text_delta(e1));
        let s2 = StreamStateV { reasoning: s1.reasoning + or_empty_text(ch.delta.reasoning_content), ..s1 };
        let (s3, e3) = match ch.delta.content {
            Some(t) => content_step(s2, t),
            None => (s2, Seq::empty()),
        };
        match ch.delta.content {
            Some(t) => lemma_content_events(s2, t),
            None => {
                assert(no_text_delta(e3));
                lemma_no_text_delta_empty(e3);
            },
        }
        let tool_finish = ch.finish_reason == Some("tool_calls"@);
        let (s4, e4) = if ch.finish_reason is Some && !tool_finish {
            complete_message_step(s3)
        } else {
            (s3, Seq::empty())
        };
        lemma_complete_message_events(s3);
        assert(no_text_delta(e4));
        let (s5, e5) = if tool_finish {
            let (a, ea) = complete_message_step(s4);
            let (b, eb) = tool_finish_all(a, tool_keys(a.tool_calls));
            (b, ea + eb)
        } else {
            (s4, Seq::empty())
        };
        if tool_finish {
            lemma_complete_message_events(s4);
            let a = complete_message_step(s4).0;
            lemma_tool_finish_events(a, tool_keys(a.tool_calls));
            lemma_no_text_delta_concat(complete_message_step(s4).1, tool_finish_all(a, tool_keys(a.tool_calls)).1);
        }
        assert(no_text_delta(e5));
        let evs = e1 + e3 + e4 + e5;
        assert(chunk_step(s, c, fresh).1 == evs);
        lemma_no_text_delta_empty(e1);
        lemma_no_text_delta_empty(e4);
        lemma_no_text_delta_empty(e5);
        lemma_delta_text_concat(e1, e3);
        lemma_delta_text_concat(e1 + e3, e4);
        lemma_delta_text_concat(e1 + e3 + e4, e5);
        assert(Seq::<char>::empty() + delta_text(e3) =~= delta_text(e3));
        assert(delta_text(e3) + Seq::<char>::empty() =~= delta_text(e3));
        assert(delta_text(e3) == or_empty_text(ch.delta.content));
        assert forall|i: int| 0 <= i < evs.len() && (#[trigger] evs[i]).event == text_delta_name() implies jget_str(
            evs[i].data,
            "delta"@,
        ) == Some(or_empty_text(ch.delta.content)) by {
            if i < e1.len() {
                assert(evs[i] == e1[i]);
            } else if i < e1.len() + e3.len() {
                assert(evs[i] == e3[i - e1.len()]);
                if ch.delta.content is None {
                    assert(e3.len() == 0);
                }
            } else if i < e1.len() + e3.len() + e4.len() {
                assert(evs[i] == e4[i - e1.len() - e3.len()]);
            } else {
                assert(evs[i] == e5[i - e1.len() - e3.len() - e4.len()]);
            }
        }
    }
}

// ─── output indices over a whole stream ───

/// Output index `i` belongs to an item: the message or a tool call.
pub open spec fn index_used(s: StreamStateV, i: usize) -> bool {
    ||| s.message_output_index == Some(i)
    ||| exists|k: u32| #[trigger] map_get(s.tool_calls, k) is Some && map_get(s.tool_calls, k)->0.output_index == Some(i)
}

/// The output indices handed out are exactly `0, 1, …, next_output_index - 1`:
/// each belongs to an item (and, by [`stream_wf`], to one item only).
pub open spec fn indices_dense(s: StreamStateV) -> bool {
    forall|i: usize| i < s.next_output_index ==> #[trigger] index_used(s, i)
}

/// From state `s` to state `t`, nothing announced is forgotten: every tool
/// call stays, keeps its output index and stays announced; a started
/// message keeps its output index; the next index never goes back; and an
/// item that first appears after `s` gets an index no earlier item has
/// (at least `s.next_output_index`).
pub open spec fn keeps(s: StreamStateV, t: StreamStateV) -> bool {
    &&& s.next_output_index <= t.next_output_index
    &&& s.content_started ==> t.content_started && t.message_output_index == s.message_output_index
    &&& !s.content_started && t.content_started ==> (t.message_output_index is Some && t.message_output_index->0 >= s.next_output_index)
    &&& forall|k: u32| #![trigger map_get(t.tool_calls, k)] map_get(s.tool_calls, k) is None && map_get(t.tool_calls, k) is Some
        ==> (map_get(t.tool_calls, k)->0.output_index is Some && map_get(t.tool_calls, k)->0.output_index->0 >= s.next_output_index)
    &&& forall|k: u32| #![trigger map_get(s.tool_calls, k)] map_get(s.tool_calls, k) is Some ==> {
        &&& map_get(t.tool_calls, k) is Some
        &&& map_get(t.tool_calls, k)->0.output_index == map_get(s.tool_calls, k)->0.output_index
        &&& map_get(s.tool_calls, k)->0.added ==> map_get(t.tool_calls, k)->0.added
    }
}

/// A step that keeps what was announced and gives every index it hands
/// out to an item keeps the indices dense.
pub proof fn lemma_keeps_dense(s: StreamStateV, t: StreamStateV)
    requires
        stream_wf(s),
        indices_dense(s),
        keeps(s, t),
        forall|i: usize| s.next_output_index <= i < t.next_output_index ==> #[trigger] index_used(t, i),
    ensures
        indices_dense(t),
{
    assert forall|i: usize| i < t.next_output_index implies #[trigger] index_used(t, i) by {
        if i < s.next_output_index {
            assert(index_used(s, i));
            if s.message_output_index == Some(i) {
                assert(s.content_started);
            } else {
                let k = choose|k: u32| #[trigger] map_get(s.tool_calls, k) is Some && map_get(s.tool_calls, k)->0.output_index == Some(i);
                assert(map_get(t.tool_calls, k) is Some && map_get(t.tool_calls, k)->0.output_index == Some(i));
            }
        }
    }
}

pub proof fn lemma_keeps_trans(a: StreamStateV, b: StreamStateV, c: StreamStateV)
    requires
        keeps(a, b),
        keeps(b, c),
    ensures
        keeps(a, c),
{
    assert forall|k: u32| #![trigger map_get(a.tool_calls, k)] map_get(a.tool_calls, k) is Some implies {
        &&& map_get(c.tool_calls, k) is Some
        &&& map_get(c.tool_calls, k)->0.output_index == map_get(a.tool_calls, k)->0.output_index
        &&& map_get(a.tool_calls, k)->0.added ==> map_get(c.tool_calls, k)->0.added
    } by {
        assert(map_get(b.tool_calls, k) is Some);
    }
    assert forall|k: u32| #![trigger map_get(c.tool_calls, k)] map_get(a.tool_calls, k) is None && map_get(c.tool_calls, k) is Some
        implies (map_get(c.tool_calls, k)->0.output_index is Some && map_get(c.tool_calls, k)->0.output_index->0 >= a.next_output_index) by {
        if map_get(b.tool_calls, k) is Some {
            assert(map_get(c.tool_calls, k)->0.output_index == map_get(b.tool_calls, k)->0.output_index);
        }
    }
}

proof fn lemma_keeps_refl(s: StreamStateV)
    ensures
        keeps(s, s),
{
}

/// One tool-call delta keeps what was announced, and the index it may hand
/// out goes to that tool call.
proof fn lemma_tool_delta_keeps(s: StreamStateV, tc: ChatChunkToolCallV, fresh: Seq<char>)
    requires
        stream_wf(s),
        indices_dense(s),
        s.next_output_index < usize::MAX,
    ensures
        keeps(s, tool_delta_step(s, tc, fresh).0),
        indices_dense(tool_delta_step(s, tc, fresh).0),
{
    lemma_keys_injective();
    lemma_tool_delta_step(s, tc, fresh);
    let k = tc.index;
    let t = tool_delta_step(s, tc, fresh).0;
    let e0 = match map_get(s.tool_calls, k) {
        Some(e) => e,
        None => new_tool_call(tc, fresh),
    };
    let idx: usize = match e0.output_index {
        Some(i) => i,
        None => s.next_output_index,
    };
    let e1 = StreamToolCallV {
        call_id: match tc.id {
            Some(x) => x,
            None => e0.call_id,
        },
        id: e0.id,
        name: e0.name + name_delta(tc),
        arguments: e0.arguments + args_delta(tc),
        output_index: Some(idx),
        added: true,
        done: e0.done,
    };
    assert(t.tool_calls == map_set(s.tool_calls, k, e1, u32_key()));
    lemma_map_set(s.tool_calls, k, e1, u32_key());
    assert forall|k2: u32| #![trigger map_get(s.tool_calls, k2)] map_get(s.tool_calls, k2) is Some implies {
        &&& map_get(t.tool_calls, k2) is Some
        &&& map_get(t.tool_calls, k2)->0.output_index == map_get(s.tool_calls, k2)->0.output_index
        &&& map_get(s.tool_calls, k2)->0.added ==> map_get(t.tool_calls, k2)->0.added
    } by {
        if k2 != k {
            assert(map_get(t.tool_calls, k2) == map_get(s.tool_calls, k2));
        }
    }
    assert forall|k2: u32| #![trigger map_get(t.tool_calls, k2)] map_get(s.tool_calls, k2) is None && map_get(t.tool_calls, k2) is Some
        implies (map_get(t.tool_calls, k2)->0.output_index is Some && map_get(t.tool_calls, k2)->0.output_index->0 >= s.next_output_index) by {
        if k2 != k {
            assert(map_get(t.tool_calls, k2) == map_get(s.tool_calls, k2));
        }
    }
    assert(keeps(s, t));
    assert forall|i: usize| s.next_output_index <= i < t.next_output_index implies #[trigger] index_used(t, i) by {
        assert(map_get(t.tool_calls, k) is Some && map_get(t.tool_calls, k)->0.output_index == Some(i));
    }
    lemma_keeps_dense(s, t);
}

proof fn lemma_tool_deltas_keep(s: StreamStateV, tcs: Seq<ChatChunkToolCallV>, fresh: Seq<Seq<char>>)
    requires
        stream_wf(s),
        indices_dense(s),
        s.next_output_index + tcs.len() < usize::MAX,
    ensures
        keeps(s, tool_deltas(s, tcs, fresh).0),
        indices_dense(tool_deltas(s, tcs, fresh).0),
    decreases tcs.len(),
{
    if tcs.len() == 0 {
        lemma_keeps_refl(s);
    } else {
        lemma_tool_deltas_keep(s, tcs.drop_last(), fresh.drop_last());
        lemma_tool_deltas(s, tcs.drop_last(), fresh.drop_last());
        let s1 = tool_deltas(s, tcs.drop_last(), fresh.drop_last()).0;
        lemma_tool_delta_keeps(s1, tcs.last(), fresh.last());
        lemma_keeps_trans(s, s1, tool_deltas(s, tcs, fresh).0);
    }
}

proof fn lemma_content_keeps(s: StreamStateV, content: Seq<char>)
    requires
        stream_wf(s),
        indices_dense(s),
        s.next_output_index < usize::MAX,
    ensures
        keeps(s, content_step(s, content).0),
        indices_dense(content_step(s, content).0),
{
    let t = content_step(s, content).0;
    assert forall|k2: u32| #![trigger map_get(s.tool_calls, k2)] map_get(s.tool_calls, k2) is Some implies {
        &&& map_get(t.tool_calls, k2) is Some
        &&& map_get(t.tool_calls, k2)->0.output_index == map_get(s.tool_calls, k2)->0.output_index
        &&& map_get(s.tool_calls, k2)->0.added ==> map_get(t.tool_calls, k2)->0.added
    } by {
        assert(t.tool_calls == s.tool_calls);
    }
    assert forall|i: usize| s.next_output_index <= i < t.next_output_index implies #[trigger] index_used(t, i) by {
        assert(t.message_output_index == Some(i));
    }
    lemma_keeps_dense(s, t);
}

proof fn lemma_complete_message_keeps(s: StreamStateV)
    requires
        stream_wf(s),
        indices_dense(s),
    ensures
        keeps(s, complete_message_step(s).0),
        indices_dense(complete_message_step(s).0),
{
    let t = complete_message_step(s).0;
    assert forall|k2: u32| #![trigger map_get(s.tool_calls, k2)] map_get(s.tool_calls, k2) is Some implies {
        &&& map_get(t.tool_calls, k2) is Some
        &&& map_get(t.tool_calls, k2)->0.output_index == map_get(s.tool_calls, k2)->0.output_index
        &&& map_get(s.tool_calls, k2)->0.added ==> map_get(t.tool_calls, k2)->0.added
    } by {
        assert(t.tool_calls == s.tool_calls);
    }
    lemma_keeps_dense(s, t);
}

proof fn lemma_tool_finish_keeps(s: StreamStateV, keys: Seq<u32>)
    requires
        stream_wf(s),
        indices_dense(s),
        forall|i: int| 0 <= i < keys.len() ==> tool_keys(s.tool_calls).contains(#[trigger] keys[i]),
    ensures
        keeps(s, tool_finish_all(s, keys).0),
        indices_dense(tool_finish_all(s, keys).0),
    decreases keys.len(),
{
    lemma_keys_injective();
    if keys.len() == 0 {
        lemma_keeps_refl(s);
    } else {
        let pre = keys.drop_last();
        assert forall|i: int| 0 <= i < pre.len() implies tool_keys(s.tool_calls).contains(#[trigger] pre[i]) by {
            assert(pre[i] == keys[i]);
        }
        lemma_tool_finish_keeps(s, pre);
        lemma_tool_finish_all(s, pre);
        let s1 = tool_finish_all(s, pre).0;
        let k = keys.last();
        assert(tool_keys(s1.tool_calls).contains(k));
        lemma_map_get_some_iff_key(s1.tool_calls, k);
        lemma_tool_finish_one(s1, k);
        let t = tool_finish_one(s1, k).0;
        let e1 = map_get(t.tool_calls, k)->0;
        lemma_map_set(s1.tool_calls, k, e1, u32_key());
        assert forall|k2: u32| #![trigger map_get(s1.tool_calls, k2)] map_get(s1.tool_calls, k2) is Some implies {
            &&& map_get(t.tool_calls, k2) is Some
            &&& map_get(t.tool_calls, k2)->0.output_index == map_get(s1.tool_calls, k2)->0.output_index
            &&& map_get(s1.tool_calls, k2)->0.added ==> map_get(t.tool_calls, k2)->0.added
        } by {
            if k2 != k {
                assert(map_get(t.tool_calls, k2) == map_get(s1.tool_calls, k2));
            }
        }
        assert forall|k2: u32| #![trigger map_get(t.tool_calls, k2)] map_get(s1.tool_calls, k2) is None && map_get(t.tool_calls, k2) is Some
            implies (map_get(t.tool_calls, k2)->0.output_index is Some && map_get(t.tool_calls, k2)->0.output_index->0 >= s1.next_output_index) by {
            if k2 != k {
                assert(map_get(t.tool_calls, k2) == map_get(s1.tool_calls, k2));
            }
        }
        assert(keeps(s1, t));
        lemma_keeps_dense(s1, t);
        lemma_keeps_trans(s, s1, t);
    }
}

/// One chunk keeps what was announced, and every output index it hands out
/// goes to an item: the indices stay `0, 1, 2, …` in order of first
/// appearance, and an item keeps its index for all later events.
pub proof fn lemma_chunk_keeps(s: StreamStateV, c: ChatChunkV, fresh: Seq<Seq<char>>)
    requires
        stream_wf(s),
        indices_dense(s),
        chunk_fits(s, c),
    ensures
        keeps(s, chunk_step(s, c, fresh).0),
        indices_dense(chunk_step(s, c, fresh).0),
{
    if c.choices.len() == 0 {
        lemma_keeps_refl(s);
    } else {
        let ch = c.choices[0];
        let s1 = match ch.delta.tool_calls {
            Some(tcs) => tool_deltas(s, tcs, fresh).0,
            None => s,
        };
        match ch.delta.tool_calls {
            Some(tcs) => {
                lemma_tool_deltas(s, tcs, fresh);
                lemma_tool_deltas_keep(s, tcs, fresh);
            },
            None => {
                lemma_keeps_refl(s);
            },
        }
        let s2 = StreamStateV { reasoning: s1.reasoning + or_empty_text(ch.delta.reasoning_content), ..s1 };
        assert(stream_wf(s2)) by {
            assert forall|k2: u32| #![trigger map_get(s2.tool_calls, k2)] (map_get(s2.tool_calls, k2) matches Some(e) ==> (
                e.output_index matches Some(x) && x < s2.next_output_index)) by {
                assert(map_get(s2.tool_calls, k2) == map_get(s1.tool_calls, k2));
            }
        }
        assert(keeps(s1, s2) && indices_dense(s2)) by {
            assert forall|i: usize| i < s2.next_output_index implies #[trigger] index_used(s2, i) by {
                assert(index_used(s1, i));
            }
        }
        lemma_keeps_trans(s, s1, s2);
        let s3 = match ch.delta.content {
            Some(t) => content_step(s2, t).0,
            None => s2,
        };
        match ch.delta.content {
            Some(t) => {
                lemma_content_step(s2, t);
                lemma_content_keeps(s2, t);
            },
            None => {
                lemma_keeps_refl(s2);
            },
        }
        lemma_keeps_trans(s, s2, s3);
        let tool_finish = ch.finish_reason == Some("tool_calls"@);
        let s4 = if ch.finish_reason is Some && !tool_finish {
            complete_message_step(s3).0
        } else {
            s3
        };
        lemma_complete_message_step(s3);
        lemma_complete_message_keeps(s3);
        lemma_keeps_refl(s3);
        lemma_keeps_trans(s, s3, s4);
        if tool_finish {
            lemma_complete_message_step(s4);
            lemma_complete_message_keeps(s4);
            let a = complete_message_step(s4).0;
            let keys = tool_keys(a.tool_calls);
            assert forall|i: int| 0 <= i < keys.len() implies tool_keys(a.tool_calls).contains(#[trigger] keys[i]) by {}
            lemma_tool_finish_keeps(a, keys);
            lemma_keeps_trans(s, s4, a);
            lemma_keeps_trans(s, a, chunk_step(s, c, fresh).0);
        }
    }
}

/// Finishing the stream keeps what was announced and the indices dense.
pub proof fn lemma_finish_keeps(s: StreamStateV)
    requires
        stream_wf(s),
        indices_dense(s),
    ensures
        keeps(s, finish_step(s).0),
        indices_dense(finish_step(s).0),
{
    lemma_complete_message_step(s);
    lemma_complete_message_keeps(s);
    let a = complete_message_step(s).0;
    lemma_open_keys_in(a.tool_calls);
    lemma_tool_finish_keeps(a, open_tool_keys(a.tool_calls));
    lemma_keeps_trans(s, a, finish_step(s).0);
}

/// A whole upstream stream: the chunks in order (a chunk whose output
/// indices would not fit in a `usize` is skipped), each with its fresh
/// ids.
pub open spec fn run_chunks(s: StreamStateV, cs: Seq<ChatChunkV>, fresh: Seq<Seq<Seq<char>>>) -> StreamStateV
    decreases cs.len(),
{
    if cs.len() == 0 {
        s
    } else {
        let a = run_chunks(s, cs.drop_last(), fresh.drop_last());
        if chunk_fits(a, cs.last()) {
            chunk_step(a, cs.last(), fresh.last()).0
        } else {
            a
        }
    }
}

/// Over any sequence of chunks from a fresh stream, the output indices
/// handed out are `0, 1, 2, …` with no gap and no index shared by two
/// items, and every item keeps its index (and stays announced) for the
/// rest of the stream.
pub proof fn lemma_run_output_indices(s: StreamStateV, cs: Seq<ChatChunkV>, fresh: Seq<Seq<Seq<char>>>)
    requires
        stream_wf(s),
        indices_dense(s),
    ensures
        stream_wf(run_chunks(s, cs, fresh)),
        indices_dense(run_chunks(s, cs, fresh)),
        keeps(s, run_chunks(s, cs, fresh)),
    decreases cs.len(),
{
    if cs.len() == 0 {
        lemma_keeps_refl(s);
    } else {
        lemma_run_output_indices(s, cs.drop_last(), fresh.drop_last());
        let a = run_chunks(s, cs.drop_last(), fresh.drop_last());
        if chunk_fits(a, cs.last()) {
            lemma_chunk_step(a, cs.last(), fresh.last());
            lemma_chunk_keeps(a, cs.last(), fresh.last());
            lemma_keeps_trans(s, a, run_chunks(s, cs, fresh));
        }
    }
}

/// What a stream holds after a prefix of its chunks is kept, with the same
/// indices, after any longer prefix.
pub proof fn lemma_run_prefix_keeps(s: StreamStateV, cs: Seq<ChatChunkV>, fresh: Seq<Seq<Seq<char>>>, j: int)
    requires
        stream_wf(s),
        indices_dense(s),
        fresh.len() == cs.len(),
        0 <= j <= cs.len(),
    ensures
        keeps(run_chunks(s, cs.take(j), fresh.take(j)), run_chunks(s, cs, fresh)),
    decreases cs.len(),
{
    if j == cs.len() {
        assert(cs.take(j) =~= cs);
        assert(fresh.take(j) =~= fresh);
        lemma_keeps_refl(run_chunks(s, cs, fresh));
    } else {
        let p = cs.drop_last();
        let fp = fresh.drop_last();
        lemma_run_prefix_keeps(s, p, fp, j);
        assert(p.take(j) =~= cs.take(j));
        assert(fp.take(j) =~= fresh.take(j));
        lemma_run_output_indices(s, p, fp);
        let a = run_chunks(s, p, fp);
        if chunk_fits(a, cs.last()) {
            lemma_chunk_keeps(a, cs.last(), fresh.last());
        } else {
            lemma_keeps_refl(a);
        }
        lemma_keeps_trans(run_chunks(s, cs.take(j), fresh.take(j)), a, run_chunks(s, cs, fresh));
    }
}

/// Output indices over a whole stream, from a fresh state: after any
/// chunks the indices handed out are `0, 1, …, n - 1`, each owned by one
/// item (the message or one tool call); and between any two points of the
/// stream every item seen at the first keeps its index and stays
/// announced, while an item first seen later gets a larger index than
/// every earlier item: indices follow the order of first appearance.
pub proof fn lemma_stream_output_indices(s0: StreamStateV, cs: Seq<ChatChunkV>, fresh: Seq<Seq<Seq<char>>>)
    requires
        initial_state(s0),
        stream_wf(s0),
        fresh.len() == cs.len(),
    ensures
        stream_wf(run_chunks(s0, cs, fresh)),
        indices_dense(run_chunks(s0, cs, fresh)),
        forall|i: int, j: int|
            0 <= i <= j <= cs.len() ==> keeps(
                #[trigger] run_chunks(s0, cs.take(i), fresh.take(i)),
                #[trigger] run_chunks(s0, cs.take(j), fresh.take(j)),
            ),
{
    lemma_initial_dense(s0);
    lemma_run_output_indices(s0, cs, fresh);
    assert forall|i: int, j: int| 0 <= i <= j <= cs.len() implies keeps(
        #[trigger] run_chunks(s0, cs.take(i), fresh.take(i)),
        #[trigger] run_chunks(s0, cs.take(j), fresh.take(j)),
    ) by {
        let cj = cs.take(j);
        let fj = fresh.take(j);
        lemma_run_prefix_keeps(s0, cj, fj, i);
        assert(cj.take(i) =~= cs.take(i));
        assert(fj.take(i) =~= fresh.take(i));
    }
}

/// A fresh stream state has no output index yet.
pub proof fn lemma_initial_dense(s: StreamStateV)
    requires
        initial_state(s),
    ensures
        indices_dense(s),
{
}

/// Finishing is idempotent: a second finish gives no events and changes
/// nothing.
pub proof fn lemma_finish_idempotent(s: StreamStateV)
    requires
        stream_wf(s),
    ensures
        finish_step(finish_step(s).0) == (finish_step(s).0, Seq::<SseEventV>::empty()),
{
    lemma_finish_closes_all(s);
    lemma_finish_when_closed(finish_step(s).0);
}

/// The text of the message is the concatenation of the content deltas, in
/// order: a chunk appends its content (if any) to the text so far.
pub proof fn lemma_chunk_appends_text(s: StreamStateV, c: ChatChunkV, fresh: Seq<Seq<char>>)
    requires
        stream_wf(s),
        chunk_fits(s, c),
    ensures
        chunk_step(s, c, fresh).0.text == s.text + (if c.choices.len() > 0 {
            or_empty_text(c.choices[0].delta.content)
        } else {
            Seq::empty()
        }),
{
    if c.choices.len() > 0 {
        let ch = c.choices[0];
        if let Some(tcs) = ch.delta.tool_calls {
            lemma_tool_deltas(s, tcs, fresh);
        }
        let s1 = match ch.delta.tool_calls {
            Some(tcs) => tool_deltas(s, tcs, fresh).0,
            None => s,
        };
        assert(s1.text == s.text);
        if ch.delta.content is None {
            assert(s.text + Seq::<char>::empty() =~= s.text);
        }
        let r = chunk_step(s, c, fresh).0;
        let tool_finish = ch.finish_reason == Some("tool_calls"@);
        if tool_finish {
            let s4 = StreamStateV { reasoning: s1.reasoning + or_empty_text(ch.delta.reasoning_content), ..s1 };
            let s3 = match ch.delta.content {
                Some(t) => content_step(s4, t).0,
                None => s4,
            };
            let a = complete_message_step(s3).0;
            lemma_tool_finish_text(a, tool_keys(a.tool_calls));
        }
    } else {
        assert(s.text + Seq::<char>::empty() =~= s.text);
    }
}

proof fn lemma_tool_finish_text(s: StreamStateV, keys: Seq<u32>)
    ensures
        tool_finish_all(s, keys).0.text == s.text,
    decreases keys.len(),
{
    if keys.len() > 0 {
        lemma_tool_finish_text(s, keys.drop_last());
    }
}

/// The text the text deltas of a whole stream forward, chunk after chunk
/// (a chunk that does not fit is skipped, as in [`run_chunks`]).
pub open spec fn run_delta_text(s: StreamStateV, cs: Seq<ChatChunkV>, fresh: Seq<Seq<Seq<char>>>) -> Seq<char>
    decreases cs.len(),
{
    if cs.len() == 0 {
        Seq::empty()
    } else {
        let a = run_chunks(s, cs.drop_last(), fresh.drop_last());
        run_delta_text(s, cs.drop_last(), fresh.drop_last()) + if chunk_fits(a, cs.last()) {
            delta_text(chunk_step(a, cs.last(), fresh.last()).1)
        } else {
            Seq::empty()
        }
    }
}

/// Over a whole stream from a fresh state, the deltas a client
/// concatenates are exactly the message text the stream builds (the text
/// the completed message item carries).
pub proof fn lemma_stream_deltas_make_text(s0: StreamStateV, cs: Seq<ChatChunkV>, fresh: Seq<Seq<Seq<char>>>)
    requires
        initial_state(s0),
        stream_wf(s0),
    ensures
        run_chunks(s0, cs, fresh).text == run_delta_text(s0, cs, fresh),
    decreases cs.len(),
{
    if cs.len() == 0 {
        assert(s0.text =~= Seq::<char>::empty());
    } else {
        lemma_stream_deltas_make_text(s0, cs.drop_last(), fresh.drop_last());
        lemma_initial_dense(s0);
        lemma_run_output_indices(s0, cs.drop_last(), fresh.drop_last());
        let a = run_chunks(s0, cs.drop_last(), fresh.drop_last());
        if chunk_fits(a, cs.last()) {
            lemma_chunk_text_deltas(a, cs.last(), fresh.last());
        } else {
            assert(a.text + Seq::<char>::empty() =~= a.text);
        }
    }
}

/// The text of a message output item: the `text` of its first content
/// part.
pub open spec fn item_message_text(item: JsonV) -> Option<Seq<char>> {
    match crate::json::jarr(jget(item, "content"@)) {
        Some(a) => if a.len() > 0 {
            jget_str(a[0], "text"@)
        } else {
            None
        },
        None => None,
    }
}

proof fn lemma_message_item_text(id: Seq<char>, text: Seq<char>, reasoning: Seq<char>)
    ensures
        item_message_text(message_item_json(id, text, reasoning)) == Some(text),
{
    reveal_strlit("id");
    reveal_strlit("type");
    reveal_strlit("role");
    reveal_strlit("status");
    reveal_strlit("content");
    reveal_strlit("text");
    reveal_strlit("annotations");
    assert("id"@.len() != "content"@.len());
    assert("type"@.len() != "content"@.len());
    assert("role"@.len() != "content"@.len());
    assert("status"@.len() != "content"@.len());
    assert("type"@[1] != "text"@[1]);
    let base = seq![
        ("id"@, js(id)),
        ("type"@, js("message"@)),
        ("role"@, js("assistant"@)),
        ("status"@, js("completed"@)),
        ("content"@, JsonV::Array(seq![output_text_part(text)])),
    ];
    let es = if reasoning.len() > 0 {
        base.push(("reasoning_content"@, js(reasoning)))
    } else {
        base
    };
    let e1 = es.subrange(1, es.len() as int);
    let e2 = e1.subrange(1, e1.len() as int);
    let e3 = e2.subrange(1, e2.len() as int);
    let e4 = e3.subrange(1, e3.len() as int);
    assert(e4[0] == es[4]);
    assert(e3[0] == es[3]);
    assert(e2[0] == es[2]);
    assert(e1[0] == es[1]);
    let cv = Some(JsonV::Array(seq![output_text_part(text)]));
    assert(es[4].0 == "content"@);
    assert(crate::json::obj_get(e4, "content"@) == cv);
    assert(es[3].0 != "content"@);
    assert(crate::json::obj_get(e3, "content"@) == cv);
    assert(es[2].0 != "content"@);
    assert(crate::json::obj_get(e2, "content"@) == cv);
    assert(es[1].0 != "content"@);
    assert(crate::json::obj_get(e1, "content"@) == cv);
    assert(es[0].0 != "content"@);
    assert(crate::json::obj_get(es, "content"@) == cv);
    let ps = seq![("type"@, js("output_text"@)), ("text"@, js(text)), ("annotations"@, JsonV::Array(Seq::empty()))];
    let p1 = ps.subrange(1, 3);
    assert(p1[0] == ps[1]);
    assert(crate::json::obj_get(p1, "text"@) == Some(js(text)));
    assert(ps[0].0 != "text"@);
    assert(crate::json::obj_get(ps, "text"@) == Some(js(text)));
}

/// Closing the message keeps, under its output index, a completed message
/// item whose text is the whole message text.
pub proof fn lemma_completed_message_text(s: StreamStateV)
    requires
        stream_wf(s),
        s.content_started,
        !s.message_done,
    ensures
        map_get(complete_message_step(s).0.output_items, s.message_output_index->0) matches Some(item)
            && item_message_text(item) == Some(s.text),
{
    lemma_keys_injective();
    let idx = s.message_output_index->0;
    let item = message_item_json(s.message_item_id, s.text, s.reasoning);
    lemma_map_set(s.output_items, idx, item, usize_key());
    lemma_message_item_text(s.message_item_id, s.text, s.reasoning);
}

/// The closing event reports the Chat token counts by meaning: the prompt
/// as `input_tokens`, the completion as `output_tokens`, the total as
/// `total_tokens` (zeros when there are none); and it lists the completed
/// output items.
pub proof fn lemma_completed_event_usage(s: StreamStateV, t: u64, u: Option<ChatUsage>)
    ensures
        ({
            let resp = jget(completed_event(s, t, u).data, "response"@);
            let us = jget(resp->0, "usage"@);
            &&& resp is Some && us is Some
            &&& jget(resp->0, "output"@) == Some(JsonV::Array(item_values(s.output_items)))
            &&& u matches Some(x) ==> ({
                &&& jget(us->0, "input_tokens"@) == Some(jn(x.prompt_tokens as nat))
                &&& jget(us->0, "output_tokens"@) == Some(jn(x.completion_tokens as nat))
                &&& jget(us->0, "total_tokens"@) == Some(jn(x.total_tokens as nat))
            })
            &&& u is None ==> jget(us->0, "input_tokens"@) == Some(jn(0)) && jget(us->0, "output_tokens"@) == Some(jn(0))
        }),
{
    reveal_strlit("type");
    reveal_strlit("response");
    reveal_strlit("id");
    reveal_strlit("object");
    reveal_strlit("created_at");
    reveal_strlit("model");
    reveal_strlit("status");
    reveal_strlit("output");
    reveal_strlit("usage");
    reveal_strlit("input_tokens");
    reveal_strlit("output_tokens");
    reveal_strlit("total_tokens");
    let rs = seq![
        ("id"@, js(s.response_id)),
        ("object"@, js("response"@)),
        ("created_at"@, jn(t as nat)),
        ("model"@, js(s.model)),
        ("status"@, js("completed"@)),
        ("output"@, JsonV::Array(item_values(s.output_items))),
        ("usage"@, end_usage_json(u)),
    ];
    let es = seq![("type"@, js("response.completed"@))] + seq![("response"@, JsonV::Object(rs))];
    assert(es[0].0.len() != "response"@.len());
    crate::json::lemma_obj_get_first(es, 1, "response"@);
    assert forall|j: int| 0 <= j < 5 implies (#[trigger] rs[j]).0 != "output"@ by {
        if j == 1 {
            assert("object"@[1] != "output"@[1]);
        } else if j == 4 {
            assert("status"@[0] != "output"@[0]);
        } else {
            assert(rs[j].0.len() != "output"@.len());
        }
    }
    crate::json::lemma_obj_get_first(rs, 5, "output"@);
    assert forall|j: int| 0 <= j < 6 implies (#[trigger] rs[j]).0 != "usage"@ by {
        if j == 3 {
            assert("model"@[0] != "usage"@[0]);
        } else {
            assert(rs[j].0.len() != "usage"@.len());
        }
    }
    crate::json::lemma_obj_get_first(rs, 6, "usage"@);
    let ue = end_usage_json(u)->Object_0;
    crate::json::lemma_obj_get_first(ue, 0, "input_tokens"@);
    assert(ue[0].0.len() != "output_tokens"@.len());
    crate::json::lemma_obj_get_first(ue, 1, "output_tokens"@);
    assert(ue[0].0[0] != "total_tokens"@[0]);
    assert(ue[1].0.len() != "total_tokens"@.len());
    crate::json::lemma_obj_get_first(ue, 2, "total_tokens"@);
}

/// A tool-call delta appends exactly its argument text to the call's
/// arguments (a call seen for the first time starts empty), and adds its
/// name text to the call's name.
pub proof fn lemma_tool_arguments_accumulate(s: StreamStateV, tc: ChatChunkToolCallV, fresh: Seq<char>)
    requires
        stream_wf(s),
    ensures
        ({
            let t = tool_delta_step(s, tc, fresh).0;
            let before: Seq<char> = match map_get(s.tool_calls, tc.index) {
                Some(e) => e.arguments,
                None => Seq::empty(),
            };
            let added: Seq<char> = match tc.function {
                Some((_, Some(a))) => a,
                _ => Seq::empty(),
            };
            &&& map_get(t.tool_calls, tc.index) is Some
            &&& map_get(t.tool_calls, tc.index)->0.arguments == before + added
        }),
{
    lemma_keys_injective();
    let k = tc.index;
    let e0 = match map_get(s.tool_calls, k) {
        Some(e) => e,
        None => new_tool_call(tc, fresh),
    };
    let idx: usize = match e0.output_index {
        Some(i) => i,
        None => s.next_output_index,
    };
    let e1 = StreamToolCallV {
        call_id: match tc.id {
            Some(x) => x,
            None => e0.call_id,
        },
        id: e0.id,
        name: e0.name + name_delta(tc),
        arguments: e0.arguments + args_delta(tc),
        output_index: Some(idx),
        added: true,
        done: e0.done,
    };
    lemma_map_set(s.tool_calls, k, e1, u32_key());
}

/// Closing a tool call keeps, under its output index, a completed
/// `function_call` item carrying the call's id, name and the whole of its
/// accumulated arguments.
pub proof fn lemma_finished_call_item(s: StreamStateV, k: u32)
    requires
        stream_wf(s),
        map_get(s.tool_calls, k) is Some,
    ensures
        ({
            let e = map_get(s.tool_calls, k)->0;
            let item = map_get(tool_finish_one(s, k).0.output_items, e.output_index->0);
            &&& item is Some
            &&& jget_str(item->0, "type"@) == Some("function_call"@)
            &&& jget_str(item->0, "call_id"@) == Some(e.call_id)
            &&& jget_str(item->0, "name"@) == Some(e.name)
            &&& jget_str(item->0, "arguments"@) == Some(e.arguments)
            &&& jget_str(item->0, "status"@) == Some("completed"@)
        }),
{
    lemma_keys_injective();
    let e = map_get(s.tool_calls, k)->0;
    let idx = e.output_index->0;
    let item = fc_item_json(e.id, e.call_id, e.name, e.arguments, "completed"@);
    lemma_map_set(s.output_items, idx, item, usize_key());
    reveal_strlit("id");
    reveal_strlit("type");
    reveal_strlit("call_id");
    reveal_strlit("name");
    reveal_strlit("arguments");
    reveal_strlit("status");
    let es = item->Object_0;
    assert(es[0].0.len() != "type"@.len());
    crate::json::lemma_obj_get_first(es, 1, "type"@);
    assert forall|j: int| 0 <= j < 2 implies (#[trigger] es[j]).0 != "call_id"@ by {
        assert(es[j].0.len() != "call_id"@.len());
    }
    crate::json::lemma_obj_get_first(es, 2, "call_id"@);
    assert forall|j: int| 0 <= j < 3 implies (#[trigger] es[j]).0 != "name"@ by {
        if j == 1 {
            assert("type"@[0] != "name"@[0]);
        } else {
            assert(es[j].0.len() != "name"@.len());
        }
    }
    crate::json::lemma_obj_get_first(es, 3, "name"@);
    assert forall|j: int| 0 <= j < 4 implies (#[trigger] es[j]).0 != "arguments"@ by {
        assert(es[j].0.len() != "arguments"@.len());
    }
    crate::json::lemma_obj_get_first(es, 4, "arguments"@);
    assert forall|j: int| 0 <= j < 5 implies (#[trigger] es[j]).0 != "status"@ by {
        assert(es[j].0.len() != "status"@.len());
    }
    crate::json::lemma_obj_get_first(es, 5, "status"@);
}

} // verus!
