//! The decisions of a streamed Responses answer produced from a Chat
//! Completions or Anthropic Messages upstream stream: when the response
//! starts, which chunks are converted, which token counts are reported and
//! when the response completes. The caller reads the upstream, decodes its
//! events and sends what each step returns.

use vstd::prelude::*;
use crate::bridge::next_usage;
use crate::convert::anthropic::{
    anthropic_stream_event_is_stop, anthropic_stream_event_model, anthropic_stream_event_to_chat_chunk,
    anthropic_stream_event_usage, single_choice_chunk, stream_event_delta, stream_event_model,
    stream_event_usage,
};
use crate::convert::responses::usage_sum_fits;
use crate::convert::stream::{
    chunk_fits, chunk_step, chunk_tool_count, completed_event, finish_step,
    convert_stream_chunk, convert_stream_end, convert_stream_finish, convert_stream_start,
    created_event, events_view, fresh_ids_ok, in_progress_event, initial_state, stream_wf,
    SseEvent, SseEventV, StreamState, StreamStateV,
};
use crate::text::{owned, str_eq, trim, trim_spec};
use crate::types::{AnthropicStreamEvent, ChatChunk, ChatChunkV, ChatUsage};

verus! {

/// Converts one upstream stream into Responses API events.
pub struct ResponsesStreamConverter {
    pub state: StreamState,
    pub model: String,
    pub started: bool,
    pub completed: bool,
    pub last_usage: Option<ChatUsage>,
}

pub struct ResponsesStreamV {
    pub state: StreamStateV,
    pub model: Seq<char>,
    pub started: bool,
    pub completed: bool,
    pub last_usage: Option<ChatUsage>,
}

impl View for ResponsesStreamConverter {
    type V = ResponsesStreamV;

    open spec fn view(&self) -> ResponsesStreamV {
        ResponsesStreamV {
            state: self.state@,
            model: self.model@,
            started: self.started,
            completed: self.completed,
            last_usage: self.last_usage,
        }
    }
}

/// Closing the response: what the upstream left open (the message and any
/// tool call) is flushed, and `response.completed` follows, with the last
/// token counts.
pub open spec fn close_out(s: ResponsesStreamV, t: u64) -> (ResponsesStreamV, Seq<SseEventV>) {
    let step = finish_step(s.state);
    (
        ResponsesStreamV { state: step.0, completed: true, ..s },
        step.1.push(completed_event(step.0, t, s.last_usage)),
    )
}

/// The upstream's `[DONE]`: closes the response unless it is closed.
pub open spec fn on_done_step(s: ResponsesStreamV, t: u64) -> (ResponsesStreamV, Seq<SseEventV>) {
    if s.completed {
        (s, Seq::empty())
    } else {
        close_out(s, t)
    }
}

/// Before the first converted event: `response.created` and
/// `response.in_progress` for `model`.
pub open spec fn start_step(s: ResponsesStreamV, model: Seq<char>, t: u64) -> (
    ResponsesStreamV,
    Seq<SseEventV>,
) {
    if s.started {
        (s, Seq::empty())
    } else {
        (
            ResponsesStreamV {
                state: StreamStateV { started: true, model, ..s.state },
                started: true,
                ..s
            },
            seq![created_event(s.state.response_id, t, model), in_progress_event(s.state.response_id)],
        )
    }
}

/// One Chat chunk converted, when its output indices fit in a `usize`.
pub open spec fn feed_chunk(s: ResponsesStreamV, c: ChatChunkV, fresh: Seq<Seq<char>>) -> (
    ResponsesStreamV,
    Seq<SseEventV>,
) {
    if chunk_fits(s.state, c) {
        let step = chunk_step(s.state, c, fresh);
        (ResponsesStreamV { state: step.0, ..s }, step.1)
    } else {
        (s, Seq::empty())
    }
}

/// A Chat chunk from the upstream: its token counts are kept when it has
/// them, the response starts on the first chunk, then the chunk is
/// converted.
pub open spec fn on_chat_chunk_step(
    s: ResponsesStreamV,
    c: ChatChunkV,
    t: u64,
    fresh: Seq<Seq<char>>,
) -> (ResponsesStreamV, Seq<SseEventV>) {
    let s1 = ResponsesStreamV {
        last_usage: if c.usage is Some {
            c.usage
        } else {
            s.last_usage
        },
        ..s
    };
    let a = start_step(s1, s.model, t);
    let b = feed_chunk(a.0, c, fresh);
    (b.0, a.1 + b.1)
}

/// An Anthropic event from the upstream: its token counts are kept, the
/// response starts on the first event (with the model that
/// `message_start` announces), its delta is converted as a Chat chunk, and
/// `message_stop` closes the response.
pub open spec fn on_anthropic_step(
    s: ResponsesStreamV,
    ev: AnthropicStreamEvent,
    t1: u64,
    fresh: Seq<Seq<char>>,
    t2: u64,
) -> (ResponsesStreamV, Seq<SseEventV>) {
    let s1 = ResponsesStreamV { last_usage: next_usage(ev, s.last_usage), ..s };
    let start_model = match stream_event_model(ev) {
        Some(m) => m,
        None => s.model,
    };
    let a = start_step(s1, start_model, t1);
    let b = match stream_event_delta(ev) {
        Some(d) => feed_chunk(a.0, single_choice_chunk(s.model, d.0, d.1), fresh),
        None => (a.0, Seq::empty()),
    };
    let c = if ev.event_type@ == "message_stop"@ && !b.0.completed {
        close_out(b.0, t2)
    } else {
        (b.0, Seq::empty())
    };
    (c.0, a.1 + b.1 + c.1)
}

/// The upstream closed: a started response that is not closed yet is
/// closed.
pub open spec fn on_close_step(s: ResponsesStreamV, t: u64) -> (ResponsesStreamV, Seq<SseEventV>) {
    if s.started && !s.completed {
        close_out(s, t)
    } else {
        (s, Seq::empty())
    }
}

/// Whether a chunk's output indices fit (see [`chunk_fits`]).
fn chunk_fits_exec(state: &StreamState, chunk: &ChatChunk) -> (r: bool)
    ensures
        r == chunk_fits(state@, chunk@),
{
    let count: usize = if chunk.choices.len() > 0 {
        match &chunk.choices[0].delta.tool_calls {
            Some(t) => t.len(),
            None => 0,
        }
    } else {
        0
    };
    proof {
        if chunk.choices@.len() > 0 {
            assert(chunk@.choices[0] == chunk.choices@[0]@);
        }
    }
    assert(count as nat == chunk_tool_count(chunk@));
    let total: u128 = state.next_output_index as u128 + 2 * (count as u128)
        + state.current_tool_calls.len() as u128 + 1;
    total < usize::MAX as u128
}

impl ResponsesStreamConverter {
    pub open spec fn wf(&self) -> bool {
        stream_wf(self.state@)
    }

    /// A converter for a stream answering a request for `model`.
    pub fn new(model: &str) -> (r: Self)
        ensures
            r.wf(),
            initial_state(r.state@),
            r.model@ == model@,
            !r.started,
            !r.completed,
            r.last_usage is None,
    {
        ResponsesStreamConverter {
            state: StreamState::new(),
            model: owned(model),
            started: false,
            completed: false,
            last_usage: None,
        }
    }

    fn start(&mut self, model: &str, out: &mut Vec<SseEvent>)
        requires
            old(self).wf(),
        ensures
            final(self).wf(),
            exists|t: u64|
                final(self)@ == (#[trigger] start_step(old(self)@, model@, t)).0 && events_view(
                    final(out)@,
                ) == events_view(old(out)@) + start_step(old(self)@, model@, t).1,
    {
        if self.started {
            assert(events_view(out@) =~= events_view(out@) + Seq::<SseEventV>::empty());
            assert(self@ == start_step(self@, model@, 0).0);
            return;
        }
        let ghost s0 = self@;
        let ghost o0 = events_view(out@);
        let mut events = convert_stream_start(&mut self.state, model);
        self.started = true;
        let ghost ev = events_view(events@);
        let ghost t = choose|t: u64| ev == seq![#[trigger] created_event(s0.state.response_id, t, model@), in_progress_event(s0.state.response_id)];
        out.append(&mut events);
        assert(events_view(out@) =~= o0 + ev);
        assert(self@ == start_step(s0, model@, t).0);
    }

    fn feed(&mut self, chunk: &ChatChunk, out: &mut Vec<SseEvent>)
        requires
            old(self).wf(),
        ensures
            final(self).wf(),
            exists|fresh: Seq<Seq<char>>|
                final(self)@ == (#[trigger] feed_chunk(old(self)@, chunk@, fresh)).0 && events_view(
                    final(out)@,
                ) == events_view(old(out)@) + feed_chunk(old(self)@, chunk@, fresh).1,
    {
        let ghost s0 = self@;
        let ghost o0 = events_view(out@);
        if !chunk_fits_exec(&self.state, chunk) {
            assert(events_view(out@) =~= o0 + Seq::<SseEventV>::empty());
            assert(self@ == feed_chunk(s0, chunk@, Seq::empty()).0);
            return;
        }
        let mut events = convert_stream_chunk(&mut self.state, chunk);
        let ghost ev = events_view(events@);
        let ghost fresh = choose|fresh: Seq<Seq<char>>|
            fresh_ids_ok(fresh, chunk_tool_count(chunk@)) && (self.state@, ev) == chunk_step(
                s0.state,
                chunk@,
                fresh,
            );
        out.append(&mut events);
        assert(events_view(out@) =~= o0 + ev);
        assert(self@ == feed_chunk(s0, chunk@, fresh).0);
    }

    fn close(&mut self, out: &mut Vec<SseEvent>)
        requires
            old(self).wf(),
        ensures
            final(self).wf(),
            exists|t: u64|
                final(self)@ == (#[trigger] close_out(old(self)@, t)).0 && events_view(final(out)@)
                    == events_view(old(out)@) + close_out(old(self)@, t).1,
    {
        let ghost s0 = self@;
        let ghost o0 = events_view(out@);
        let mut events = convert_stream_finish(&mut self.state);
        let end = convert_stream_end(&self.state, self.last_usage.as_ref());
        let ghost t = choose|t: u64| end@ == #[trigger] completed_event(self.state@, t, self.last_usage);
        let ghost ev = events_view(events@);
        events.push(end);
        assert(events_view(events@) =~= ev.push(end@));
        let ghost ev2 = events_view(events@);
        out.append(&mut events);
        self.completed = true;
        assert(events_view(out@) =~= o0 + ev2);
        assert(self@ == close_out(s0, t).0);
    }

    /// The upstream sent `[DONE]` (see [`on_done_step`]).
    pub fn on_done(&mut self) -> (r: Vec<SseEvent>)
        requires
            old(self).wf(),
        ensures
            final(self).wf(),
            exists|t: u64|
                final(self)@ == (#[trigger] on_done_step(old(self)@, t)).0 && events_view(r@)
                    == on_done_step(old(self)@, t).1,
    {
        let mut out: Vec<SseEvent> = Vec::new();
        if self.completed {
            assert(events_view(out@) =~= Seq::<SseEventV>::empty());
            assert(self@ == on_done_step(self@, 0).0);
            return out;
        }
        let ghost s0 = self@;
        self.close(&mut out);
        let ghost t = choose|t: u64| self@ == (#[trigger] close_out(s0, t)).0 && events_view(out@) == Seq::<SseEventV>::empty() + close_out(s0, t).1;
        assert(events_view(out@) =~= close_out(s0, t).1);
        assert(self@ == on_done_step(s0, t).0);
        out
    }

    /// A Chat chunk from the upstream (see [`on_chat_chunk_step`]).
    pub fn on_chat_chunk(&mut self, chunk: &ChatChunk) -> (r: Vec<SseEvent>)
        requires
            old(self).wf(),
        ensures
            final(self).wf(),
            exists|t: u64, fresh: Seq<Seq<char>>|
                final(self)@ == (#[trigger] on_chat_chunk_step(old(self)@, chunk@, t, fresh)).0
                    && events_view(r@) == on_chat_chunk_step(old(self)@, chunk@, t, fresh).1,
    {
        let ghost s0 = self@;
        let mut out: Vec<SseEvent> = Vec::new();
        if chunk.usage.is_some() {
            self.last_usage = chunk.usage;
        }
        let ghost s1 = self@;
        assert(s1 == ResponsesStreamV {
            last_usage: if chunk@.usage is Some {
                chunk@.usage
            } else {
                s0.last_usage
            },
            ..s0
        });
        let model = self.model.clone();
        self.start(model.as_str(), &mut out);
        let ghost t = choose|t: u64| self@ == (#[trigger] start_step(s1, s0.model, t)).0 && events_view(out@) == Seq::<SseEventV>::empty() + start_step(s1, s0.model, t).1;
        let ghost s2 = self@;
        let ghost o2 = events_view(out@);
        self.feed(chunk, &mut out);
        let ghost fresh = choose|fresh: Seq<Seq<char>>| self@ == (#[trigger] feed_chunk(s2, chunk@, fresh)).0 && events_view(out@) == o2 + feed_chunk(s2, chunk@, fresh).1;
        assert(start_step(s1, s0.model, t).1 =~= Seq::<SseEventV>::empty() + start_step(s1, s0.model, t).1);
        assert(self@ == on_chat_chunk_step(s0, chunk@, t, fresh).0);
        assert(events_view(out@) == on_chat_chunk_step(s0, chunk@, t, fresh).1);
        out
    }

    /// An Anthropic event from the upstream (see [`on_anthropic_step`]).
    pub fn on_anthropic_event(&mut self, event: &AnthropicStreamEvent) -> (r: Vec<SseEvent>)
        requires
            old(self).wf(),
            stream_event_usage(*event) matches Some(u) ==> usage_sum_fits(u),
        ensures
            final(self).wf(),
            exists|t1: u64, fresh: Seq<Seq<char>>, t2: u64|
                final(self)@ == (#[trigger] on_anthropic_step(old(self)@, *event, t1, fresh, t2)).0
                    && events_view(r@) == on_anthropic_step(old(self)@, *event, t1, fresh, t2).1,
    {
        let ghost s0 = self@;
        let mut out: Vec<SseEvent> = Vec::new();
        match anthropic_stream_event_usage(event) {
            Some(u) => {
                self.last_usage = Some(u);
            },
            None => {},
        }
        let ghost s1 = self@;
        assert(s1 == ResponsesStreamV { last_usage: next_usage(*event, s0.last_usage), ..s0 });
        let start_model = match anthropic_stream_event_model(event) {
            Some(m) => owned(m),
            None => self.model.clone(),
        };
        self.start(start_model.as_str(), &mut out);
        let ghost t1 = choose|t: u64| self@ == (#[trigger] start_step(s1, start_model@, t)).0 && events_view(out@) == Seq::<SseEventV>::empty() + start_step(s1, start_model@, t).1;
        let ghost a = start_step(s1, start_model@, t1);
        assert(a.1 =~= Seq::<SseEventV>::empty() + a.1);
        let ghost s2 = self@;
        let ghost o2 = events_view(out@);
        let ghost mut fresh: Seq<Seq<char>> = Seq::empty();
        let model = self.model.clone();
        match anthropic_stream_event_to_chat_chunk(event, model.as_str()) {
            Some(chunk) => {
                self.feed(&chunk, &mut out);
                proof {
                    fresh = choose|fresh: Seq<Seq<char>>| self@ == (#[trigger] feed_chunk(s2, chunk@, fresh)).0 && events_view(out@) == o2 + feed_chunk(s2, chunk@, fresh).1;
                }
            },
            None => {
                assert(events_view(out@) =~= o2 + Seq::<SseEventV>::empty());
            },
        }
        let ghost b = match stream_event_delta(*event) {
            Some(d) => feed_chunk(a.0, single_choice_chunk(s0.model, d.0, d.1), fresh),
            None => (a.0, Seq::<SseEventV>::empty()),
        };
        assert(self@ == b.0);
        assert(events_view(out@) == a.1 + b.1);
        let ghost s3 = self@;
        let ghost o3 = events_view(out@);
        let ghost mut t2: u64 = 0;
        if anthropic_stream_event_is_stop(event) && !self.completed {
            self.close(&mut out);
            proof {
                t2 = choose|t: u64| self@ == (#[trigger] close_out(s3, t)).0 && events_view(out@) == o3 + close_out(s3, t).1;
            }
        } else {
            assert(events_view(out@) =~= o3 + Seq::<SseEventV>::empty());
        }
        assert(self@ == on_anthropic_step(s0, *event, t1, fresh, t2).0);
        assert(events_view(out@) =~= on_anthropic_step(s0, *event, t1, fresh, t2).1);
        out
    }

    /// The upstream closed the stream (see [`on_close_step`]).
    pub fn on_close(&mut self) -> (r: Vec<SseEvent>)
        requires
            old(self).wf(),
        ensures
            final(self).wf(),
            exists|t: u64|
                final(self)@ == (#[trigger] on_close_step(old(self)@, t)).0 && events_view(r@)
                    == on_close_step(old(self)@, t).1,
    {
        let mut out: Vec<SseEvent> = Vec::new();
        if self.started && !self.completed {
            let ghost s0 = self@;
            self.close(&mut out);
            let ghost t = choose|t: u64| self@ == (#[trigger] close_out(s0, t)).0 && events_view(out@) == Seq::<SseEventV>::empty() + close_out(s0, t).1;
            assert(events_view(out@) =~= close_out(s0, t).1);
            assert(self@ == on_close_step(s0, t).0);
            return out;
        }
        assert(events_view(out@) =~= Seq::<SseEventV>::empty());
        assert(self@ == on_close_step(self@, 0).0);
        out
    }
}

} // verus!

verus! {

/// Whether an event's data is the end-of-stream marker `[DONE]` (surrounding
/// white space aside).
pub fn is_done_marker(data: &str) -> (r: bool)
    ensures
        r == (trim_spec(data@) == "[DONE]"@),
{
    let t = trim(data);
    str_eq(t.as_str(), "[DONE]")
}

} // verus!

verus! {

/// The response completes once: after `[DONE]` has been handled, another
/// `[DONE]` or the end of the upstream stream emits nothing more.
pub proof fn lemma_response_completes_once(s: ResponsesStreamV, t1: u64, t2: u64)
    ensures
        on_done_step(s, t1).0.completed,
        on_done_step(on_done_step(s, t1).0, t2).1 == Seq::<SseEventV>::empty(),
        on_close_step(on_done_step(s, t1).0, t2).1 == Seq::<SseEventV>::empty(),
{
}

} // verus!
