//! Per-upstream decisions of the proxy: health tracking, fixed-window rate
//! limits, round-robin ordering, model routing names, auth headers and
//! retry policy.

use vstd::prelude::*;
use crate::config::{Config, LoadBalanceStrategy, UpstreamApiFormat, UpstreamConfig, pairs_view, scheme_of};
use crate::json::{Json, JsonV, jbool, jget, jget_str, jstr, jviews, json_parse_bytes, lemma_jviews, obj_insert, parse_json_bytes};
use crate::text::{concat, lower_spec, owned, starts_with, starts_with_spec, str_eq, to_ascii_lowercase, u64_text, decimal, first_char_index, chars_of, find_char, slice_chars, string_of, is_first_char};
use crate::types::{clone_opt_str, opt_str};

verus! {

// ─── health ───

/// What health checks have established about an upstream.
#[derive(Debug, Clone, Copy)]
pub struct UpstreamHealth {
    pub checked: bool,
    pub healthy: bool,
    pub failures: u64,
}

/// The outcome of recording one health check.
#[derive(Debug, Clone, Copy)]
pub struct UpstreamHealthUpdate {
    pub first_check: bool,
    pub previous_healthy: bool,
    pub current_healthy: bool,
    pub failures: u64,
}

impl UpstreamHealth {
    /// An upstream not yet checked counts as healthy.
    pub fn new() -> (r: Self)
        ensures
            !r.checked,
            r.healthy,
            r.failures == 0,
    {
        UpstreamHealth { checked: false, healthy: true, failures: 0 }
    }

    /// Records one check (see [`health_step`]) and reports the change.
    pub fn set_health_check_result(&mut self, healthy: bool, unhealthy_after_failures: u64) -> (r: UpstreamHealthUpdate)
        ensures
            *final(self) == health_step(*old(self), healthy, unhealthy_after_failures),
            r.first_check == !old(self).checked,
            r.previous_healthy == old(self).healthy,
            r.current_healthy == final(self).healthy,
            r.failures == final(self).failures,
    {
        let first_check = !self.checked;
        let previous_healthy = self.healthy;
        self.checked = true;
        if healthy {
            self.healthy = true;
            self.failures = 0;
        } else {
            self.failures = self.failures.saturating_add(1);
            if self.failures >= unhealthy_after_failures {
                self.healthy = false;
            }
        }
        UpstreamHealthUpdate {
            first_check,
            previous_healthy,
            current_healthy: self.healthy,
            failures: self.failures,
        }
    }
}

/// One health check recorded: success makes the upstream healthy and
/// clears its failures; a failure counts (saturating), and marks it
/// unhealthy once the count reaches `threshold`.
pub open spec fn health_step(h: UpstreamHealth, healthy: bool, threshold: u64) -> UpstreamHealth {
    if healthy {
        UpstreamHealth { checked: true, healthy: true, failures: 0 }
    } else {
        let f: u64 = if h.failures == u64::MAX {
            u64::MAX
        } else {
            (h.failures + 1) as u64
        };
        UpstreamHealth { checked: true, healthy: h.healthy && f < threshold, failures: f }
    }
}

/// The health after `n` failed checks in a row.
pub open spec fn after_failed_checks(h: UpstreamHealth, n: nat, threshold: u64) -> UpstreamHealth
    decreases n,
{
    if n == 0 {
        h
    } else {
        health_step(after_failed_checks(h, (n - 1) as nat, threshold), false, threshold)
    }
}

proof fn lemma_failures_grow(h: UpstreamHealth, n: nat, threshold: u64)
    ensures
        after_failed_checks(h, n, threshold).failures >= (if n < u64::MAX {
            n as int
        } else {
            u64::MAX as int
        }),
    decreases n,
{
    if n > 0 {
        lemma_failures_grow(h, (n - 1) as nat, threshold);
    }
}

/// After `threshold` failed checks in a row (and at least one), an
/// upstream is unhealthy, whatever it was before; one successful check
/// makes it healthy again.
pub proof fn lemma_health_after_failures(h: UpstreamHealth, n: nat, threshold: u64)
    requires
        n >= 1,
        n >= threshold,
    ensures
        !after_failed_checks(h, n, threshold).healthy,
        health_step(after_failed_checks(h, n, threshold), true, threshold).healthy,
{
    lemma_failures_grow(h, n, threshold);
}

// ─── rate limits ───

/// The length of a rate-limit window, in milliseconds.
pub const RATE_WINDOW_MILLIS: u64 = 60_000;

/// A fixed one-minute window of a request or token budget. Times are
/// milliseconds on a monotonic clock.
#[derive(Debug, Clone, Copy)]
pub struct RateWindow {
    pub limit: u64,
    pub used: u64,
    pub started_at_ms: u64,
}

/// Whether a window that started at `started` is over at `now`.
pub open spec fn window_over(started: u64, now: u64) -> bool {
    now - started >= RATE_WINDOW_MILLIS
}

/// One attempt to take `amount` from window `w` at time `now`: the window
/// afterwards and whether the amount was granted. An amount above the limit
/// is refused and leaves the window as it was; otherwise a window that is
/// over starts anew at `now` with nothing used, and the amount is granted
/// when it fits in what is left.
pub open spec fn acquire_step(w: RateWindow, amount: u64, now: u64) -> (RateWindow, bool) {
    if amount > w.limit {
        (w, false)
    } else {
        let fresh = window_over(w.started_at_ms, now);
        let started = if fresh { now } else { w.started_at_ms };
        let base: int = if fresh { 0 } else { w.used as int };
        if base + amount <= w.limit {
            (RateWindow { limit: w.limit, used: (base + amount) as u64, started_at_ms: started }, true)
        } else {
            (RateWindow { limit: w.limit, used: base as u64, started_at_ms: started }, false)
        }
    }
}

/// A window taken from by [`acquire_step`], or no window (no limit, which
/// grants everything and records nothing).
pub open spec fn acquire_opt(w: Option<RateWindow>, amount: u64, now: u64) -> (Option<RateWindow>, bool) {
    match w {
        Some(w) => (Some(acquire_step(w, amount, now).0), acquire_step(w, amount, now).1),
        None => (None, true),
    }
}

/// What a request costing `tokens` does to a request window and a token
/// window at time `now`: the request window is asked for one request; only
/// when it grants is the token window asked for the tokens. The result is
/// the two windows afterwards and whether the request may go.
pub open spec fn rate_check(
    requests: Option<RateWindow>,
    token_budget: Option<RateWindow>,
    tokens: u64,
    now: u64,
) -> (Option<RateWindow>, Option<RateWindow>, bool) {
    let (req, req_ok) = acquire_opt(requests, 1, now);
    if req_ok {
        let (tok, tok_ok) = acquire_opt(token_budget, tokens, now);
        (req, tok, tok_ok)
    } else {
        (req, token_budget, false)
    }
}

/// Within one window, a window whose budget is used up refuses any further
/// amount and stays as it is.
pub proof fn lemma_exhausted_window_refuses(w: RateWindow, amount: u64, now: u64)
    requires
        w.used == w.limit,
        amount > 0,
        !window_over(w.started_at_ms, now),
    ensures
        acquire_step(w, amount, now) == (w, false),
{
}

/// A granted amount is recorded: the window afterwards has used exactly the
/// amount more than before (or the amount alone, in a window started anew),
/// never above the limit.
pub proof fn lemma_granted_is_recorded(w: RateWindow, amount: u64, now: u64)
    requires
        w.used <= w.limit,
        acquire_step(w, amount, now).1,
    ensures
        acquire_step(w, amount, now).0.used == (if window_over(w.started_at_ms, now) {
            amount as int
        } else {
            w.used + amount
        }),
        acquire_step(w, amount, now).0.used <= w.limit,
{
}

impl RateWindow {
    /// A limiter for a configured limit, its window starting at `now_ms`;
    /// none for a missing or zero limit.
    pub fn new(limit: Option<u64>, now_ms: u64) -> (r: Option<Self>)
        ensures
            r is Some <==> (limit matches Some(l) && l > 0),
            r matches Some(w) ==> w.limit == limit->0 && w.used == 0 && w.started_at_ms == now_ms,
    {
        match limit {
            Some(l) => if l > 0 {
                Some(RateWindow { limit: l, used: 0, started_at_ms: now_ms })
            } else {
                None
            },
            None => None,
        }
    }

    /// Takes `amount` from the budget at time `now_ms`: refused when it
    /// exceeds the limit outright; otherwise a window that is over starts
    /// anew at `now_ms`, and the amount is refused when it exceeds what is
    /// left of the window.
    pub fn try_acquire(&mut self, amount: u64, now_ms: u64) -> (r: bool)
        requires
            old(self).used <= old(self).limit,
        ensures
            (*final(self), r) == acquire_step(*old(self), amount, now_ms),
            final(self).limit == old(self).limit,
            final(self).used <= final(self).limit,
            ({
                let fresh = amount <= old(self).limit && window_over(old(self).started_at_ms, now_ms);
                let base: int = if fresh {
                    0
                } else {
                    old(self).used as int
                };
                &&& final(self).started_at_ms == (if fresh {
                    now_ms
                } else {
                    old(self).started_at_ms
                })
                &&& r == (amount <= old(self).limit && base + amount <= old(self).limit)
                &&& r ==> final(self).used == base + amount
                &&& !r ==> final(self).used == base
            }),
    {
        if amount > self.limit {
            return false;
        }
        if now_ms >= self.started_at_ms && now_ms - self.started_at_ms >= RATE_WINDOW_MILLIS {
            self.started_at_ms = now_ms;
            self.used = 0;
        }
        match self.used.checked_add(amount) {
            Some(t) => {
                if t > self.limit {
                    return false;
                }
                self.used = t;
                true
            },
            None => false,
        }
    }
}

/// Checks a request against a request budget (one request) and then a
/// token budget (`tokens`): refused by the first budget that refuses it;
/// a missing budget allows everything. A request refused by the token
/// budget has still used its place in the request budget.
pub fn check_rate_limits(
    requests: &mut Option<RateWindow>,
    token_budget: &mut Option<RateWindow>,
    tokens: u64,
    now_ms: u64,
) -> (r: bool)
    requires
        *old(requests) matches Some(w) ==> w.used <= w.limit,
        *old(token_budget) matches Some(w) ==> w.used <= w.limit,
    ensures
        *final(requests) matches Some(w) ==> w.used <= w.limit,
        *final(token_budget) matches Some(w) ==> w.used <= w.limit,
        (*final(requests) is Some) == (*old(requests) is Some),
        (*final(token_budget) is Some) == (*old(token_budget) is Some),
        ({
            let req_ok = match *old(requests) {
                Some(w) => {
                    let fresh = 1 <= w.limit && window_over(w.started_at_ms, now_ms);
                    let base: int = if fresh { 0 } else { w.used as int };
                    1 <= w.limit && base + 1 <= w.limit
                },
                None => true,
            };
            let tok_ok = match *old(token_budget) {
                Some(w) => {
                    let fresh = tokens <= w.limit && window_over(w.started_at_ms, now_ms);
                    let base: int = if fresh { 0 } else { w.used as int };
                    tokens <= w.limit && base + tokens <= w.limit
                },
                None => true,
            };
            &&& r == (req_ok && tok_ok)
            &&& !req_ok ==> *final(token_budget) == *old(token_budget)
        }),
        (*final(requests), *final(token_budget), r) == rate_check(*old(requests), *old(token_budget), tokens, now_ms),
{
    match requests {
        Some(w) => {
            if !w.try_acquire(1, now_ms) {
                return false;
            }
        },
        None => {},
    }
    match token_budget {
        Some(w) => w.try_acquire(tokens, now_ms),
        None => true,
    }
}

// ─── choosing upstreams ───

/// The index the load-balancing strategy picks among `len` candidates, and
/// the round-robin counter afterwards (it advances, wrapping, only for
/// round robin).
pub fn select_index(strategy: LoadBalanceStrategy, counter: usize, len: usize) -> (r: (usize, usize))
    requires
        len > 0,
    ensures
        r.0 < len,
        strategy == LoadBalanceStrategy::First ==> r == (0usize, counter),
        strategy == LoadBalanceStrategy::RoundRobin ==> r.0 == counter % len && r.1 == (if counter
            == usize::MAX {
            0
        } else {
            counter + 1
        }),
{
    match strategy {
        LoadBalanceStrategy::First => (0, counter),
        LoadBalanceStrategy::RoundRobin => (counter % len, counter.wrapping_add(1)),
    }
}

/// `v.rotate_left(k)`.
pub open spec fn rotate_left<T>(v: Seq<T>, k: int) -> Seq<T> {
    v.skip(k) + v.take(k)
}

/// The candidates in the order they are tried: rotated left by `start` for
/// round robin when there is more than one.
pub fn order_upstream_candidates(
    candidates: Vec<usize>,
    strategy: LoadBalanceStrategy,
    start: usize,
) -> (r: Vec<usize>)
    requires
        candidates@.len() > 1 && strategy == LoadBalanceStrategy::RoundRobin ==> start < candidates@.len(),
    ensures
        r@ == (if candidates@.len() > 1 && strategy == LoadBalanceStrategy::RoundRobin {
            rotate_left(candidates@, start as int)
        } else {
            candidates@
        }),
{
    if candidates.len() > 1 && strategy == LoadBalanceStrategy::RoundRobin {
        let mut out: Vec<usize> = Vec::new();
        let n = candidates.len();
        let mut i: usize = start;
        while i < n
            invariant
                start <= i <= n,
                n == candidates@.len(),
                out@ == candidates@.subrange(start as int, i as int),
            decreases n - i,
        {
            out.push(candidates[i]);
            i = i + 1;
            assert(out@ =~= candidates@.subrange(start as int, i as int));
        }
        let mut j: usize = 0;
        while j < start
            invariant
                j <= start,
                start < n,
                n == candidates@.len(),
                out@ == candidates@.subrange(start as int, n as int) + candidates@.subrange(0, j as int),
            decreases start - j,
        {
            out.push(candidates[j]);
            j = j + 1;
            assert(out@ =~= candidates@.subrange(start as int, n as int) + candidates@.subrange(0, j as int));
        }
        assert(out@ =~= rotate_left(candidates@, start as int));
        out
    } else {
        candidates
    }
}

/// Rotating a candidate list keeps every candidate: it is a permutation.
pub proof fn lemma_rotation_keeps_candidates(v: Seq<usize>, k: int)
    requires
        0 <= k <= v.len(),
    ensures
        rotate_left(v, k).len() == v.len(),
        rotate_left(v, k).to_multiset() == v.to_multiset(),
{
    vstd::seq_lib::lemma_multiset_commutative(v.skip(k), v.take(k));
    vstd::seq_lib::lemma_multiset_commutative(v.take(k), v.skip(k));
    assert(v.take(k) + v.skip(k) =~= v);
}

/// The concurrency limit of an upstream: its own, else the global one; none
/// when missing or zero.
pub fn concurrency_limit(upstream_limit: Option<usize>, global_limit: Option<usize>) -> (r: Option<usize>)
    ensures
        r == (match (if upstream_limit is Some { upstream_limit } else { global_limit }) {
            Some(l) => if l > 0 {
                Some(l)
            } else {
                None
            },
            None => None,
        }),
{
    let l = match upstream_limit {
        Some(x) => Some(x),
        None => global_limit,
    };
    match l {
        Some(x) => if x > 0 {
            Some(x)
        } else {
            None
        },
        None => None,
    }
}

/// The model a request is routed by: its alias target, or itself.
pub open spec fn alias_target(aliases: Seq<(Seq<char>, Seq<char>)>, model: Seq<char>) -> Seq<char>
    decreases aliases.len(),
{
    if aliases.len() == 0 {
        model
    } else if aliases[0].0 == model {
        aliases[0].1
    } else {
        alias_target(aliases.drop_first(), model)
    }
}

/// The model a request is routed by: the configured alias target of the
/// requested model, or the requested model itself.
pub fn resolve_model_alias<'a>(config: &'a Config, model: &'a str) -> (r: &'a str)
    ensures
        r@ == alias_target(config@.routing.model_aliases, model@),
{
    let aliases = &config.routing.model_aliases;
    let ghost av = pairs_view(aliases@);
    let mut i: usize = 0;
    assert(av.skip(0) =~= av);
    while i < aliases.len()
        invariant
            i <= aliases@.len(),
            av == pairs_view(aliases@),
            config@.routing.model_aliases == av,
            av.len() == aliases@.len(),
            alias_target(av, model@) == alias_target(av.skip(i as int), model@),
        decreases aliases.len() - i,
    {
        assert(av.skip(i as int).len() > 0);
        assert(av.skip(i as int)[0] == (aliases@[i as int].0@, aliases@[i as int].1@));
        assert(av.skip(i as int).drop_first() =~= av.skip(i + 1));
        if str_eq(aliases[i].0.as_str(), model) {
            assert(alias_target(av.skip(i as int), model@) == aliases@[i as int].1@);
            assert(config@.routing.model_aliases == av);
            return aliases[i].1.as_str();
        }
        i = i + 1;
    }
    model
}

/// `model.split_once(':')`: an explicit `upstream:model` route.
pub open spec fn route_split(model: Seq<char>) -> Option<(Seq<char>, Seq<char>)> {
    match first_char_index(model, ':') {
        Some(i) => Some((model.take(i), model.skip(i + 1))),
        None => None,
    }
}

/// Splits an explicit `upstream:model` route at its first colon.
pub fn split_route_model(model: &str) -> (r: Option<(String, String)>)
    ensures
        r matches Some(p) ==> route_split(model@) == Some((p.0@, p.1@)),
        r is None ==> route_split(model@) is None,
{
    let v = chars_of(model);
    match find_char(&v, ':') {
        Some(i) => {
            assert(is_first_char(v@, ':', i as int));
            assert(i < v.len());
            let a = string_of(&slice_chars(&v, 0, i));
            let b = string_of(&slice_chars(&v, i + 1, v.len()));
            assert(v@.take(i as int) =~= v@.subrange(0, i as int));
            assert(v@.skip(i + 1) =~= v@.subrange(i + 1, v@.len() as int));
            Some((a, b))
        },
        None => None,
    }
}

/// The model name sent to a named upstream: the route without a leading
/// `{name}:`.
pub open spec fn upstream_model_of(name: Option<Seq<char>>, model: Seq<char>) -> Seq<char> {
    match name {
        Some(n) => if starts_with_spec(model, n + ":"@) {
            model.skip(n.len() as int + 1)
        } else {
            model
        },
        None => model,
    }
}

/// The model name sent to an upstream: the route with the upstream's
/// `{name}:` prefix removed, when it has one.
pub fn upstream_model_name(name: Option<&str>, model: &str) -> (r: String)
    ensures
        r@ == upstream_model_of(
            match name {
                Some(n) => Some(n@),
                None => None,
            },
            model@,
        ),
{
    match name {
        Some(n) => {
            let prefix = concat(n, ":");
            proof {
                reveal_strlit(":");
            }
            if starts_with(model, prefix.as_str()) {
                let v = chars_of(model);
                let k = prefix.unicode_len();
                let rest = slice_chars(&v, k, v.len());
                assert(rest@ =~= model@.skip(n@.len() as int + 1));
                string_of(&rest)
            } else {
                owned(model)
            }
        },
        None => owned(model),
    }
}

// ─── headers ───

/// The auth header sent to an upstream, if any: none without an API key;
/// for an `Authorization` header (any case) the key gets a `Bearer ` prefix
/// unless it already starts with one (any case); other headers carry the
/// key as it is.
pub open spec fn auth_header_for(u: crate::config::UpstreamConfigV) -> Option<(Seq<char>, Seq<char>)> {
    if u.api_key.len() == 0 {
        None
    } else if lower_spec(u.auth_header) == "authorization"@ && !starts_with_spec(lower_spec(u.api_key), "bearer "@) {
        Some((u.auth_header, "Bearer "@ + u.api_key))
    } else {
        Some((u.auth_header, u.api_key))
    }
}

/// The auth header (name, value) sent to an upstream, if any.
pub fn apply_upstream_auth(upstream: &UpstreamConfig) -> (r: Option<(String, String)>)
    ensures
        r matches Some(h) ==> auth_header_for(upstream@) == Some((h.0@, h.1@)),
        r is None ==> auth_header_for(upstream@) is None,
{
    if upstream.api_key.unicode_len() == 0 {
        return None;
    }
    let header = to_ascii_lowercase(upstream.auth_header.as_str());
    let key = to_ascii_lowercase(upstream.api_key.as_str());
    if str_eq(header.as_str(), "authorization") && !starts_with(key.as_str(), "bearer ") {
        Some((upstream.auth_header.clone(), concat("Bearer ", upstream.api_key.as_str())))
    } else {
        Some((upstream.auth_header.clone(), upstream.api_key.clone()))
    }
}

/// The `anthropic-version` header Anthropic endpoints require.
pub fn apply_anthropic_headers() -> (r: (String, String))
    ensures
        r.0@ == "anthropic-version"@,
        r.1@ == "2023-06-01"@,
{
    (owned("anthropic-version"), owned("2023-06-01"))
}

/// The headers of a model-list request: the auth header, and the Anthropic
/// version header for Anthropic upstreams.
pub fn apply_model_list_headers(config: &UpstreamConfig) -> (r: Vec<(String, String)>)
    ensures
        r@.map_values(|h: (String, String)| (h.0@, h.1@)) == (match auth_header_for(config@) {
            Some(h) => seq![h],
            None => Seq::empty(),
        }) + (if config.api_format == UpstreamApiFormat::AnthropicMessages {
            seq![("anthropic-version"@, "2023-06-01"@)]
        } else {
            Seq::empty()
        }),
{
    let mut out: Vec<(String, String)> = Vec::new();
    match apply_upstream_auth(config) {
        Some(h) => {
            out.push(h);
        },
        None => {},
    }
    if config.api_format == UpstreamApiFormat::AnthropicMessages {
        out.push(apply_anthropic_headers());
    }
    assert(out@.map_values(|h: (String, String)| (h.0@, h.1@)) =~= (match auth_header_for(config@) {
        Some(h) => seq![h],
        None => Seq::empty(),
    }) + (if config.api_format == UpstreamApiFormat::AnthropicMessages {
        seq![("anthropic-version"@, "2023-06-01"@)]
    } else {
        Seq::empty()
    }));
    out
}

/// Whether a request may use the proxy: always when no (or an empty) proxy
/// key is configured; else only with `Authorization: Bearer {key}`.
pub open spec fn authorized(auth_key: Option<Seq<char>>, authorization: Option<Seq<char>>) -> bool {
    match auth_key {
        Some(k) => if k.len() == 0 {
            true
        } else {
            authorization == Some("Bearer "@ + k)
        },
        None => true,
    }
}

/// Checks the request's `Authorization` header (when readable as text)
/// against the configured proxy key.
pub fn is_proxy_authorized(config: &Config, authorization: Option<&str>) -> (r: bool)
    ensures
        r == authorized(
            config@.auth_key,
            match authorization {
                Some(a) => Some(a@),
                None => None,
            },
        ),
{
    match &config.auth_key {
        Some(k) => {
            if k.unicode_len() == 0 {
                return true;
            }
            let expected = concat("Bearer ", k.as_str());
            match authorization {
                Some(a) => str_eq(a, expected.as_str()),
                None => false,
            }
        },
        None => true,
    }
}

/// What the proxy reads from a request body before routing it: the body as
/// JSON (null when it is not JSON), whether it asks for a stream (`stream`
/// is `true`), and the requested model (`model`, when it is a string).
pub fn request_facts(body: &[u8]) -> (r: (Json, bool, Option<String>))
    ensures
        r.0@ == match json_parse_bytes(body@) {
            Some(v) => v,
            None => JsonV::Null,
        },
        r.1 == (jbool(jget(r.0@, "stream"@)) == Some(true)),
        r.2 matches Some(m) ==> jget_str(r.0@, "model"@) == Some(m@),
        r.2 is None ==> jget_str(r.0@, "model"@) is None,
{
    let v = match parse_json_bytes(body) {
        Some(v) => v,
        None => Json::Null,
    };
    let is_stream = match v.get_bool("stream") {
        Some(b) => b,
        None => false,
    };
    let model = match v.get_str("model") {
        Some(m) => Some(owned(m)),
        None => None,
    };
    (v, is_stream, model)
}

/// A token estimate for a body: a quarter of its bytes, rounded up, at
/// least one.
pub fn estimate_tokens_from_bytes(bytes: &[u8]) -> (r: u64)
    ensures
        r == (if bytes@.len() == 0 {
            1
        } else {
            (bytes@.len() + 3) / 4
        }),
{
    let n = bytes.len() as u64;
    if n == 0 {
        1
    } else {
        n / 4 + (if n % 4 == 0 { 0 } else { 1 })
    }
}

/// The name traffic statistics use for an upstream: its name, else its URL.
pub fn stats_upstream_name(config: &UpstreamConfig) -> (r: String)
    ensures
        r@ == (match config.name {
            Some(n) => n@,
            None => config.url@,
        }),
{
    match &config.name {
        Some(n) => n.clone(),
        None => config.url.clone(),
    }
}

/// The name logs use for an upstream: its name, else `<unnamed>`.
pub fn upstream_log_name(upstream: &UpstreamConfig) -> (r: &str)
    ensures
        r@ == (match upstream.name {
            Some(n) => n@,
            None => "<unnamed>"@,
        }),
{
    match &upstream.name {
        Some(n) => n.as_str(),
        None => "<unnamed>",
    }
}

/// Upstream statuses worth retrying: 403, 429 and every 5xx.
pub fn should_retry_status(status: u16) -> (r: bool)
    ensures
        r == (status == 403 || status == 429 || (500 <= status && status <= 599)),
{
    status == 403 || status == 429 || (500 <= status && status <= 599)
}

/// How many times a failed or retryable upstream request is retried.
pub const MAX_RETRIES: usize = 3;

/// The retry decision after `failed_attempts` earlier failures: the delay in
/// milliseconds before the next attempt, or `None` to give up (after
/// `MAX_RETRIES` retries) or to accept the response.
pub fn retry_delay_millis(failed_attempts: usize, retryable: bool) -> (r: Option<u64>)
    ensures
        r is Some <==> (retryable && failed_attempts < MAX_RETRIES),
        r matches Some(d) ==> d == (failed_attempts + 1) * 250,
{
    if retryable && failed_attempts < MAX_RETRIES {
        Some(((failed_attempts + 1) as u64) * 250)
    } else {
        None
    }
}

/// The proxy URL `{scheme}://{host}:{port}` an upstream is reached through,
/// with its basic-auth credentials when both are set.
pub fn upstream_proxy_url(upstream: &UpstreamConfig) -> (r: Option<(String, Option<(String, String)>)>)
    ensures
        r is Some <==> upstream.proxy is Some,
        r matches Some(p) ==> ({
            let c = upstream@.proxy->0;
            &&& p.0@ == scheme_of(upstream.proxy_type) + "://"@ + c.host + ":"@ + decimal(c.port as nat)
            &&& (p.1 is Some <==> (c.username is Some && c.password is Some))
            &&& p.1 matches Some(cred) ==> cred.0@ == c.username->0 && cred.1@ == c.password->0
        }),
{
    match &upstream.proxy {
        Some(c) => {
            let mut url = concat(upstream.proxy_type.scheme(), "://");
            url.append(c.host.as_str());
            url.append(":");
            let port = u64_text(c.port as u64);
            url.append(port.as_str());
            let cred = match (&c.username, &c.password) {
                (Some(u), Some(p)) => Some((u.clone(), p.clone())),
                _ => None,
            };
            Some((url, cred))
        },
        None => None,
    }
}

// ─── model lists ───

/// The string ids of model items (`item.id`), in order.
pub open spec fn model_ids_of(items: Seq<JsonV>) -> Seq<Seq<char>>
    decreases items.len(),
{
    if items.len() == 0 {
        Seq::empty()
    } else {
        let rest = model_ids_of(items.drop_last());
        match jstr(jget(items.last(), "id"@)) {
            Some(id) => rest.push(id),
            None => rest,
        }
    }
}

/// The ids of a model list's items.
pub fn model_ids(items: &Vec<Json>) -> (r: Vec<String>)
    ensures
        r@.map_values(|s: String| s@) == model_ids_of(jviews(items@)),
{
    proof {
        lemma_jviews(items@);
    }
    let ghost iv = jviews(items@);
    let mut out: Vec<String> = Vec::new();
    let mut i: usize = 0;
    while i < items.len()
        invariant
            i <= items@.len(),
            iv == jviews(items@),
            iv.len() == items@.len(),
            forall|j: int| 0 <= j < items@.len() ==> #[trigger] iv[j] == items@[j]@,
            out@.map_values(|s: String| s@) == model_ids_of(iv.take(i as int)),
        decreases items.len() - i,
    {
        assert(iv.take(i + 1).drop_last() =~= iv.take(i as int));
        assert(iv.take(i + 1).last() == items@[i as int]@);
        let ghost before = out@;
        match items[i].get("id") {
            Some(v) => match v.as_str() {
                Some(id) => {
                    out.push(owned(id));
                    assert(out@.map_values(|s: String| s@) =~= before.map_values(|s: String| s@).push(id@));
                },
                None => {},
            },
            None => {},
        }
        i = i + 1;
    }
    assert(iv.take(iv.len() as int) =~= iv);
    out
}

/// Whether a model id is among the ids.
pub fn contains_model(ids: &Vec<String>, model: &str) -> (r: bool)
    ensures
        r == ids@.map_values(|s: String| s@).contains(model@),
{
    let ghost v = ids@.map_values(|s: String| s@);
    let mut i: usize = 0;
    while i < ids.len()
        invariant
            i <= ids@.len(),
            v == ids@.map_values(|s: String| s@),
            forall|j: int| 0 <= j < i ==> v[j] != model@,
        decreases ids.len() - i,
    {
        if str_eq(ids[i].as_str(), model) {
            assert(v[i as int] == model@);
            return true;
        }
        i = i + 1;
    }
    false
}

/// A model item with its id prefixed by the upstream name, `{name}:{id}`;
/// items that are not objects or have no string id stay as they are.
pub open spec fn prefixed_item(item: JsonV, name: Seq<char>) -> JsonV {
    match item {
        JsonV::Object(es) => match jstr(jget(item, "id"@)) {
            Some(id) => JsonV::Object(obj_insert(es, "id"@, JsonV::Str(name + ":"@ + id))),
            None => item,
        },
        _ => item,
    }
}

/// Prefixes a model item's id with the upstream name.
pub fn prefix_model_item_id(item: &mut Json, name: &str)
    ensures
        final(item)@ == prefixed_item(old(item)@, name@),
{
    let id = match item.get("id") {
        Some(v) => match v.as_str() {
            Some(s) => owned(s),
            None => {
                return;
            },
        },
        None => {
            return;
        },
    };
    let mut value = concat(name, ":");
    value.append(id.as_str());
    item.insert("id", Json::Str(value));
}

} // verus!

verus! {

/// One upstream's health as the desktop UI shows it.
#[derive(Debug, Clone)]
pub struct UpstreamHealthSnapshot {
    pub index: usize,
    pub name: Option<String>,
    pub url: String,
    pub api_format: UpstreamApiFormat,
    pub checked: bool,
    pub healthy: bool,
    pub failures: u64,
}

/// The health of each upstream, in configuration order: its position,
/// name, URL and API format beside its last check.
pub fn upstream_health_snapshot(
    upstreams: &Vec<&UpstreamConfig>,
    health: &Vec<UpstreamHealth>,
) -> (r: Vec<UpstreamHealthSnapshot>)
    requires
        upstreams@.len() == health@.len(),
    ensures
        r@.len() == upstreams@.len(),
        forall|i: int|
            0 <= i < r@.len() ==> {
                let s = #[trigger] r@[i];
                &&& s.index == i
                &&& opt_str(s.name) == upstreams@[i]@.name
                &&& s.url@ == upstreams@[i]@.url
                &&& s.api_format == upstreams@[i]@.api_format
                &&& s.checked == health@[i].checked
                &&& s.healthy == health@[i].healthy
                &&& s.failures == health@[i].failures
            },
{
    let mut out: Vec<UpstreamHealthSnapshot> = Vec::new();
    let mut i: usize = 0;
    while i < upstreams.len()
        invariant
            i <= upstreams@.len(),
            upstreams@.len() == health@.len(),
            out@.len() == i,
            forall|j: int|
                0 <= j < i ==> {
                    let s = #[trigger] out@[j];
                    &&& s.index == j
                    &&& opt_str(s.name) == upstreams@[j]@.name
                    &&& s.url@ == upstreams@[j]@.url
                    &&& s.api_format == upstreams@[j]@.api_format
                    &&& s.checked == health@[j].checked
                    &&& s.healthy == health@[j].healthy
                    &&& s.failures == health@[j].failures
                },
        decreases upstreams.len() - i,
    {
        let u = upstreams[i];
        let h = &health[i];
        out.push(
            UpstreamHealthSnapshot {
                index: i,
                name: clone_opt_str(&u.name),
                url: u.url.clone(),
                api_format: u.api_format,
                checked: h.checked,
                healthy: h.healthy,
                failures: h.failures,
            },
        );
        i = i + 1;
    }
    out
}

} // verus!
