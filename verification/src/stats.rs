//! Traffic statistics: request counters kept globally, per upstream and per
//! (upstream, model), read as snapshots and cleared on demand.
//!
//! Counters add with wrap-around, as atomic counters do. Buckets are kept
//! in key order (upstream names, then models, compared character by
//! character), each key once.

use vstd::prelude::*;
use crate::desktop::{lemma_text_lt_irreflexive, lemma_text_lt_transitive, lemma_text_lt_trichotomy, str_lt, text_lt};
use crate::text::{owned, str_eq};

verus! {

/// The counters of one bucket.
#[derive(Debug, Clone, Copy, PartialEq, Eq)]
pub struct Counters {
    pub requests_total: u64,
    pub requests_success: u64,
    pub requests_error: u64,
    pub bytes_in: u64,
    pub bytes_out: u64,
    pub latency_ms_sum: u64,
    pub latency_ms_count: u64,
    pub latency_ms_max: u64,
}

pub open spec fn zero_counters() -> Counters {
    Counters {
        requests_total: 0,
        requests_success: 0,
        requests_error: 0,
        bytes_in: 0,
        bytes_out: 0,
        latency_ms_sum: 0,
        latency_ms_count: 0,
        latency_ms_max: 0,
    }
}

/// The counters after one request: one more request, counted as a success
/// or an error, its bytes and latency added, the largest latency kept.
pub open spec fn recorded(c: Counters, ok: bool, bytes_in: u64, bytes_out: u64, latency_ms: u64) -> Counters {
    Counters {
        requests_total: c.requests_total.wrapping_add(1),
        requests_success: if ok {
            c.requests_success.wrapping_add(1)
        } else {
            c.requests_success
        },
        requests_error: if ok {
            c.requests_error
        } else {
            c.requests_error.wrapping_add(1)
        },
        bytes_in: c.bytes_in.wrapping_add(bytes_in),
        bytes_out: c.bytes_out.wrapping_add(bytes_out),
        latency_ms_sum: c.latency_ms_sum.wrapping_add(latency_ms),
        latency_ms_count: c.latency_ms_count.wrapping_add(1),
        latency_ms_max: if latency_ms > c.latency_ms_max {
            latency_ms
        } else {
            c.latency_ms_max
        },
    }
}

/// What a snapshot shows of a bucket.
#[derive(Debug, Clone, Copy, PartialEq, Eq)]
pub struct CounterSnapshot {
    pub requests_total: u64,
    pub requests_success: u64,
    pub requests_error: u64,
    pub bytes_in: u64,
    pub bytes_out: u64,
    pub latency_ms_avg: u64,
    pub latency_ms_max: u64,
}

/// The snapshot of counters: the average latency rounds down, and is 0
/// before any request.
pub open spec fn snapshot_of(c: Counters) -> CounterSnapshot {
    CounterSnapshot {
        requests_total: c.requests_total,
        requests_success: c.requests_success,
        requests_error: c.requests_error,
        bytes_in: c.bytes_in,
        bytes_out: c.bytes_out,
        latency_ms_avg: if c.latency_ms_count > 0 {
            (c.latency_ms_sum / c.latency_ms_count) as u64
        } else {
            0
        },
        latency_ms_max: c.latency_ms_max,
    }
}

impl Counters {
    /// Counters before any request.
    pub fn new() -> (r: Counters)
        ensures
            r == zero_counters(),
    {
        Counters {
            requests_total: 0,
            requests_success: 0,
            requests_error: 0,
            bytes_in: 0,
            bytes_out: 0,
            latency_ms_sum: 0,
            latency_ms_count: 0,
            latency_ms_max: 0,
        }
    }

    /// Counts one request (see [`recorded`]).
    pub fn record(&mut self, ok: bool, bytes_in: u64, bytes_out: u64, latency_ms: u64)
        ensures
            *final(self) == recorded(*old(self), ok, bytes_in, bytes_out, latency_ms),
    {
        self.requests_total = self.requests_total.wrapping_add(1);
        if ok {
            self.requests_success = self.requests_success.wrapping_add(1);
        } else {
            self.requests_error = self.requests_error.wrapping_add(1);
        }
        self.bytes_in = self.bytes_in.wrapping_add(bytes_in);
        self.bytes_out = self.bytes_out.wrapping_add(bytes_out);
        self.latency_ms_sum = self.latency_ms_sum.wrapping_add(latency_ms);
        self.latency_ms_count = self.latency_ms_count.wrapping_add(1);
        if latency_ms > self.latency_ms_max {
            self.latency_ms_max = latency_ms;
        }
    }

    /// The snapshot of these counters (see [`snapshot_of`]).
    pub fn snapshot(&self) -> (r: CounterSnapshot)
        ensures
            r == snapshot_of(*self),
    {
        let avg = if self.latency_ms_count > 0 {
            self.latency_ms_sum / self.latency_ms_count
        } else {
            0
        };
        CounterSnapshot {
            requests_total: self.requests_total,
            requests_success: self.requests_success,
            requests_error: self.requests_error,
            bytes_in: self.bytes_in,
            bytes_out: self.bytes_out,
            latency_ms_avg: avg,
            latency_ms_max: self.latency_ms_max,
        }
    }

    /// Sets every counter back to 0.
    pub fn reset(&mut self)
        ensures
            *final(self) == zero_counters(),
    {
        *self = Counters::new();
    }
}

// ─── ordered buckets ───

/// Keys strictly increase along the sequence.
pub open spec fn sorted_by<K, V>(s: Seq<(K, V)>, lt: spec_fn(K, K) -> bool) -> bool {
    forall|i: int, j: int| 0 <= i < j < s.len() ==> lt(#[trigger] s[i].0, #[trigger] s[j].0)
}

pub open spec fn transitive<K>(lt: spec_fn(K, K) -> bool) -> bool {
    forall|a: K, b: K, c: K| #[trigger] lt(a, b) && #[trigger] lt(b, c) ==> lt(a, c)
}

/// Inserting an entry where it belongs keeps the keys increasing.
pub proof fn lemma_sorted_insert<K, V>(s: Seq<(K, V)>, p: int, e: (K, V), lt: spec_fn(K, K) -> bool)
    requires
        sorted_by(s, lt),
        transitive(lt),
        0 <= p <= s.len(),
        forall|q: int| 0 <= q < p ==> lt(#[trigger] s[q].0, e.0),
        p < s.len() ==> lt(e.0, s[p].0),
    ensures
        sorted_by(s.insert(p, e), lt),
{
    let n = s.insert(p, e);
    assert forall|a: int, b: int| 0 <= a < b < n.len() implies lt(#[trigger] n[a].0, #[trigger] n[b].0) by {
        if b < p {
            assert(n[a] == s[a] && n[b] == s[b]);
        } else if b == p {
            assert(n[a] == s[a]);
        } else if a < p {
            assert(n[a] == s[a] && n[b] == s[b - 1]);
            if b - 1 > p {
                assert(lt(s[p].0, s[b - 1].0));
                assert(lt(e.0, s[b - 1].0));
            }
            assert(lt(e.0, s[b - 1].0));
        } else if a == p {
            assert(n[b] == s[b - 1]);
            if b - 1 > p {
                assert(lt(s[p].0, s[b - 1].0));
            }
        } else {
            assert(n[a] == s[a - 1] && n[b] == s[b - 1]);
        }
    }
}

pub open spec fn name_lt() -> spec_fn(Seq<char>, Seq<char>) -> bool {
    |a: Seq<char>, b: Seq<char>| text_lt(a, b)
}

/// (upstream, model) pairs ordered by upstream, then by model.
pub open spec fn pair_lt() -> spec_fn((Seq<char>, Seq<char>), (Seq<char>, Seq<char>)) -> bool {
    |a: (Seq<char>, Seq<char>), b: (Seq<char>, Seq<char>)|
        text_lt(a.0, b.0) || (a.0 == b.0 && text_lt(a.1, b.1))
}

pub proof fn lemma_name_lt_transitive()
    ensures
        transitive(name_lt()),
{
    assert forall|a: Seq<char>, b: Seq<char>, c: Seq<char>|
        #[trigger] name_lt()(a, b) && #[trigger] name_lt()(b, c) implies name_lt()(a, c) by {
        lemma_text_lt_transitive(a, b, c);
    }
}

pub proof fn lemma_pair_lt_transitive()
    ensures
        transitive(pair_lt()),
{
    assert forall|a: (Seq<char>, Seq<char>), b: (Seq<char>, Seq<char>), c: (Seq<char>, Seq<char>)|
        #[trigger] pair_lt()(a, b) && #[trigger] pair_lt()(b, c) implies pair_lt()(a, c) by {
        if text_lt(a.0, b.0) && text_lt(b.0, c.0) {
            lemma_text_lt_transitive(a.0, b.0, c.0);
        } else if text_lt(a.1, b.1) && text_lt(b.1, c.1) && a.0 == b.0 && b.0 == c.0 {
            lemma_text_lt_transitive(a.1, b.1, c.1);
        }
    }
}

/// A key is present in a bucket list.
pub open spec fn has_key<K, V>(s: Seq<(K, V)>, k: K) -> bool {
    exists|i: int| 0 <= i < s.len() && #[trigger] s[i].0 == k
}

/// The bucket list after recording under `k`: that bucket's counters are
/// updated, or a new bucket is inserted in key order.
pub open spec fn bumped<K>(
    old_s: Seq<(K, Counters)>,
    new_s: Seq<(K, Counters)>,
    k: K,
    ok: bool,
    bytes_in: u64,
    bytes_out: u64,
    latency_ms: u64,
) -> bool {
    if has_key(old_s, k) {
        exists|i: int|
            0 <= i < old_s.len() && #[trigger] old_s[i].0 == k && new_s == old_s.update(
                i,
                (k, recorded(old_s[i].1, ok, bytes_in, bytes_out, latency_ms)),
            )
    } else {
        exists|p: int|
            0 <= p <= old_s.len() && new_s == #[trigger] old_s.insert(
                p,
                (k, recorded(zero_counters(), ok, bytes_in, bytes_out, latency_ms)),
            )
    }
}

pub struct UpstreamBucket {
    pub name: String,
    pub counters: Counters,
}

pub struct ModelBucket {
    pub upstream: String,
    pub model: String,
    pub counters: Counters,
}

pub open spec fn upstream_view(v: Seq<UpstreamBucket>) -> Seq<(Seq<char>, Counters)> {
    v.map_values(|b: UpstreamBucket| (b.name@, b.counters))
}

pub open spec fn model_view(v: Seq<ModelBucket>) -> Seq<((Seq<char>, Seq<char>), Counters)> {
    v.map_values(|b: ModelBucket| ((b.upstream@, b.model@), b.counters))
}

/// Records under `name` in increasing-name buckets.
fn bump_upstream(
    buckets: &mut Vec<UpstreamBucket>,
    name: &str,
    ok: bool,
    bytes_in: u64,
    bytes_out: u64,
    latency_ms: u64,
)
    requires
        sorted_by(upstream_view(old(buckets)@), name_lt()),
    ensures
        sorted_by(upstream_view(final(buckets)@), name_lt()),
        bumped(upstream_view(old(buckets)@), upstream_view(final(buckets)@), name@, ok, bytes_in, bytes_out, latency_ms),
{
    let ghost s = upstream_view(buckets@);
    let mut p: usize = 0;
    while p < buckets.len() && str_lt(buckets[p].name.as_str(), name)
        invariant
            p <= buckets@.len(),
            s == upstream_view(buckets@),
            forall|q: int| 0 <= q < p ==> text_lt(#[trigger] s[q].0, name@),
        decreases buckets.len() - p,
    {
        p = p + 1;
    }
    proof {
        lemma_name_lt_transitive();
    }
    if p < buckets.len() && str_eq(buckets[p].name.as_str(), name) {
        let mut c = buckets[p].counters;
        c.record(ok, bytes_in, bytes_out, latency_ms);
        let b = UpstreamBucket { name: owned(name), counters: c };
        buckets.set(p, b);
        proof {
            assert(s[p as int].0 == name@);
            assert(upstream_view(buckets@) =~= s.update(p as int, (name@, c)));
            assert forall|i: int, j: int| 0 <= i < j < s.len() implies name_lt()(
                #[trigger] upstream_view(buckets@)[i].0,
                #[trigger] upstream_view(buckets@)[j].0,
            ) by {
                assert(upstream_view(buckets@)[i].0 == s[i].0);
                assert(upstream_view(buckets@)[j].0 == s[j].0);
            }
        }
    } else {
        proof {
            assert forall|i: int| 0 <= i < s.len() implies #[trigger] s[i].0 != name@ by {
                if i < p {
                    lemma_text_lt_irreflexive(name@);
                } else {
                    assert(!text_lt(s[p as int].0, name@));
                    lemma_text_lt_trichotomy(s[p as int].0, name@);
                    if i > p {
                        assert(text_lt(s[p as int].0, s[i].0));
                        if s[i].0 == name@ {
                            lemma_text_lt_trichotomy(s[p as int].0, name@);
                        }
                    }
                }
            }
            if p < s.len() {
                lemma_text_lt_trichotomy(s[p as int].0, name@);
            }
        }
        let mut c = Counters::new();
        c.record(ok, bytes_in, bytes_out, latency_ms);
        buckets.insert(p, UpstreamBucket { name: owned(name), counters: c });
        proof {
            assert(upstream_view(buckets@) =~= s.insert(p as int, (name@, c)));
            lemma_sorted_insert(s, p as int, (name@, c), name_lt());
        }
    }
}

} // verus!

verus! {

fn pair_lt_exec(a0: &str, a1: &str, b0: &str, b1: &str) -> (r: bool)
    ensures
        r == pair_lt()((a0@, a1@), (b0@, b1@)),
{
    str_lt(a0, b0) || (str_eq(a0, b0) && str_lt(a1, b1))
}

proof fn lemma_pair_lt_irreflexive(a: (Seq<char>, Seq<char>))
    ensures
        !pair_lt()(a, a),
{
    lemma_text_lt_irreflexive(a.0);
    lemma_text_lt_irreflexive(a.1);
}

proof fn lemma_pair_lt_trichotomy(a: (Seq<char>, Seq<char>), b: (Seq<char>, Seq<char>))
    ensures
        a == b || pair_lt()(a, b) || pair_lt()(b, a),
        !(pair_lt()(a, b) && pair_lt()(b, a)),
{
    lemma_text_lt_trichotomy(a.0, b.0);
    lemma_text_lt_trichotomy(a.1, b.1);
    lemma_text_lt_irreflexive(a.0);
}

/// Records under (`upstream`, `model`) in increasing-pair buckets.
fn bump_model(
    buckets: &mut Vec<ModelBucket>,
    upstream: &str,
    model: &str,
    ok: bool,
    bytes_in: u64,
    bytes_out: u64,
    latency_ms: u64,
)
    requires
        sorted_by(model_view(old(buckets)@), pair_lt()),
    ensures
        sorted_by(model_view(final(buckets)@), pair_lt()),
        bumped(model_view(old(buckets)@), model_view(final(buckets)@), (upstream@, model@), ok, bytes_in, bytes_out, latency_ms),
{
    let ghost s = model_view(buckets@);
    let ghost key = (upstream@, model@);
    let mut p: usize = 0;
    while p < buckets.len() && pair_lt_exec(
        buckets[p].upstream.as_str(),
        buckets[p].model.as_str(),
        upstream,
        model,
    )
        invariant
            p <= buckets@.len(),
            s == model_view(buckets@),
            key == (upstream@, model@),
            forall|q: int| 0 <= q < p ==> pair_lt()(#[trigger] s[q].0, key),
        decreases buckets.len() - p,
    {
        p = p + 1;
    }
    proof {
        lemma_pair_lt_transitive();
    }
    if p < buckets.len() && str_eq(buckets[p].upstream.as_str(), upstream) && str_eq(
        buckets[p].model.as_str(),
        model,
    ) {
        let mut c = buckets[p].counters;
        c.record(ok, bytes_in, bytes_out, latency_ms);
        let b = ModelBucket { upstream: owned(upstream), model: owned(model), counters: c };
        buckets.set(p, b);
        proof {
            assert(s[p as int].0 == key);
            assert(model_view(buckets@) =~= s.update(p as int, (key, c)));
            assert forall|i: int, j: int| 0 <= i < j < s.len() implies pair_lt()(
                #[trigger] model_view(buckets@)[i].0,
                #[trigger] model_view(buckets@)[j].0,
            ) by {
                assert(model_view(buckets@)[i].0 == s[i].0);
                assert(model_view(buckets@)[j].0 == s[j].0);
            }
        }
    } else {
        proof {
            if p < s.len() {
                lemma_pair_lt_trichotomy(s[p as int].0, key);
                assert(s[p as int].0 != key);
            }
            assert forall|i: int| 0 <= i < s.len() implies #[trigger] s[i].0 != key by {
                if i < p {
                    lemma_pair_lt_irreflexive(key);
                } else if i > p {
                    assert(pair_lt()(s[p as int].0, s[i].0));
                    lemma_pair_lt_trichotomy(s[p as int].0, key);
                }
            }
        }
        let mut c = Counters::new();
        c.record(ok, bytes_in, bytes_out, latency_ms);
        buckets.insert(p, ModelBucket { upstream: owned(upstream), model: owned(model), counters: c });
        proof {
            assert(model_view(buckets@) =~= s.insert(p as int, (key, c)));
            if p < s.len() {
                lemma_pair_lt_trichotomy(s[p as int].0, key);
            }
            lemma_sorted_insert(s, p as int, (key, c), pair_lt());
        }
    }
}

} // verus!

verus! {

/// One upstream's counters in a snapshot.
#[derive(Debug, Clone)]
pub struct UpstreamCounters {
    pub upstream: String,
    pub counters: CounterSnapshot,
}

/// One (upstream, model) pair's counters in a snapshot.
#[derive(Debug, Clone)]
pub struct ModelCounters {
    pub upstream: String,
    pub model: String,
    pub counters: CounterSnapshot,
}

/// What the statistics show at one moment.
#[derive(Debug, Clone)]
pub struct TrafficSnapshot {
    /// Seconds since the statistics were created.
    pub uptime_seconds: u64,
    pub global: CounterSnapshot,
    pub upstreams: Vec<UpstreamCounters>,
    pub models: Vec<ModelCounters>,
}

/// Counters of all requests, of each upstream and of each (upstream,
/// model) pair.
pub struct TrafficStats {
    pub global: Counters,
    pub upstreams: Vec<UpstreamBucket>,
    pub models: Vec<ModelBucket>,
}

impl TrafficStats {
    /// Buckets in increasing key order, each key once.
    pub open spec fn wf(&self) -> bool {
        &&& sorted_by(upstream_view(self.upstreams@), name_lt())
        &&& sorted_by(model_view(self.models@), pair_lt())
    }

    /// Statistics with nothing recorded.
    pub fn new() -> (r: TrafficStats)
        ensures
            r.wf(),
            r.global == zero_counters(),
            r.upstreams@.len() == 0,
            r.models@.len() == 0,
    {
        let r = TrafficStats { global: Counters::new(), upstreams: Vec::new(), models: Vec::new() };
        assert(upstream_view(r.upstreams@) =~= Seq::<(Seq<char>, Counters)>::empty());
        assert(model_view(r.models@) =~= Seq::<((Seq<char>, Seq<char>), Counters)>::empty());
        r
    }

    /// Records one request globally, for its upstream and for its
    /// (upstream, model) pair; a bucket seen for the first time is created.
    pub fn record(
        &mut self,
        upstream_name: &str,
        model: &str,
        ok: bool,
        bytes_in: u64,
        bytes_out: u64,
        latency_ms: u64,
    )
        requires
            old(self).wf(),
        ensures
            final(self).wf(),
            final(self).global == recorded(old(self).global, ok, bytes_in, bytes_out, latency_ms),
            bumped(
                upstream_view(old(self).upstreams@),
                upstream_view(final(self).upstreams@),
                upstream_name@,
                ok,
                bytes_in,
                bytes_out,
                latency_ms,
            ),
            bumped(
                model_view(old(self).models@),
                model_view(final(self).models@),
                (upstream_name@, model@),
                ok,
                bytes_in,
                bytes_out,
                latency_ms,
            ),
    {
        self.global.record(ok, bytes_in, bytes_out, latency_ms);
        bump_upstream(&mut self.upstreams, upstream_name, ok, bytes_in, bytes_out, latency_ms);
        bump_model(&mut self.models, upstream_name, model, ok, bytes_in, bytes_out, latency_ms);
    }

    /// The counters as they stand, buckets in key order; `uptime_seconds`
    /// is the time since the statistics were created.
    pub fn snapshot(&self, uptime_seconds: u64) -> (r: TrafficSnapshot)
        ensures
            r.uptime_seconds == uptime_seconds,
            r.global == snapshot_of(self.global),
            r.upstreams@.len() == self.upstreams@.len(),
            forall|i: int|
                0 <= i < self.upstreams@.len() ==> #[trigger] r.upstreams@[i].upstream@
                    == self.upstreams@[i].name@ && r.upstreams@[i].counters == snapshot_of(
                    self.upstreams@[i].counters,
                ),
            r.models@.len() == self.models@.len(),
            forall|i: int|
                0 <= i < self.models@.len() ==> #[trigger] r.models@[i].upstream@
                    == self.models@[i].upstream@ && r.models@[i].model@ == self.models@[i].model@
                    && r.models@[i].counters == snapshot_of(self.models@[i].counters),
    {
        let mut upstreams: Vec<UpstreamCounters> = Vec::new();
        let mut i: usize = 0;
        while i < self.upstreams.len()
            invariant
                i <= self.upstreams@.len(),
                upstreams@.len() == i,
                forall|j: int|
                    0 <= j < i ==> #[trigger] upstreams@[j].upstream@ == self.upstreams@[j].name@
                        && upstreams@[j].counters == snapshot_of(self.upstreams@[j].counters),
            decreases self.upstreams.len() - i,
        {
            let b = &self.upstreams[i];
            upstreams.push(UpstreamCounters { upstream: b.name.clone(), counters: b.counters.snapshot() });
            i = i + 1;
        }
        let mut models: Vec<ModelCounters> = Vec::new();
        let mut k: usize = 0;
        while k < self.models.len()
            invariant
                k <= self.models@.len(),
                models@.len() == k,
                forall|j: int|
                    0 <= j < k ==> #[trigger] models@[j].upstream@ == self.models@[j].upstream@
                        && models@[j].model@ == self.models@[j].model@ && models@[j].counters
                        == snapshot_of(self.models@[j].counters),
            decreases self.models.len() - k,
        {
            let b = &self.models[k];
            models.push(
                ModelCounters {
                    upstream: b.upstream.clone(),
                    model: b.model.clone(),
                    counters: b.counters.snapshot(),
                },
            );
            k = k + 1;
        }
        TrafficSnapshot { uptime_seconds, global: self.global.snapshot(), upstreams, models }
    }

    /// Sets every counter to 0 and keeps the buckets, so the rows stay.
    #[verifier::loop_isolation(false)]
    pub fn clear(&mut self)
        requires
            old(self).wf(),
        ensures
            final(self).wf(),
            final(self).global == zero_counters(),
            upstream_view(final(self).upstreams@) == upstream_view(old(self).upstreams@).map_values(
                |e: (Seq<char>, Counters)| (e.0, zero_counters()),
            ),
            model_view(final(self).models@) == model_view(old(self).models@).map_values(
                |e: ((Seq<char>, Seq<char>), Counters)| (e.0, zero_counters()),
            ),
    {
        let ghost us = upstream_view(self.upstreams@);
        let ghost ms = model_view(self.models@);
        let mut i: usize = 0;
        while i < self.upstreams.len()
            invariant
                i <= self.upstreams@.len(),
                us.len() == self.upstreams@.len(),
                ms == model_view(self.models@),
                forall|j: int| 0 <= j < us.len() ==> (#[trigger] self.upstreams@[j]).name@ == us[j].0,
                forall|j: int| 0 <= j < i ==> (#[trigger] self.upstreams@[j]).counters == zero_counters(),
            decreases self.upstreams.len() - i,
        {
            let name = self.upstreams[i].name.clone();
            self.upstreams.set(i, UpstreamBucket { name, counters: Counters::new() });
            i = i + 1;
        }
        assert(upstream_view(self.upstreams@) =~= us.map_values(
            |e: (Seq<char>, Counters)| (e.0, zero_counters()),
        ));
        let mut k: usize = 0;
        while k < self.models.len()
            invariant
                k <= self.models@.len(),
                ms.len() == self.models@.len(),
                upstream_view(self.upstreams@) == us.map_values(
                    |e: (Seq<char>, Counters)| (e.0, zero_counters()),
                ),
                forall|j: int|
                    0 <= j < ms.len() ==> ((#[trigger] self.models@[j]).upstream@, self.models@[j].model@)
                        == ms[j].0,
                forall|j: int| 0 <= j < k ==> (#[trigger] self.models@[j]).counters == zero_counters(),
            decreases self.models.len() - k,
        {
            let upstream = self.models[k].upstream.clone();
            let model = self.models[k].model.clone();
            self.models.set(k, ModelBucket { upstream, model, counters: Counters::new() });
            k = k + 1;
        }
        assert(model_view(self.models@) =~= ms.map_values(
            |e: ((Seq<char>, Seq<char>), Counters)| (e.0, zero_counters()),
        ));
        let ghost nu = upstream_view(self.upstreams@);
        let ghost nm = model_view(self.models@);
        assert forall|a: int, b: int| 0 <= a < b < nu.len() implies name_lt()(
            #[trigger] nu[a].0,
            #[trigger] nu[b].0,
        ) by {
            assert(us[a].0 == nu[a].0);
            assert(us[b].0 == nu[b].0);
        }
        assert forall|a: int, b: int| 0 <= a < b < nm.len() implies pair_lt()(
            #[trigger] nm[a].0,
            #[trigger] nm[b].0,
        ) by {
            assert(ms[a].0 == nm[a].0);
            assert(ms[b].0 == nm[b].0);
        }
        self.global.reset();
    }
}

impl Default for TrafficStats {
    fn default() -> (r: TrafficStats)
        ensures
            r.wf(),
            r.global == zero_counters(),
            r.upstreams@.len() == 0,
            r.models@.len() == 0,
    {
        TrafficStats::new()
    }
}

/// Counters are balanced when every request is a success or an error.
pub open spec fn balanced(c: Counters) -> bool {
    c.requests_total == c.requests_success + c.requests_error
}

/// Every recorded request is counted once, as a success or as an error:
/// recording keeps counters balanced (below the counter's wrap-around).
pub proof fn lemma_record_keeps_balance(
    c: Counters,
    ok: bool,
    bytes_in: u64,
    bytes_out: u64,
    latency_ms: u64,
)
    requires
        balanced(c),
        c.requests_total < u64::MAX,
    ensures
        balanced(recorded(c, ok, bytes_in, bytes_out, latency_ms)),
        recorded(c, ok, bytes_in, bytes_out, latency_ms).requests_total == c.requests_total + 1,
{
}

/// The largest latency seen never decreases, and covers the latest request.
pub proof fn lemma_record_latency_max(
    c: Counters,
    ok: bool,
    bytes_in: u64,
    bytes_out: u64,
    latency_ms: u64,
)
    ensures
        recorded(c, ok, bytes_in, bytes_out, latency_ms).latency_ms_max >= c.latency_ms_max,
        recorded(c, ok, bytes_in, bytes_out, latency_ms).latency_ms_max >= latency_ms,
{
}

} // verus!
