//! Choosing the upstreams that serve a request: by model alias, by an
//! explicit `upstream:model` route, by which upstreams list the model, and
//! by the configured fallback model, in load-balancing order.
//!
//! The caller supplies what the router learns at run time: which
//! upstreams are healthy and the model ids each one lists (`None` when its
//! list could not be fetched).

use vstd::prelude::*;
use crate::config::{Config, ConfigV, LoadBalanceStrategy, UpstreamApiFormat, UpstreamConfig};
use crate::text::{owned, str_eq};
use crate::types::{clone_opt_str, opt_str};
use crate::upstream::{
    alias_target, contains_model, order_upstream_candidates, resolve_model_alias, rotate_left,
    route_split, select_index, split_route_model, upstream_model_name, upstream_model_of,
};

verus! {

/// One upstream chosen for a request, in the order they are tried.
#[derive(Debug, Clone)]
pub struct UpstreamSelection {
    /// The upstream's position among the configured upstreams.
    pub index: usize,
    /// The model name to send to it.
    pub upstream_model: Option<String>,
    /// The model the client asked for.
    pub requested_model: Option<String>,
    /// The model the request was routed by.
    pub route_model: Option<String>,
    /// Whether the configured fallback model was used.
    pub used_fallback: bool,
}

pub struct SelectionV {
    pub index: int,
    pub upstream_model: Option<Seq<char>>,
    pub requested_model: Option<Seq<char>>,
    pub route_model: Option<Seq<char>>,
    pub used_fallback: bool,
}

impl View for UpstreamSelection {
    type V = SelectionV;

    open spec fn view(&self) -> SelectionV {
        SelectionV {
            index: self.index as int,
            upstream_model: opt_str(self.upstream_model),
            requested_model: opt_str(self.requested_model),
            route_model: opt_str(self.route_model),
            used_fallback: self.used_fallback,
        }
    }
}

pub open spec fn selections_view(v: Seq<UpstreamSelection>) -> Seq<SelectionV> {
    v.map_values(|s: UpstreamSelection| s@)
}

/// Whether upstream `i` lists model `m`.
pub open spec fn lists_model(lists: Seq<Option<Vec<String>>>, i: int, m: Seq<char>) -> bool {
    match lists[i] {
        Some(l) => l@.map_values(|s: String| s@).contains(m),
        None => false,
    }
}

/// The first healthy upstream among the first `n`.
pub open spec fn first_healthy(healthy: Seq<bool>, n: int) -> Option<int>
    decreases n,
{
    if n <= 0 {
        None
    } else {
        match first_healthy(healthy, n - 1) {
            Some(i) => Some(i),
            None => if healthy[n - 1] {
                Some(n - 1)
            } else {
                None
            },
        }
    }
}

/// The first among the first `n` upstreams named `name`, healthy, and
/// listing `m`.
pub open spec fn first_named(
    names: Seq<Option<Seq<char>>>,
    healthy: Seq<bool>,
    lists: Seq<Option<Vec<String>>>,
    name: Seq<char>,
    m: Seq<char>,
    n: int,
) -> Option<int>
    decreases n,
{
    if n <= 0 {
        None
    } else {
        match first_named(names, healthy, lists, name, m, n - 1) {
            Some(i) => Some(i),
            None => if names[n - 1] == Some(name) && healthy[n - 1] && lists_model(lists, n - 1, m) {
                Some(n - 1)
            } else {
                None
            },
        }
    }
}

/// The healthy upstreams among the first `n` that list `m`, in order.
pub open spec fn listing(healthy: Seq<bool>, lists: Seq<Option<Vec<String>>>, m: Seq<char>, n: int) -> Seq<
    usize,
>
    decreases n,
{
    if n <= 0 {
        Seq::empty()
    } else {
        let rest = listing(healthy, lists, m, n - 1);
        if healthy[n - 1] && lists_model(lists, n - 1, m) {
            rest.push((n - 1) as usize)
        } else {
            rest
        }
    }
}

pub open spec fn plain(index: int, upstream_model: Option<Seq<char>>) -> SelectionV {
    SelectionV { index, upstream_model, requested_model: None, route_model: None, used_fallback: false }
}

/// The round-robin counter after ordering `k` candidates.
pub open spec fn counter_after(strategy: LoadBalanceStrategy, counter: usize, k: nat) -> usize {
    if k > 1 && strategy == LoadBalanceStrategy::RoundRobin {
        if counter == usize::MAX {
            0
        } else {
            (counter + 1) as usize
        }
    } else {
        counter
    }
}

/// The upstreams for a resolved route model, and the round-robin counter
/// afterwards:
/// - with no model, or one upstream and no need to match, the first
///   healthy upstream (else the first), asked for the model without its
///   `{name}:` prefix;
/// - for `upstream:model`, the first healthy upstream of that name that
///   lists the model;
/// - otherwise every healthy upstream that lists the model, in
///   load-balancing order.
pub open spec fn resolved_selection(
    names: Seq<Option<Seq<char>>>,
    healthy: Seq<bool>,
    lists: Seq<Option<Vec<String>>>,
    route_model: Option<Seq<char>>,
    require_model_match: bool,
    strategy: LoadBalanceStrategy,
    counter: usize,
) -> (Seq<SelectionV>, usize) {
    let n = names.len() as int;
    if route_model is None || (n <= 1 && !require_model_match) {
        if n == 0 {
            (Seq::empty(), counter)
        } else {
            let idx = match first_healthy(healthy, n) {
                Some(i) => i,
                None => 0,
            };
            let um = match route_model {
                Some(m) => Some(upstream_model_of(names[idx], m)),
                None => None,
            };
            (seq![plain(idx, um)], counter)
        }
    } else {
        let model = route_model->0;
        match route_split(model) {
            Some((un, um)) => match first_named(names, healthy, lists, un, um, n) {
                Some(i) => (seq![plain(i, Some(um))], counter),
                None => (Seq::empty(), counter),
            },
            None => {
                let cands = listing(healthy, lists, model, n);
                let k = cands.len();
                let ordered = if k > 1 && strategy == LoadBalanceStrategy::RoundRobin {
                    rotate_left(cands, (counter as int) % (k as int))
                } else {
                    cands
                };
                (
                    ordered.map_values(|i: usize| plain(i as int, Some(model))),
                    counter_after(strategy, counter, k),
                )
            },
        }
    }
}

fn first_healthy_exec(healthy: &Vec<bool>, n: usize) -> (r: Option<usize>)
    requires
        n <= healthy@.len(),
    ensures
        r matches Some(i) ==> first_healthy(healthy@, n as int) == Some(i as int),
        r is None ==> first_healthy(healthy@, n as int) is None,
{
    let mut i: usize = 0;
    while i < n
        invariant
            i <= n,
            n <= healthy@.len(),
            first_healthy(healthy@, i as int) is None,
        decreases n - i,
    {
        if healthy[i] {
            proof {
                lemma_first_healthy_stable(healthy@, i as int + 1, n as int);
            }
            return Some(i);
        }
        i = i + 1;
    }
    None
}

proof fn lemma_first_healthy_stable(healthy: Seq<bool>, k: int, n: int)
    requires
        0 < k <= n,
        first_healthy(healthy, k) is Some,
    ensures
        first_healthy(healthy, n) == first_healthy(healthy, k),
    decreases n - k,
{
    if n > k {
        lemma_first_healthy_stable(healthy, k, n - 1);
    }
}

proof fn lemma_first_healthy_bound(healthy: Seq<bool>, n: int)
    ensures
        first_healthy(healthy, n) matches Some(i) ==> 0 <= i < n,
    decreases n,
{
    if n > 0 {
        lemma_first_healthy_bound(healthy, n - 1);
    }
}

proof fn lemma_first_named_stable(
    names: Seq<Option<Seq<char>>>,
    healthy: Seq<bool>,
    lists: Seq<Option<Vec<String>>>,
    name: Seq<char>,
    m: Seq<char>,
    k: int,
    n: int,
)
    requires
        0 < k <= n,
        first_named(names, healthy, lists, name, m, k) is Some,
    ensures
        first_named(names, healthy, lists, name, m, n) == first_named(names, healthy, lists, name, m, k),
    decreases n - k,
{
    if n > k {
        lemma_first_named_stable(names, healthy, lists, name, m, k, n - 1);
    }
}

pub open spec fn names_of(upstreams: Seq<&UpstreamConfig>) -> Seq<Option<Seq<char>>> {
    upstreams.map_values(|u: &UpstreamConfig| u@.name)
}

fn listed_exec(lists: &Vec<Option<Vec<String>>>, i: usize, m: &str) -> (r: bool)
    requires
        i < lists@.len(),
    ensures
        r == lists_model(lists@, i as int, m@),
{
    match &lists[i] {
        Some(l) => contains_model(l, m),
        None => false,
    }
}

fn same_name(name: &Option<String>, n: &str) -> (r: bool)
    ensures
        r == (opt_str(*name) == Some(n@)),
{
    match name {
        Some(x) => crate::text::str_eq(x.as_str(), n),
        None => false,
    }
}

fn plain_exec(index: usize, upstream_model: Option<String>) -> (r: UpstreamSelection)
    ensures
        r@ == plain(index as int, opt_str(upstream_model)),
{
    UpstreamSelection { index, upstream_model, requested_model: None, route_model: None, used_fallback: false }
}

/// The upstreams for a resolved route model (see [`resolved_selection`]),
/// and the round-robin counter afterwards.
#[verifier::loop_isolation(false)]
pub fn select_upstreams_for_resolved_model(
    upstreams: &Vec<&UpstreamConfig>,
    healthy: &Vec<bool>,
    lists: &Vec<Option<Vec<String>>>,
    route_model: Option<&str>,
    require_model_match: bool,
    strategy: LoadBalanceStrategy,
    counter: usize,
) -> (r: (Vec<UpstreamSelection>, usize))
    requires
        healthy@.len() == upstreams@.len(),
        lists@.len() == upstreams@.len(),
    ensures
        (selections_view(r.0@), r.1) == resolved_selection(
            names_of(upstreams@),
            healthy@,
            lists@,
            match route_model {
                Some(m) => Some(m@),
                None => None,
            },
            require_model_match,
            strategy,
            counter,
        ),
{
    let ghost names = names_of(upstreams@);
    let n = upstreams.len();
    let mut out: Vec<UpstreamSelection> = Vec::new();
    let go_plain = match route_model {
        None => true,
        Some(_) => n <= 1 && !require_model_match,
    };
    if go_plain {
        if n == 0 {
            assert(selections_view(out@) =~= Seq::<SelectionV>::empty());
            return (out, counter);
        }
        let idx = match first_healthy_exec(healthy, n) {
            Some(i) => i,
            None => 0,
        };
        proof {
            lemma_first_healthy_bound(healthy@, n as int);
        }
        let u = upstreams[idx];
        assert(names[idx as int] == u@.name);
        let um = match route_model {
            Some(m) => {
                let name = match &u.name {
                    Some(x) => Some(x.as_str()),
                    None => None,
                };
                Some(upstream_model_name(name, m))
            },
            None => None,
        };
        let s = plain_exec(idx, um);
        out.push(s);
        assert(selections_view(out@) =~= seq![s@]);
        return (out, counter);
    }
    let model = match route_model {
        Some(m) => m,
        None => "",
    };
    match split_route_model(model) {
        Some((un, um)) => {
            let mut i: usize = 0;
            while i < n
                invariant
                    i <= n,
                    n == upstreams@.len(),
                    healthy@.len() == n,
                    lists@.len() == n,
                    names == names_of(upstreams@),
                    out@.len() == 0,
                    first_named(names, healthy@, lists@, un@, um@, i as int) is None,
                decreases n - i,
            {
                let u = upstreams[i];
                assert(names[i as int] == u@.name);
                if same_name(&u.name, un.as_str()) && healthy[i] && listed_exec(lists, i, um.as_str()) {
                    proof {
                        lemma_first_named_stable(names, healthy@, lists@, un@, um@, i as int + 1, n as int);
                    }
                    let s = plain_exec(i, Some(um));
                    out.push(s);
                    assert(selections_view(out@) =~= seq![s@]);
                    return (out, counter);
                }
                i = i + 1;
            }
            assert(selections_view(out@) =~= Seq::<SelectionV>::empty());
            (out, counter)
        },
        None => {
            let mut cands: Vec<usize> = Vec::new();
            let mut i: usize = 0;
            while i < n
                invariant
                    i <= n,
                    n == upstreams@.len(),
                    healthy@.len() == n,
                    lists@.len() == n,
                    cands@ == listing(healthy@, lists@, model@, i as int),
                decreases n - i,
            {
                if healthy[i] && listed_exec(lists, i, model) {
                    cands.push(i);
                }
                i = i + 1;
            }
            let k = cands.len();
            let (start, next) = if k > 0 {
                select_index(strategy, counter, k)
            } else {
                (0, counter)
            };
            let ghost cv = cands@;
            let ordered = order_upstream_candidates(cands, strategy, start);
            let mut j: usize = 0;
            while j < ordered.len()
                invariant
                    j <= ordered@.len(),
                    selections_view(out@) == ordered@.take(j as int).map_values(
                        |i: usize| plain(i as int, Some(model@)),
                    ),
                decreases ordered.len() - j,
            {
                let s = plain_exec(ordered[j], Some(owned(model)));
                let ghost before = out@;
                out.push(s);
                assert(selections_view(out@) =~= selections_view(before).push(s@));
                assert(ordered@.take(j + 1) =~= ordered@.take(j as int).push(ordered@[j as int]));
                assert(ordered@.take(j + 1).map_values(|i: usize| plain(i as int, Some(model@)))
                    =~= ordered@.take(j as int).map_values(|i: usize| plain(i as int, Some(model@))).push(
                    plain(ordered@[j as int] as int, Some(model@)),
                ));
                j = j + 1;
            }
            assert(ordered@.take(ordered@.len() as int) =~= ordered@);
            (out, if k > 1 {
                next
            } else {
                counter
            })
        },
    }
}

} // verus!

verus! {

pub open spec fn with_route(
    s: SelectionV,
    requested: Option<Seq<char>>,
    route: Option<Seq<char>>,
    used_fallback: bool,
) -> SelectionV {
    SelectionV { requested_model: requested, route_model: route, used_fallback, ..s }
}

pub open spec fn attach(
    v: Seq<SelectionV>,
    requested: Option<Seq<char>>,
    route: Option<Seq<char>>,
    used_fallback: bool,
) -> Seq<SelectionV> {
    v.map_values(|s: SelectionV| with_route(s, requested, route, used_fallback))
}

/// The upstreams for a request for `model`, and the round-robin counter
/// afterwards: routed by the model's alias target; when nothing serves it
/// and a fallback model is configured, routed by the fallback model
/// instead. Each selection carries the requested and route models and
/// whether the fallback was used.
pub open spec fn model_selection(
    config: ConfigV,
    names: Seq<Option<Seq<char>>>,
    healthy: Seq<bool>,
    lists: Seq<Option<Vec<String>>>,
    model: Option<Seq<char>>,
    counter: usize,
) -> (Seq<SelectionV>, usize) {
    let route = match model {
        Some(m) => Some(alias_target(config.routing.model_aliases, m)),
        None => None,
    };
    let lb = config.routing.load_balance;
    let fallback = config.routing.fallback_model;
    let first = resolved_selection(names, healthy, lists, route, fallback is Some, lb, counter);
    if first.0.len() > 0 {
        (attach(first.0, model, route, false), first.1)
    } else if model is Some && fallback is Some {
        let second = resolved_selection(names, healthy, lists, fallback, true, lb, first.1);
        if second.0.len() > 0 {
            (attach(second.0, model, fallback, true), second.1)
        } else {
            (Seq::empty(), second.1)
        }
    } else {
        (Seq::empty(), first.1)
    }
}

fn clone_opt_ref(o: Option<&str>) -> (r: Option<String>)
    ensures
        opt_str(r) == match o {
            Some(m) => Some(m@),
            None => None,
        },
{
    match o {
        Some(m) => Some(owned(m)),
        None => None,
    }
}

#[verifier::loop_isolation(false)]
fn attach_route_metadata(
    selections: Vec<UpstreamSelection>,
    requested_model: Option<&str>,
    route_model: Option<&str>,
    used_fallback: bool,
) -> (r: Vec<UpstreamSelection>)
    ensures
        selections_view(r@) == attach(
            selections_view(selections@),
            match requested_model {
                Some(m) => Some(m@),
                None => None,
            },
            match route_model {
                Some(m) => Some(m@),
                None => None,
            },
            used_fallback,
        ),
{
    let ghost req = match requested_model {
        Some(m) => Some(m@),
        None => None::<Seq<char>>,
    };
    let ghost route = match route_model {
        Some(m) => Some(m@),
        None => None::<Seq<char>>,
    };
    let mut out: Vec<UpstreamSelection> = Vec::new();
    let mut i: usize = 0;
    while i < selections.len()
        invariant
            i <= selections@.len(),
            selections_view(out@) == attach(selections_view(selections@).take(i as int), req, route, used_fallback),
        decreases selections.len() - i,
    {
        let s = &selections[i];
        let t = UpstreamSelection {
            index: s.index,
            upstream_model: clone_opt_str(&s.upstream_model),
            requested_model: clone_opt_ref(requested_model),
            route_model: clone_opt_ref(route_model),
            used_fallback,
        };
        let ghost before = out@;
        out.push(t);
        assert(selections_view(out@) =~= selections_view(before).push(t@));
        assert(selections_view(selections@).take(i + 1) =~= selections_view(selections@).take(i as int).push(s@));
        assert(attach(selections_view(selections@).take(i + 1), req, route, used_fallback) =~= attach(
            selections_view(selections@).take(i as int),
            req,
            route,
            used_fallback,
        ).push(with_route(s@, req, route, used_fallback)));
        i = i + 1;
    }
    assert(selections_view(selections@).take(selections@.len() as int) =~= selections_view(selections@));
    out
}

/// The upstreams for a request for `model` (see [`model_selection`]), and
/// the round-robin counter afterwards.
pub fn select_upstreams_for_model(
    config: &Config,
    upstreams: &Vec<&UpstreamConfig>,
    healthy: &Vec<bool>,
    lists: &Vec<Option<Vec<String>>>,
    model: Option<&str>,
    counter: usize,
) -> (r: (Vec<UpstreamSelection>, usize))
    requires
        healthy@.len() == upstreams@.len(),
        lists@.len() == upstreams@.len(),
    ensures
        (selections_view(r.0@), r.1) == model_selection(
            config@,
            names_of(upstreams@),
            healthy@,
            lists@,
            match model {
                Some(m) => Some(m@),
                None => None,
            },
            counter,
        ),
{
    let route_model = match model {
        Some(m) => Some(resolve_model_alias(config, m)),
        None => None,
    };
    let lb = config.routing.load_balance;
    let require = config.routing.fallback_model.is_some();
    let (first, c1) = select_upstreams_for_resolved_model(upstreams, healthy, lists, route_model, require, lb, counter);
    if first.len() > 0 {
        return (attach_route_metadata(first, model, route_model, false), c1);
    }
    match (model, &config.routing.fallback_model) {
        (Some(_), Some(fb)) => {
            let (second, c2) = select_upstreams_for_resolved_model(
                upstreams,
                healthy,
                lists,
                Some(fb.as_str()),
                true,
                lb,
                c1,
            );
            if second.len() > 0 {
                (attach_route_metadata(second, model, Some(fb.as_str()), true), c2)
            } else {
                let out: Vec<UpstreamSelection> = Vec::new();
                assert(selections_view(out@) =~= Seq::<SelectionV>::empty());
                (out, c2)
            }
        },
        _ => {
            let out: Vec<UpstreamSelection> = Vec::new();
            assert(selections_view(out@) =~= Seq::<SelectionV>::empty());
            (out, c1)
        },
    }
}

} // verus!

verus! {

proof fn lemma_listing_sound(healthy: Seq<bool>, lists: Seq<Option<Vec<String>>>, m: Seq<char>, n: int)
    requires
        0 <= n <= healthy.len(),
        n <= usize::MAX,
    ensures
        forall|k: int|
            0 <= k < listing(healthy, lists, m, n).len() ==> {
                let i = #[trigger] listing(healthy, lists, m, n)[k] as int;
                0 <= i < n && healthy[i] && lists_model(lists, i, m)
            },
    decreases n,
{
    if n > 0 {
        lemma_listing_sound(healthy, lists, m, n - 1);
        let rest = listing(healthy, lists, m, n - 1);
        let all = listing(healthy, lists, m, n);
        assert forall|k: int| 0 <= k < all.len() implies {
            let i = #[trigger] all[k] as int;
            0 <= i < n && healthy[i] && lists_model(lists, i, m)
        } by {
            if k < rest.len() {
                assert(all[k] == rest[k]);
            } else {
                assert(all[k] == (n - 1) as usize);
            }
        }
    }
}

/// Routing by a model (no explicit `upstream:` prefix, several upstreams or
/// a fallback configured) only picks healthy upstreams that list the
/// model, and asks each for that model.
pub proof fn lemma_routed_upstreams_serve_model(
    names: Seq<Option<Seq<char>>>,
    healthy: Seq<bool>,
    lists: Seq<Option<Vec<String>>>,
    model: Seq<char>,
    require_model_match: bool,
    strategy: LoadBalanceStrategy,
    counter: usize,
)
    requires
        healthy.len() == names.len(),
        lists.len() == names.len(),
        names.len() <= usize::MAX,
        route_split(model) is None,
        names.len() > 1 || require_model_match,
    ensures
        forall|k: int|
            0 <= k < resolved_selection(names, healthy, lists, Some(model), require_model_match, strategy, counter).0.len()
                ==> {
                let s = #[trigger] resolved_selection(
                    names,
                    healthy,
                    lists,
                    Some(model),
                    require_model_match,
                    strategy,
                    counter,
                ).0[k];
                &&& 0 <= s.index < names.len()
                &&& healthy[s.index]
                &&& lists_model(lists, s.index, model)
                &&& s.upstream_model == Some(model)
            },
{
    let n = names.len() as int;
    let cands = listing(healthy, lists, model, n);
    lemma_listing_sound(healthy, lists, model, n);
    let k = cands.len();
    let ordered = if k > 1 && strategy == LoadBalanceStrategy::RoundRobin {
        rotate_left(cands, (counter as int) % (k as int))
    } else {
        cands
    };
    assert forall|j: int| 0 <= j < ordered.len() implies {
        let i = #[trigger] ordered[j] as int;
        0 <= i < n && healthy[i] && lists_model(lists, i, model)
    } by {
        if k > 1 && strategy == LoadBalanceStrategy::RoundRobin {
            let r = (counter as int) % (k as int);
            if j < k - r {
                assert(ordered[j] == cands[r + j]);
            } else {
                assert(ordered[j] == cands[j - (k - r)]);
            }
        }
    }
}

} // verus!

verus! {

/// What came of trying one selected upstream.
#[derive(Debug, Clone, Copy, PartialEq, Eq, Structural)]
pub enum AttemptOutcome {
    /// The upstream's own rate limits refused the request.
    RateLimited,
    /// The request could not be sent (after its retries).
    SendFailed,
    /// The upstream answered with this status.
    Responded(u16),
}

/// What to do after trying one selected upstream.
#[derive(Debug, Clone, Copy, PartialEq, Eq, Structural)]
pub enum AttemptAction {
    /// Go on to the next selected upstream.
    TryNext,
    /// Answer the client with this status.
    Fail(u16),
    /// Use this upstream's answer.
    Use,
}

/// Whether a failed attempt may move on: failover is enabled and this is
/// not the last selected upstream.
pub fn can_failover(automatic_failover: bool, index: usize, count: usize) -> (r: bool)
    ensures
        r == (automatic_failover && index + 1 < count),
{
    automatic_failover && index < count && count - index > 1
}

/// The step after one attempt: a refused or unsent request moves on when
/// failover is possible and otherwise fails with 429 or 502; an answer is
/// used unless its status is worth retrying and failover is possible.
pub open spec fn next_action(can_failover: bool, outcome: AttemptOutcome) -> AttemptAction {
    match outcome {
        AttemptOutcome::RateLimited => if can_failover {
            AttemptAction::TryNext
        } else {
            AttemptAction::Fail(429)
        },
        AttemptOutcome::SendFailed => if can_failover {
            AttemptAction::TryNext
        } else {
            AttemptAction::Fail(502)
        },
        AttemptOutcome::Responded(s) => if can_failover && (s == 403 || s == 429 || (500 <= s && s
            <= 599)) {
            AttemptAction::TryNext
        } else {
            AttemptAction::Use
        },
    }
}

/// The step after one attempt (see [`next_action`]).
pub fn attempt_action(can_failover: bool, outcome: AttemptOutcome) -> (r: AttemptAction)
    ensures
        r == next_action(can_failover, outcome),
{
    match outcome {
        AttemptOutcome::RateLimited => if can_failover {
            AttemptAction::TryNext
        } else {
            AttemptAction::Fail(429)
        },
        AttemptOutcome::SendFailed => if can_failover {
            AttemptAction::TryNext
        } else {
            AttemptAction::Fail(502)
        },
        AttemptOutcome::Responded(s) => if can_failover && crate::upstream::should_retry_status(s) {
            AttemptAction::TryNext
        } else {
            AttemptAction::Use
        },
    }
}

/// The last selected upstream never hands the request on: whatever
/// happens there, the client gets an answer.
pub proof fn lemma_last_upstream_answers(automatic_failover: bool, count: int, outcome: AttemptOutcome)
    requires
        count > 0,
    ensures
        next_action(automatic_failover && (count - 1) + 1 < count, outcome) != AttemptAction::TryNext,
{
}

} // verus!

verus! {

proof fn lemma_listing_increasing(healthy: Seq<bool>, lists: Seq<Option<Vec<String>>>, m: Seq<char>, n: int)
    requires
        0 <= n <= healthy.len(),
        n <= usize::MAX,
    ensures
        forall|a: int, b: int|
            0 <= a < b < listing(healthy, lists, m, n).len() ==> (#[trigger] listing(healthy, lists, m, n)[a])
                < #[trigger] listing(healthy, lists, m, n)[b],
    decreases n,
{
    if n > 0 {
        lemma_listing_increasing(healthy, lists, m, n - 1);
        lemma_listing_sound(healthy, lists, m, n - 1);
        let rest = listing(healthy, lists, m, n - 1);
        let all = listing(healthy, lists, m, n);
        assert forall|a: int, b: int| 0 <= a < b < all.len() implies #[trigger] all[a] < #[trigger] all[b] by {
            assert(all[a] == rest[a]);
            if b < rest.len() {
                assert(all[b] == rest[b]);
            } else {
                assert(all[b] == (n - 1) as usize);
                assert(rest[a] < n - 1);
            }
        }
    }
}

/// With the `first` strategy, a model listed by several upstreams is
/// served by them in configuration order: the selections' positions
/// strictly increase.
pub proof fn lemma_first_strategy_keeps_config_order(
    names: Seq<Option<Seq<char>>>,
    healthy: Seq<bool>,
    lists: Seq<Option<Vec<String>>>,
    model: Seq<char>,
    require_model_match: bool,
    counter: usize,
)
    requires
        healthy.len() == names.len(),
        lists.len() == names.len(),
        names.len() <= usize::MAX,
        route_split(model) is None,
        names.len() > 1 || require_model_match,
    ensures
        forall|a: int, b: int|
            0 <= a < b < resolved_selection(names, healthy, lists, Some(model), require_model_match, LoadBalanceStrategy::First, counter).0.len()
                ==> (#[trigger] resolved_selection(
                names,
                healthy,
                lists,
                Some(model),
                require_model_match,
                LoadBalanceStrategy::First,
                counter,
            ).0[a]).index < (#[trigger] resolved_selection(
                names,
                healthy,
                lists,
                Some(model),
                require_model_match,
                LoadBalanceStrategy::First,
                counter,
            ).0[b]).index,
{
    let n = names.len() as int;
    lemma_listing_increasing(healthy, lists, model, n);
}

} // verus!

verus! {

// ─── what reaches the client ───

/// How the answer of the upstream that is used reaches the client.
#[derive(Debug, Clone, Copy, PartialEq, Eq, Structural)]
pub enum ReplyHandling {
    /// An error status (4xx or 5xx): its status and body are passed on as
    /// they are.
    PassThroughError,
    /// A whole answer, converted to the client's format.
    Convert,
    /// A stream, converted event by event.
    Stream,
}

/// Errors are passed through; otherwise a streamed request is streamed and
/// any other answer is converted whole.
pub open spec fn reply_handling_of(status: u16, is_stream: bool) -> ReplyHandling {
    if 400 <= status < 600 {
        ReplyHandling::PassThroughError
    } else if is_stream {
        ReplyHandling::Stream
    } else {
        ReplyHandling::Convert
    }
}

/// How an upstream answer with `status` reaches the client (see
/// [`reply_handling_of`]).
pub fn reply_handling(status: u16, is_stream: bool) -> (r: ReplyHandling)
    ensures
        r == reply_handling_of(status, is_stream),
{
    if 400 <= status && status < 600 {
        ReplyHandling::PassThroughError
    } else if is_stream {
        ReplyHandling::Stream
    } else {
        ReplyHandling::Convert
    }
}

/// How `/v1/messages` reaches an upstream.
#[derive(Debug, Clone, Copy, PartialEq, Eq, Structural)]
pub enum MessagesRoute {
    /// An Anthropic upstream: the request goes through as it is.
    Passthrough,
    /// A Chat Completions upstream: the request is converted.
    ViaChat,
    /// Streaming through a Chat Completions upstream is not available: the
    /// client gets 501 with [`STREAMING_MESSAGES_UNSUPPORTED`].
    Unsupported,
}

/// The answer text for a streamed `/v1/messages` request that only a Chat
/// Completions upstream could serve.
pub const STREAMING_MESSAGES_UNSUPPORTED: &'static str = "Streaming `/v1/messages` against a ChatCompletions upstream is not yet implemented. Use an `api_format = \"anthropic_messages\"` upstream, or call `/v1/responses` (which already bridges Responses \u{2192} Chat / Anthropic in both directions).";

/// The route of a `/v1/messages` request to an upstream of `format`.
pub fn messages_route(format: UpstreamApiFormat, is_stream: bool) -> (r: MessagesRoute)
    ensures
        format == UpstreamApiFormat::AnthropicMessages ==> r == MessagesRoute::Passthrough,
        format == UpstreamApiFormat::ChatCompletions && is_stream ==> r == MessagesRoute::Unsupported,
        format == UpstreamApiFormat::ChatCompletions && !is_stream ==> r == MessagesRoute::ViaChat,
{
    match format {
        UpstreamApiFormat::AnthropicMessages => MessagesRoute::Passthrough,
        UpstreamApiFormat::ChatCompletions => if is_stream {
            MessagesRoute::Unsupported
        } else {
            MessagesRoute::ViaChat
        },
    }
}

} // verus!

verus! {

// ─── what routing needs from the upstreams ───

/// Whether routing a request needs the upstreams' model lists: only for a
/// request that names a model, when there is more than one upstream or a
/// fallback model is configured.
pub fn needs_model_lists(has_model: bool, upstream_count: usize, has_fallback: bool) -> (r: bool)
    ensures
        r == (has_model && (upstream_count > 1 || has_fallback)),
{
    has_model && (upstream_count > 1 || has_fallback)
}

/// When [`needs_model_lists`] says no, the selection does not depend on the
/// model lists at all, so they need not be fetched.
pub proof fn lemma_lists_unneeded(
    config: ConfigV,
    names: Seq<Option<Seq<char>>>,
    healthy: Seq<bool>,
    lists1: Seq<Option<Vec<String>>>,
    lists2: Seq<Option<Vec<String>>>,
    model: Option<Seq<char>>,
    counter: usize,
)
    requires
        !(model is Some && (names.len() > 1 || config.routing.fallback_model is Some)),
    ensures
        model_selection(config, names, healthy, lists1, model, counter) == model_selection(
            config,
            names,
            healthy,
            lists2,
            model,
            counter,
        ),
{
}

/// Whether a request header is passed on to the upstream: not the client's
/// `host` or `authorization` (the upstream gets its own credentials), nor,
/// for an Anthropic upstream, its `x-api-key`. Names are lower case, as
/// HTTP libraries give them.
pub fn forwarded_header(name: &str, anthropic: bool) -> (r: bool)
    ensures
        r == !(name@ == "host"@ || name@ == "authorization"@ || (anthropic && name@ == "x-api-key"@)),
{
    !(str_eq(name, "host") || str_eq(name, "authorization") || (anthropic && str_eq(name, "x-api-key")))
}

/// An upstream's model list after a refresh: the fresh list, else (when
/// the refresh failed) the last list kept, else the refresh's status.
pub fn model_list_after_refresh<T>(fetched: Result<T, u16>, stale: Option<T>) -> (r: Result<T, u16>)
    ensures
        fetched is Ok ==> r == fetched,
        fetched matches Err(s) ==> r == (match stale {
            Some(x) => Ok::<T, u16>(x),
            None => Err(s),
        }),
{
    match fetched {
        Ok(x) => Ok(x),
        Err(s) => match stale {
            Some(x) => Ok(x),
            None => Err(s),
        },
    }
}

} // verus!
