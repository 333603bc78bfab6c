//! Reading and writing the configuration file.
//!
//! The TOML syntax is read and written by the `toml` crate into and from a
//! [`Json`] tree (tables as objects); what the tree means as a [`Config`] —
//! which keys are read, their defaults, and the spellings each setting
//! accepts — is decided here.

use vstd::prelude::*;
use crate::config::{Config, ConfigV, HealthConfig, LoadBalanceStrategy, PerformanceConfig, RectifierConfig, RoutingConfig, RoutingConfigV, UpstreamApiFormat, UpstreamConfig, UpstreamConfigV, UpstreamProxyType, api_format_of, auth_header_of, load_balance_of, normalize_auth_header, pairs_view, parse_upstream_proxy, proxy_type_of, upstream_proxy_of, proxy_text, proxy_type_word, api_format_word, load_balance_word, UpstreamProxyConfigV as ProxyV, proxy_round_trips, lemma_proxy_round_trip, lemma_load_balance_round_trip, lemma_proxy_type_round_trip, lemma_api_format_round_trip};
use crate::json::{Json, JsonV, jentries, jget, jview, jviews, lemma_jentries, lemma_jviews, from_serde, key_lt, keys_sorted_deep, lemma_member_sorted, number_u64, obj_get};
use crate::text::{concat, decimal, is_digit, is_ws, lemma_decimal_digits, lemma_trim_unchanged, owned, trim_spec, u64_text};
use crate::types::opt_str;

verus! {

// ─── reading one field ───

/// A string member: absent (`Some(None)`), a string, or invalid (`None`).
pub open spec fn str_field(t: JsonV, key: Seq<char>) -> Option<Option<Seq<char>>> {
    match jget(t, key) {
        None => Some(None),
        Some(JsonV::Str(s)) => Some(Some(s)),
        Some(_) => None,
    }
}

/// A boolean member: absent, a boolean, or invalid.
pub open spec fn bool_field(t: JsonV, key: Seq<char>) -> Option<Option<bool>> {
    match jget(t, key) {
        None => Some(None),
        Some(JsonV::Bool(b)) => Some(Some(b)),
        Some(_) => None,
    }
}

/// An unsigned integer member no larger than `max`: absent, its value, or
/// invalid.
pub open spec fn nat_field(t: JsonV, key: Seq<char>, max: nat) -> Option<Option<nat>> {
    match jget(t, key) {
        None => Some(None),
        Some(JsonV::Number(n)) => match number_u64(n) {
            Some(x) => if x <= max {
                Some(Some(x))
            } else {
                None
            },
            None => None,
        },
        Some(_) => None,
    }
}

pub open spec fn as_u64_opt(o: Option<nat>) -> Option<u64> {
    match o {
        Some(n) => Some(n as u64),
        None => None,
    }
}

pub open spec fn as_usize_opt(o: Option<nat>) -> Option<usize> {
    match o {
        Some(n) => Some(n as usize),
        None => None,
    }
}

/// The error text for a member that cannot be read.
fn invalid_field(key: &str) -> (r: String)
    ensures
        r@ == "invalid value for `"@ + key@ + "`"@,
{
    let mut m = concat("invalid value for `", key);
    m.append("`");
    m
}

/// Reads a string member.
fn get_str_field(t: &Json, key: &str) -> (r: Result<Option<String>, String>)
    ensures
        r is Err <==> str_field(t@, key@) is None,
        r matches Ok(x) ==> str_field(t@, key@) == Some(opt_str(x)),
{
    match t.get(key) {
        None => Ok(None),
        Some(v) => match v {
            Json::Str(s) => Ok(Some(s.clone())),
            _ => Err(invalid_field(key)),
        },
    }
}

/// Reads a boolean member.
fn get_bool_field(t: &Json, key: &str) -> (r: Result<Option<bool>, String>)
    ensures
        r is Err <==> bool_field(t@, key@) is None,
        r matches Ok(x) ==> bool_field(t@, key@) == Some(x),
{
    match t.get(key) {
        None => Ok(None),
        Some(v) => match v {
            Json::Bool(b) => Ok(Some(*b)),
            _ => Err(invalid_field(key)),
        },
    }
}

/// Reads an unsigned integer member no larger than `max`.
fn get_nat_field(t: &Json, key: &str, max: u64) -> (r: Result<Option<u64>, String>)
    ensures
        r is Err <==> nat_field(t@, key@, max as nat) is None,
        r matches Ok(x) ==> nat_field(t@, key@, max as nat) == Some(
            match x {
                Some(n) => Some(n as nat),
                None => None,
            },
        ),
{
    match t.get(key) {
        None => Ok(None),
        Some(v) => match v {
            Json::Number(_) => match v.as_u64() {
                Some(n) => if n <= max {
                    Ok(Some(n))
                } else {
                    Err(invalid_field(key))
                },
                None => Err(invalid_field(key)),
            },
            _ => Err(invalid_field(key)),
        },
    }
}

// ─── sections ───

/// The `[performance]` table.
pub open spec fn performance_of(v: JsonV) -> Option<PerformanceConfig> {
    let a = nat_field(v, "upstream_max_concurrent_requests"@, usize::MAX as nat);
    let b = nat_field(v, "global_rpm"@, u64::MAX as nat);
    let c = nat_field(v, "global_tpm"@, u64::MAX as nat);
    if v is Object && a is Some && b is Some && c is Some {
        Some(PerformanceConfig {
            upstream_max_concurrent_requests: as_usize_opt(a->0),
            global_rpm: as_u64_opt(b->0),
            global_tpm: as_u64_opt(c->0),
        })
    } else {
        None
    }
}

fn read_performance(v: &Json) -> (r: Result<PerformanceConfig, String>)
    ensures
        r is Err <==> performance_of(v@) is None,
        r matches Ok(p) ==> performance_of(v@) == Some(p),
{
    if !v.is_object() {
        return Err(owned("performance must be a table"));
    }
    let a = match get_nat_field(v, "upstream_max_concurrent_requests", usize::MAX as u64) {
        Ok(x) => x,
        Err(e) => {
            return Err(e);
        },
    };
    let b = match get_nat_field(v, "global_rpm", u64::MAX) {
        Ok(x) => x,
        Err(e) => {
            return Err(e);
        },
    };
    let c = match get_nat_field(v, "global_tpm", u64::MAX) {
        Ok(x) => x,
        Err(e) => {
            return Err(e);
        },
    };
    let a2: Option<usize> = match a {
        Some(n) => Some(n as usize),
        None => None,
    };
    Ok(PerformanceConfig { upstream_max_concurrent_requests: a2, global_rpm: b, global_tpm: c })
}

/// The `[health]` table.
pub open spec fn health_of(v: JsonV) -> Option<HealthConfig> {
    let e = bool_field(v, "enabled"@);
    let i = nat_field(v, "interval_millis"@, u64::MAX as nat);
    let u = nat_field(v, "unhealthy_after_failures"@, u64::MAX as nat);
    if v is Object && e is Some && i is Some && u is Some {
        Some(HealthConfig {
            enabled: match e->0 {
                Some(b) => b,
                None => false,
            },
            interval_millis: match i->0 {
                Some(n) => n as u64,
                None => 30_000,
            },
            unhealthy_after_failures: match u->0 {
                Some(n) => n as u64,
                None => 3,
            },
        })
    } else {
        None
    }
}

fn read_health(v: &Json) -> (r: Result<HealthConfig, String>)
    ensures
        r is Err <==> health_of(v@) is None,
        r matches Ok(h) ==> health_of(v@) == Some(h),
{
    if !v.is_object() {
        return Err(owned("health must be a table"));
    }
    let e = match get_bool_field(v, "enabled") {
        Ok(x) => x,
        Err(e) => {
            return Err(e);
        },
    };
    let i = match get_nat_field(v, "interval_millis", u64::MAX) {
        Ok(x) => x,
        Err(e) => {
            return Err(e);
        },
    };
    let u = match get_nat_field(v, "unhealthy_after_failures", u64::MAX) {
        Ok(x) => x,
        Err(e) => {
            return Err(e);
        },
    };
    Ok(HealthConfig {
        enabled: match e {
            Some(b) => b,
            None => false,
        },
        interval_millis: match i {
            Some(n) => n,
            None => 30_000,
        },
        unhealthy_after_failures: match u {
            Some(n) => n,
            None => 3,
        },
    })
}

/// The `[rectifier]` table.
pub open spec fn rectifier_of(v: JsonV) -> Option<RectifierConfig> {
    let e = bool_field(v, "enabled"@);
    let s = bool_field(v, "thinking_signature"@);
    let b = bool_field(v, "thinking_budget"@);
    if v is Object && e is Some && s is Some && b is Some {
        Some(RectifierConfig {
            enabled: match e->0 {
                Some(x) => x,
                None => true,
            },
            thinking_signature: match s->0 {
                Some(x) => x,
                None => true,
            },
            thinking_budget: match b->0 {
                Some(x) => x,
                None => true,
            },
        })
    } else {
        None
    }
}

fn read_rectifier(v: &Json) -> (r: Result<RectifierConfig, String>)
    ensures
        r is Err <==> rectifier_of(v@) is None,
        r matches Ok(x) ==> rectifier_of(v@) == Some(x),
{
    if !v.is_object() {
        return Err(owned("rectifier must be a table"));
    }
    let e = match get_bool_field(v, "enabled") {
        Ok(x) => x,
        Err(e) => {
            return Err(e);
        },
    };
    let s = match get_bool_field(v, "thinking_signature") {
        Ok(x) => x,
        Err(e) => {
            return Err(e);
        },
    };
    let b = match get_bool_field(v, "thinking_budget") {
        Ok(x) => x,
        Err(e) => {
            return Err(e);
        },
    };
    Ok(RectifierConfig {
        enabled: match e {
            Some(x) => x,
            None => true,
        },
        thinking_signature: match s {
            Some(x) => x,
            None => true,
        },
        thinking_budget: match b {
            Some(x) => x,
            None => true,
        },
    })
}

/// The `[routing.model_aliases]` table: every value must be a string.
pub open spec fn model_aliases_of(v: JsonV) -> Option<Seq<(Seq<char>, Seq<char>)>> {
    match v {
        JsonV::Object(es) => if forall|i: int| 0 <= i < es.len() ==> (#[trigger] es[i]).1 is Str {
            Some(es.map_values(|e: (Seq<char>, JsonV)| (e.0, e.1->Str_0)))
        } else {
            None
        },
        _ => None,
    }
}

fn read_model_aliases(v: &Json) -> (r: Result<Vec<(String, String)>, String>)
    ensures
        r is Err <==> model_aliases_of(v@) is None,
        r matches Ok(x) ==> model_aliases_of(v@) == Some(pairs_view(x@)),
{
    match v {
        Json::Object(es) => {
            proof {
                lemma_jentries(es@);
            }
            let ghost ev = jentries(es@);
            assert(v@ == JsonV::Object(ev));
            let mut out: Vec<(String, String)> = Vec::new();
            let mut i: usize = 0;
            while i < es.len()
                invariant
                    i <= es@.len(),
                    ev == jentries(es@),
                    v@ == JsonV::Object(ev),
                    ev.len() == es@.len(),
                    forall|j: int| 0 <= j < es@.len() ==> #[trigger] ev[j] == (es@[j].0@, jview(es@[j].1)),
                    forall|j: int| 0 <= j < i ==> (#[trigger] ev[j]).1 is Str,
                    pairs_view(out@) == ev.take(i as int).map_values(|e: (Seq<char>, JsonV)| (e.0, e.1->Str_0)),
                decreases es.len() - i,
            {
                let (k, x) = &es[i];
                assert(ev[i as int] == (k@, x@));
                match x {
                    Json::Str(t) => {
                        let ghost before = out@;
                        out.push((k.clone(), t.clone()));
                        assert(pairs_view(out@) =~= pairs_view(before).push((k@, t@)));
                        assert(ev.take(i + 1) =~= ev.take(i as int).push(ev[i as int]));
                        assert(ev.take(i + 1).map_values(|e: (Seq<char>, JsonV)| (e.0, e.1->Str_0))
                            =~= ev.take(i as int).map_values(|e: (Seq<char>, JsonV)| (e.0, e.1->Str_0)).push((k@, t@)));
                    },
                    _ => {
                        assert(!(ev[i as int].1 is Str));
                        assert(v@ == JsonV::Object(ev));
                        assert(!(forall|j: int| 0 <= j < ev.len() ==> (#[trigger] ev[j]).1 is Str));
                        return Err(owned("model_aliases values must be strings"));
                    },
                }
                i = i + 1;
            }
            assert(ev.take(ev.len() as int) =~= ev);
            Ok(out)
        },
        _ => Err(owned("model_aliases must be a table")),
    }
}

/// The `[routing]` table.
pub open spec fn routing_of(v: JsonV) -> Option<RoutingConfigV> {
    let lb = str_field(v, "load_balance"@);
    let af = bool_field(v, "automatic_failover"@);
    let fm = str_field(v, "fallback_model"@);
    let ex = bool_field(v, "expose_model_aliases"@);
    let lb2 = match lb {
        Some(Some(w)) => load_balance_of(w),
        Some(None) => Some(LoadBalanceStrategy::First),
        None => None,
    };
    let ma = match jget(v, "model_aliases"@) {
        None => Some(Seq::empty()),
        Some(m) => model_aliases_of(m),
    };
    if v is Object && lb2 is Some && af is Some && fm is Some && ex is Some && ma is Some {
        Some(RoutingConfigV {
            load_balance: lb2->0,
            automatic_failover: match af->0 {
                Some(b) => b,
                None => false,
            },
            fallback_model: fm->0,
            expose_model_aliases: match ex->0 {
                Some(b) => b,
                None => false,
            },
            model_aliases: ma->0,
        })
    } else {
        None
    }
}

fn read_routing(v: &Json) -> (r: Result<RoutingConfig, String>)
    ensures
        r is Err <==> routing_of(v@) is None,
        r matches Ok(x) ==> routing_of(v@) == Some(x@),
{
    if !v.is_object() {
        return Err(owned("routing must be a table"));
    }
    let lb = match get_str_field(v, "load_balance") {
        Ok(x) => x,
        Err(e) => {
            return Err(e);
        },
    };
    let load_balance = match lb {
        Some(w) => match LoadBalanceStrategy::from_config_str(w.as_str()) {
            Ok(x) => x,
            Err(e) => {
                return Err(e);
            },
        },
        None => LoadBalanceStrategy::First,
    };
    let af = match get_bool_field(v, "automatic_failover") {
        Ok(x) => x,
        Err(e) => {
            return Err(e);
        },
    };
    let fallback_model = match get_str_field(v, "fallback_model") {
        Ok(x) => x,
        Err(e) => {
            return Err(e);
        },
    };
    let ex = match get_bool_field(v, "expose_model_aliases") {
        Ok(x) => x,
        Err(e) => {
            return Err(e);
        },
    };
    let model_aliases = match v.get("model_aliases") {
        None => Vec::new(),
        Some(m) => match read_model_aliases(m) {
            Ok(x) => x,
            Err(e) => {
                return Err(e);
            },
        },
    };
    let r = RoutingConfig {
        load_balance,
        automatic_failover: match af {
            Some(b) => b,
            None => false,
        },
        fallback_model,
        expose_model_aliases: match ex {
            Some(b) => b,
            None => false,
        },
        model_aliases,
    };
    proof {
        if jget(v@, "model_aliases"@) is None {
            assert(pairs_view(r.model_aliases@) =~= Seq::empty());
        }
    }
    Ok(r)
}

/// An `[upstream]` table (or one entry of `[[upstreams]]`); `url` is
/// required.
pub open spec fn upstream_of(v: JsonV) -> Option<UpstreamConfigV> {
    let name = str_field(v, "name"@);
    let url = str_field(v, "url"@);
    let key = str_field(v, "api_key"@);
    let auth = str_field(v, "auth_header"@);
    let proxy = str_field(v, "proxy"@);
    let pt = str_field(v, "proxy_type"@);
    let af = str_field(v, "api_format"@);
    let mc = nat_field(v, "max_concurrent_requests"@, usize::MAX as nat);
    let rpm = nat_field(v, "rpm"@, u64::MAX as nat);
    let tpm = nat_field(v, "tpm"@, u64::MAX as nat);
    let proxy2 = match proxy {
        Some(p) => match upstream_proxy_of(p) {
            Ok(x) => Some(x),
            Err(_) => None,
        },
        None => None,
    };
    let pt2 = match pt {
        Some(Some(w)) => proxy_type_of(w),
        Some(None) => Some(UpstreamProxyType::Http),
        None => None,
    };
    let af2 = match af {
        Some(Some(w)) => api_format_of(w),
        Some(None) => Some(UpstreamApiFormat::ChatCompletions),
        None => None,
    };
    if v is Object && name is Some && (url matches Some(Some(_))) && key is Some && auth is Some
        && proxy2 is Some && pt2 is Some && af2 is Some && mc is Some && rpm is Some && tpm is Some {
        Some(UpstreamConfigV {
            name: name->0,
            url: url->0->0,
            api_key: match key->0 {
                Some(k) => k,
                None => Seq::empty(),
            },
            auth_header: auth_header_of(auth->0),
            proxy: proxy2->0,
            proxy_type: pt2->0,
            api_format: af2->0,
            max_concurrent_requests: as_usize_opt(mc->0),
            rpm: as_u64_opt(rpm->0),
            tpm: as_u64_opt(tpm->0),
        })
    } else {
        None
    }
}

fn read_upstream(v: &Json) -> (r: Result<UpstreamConfig, String>)
    ensures
        r is Err <==> upstream_of(v@) is None,
        r matches Ok(x) ==> upstream_of(v@) == Some(x@),
{
    if !v.is_object() {
        return Err(owned("upstream must be a table"));
    }
    let name = match get_str_field(v, "name") {
        Ok(x) => x,
        Err(e) => {
            return Err(e);
        },
    };
    let url = match get_str_field(v, "url") {
        Ok(Some(x)) => x,
        Ok(None) => {
            return Err(owned("missing field `url`"));
        },
        Err(e) => {
            return Err(e);
        },
    };
    let api_key = match get_str_field(v, "api_key") {
        Ok(Some(x)) => x,
        Ok(None) => String::new(),
        Err(e) => {
            return Err(e);
        },
    };
    let auth = match get_str_field(v, "auth_header") {
        Ok(x) => x,
        Err(e) => {
            return Err(e);
        },
    };
    let proxy_text = match get_str_field(v, "proxy") {
        Ok(x) => x,
        Err(e) => {
            return Err(e);
        },
    };
    let proxy = match &proxy_text {
        Some(p) => parse_upstream_proxy(Some(p.as_str())),
        None => parse_upstream_proxy(None),
    };
    let proxy = match proxy {
        Ok(x) => x,
        Err(e) => {
            return Err(e);
        },
    };
    let proxy_type = match get_str_field(v, "proxy_type") {
        Ok(Some(w)) => match UpstreamProxyType::from_config_str(w.as_str()) {
            Ok(x) => x,
            Err(e) => {
                return Err(e);
            },
        },
        Ok(None) => UpstreamProxyType::Http,
        Err(e) => {
            return Err(e);
        },
    };
    let api_format = match get_str_field(v, "api_format") {
        Ok(Some(w)) => match UpstreamApiFormat::from_config_str(w.as_str()) {
            Ok(x) => x,
            Err(e) => {
                return Err(e);
            },
        },
        Ok(None) => UpstreamApiFormat::ChatCompletions,
        Err(e) => {
            return Err(e);
        },
    };
    let mc = match get_nat_field(v, "max_concurrent_requests", usize::MAX as u64) {
        Ok(x) => x,
        Err(e) => {
            return Err(e);
        },
    };
    let rpm = match get_nat_field(v, "rpm", u64::MAX) {
        Ok(x) => x,
        Err(e) => {
            return Err(e);
        },
    };
    let tpm = match get_nat_field(v, "tpm", u64::MAX) {
        Ok(x) => x,
        Err(e) => {
            return Err(e);
        },
    };
    let max_concurrent_requests: Option<usize> = match mc {
        Some(n) => Some(n as usize),
        None => None,
    };
    Ok(UpstreamConfig {
        name,
        url,
        api_key,
        auth_header: normalize_auth_header(auth),
        proxy,
        proxy_type,
        api_format,
        max_concurrent_requests,
        rpm,
        tpm,
    })
}

/// The `[[upstreams]]` array: every entry must be an upstream table.
pub open spec fn upstreams_of(v: JsonV) -> Option<Seq<UpstreamConfigV>> {
    match v {
        JsonV::Array(a) => if forall|i: int| 0 <= i < a.len() ==> upstream_of(#[trigger] a[i]) is Some {
            Some(a.map_values(|x: JsonV| upstream_of(x)->0))
        } else {
            None
        },
        _ => None,
    }
}

fn read_upstreams(v: &Json) -> (r: Result<Vec<UpstreamConfig>, String>)
    ensures
        r is Err <==> upstreams_of(v@) is None,
        r matches Ok(x) ==> upstreams_of(v@) == Some(x@.map_values(|u: UpstreamConfig| u@)),
{
    match v {
        Json::Array(a) => {
            proof {
                lemma_jviews(a@);
            }
            let ghost av = jviews(a@);
            assert(v@ == JsonV::Array(av));
            let mut out: Vec<UpstreamConfig> = Vec::new();
            let mut i: usize = 0;
            while i < a.len()
                invariant
                    i <= a@.len(),
                    av == jviews(a@),
                    v@ == JsonV::Array(av),
                    av.len() == a@.len(),
                    forall|j: int| 0 <= j < a@.len() ==> #[trigger] av[j] == jview(a@[j]),
                    forall|j: int| 0 <= j < i ==> upstream_of(#[trigger] av[j]) is Some,
                    out@.map_values(|u: UpstreamConfig| u@) == av.take(i as int).map_values(
                        |x: JsonV| upstream_of(x)->0,
                    ),
                decreases a.len() - i,
            {
                assert(av[i as int] == a@[i as int]@);
                match read_upstream(&a[i]) {
                    Ok(u) => {
                        let ghost before = out@;
                        out.push(u);
                        assert(out@.map_values(|u: UpstreamConfig| u@) =~= before.map_values(
                            |u: UpstreamConfig| u@,
                        ).push(u@));
                        assert(av.take(i + 1) =~= av.take(i as int).push(av[i as int]));
                        assert(av.take(i + 1).map_values(|x: JsonV| upstream_of(x)->0) =~= av.take(
                            i as int,
                        ).map_values(|x: JsonV| upstream_of(x)->0).push(upstream_of(av[i as int])->0));
                    },
                    Err(e) => {
                        assert(!(forall|j: int| 0 <= j < av.len() ==> upstream_of(#[trigger] av[j]) is Some));
                        return Err(e);
                    },
                }
                i = i + 1;
            }
            assert(av.take(av.len() as int) =~= av);
            Ok(out)
        },
        _ => Err(owned("upstreams must be an array of tables")),
    }
}

pub open spec fn default_performance() -> PerformanceConfig {
    PerformanceConfig { upstream_max_concurrent_requests: None, global_rpm: None, global_tpm: None }
}

pub open spec fn default_routing() -> RoutingConfigV {
    RoutingConfigV {
        load_balance: LoadBalanceStrategy::First,
        automatic_failover: false,
        fallback_model: None,
        expose_model_aliases: false,
        model_aliases: Seq::empty(),
    }
}

pub open spec fn default_health() -> HealthConfig {
    HealthConfig { enabled: false, interval_millis: 30_000, unhealthy_after_failures: 3 }
}

pub open spec fn default_rectifier() -> RectifierConfig {
    RectifierConfig { enabled: true, thinking_signature: true, thinking_budget: true }
}

/// What a configuration tree means, or `None` when it is not a valid
/// configuration. Missing keys take their defaults (port 8080, no auth key,
/// no limits, first-upstream routing, health checks off every 30 s after 3
/// failures, all rectifiers on, no upstreams); unknown keys are ignored.
pub open spec fn config_of(t: JsonV) -> Option<ConfigV> {
    let port = nat_field(t, "port"@, 0xffff);
    let auth_key = str_field(t, "auth_key"@);
    let performance = match jget(t, "performance"@) {
        None => Some(default_performance()),
        Some(v) => performance_of(v),
    };
    let routing = match jget(t, "routing"@) {
        None => Some(default_routing()),
        Some(v) => routing_of(v),
    };
    let health = match jget(t, "health"@) {
        None => Some(default_health()),
        Some(v) => health_of(v),
    };
    let rectifier = match jget(t, "rectifier"@) {
        None => Some(default_rectifier()),
        Some(v) => rectifier_of(v),
    };
    let upstream = match jget(t, "upstream"@) {
        None => Some(None),
        Some(v) => match upstream_of(v) {
            Some(u) => Some(Some(u)),
            None => None,
        },
    };
    let upstreams = match jget(t, "upstreams"@) {
        None => Some(Seq::empty()),
        Some(v) => upstreams_of(v),
    };
    if t is Object && port is Some && auth_key is Some && performance is Some && routing is Some
        && health is Some && rectifier is Some && upstream is Some && upstreams is Some {
        Some(ConfigV {
            port: match port->0 {
                Some(n) => n as u16,
                None => 8080,
            },
            auth_key: auth_key->0,
            performance: performance->0,
            routing: routing->0,
            health: health->0,
            rectifier: rectifier->0,
            upstream: upstream->0,
            upstreams: upstreams->0,
        })
    } else {
        None
    }
}

/// Alias names in strictly increasing order, each once: the order and
/// uniqueness of the `BTreeMap` the aliases come from.
pub open spec fn aliases_sorted(a: Seq<(Seq<char>, Seq<char>)>) -> bool {
    forall|i: int, j: int| 0 <= i < j < a.len() ==> key_lt(#[trigger] a[i].0, #[trigger] a[j].0)
}

/// A configuration read from a tree whose tables keep their keys sorted
/// (as the TOML reader gives them) has its aliases sorted, each name once.
pub proof fn lemma_config_aliases_sorted(t: JsonV)
    requires
        keys_sorted_deep(t),
        config_of(t) is Some,
    ensures
        aliases_sorted(config_of(t)->0.routing.model_aliases),
{
    lemma_member_sorted(t, "routing"@);
    match jget(t, "routing"@) {
        Some(v) => {
            lemma_member_sorted(v, "model_aliases"@);
            match jget(v, "model_aliases"@) {
                Some(m) => {
                    let a = config_of(t)->0.routing.model_aliases;
                    match m {
                        JsonV::Object(es) => {
                            assert(a == es.map_values(|e: (Seq<char>, JsonV)| (e.0, e.1->Str_0)));
                            assert forall|i: int, j: int| 0 <= i < j < a.len() implies key_lt(
                                #[trigger] a[i].0,
                                #[trigger] a[j].0,
                            ) by {
                                assert(a[i].0 == es[i].0 && a[j].0 == es[j].0);
                            }
                        },
                        _ => {},
                    }
                },
                None => {},
            }
        },
        None => {},
    }
}

/// With sorted alias names, looking a name up finds its one entry, as a
/// map lookup does.
pub proof fn lemma_alias_lookup(a: Seq<(Seq<char>, Seq<char>)>, i: int)
    requires
        aliases_sorted(a),
        0 <= i < a.len(),
    ensures
        crate::upstream::alias_target(a, a[i].0) == a[i].1,
    decreases i,
{
    if i > 0 {
        assert(key_lt(a[0].0, a[i].0));
        crate::json::lemma_key_lt_irreflexive(a[i].0);
        let t = a.drop_first();
        assert(t[i - 1] == a[i]);
        assert(aliases_sorted(t)) by {
            assert forall|x: int, y: int| 0 <= x < y < t.len() implies key_lt(#[trigger] t[x].0, #[trigger] t[y].0) by {
                assert(t[x] == a[x + 1] && t[y] == a[y + 1]);
            }
        }
        lemma_alias_lookup(t, i - 1);
    }
}

impl Config {
    /// The configuration a tree describes (see [`config_of`]).
    pub fn from_tree(t: &Json) -> (r: Result<Config, String>)
        ensures
            r is Err <==> config_of(t@) is None,
            r matches Ok(c) ==> config_of(t@) == Some(c@),
    {
        if !t.is_object() {
            return Err(owned("config must be a table"));
        }
        let port = match get_nat_field(t, "port", 0xffff) {
            Ok(Some(n)) => n as u16,
            Ok(None) => 8080,
            Err(e) => {
                return Err(e);
            },
        };
        let auth_key = match get_str_field(t, "auth_key") {
            Ok(x) => x,
            Err(e) => {
                return Err(e);
            },
        };
        let performance = match t.get("performance") {
            None => PerformanceConfig { upstream_max_concurrent_requests: None, global_rpm: None, global_tpm: None },
            Some(v) => match read_performance(v) {
                Ok(x) => x,
                Err(e) => {
                    return Err(e);
                },
            },
        };
        let routing = match t.get("routing") {
            None => RoutingConfig::default(),
            Some(v) => match read_routing(v) {
                Ok(x) => x,
                Err(e) => {
                    return Err(e);
                },
            },
        };
        let health = match t.get("health") {
            None => HealthConfig::default(),
            Some(v) => match read_health(v) {
                Ok(x) => x,
                Err(e) => {
                    return Err(e);
                },
            },
        };
        let rectifier = match t.get("rectifier") {
            None => RectifierConfig::default(),
            Some(v) => match read_rectifier(v) {
                Ok(x) => x,
                Err(e) => {
                    return Err(e);
                },
            },
        };
        let upstream = match t.get("upstream") {
            None => None,
            Some(v) => match read_upstream(v) {
                Ok(x) => Some(x),
                Err(e) => {
                    return Err(e);
                },
            },
        };
        let upstreams = match t.get("upstreams") {
            None => Vec::new(),
            Some(v) => match read_upstreams(v) {
                Ok(x) => x,
                Err(e) => {
                    return Err(e);
                },
            },
        };
        let c = Config { port, auth_key, performance, routing, health, rectifier, upstream, upstreams };
        proof {
            if jget(t@, "upstreams"@) is None {
                assert(c.upstreams@.map_values(|u: UpstreamConfig| u@) =~= Seq::empty());
            }
        }
        Ok(c)
    }
}

// ─── the TOML text ───

/// The tree the `toml` crate reads from a document (`str::parse::<toml::Table>`),
/// or `None` when the text is not valid TOML.
pub uninterp spec fn toml_parse(t: Seq<char>) -> Option<JsonV>;

/// The document `toml::to_string_pretty` writes for a tree, or `None` when
/// the tree has no TOML form.
pub uninterp spec fn toml_text(v: JsonV) -> Option<Seq<char>>;

/// The `toml` crate's value, carried through opaquely.
#[verifier::external_type_specification]
#[verifier::external_body]
pub struct ExTomlValue(toml::Value);

/// Converts a TOML value into a tree, one node for one node: integers by
/// their text; floats and date-times as `serde_json` represents them (a
/// float's text always has a fraction or an exponent, a non-finite float is
/// null, and a date-time is the one-member object the `toml` crate
/// serializes it to), so that neither reads as an integer or a string.
#[verifier::external_body]
fn from_toml(v: toml::Value) -> Json {
    match v {
        toml::Value::String(s) => Json::Str(s),
        toml::Value::Integer(i) => Json::Number(i.to_string()),
        toml::Value::Float(x) => from_serde(serde_json::Value::from(x)),
        toml::Value::Boolean(b) => Json::Bool(b),
        toml::Value::Datetime(d) => from_serde(serde_json::to_value(&d).unwrap_or(serde_json::Value::Null)),
        toml::Value::Array(a) => Json::Array(a.into_iter().map(from_toml).collect()),
        toml::Value::Table(t) => Json::Object(t.into_iter().map(|(k, x)| (k, from_toml(x))).collect()),
    }
}

/// Converts a tree into a TOML value, one node for one node; `None` for a
/// null or for a number that is not an `i64`.
#[verifier::external_body]
fn to_toml(v: &Json) -> Option<toml::Value> {
    match v {
        Json::Null => None,
        Json::Bool(b) => Some(toml::Value::Boolean(*b)),
        Json::Number(t) => t.parse::<i64>().ok().map(toml::Value::Integer),
        Json::Str(s) => Some(toml::Value::String(s.clone())),
        Json::Array(a) => a.iter().map(to_toml).collect::<Option<Vec<_>>>().map(toml::Value::Array),
        Json::Object(es) => es.iter().map(|(k, x)| to_toml(x).map(|y| (k.clone(), y))).collect::<Option<toml::Table>>().map(toml::Value::Table),
    }
}

/// Parses a TOML document into a tree.
///
/// Trusted: calls `str::parse::<toml::Table>` (the `toml` crate); the
/// contract names its result, and states that a document is a table and
/// that every table in it lists its keys in strictly increasing order: the
/// crate's tables are `BTreeMap`s (its `preserve_order` feature is off) and
/// are converted entry by entry in their order. The error text is `toml`'s
/// and is not stated.
#[verifier::external_body]
pub(crate) fn parse_toml_text(t: &str) -> (r: Result<Json, String>)
    ensures
        r matches Ok(j) ==> toml_parse(t@) == Some(j@) && j@ is Object && keys_sorted_deep(j@),
        r is Err ==> toml_parse(t@) is None,
{
    match t.parse::<toml::Table>() {
        Ok(table) => Ok(from_toml(toml::Value::Table(table))),
        Err(e) => Err(e.to_string()),
    }
}

/// Writes a tree as a pretty-printed TOML document.
///
/// Trusted: calls `toml::to_string_pretty` on the tree's TOML form; the
/// contract names its result. The error text is not stated.
#[verifier::external_body]
pub(crate) fn render_toml(v: &Json) -> (r: Result<String, String>)
    ensures
        r matches Ok(s) ==> toml_text(v@) == Some(s@),
        r is Err ==> toml_text(v@) is None,
{
    match to_toml(v) {
        Some(toml::Value::Table(t)) => toml::to_string_pretty(&t).map_err(|e| e.to_string()),
        _ => Err(String::from("configuration has no TOML form")),
    }
}

/// What a TOML document means as a configuration.
pub open spec fn config_of_text(t: Seq<char>) -> Option<ConfigV> {
    match toml_parse(t) {
        Some(tree) => config_of(tree),
        None => None,
    }
}

impl Config {
    /// Parses a TOML document into a configuration.
    pub fn from_toml_str(content: &str) -> (r: Result<Config, String>)
        ensures
            r is Err <==> config_of_text(content@) is None,
            r matches Ok(c) ==> config_of_text(content@) == Some(c@),
            r matches Ok(c) ==> aliases_sorted(c@.routing.model_aliases),
    {
        match parse_toml_text(content) {
            Ok(tree) => {
                let r = Config::from_tree(&tree);
                proof {
                    if r is Ok {
                        lemma_config_aliases_sorted(tree@);
                    }
                }
                r
            },
            Err(e) => Err(e),
        }
    }

    /// The configuration of a file that was read and holds a valid
    /// configuration; a file that cannot be read or parsed is left out
    /// (see [`Config::load_path`] for the error it gives).
    pub fn load(_path: &str, content: Result<String, String>) -> (r: Config)
        requires
            content is Ok,
            config_of_text(content->Ok_0@) is Some,
        ensures
            config_of_text(content->Ok_0@) == Some(r@),
            aliases_sorted(r@.routing.model_aliases),
    {
        let text = content.unwrap();
        Config::from_toml_str(text.as_str()).unwrap()
    }

    /// The configuration read from a file, given what reading the file at
    /// `path` gave: the read error, or the file's text.
    pub fn load_path(path: &str, content: Result<String, String>) -> (r: Result<Config, String>)
        ensures
            r is Ok <==> (content matches Ok(t) && config_of_text(t@) is Some),
            r matches Ok(c) ==> config_of_text(content->Ok_0@) == Some(c@),
            r matches Ok(c) ==> aliases_sorted(c@.routing.model_aliases),
            r matches Err(m) ==> (content matches Err(e) ==> m@ == "failed to read config file "@
                + path@ + ": "@ + e@),
            r matches Err(m) ==> (content is Ok ==> m@.take(("failed to parse config file "@
                + path@ + ": "@).len() as int) == "failed to parse config file "@ + path@ + ": "@),
    {
        match content {
            Err(e) => {
                let mut m = concat("failed to read config file ", path);
                m.append(": ");
                m.append(e.as_str());
                Err(m)
            },
            Ok(text) => match Config::from_toml_str(text.as_str()) {
                Ok(_) => Ok(Config::load(path, Ok(text))),
                Err(e) => {
                    let mut m = concat("failed to parse config file ", path);
                    m.append(": ");
                    let ghost prefix = m@;
                    m.append(e.as_str());
                    assert(m@.take(prefix.len() as int) =~= prefix);
                    Err(m)
                },
            },
        }
    }
}

// ─── writing a configuration ───

/// One entry.
pub open spec fn entry(k: Seq<char>, v: JsonV) -> Seq<(Seq<char>, JsonV)> {
    seq![(k, v)]
}

/// An entry that is written only when it has a value.
pub open spec fn opt_entry(k: Seq<char>, v: Option<JsonV>) -> Seq<(Seq<char>, JsonV)> {
    match v {
        Some(x) => seq![(k, x)],
        None => Seq::empty(),
    }
}

/// A number member.
pub open spec fn num(n: nat) -> JsonV {
    JsonV::Number(decimal(n))
}

pub open spec fn opt_num(o: Option<nat>) -> Option<JsonV> {
    match o {
        Some(n) => Some(num(n)),
        None => None,
    }
}

pub open spec fn u64_nat(o: Option<u64>) -> Option<nat> {
    match o {
        Some(n) => Some(n as nat),
        None => None,
    }
}

pub open spec fn usize_nat(o: Option<usize>) -> Option<nat> {
    match o {
        Some(n) => Some(n as nat),
        None => None,
    }
}

pub open spec fn opt_text(o: Option<Seq<char>>) -> Option<JsonV> {
    match o {
        Some(s) => Some(JsonV::Str(s)),
        None => None,
    }
}

/// The tree written for an upstream.
pub open spec fn upstream_tree(u: UpstreamConfigV) -> JsonV {
    JsonV::Object(
        opt_entry("name"@, opt_text(u.name)) + entry("url"@, JsonV::Str(u.url)) + entry(
            "api_key"@,
            JsonV::Str(u.api_key),
        ) + entry("auth_header"@, JsonV::Str(u.auth_header)) + opt_entry(
            "proxy"@,
            match u.proxy {
                Some(p) => Some(JsonV::Str(proxy_text(p))),
                None => None,
            },
        ) + entry("proxy_type"@, JsonV::Str(proxy_type_word(u.proxy_type))) + entry(
            "api_format"@,
            JsonV::Str(api_format_word(u.api_format)),
        ) + opt_entry("max_concurrent_requests"@, opt_num(usize_nat(u.max_concurrent_requests)))
            + opt_entry("rpm"@, opt_num(u64_nat(u.rpm))) + opt_entry("tpm"@, opt_num(u64_nat(u.tpm))),
    )
}

/// The tree written for the `[performance]` table.
pub open spec fn performance_tree(p: PerformanceConfig) -> JsonV {
    JsonV::Object(
        opt_entry(
            "upstream_max_concurrent_requests"@,
            opt_num(usize_nat(p.upstream_max_concurrent_requests)),
        ) + opt_entry("global_rpm"@, opt_num(u64_nat(p.global_rpm))) + opt_entry(
            "global_tpm"@,
            opt_num(u64_nat(p.global_tpm)),
        ),
    )
}

/// The tree written for the model aliases.
pub open spec fn aliases_tree(a: Seq<(Seq<char>, Seq<char>)>) -> JsonV {
    JsonV::Object(a.map_values(|e: (Seq<char>, Seq<char>)| (e.0, JsonV::Str(e.1))))
}

/// The tree written for the `[routing]` table.
pub open spec fn routing_tree(r: RoutingConfigV) -> JsonV {
    JsonV::Object(
        entry("load_balance"@, JsonV::Str(load_balance_word(r.load_balance))) + entry(
            "automatic_failover"@,
            JsonV::Bool(r.automatic_failover),
        ) + opt_entry("fallback_model"@, opt_text(r.fallback_model)) + entry(
            "expose_model_aliases"@,
            JsonV::Bool(r.expose_model_aliases),
        ) + entry("model_aliases"@, aliases_tree(r.model_aliases)),
    )
}

/// The tree written for the `[health]` table.
pub open spec fn health_tree(h: HealthConfig) -> JsonV {
    JsonV::Object(
        entry("enabled"@, JsonV::Bool(h.enabled)) + entry("interval_millis"@, num(h.interval_millis as nat))
            + entry("unhealthy_after_failures"@, num(h.unhealthy_after_failures as nat)),
    )
}

/// The tree written for the `[rectifier]` table.
pub open spec fn rectifier_tree(r: RectifierConfig) -> JsonV {
    JsonV::Object(
        entry("enabled"@, JsonV::Bool(r.enabled)) + entry(
            "thinking_signature"@,
            JsonV::Bool(r.thinking_signature),
        ) + entry("thinking_budget"@, JsonV::Bool(r.thinking_budget)),
    )
}

/// The tree written for a configuration: every setting in declaration
/// order, absent optional settings left out.
pub open spec fn config_tree(c: ConfigV) -> JsonV {
    JsonV::Object(
        entry("port"@, num(c.port as nat)) + opt_entry("auth_key"@, opt_text(c.auth_key)) + entry(
            "performance"@,
            performance_tree(c.performance),
        ) + entry("routing"@, routing_tree(c.routing)) + entry("health"@, health_tree(c.health))
            + entry("rectifier"@, rectifier_tree(c.rectifier)) + opt_entry(
            "upstream"@,
            match c.upstream {
                Some(u) => Some(upstream_tree(u)),
                None => None,
            },
        ) + entry(
            "upstreams"@,
            JsonV::Array(c.upstreams.map_values(|u: UpstreamConfigV| upstream_tree(u))),
        ),
    )
}

/// Appends an entry to an object's entry list.
fn push_entry(es: &mut Vec<(String, Json)>, key: &str, v: Json)
    ensures
        jentries(final(es)@) == jentries(old(es)@) + entry(key@, v@),
{
    let ghost before = es@;
    es.push((owned(key), v));
    proof {
        lemma_jentries(before);
        lemma_jentries(es@);
        assert(jentries(es@) =~= jentries(before) + entry(key@, v@));
    }
}

/// Appends an entry when it has a value.
fn push_opt_entry(es: &mut Vec<(String, Json)>, key: &str, v: Option<Json>)
    ensures
        jentries(final(es)@) == jentries(old(es)@) + opt_entry(
            key@,
            match v {
                Some(x) => Some(x@),
                None => None,
            },
        ),
{
    match v {
        Some(x) => push_entry(es, key, x),
        None => {
            assert(jentries(es@) + Seq::<(Seq<char>, JsonV)>::empty() =~= jentries(es@));
        },
    }
}

fn number_of(n: u64) -> (r: Json)
    ensures
        r@ == num(n as nat),
{
    Json::Number(u64_text(n))
}

fn opt_number_u64(o: Option<u64>) -> (r: Option<Json>)
    ensures
        match r {
            Some(x) => Some(x@),
            None => None,
        } == opt_num(u64_nat(o)),
{
    match o {
        Some(n) => Some(number_of(n)),
        None => None,
    }
}

fn opt_number_usize(o: Option<usize>) -> (r: Option<Json>)
    ensures
        match r {
            Some(x) => Some(x@),
            None => None,
        } == opt_num(usize_nat(o)),
{
    match o {
        Some(n) => Some(number_of(n as u64)),
        None => None,
    }
}

fn opt_string(o: &Option<String>) -> (r: Option<Json>)
    ensures
        match r {
            Some(x) => Some(x@),
            None => None,
        } == opt_text(opt_str(*o)),
{
    match o {
        Some(s) => Some(Json::Str(s.clone())),
        None => None,
    }
}

impl UpstreamConfig {
    /// The tree written for this upstream.
    pub fn to_tree(&self) -> (r: Json)
        ensures
            r@ == upstream_tree(self@),
    {
        let mut es: Vec<(String, Json)> = Vec::new();
        let ghost e0 = jentries(es@);
        assert(e0 =~= Seq::empty()) by {
            lemma_jentries(es@);
        }
        push_opt_entry(&mut es, "name", opt_string(&self.name));
        push_entry(&mut es, "url", Json::Str(self.url.clone()));
        push_entry(&mut es, "api_key", Json::Str(self.api_key.clone()));
        push_entry(&mut es, "auth_header", Json::Str(self.auth_header.clone()));
        let proxy = match &self.proxy {
            Some(p) => Some(Json::Str(p.to_config_string())),
            None => None,
        };
        push_opt_entry(&mut es, "proxy", proxy);
        push_entry(&mut es, "proxy_type", Json::string(self.proxy_type.as_config_str()));
        push_entry(&mut es, "api_format", Json::string(self.api_format.as_config_str()));
        push_opt_entry(&mut es, "max_concurrent_requests", opt_number_usize(self.max_concurrent_requests));
        push_opt_entry(&mut es, "rpm", opt_number_u64(self.rpm));
        push_opt_entry(&mut es, "tpm", opt_number_u64(self.tpm));
        let r = Json::Object(es);
        assert(jentries(es@) =~= (upstream_tree(self@))->Object_0);
        r
    }
}

fn performance_to_tree(p: &PerformanceConfig) -> (r: Json)
    ensures
        r@ == performance_tree(*p),
{
    let mut es: Vec<(String, Json)> = Vec::new();
    assert(jentries(es@) =~= Seq::empty()) by {
        lemma_jentries(es@);
    }
    push_opt_entry(&mut es, "upstream_max_concurrent_requests", opt_number_usize(p.upstream_max_concurrent_requests));
    push_opt_entry(&mut es, "global_rpm", opt_number_u64(p.global_rpm));
    push_opt_entry(&mut es, "global_tpm", opt_number_u64(p.global_tpm));
    assert(jentries(es@) =~= (performance_tree(*p))->Object_0);
    Json::Object(es)
}

fn aliases_to_tree(a: &Vec<(String, String)>) -> (r: Json)
    ensures
        r@ == aliases_tree(pairs_view(a@)),
{
    let mut es: Vec<(String, Json)> = Vec::new();
    let mut i: usize = 0;
    while i < a.len()
        invariant
            i <= a@.len(),
            jentries(es@) == pairs_view(a@.take(i as int)).map_values(
                |e: (Seq<char>, Seq<char>)| (e.0, JsonV::Str(e.1)),
            ),
        decreases a.len() - i,
    {
        let ghost before = jentries(es@);
        push_entry(&mut es, a[i].0.as_str(), Json::Str(a[i].1.clone()));
        assert(a@.take(i + 1) =~= a@.take(i as int).push(a@[i as int]));
        assert(pairs_view(a@.take(i + 1)).map_values(|e: (Seq<char>, Seq<char>)| (e.0, JsonV::Str(e.1)))
            =~= before + entry(a@[i as int].0@, JsonV::Str(a@[i as int].1@)));
        i = i + 1;
    }
    assert(a@.take(a@.len() as int) =~= a@);
    Json::Object(es)
}

fn routing_to_tree(r: &RoutingConfig) -> (t: Json)
    ensures
        t@ == routing_tree(r@),
{
    let mut es: Vec<(String, Json)> = Vec::new();
    assert(jentries(es@) =~= Seq::empty()) by {
        lemma_jentries(es@);
    }
    push_entry(&mut es, "load_balance", Json::string(r.load_balance.as_config_str()));
    push_entry(&mut es, "automatic_failover", Json::Bool(r.automatic_failover));
    push_opt_entry(&mut es, "fallback_model", opt_string(&r.fallback_model));
    push_entry(&mut es, "expose_model_aliases", Json::Bool(r.expose_model_aliases));
    push_entry(&mut es, "model_aliases", aliases_to_tree(&r.model_aliases));
    assert(jentries(es@) =~= (routing_tree(r@))->Object_0);
    Json::Object(es)
}

fn health_to_tree(h: &HealthConfig) -> (r: Json)
    ensures
        r@ == health_tree(*h),
{
    let mut es: Vec<(String, Json)> = Vec::new();
    assert(jentries(es@) =~= Seq::empty()) by {
        lemma_jentries(es@);
    }
    push_entry(&mut es, "enabled", Json::Bool(h.enabled));
    push_entry(&mut es, "interval_millis", number_of(h.interval_millis));
    push_entry(&mut es, "unhealthy_after_failures", number_of(h.unhealthy_after_failures));
    assert(jentries(es@) =~= (health_tree(*h))->Object_0);
    Json::Object(es)
}

fn rectifier_to_tree(x: &RectifierConfig) -> (r: Json)
    ensures
        r@ == rectifier_tree(*x),
{
    let mut es: Vec<(String, Json)> = Vec::new();
    assert(jentries(es@) =~= Seq::empty()) by {
        lemma_jentries(es@);
    }
    push_entry(&mut es, "enabled", Json::Bool(x.enabled));
    push_entry(&mut es, "thinking_signature", Json::Bool(x.thinking_signature));
    push_entry(&mut es, "thinking_budget", Json::Bool(x.thinking_budget));
    assert(jentries(es@) =~= (rectifier_tree(*x))->Object_0);
    Json::Object(es)
}

impl Config {
    /// The tree written for this configuration (see [`config_tree`]).
    pub fn to_tree(&self) -> (r: Json)
        ensures
            r@ == config_tree(self@),
    {
        let mut es: Vec<(String, Json)> = Vec::new();
        assert(jentries(es@) =~= Seq::empty()) by {
            lemma_jentries(es@);
        }
        push_entry(&mut es, "port", number_of(self.port as u64));
        push_opt_entry(&mut es, "auth_key", opt_string(&self.auth_key));
        push_entry(&mut es, "performance", performance_to_tree(&self.performance));
        push_entry(&mut es, "routing", routing_to_tree(&self.routing));
        push_entry(&mut es, "health", health_to_tree(&self.health));
        push_entry(&mut es, "rectifier", rectifier_to_tree(&self.rectifier));
        let up = match &self.upstream {
            Some(u) => Some(u.to_tree()),
            None => None,
        };
        push_opt_entry(&mut es, "upstream", up);
        let mut items: Vec<Json> = Vec::new();
        let mut i: usize = 0;
        while i < self.upstreams.len()
            invariant
                i <= self.upstreams@.len(),
                jviews(items@) == self.upstreams@.take(i as int).map_values(
                    |u: UpstreamConfig| upstream_tree(u@),
                ),
            decreases self.upstreams.len() - i,
        {
            let ghost before = items@;
            items.push(self.upstreams[i].to_tree());
            proof {
                lemma_jviews(before);
                lemma_jviews(items@);
                assert(jviews(items@) =~= jviews(before).push(upstream_tree(self.upstreams@[i as int]@)));
                assert(self.upstreams@.take(i + 1) =~= self.upstreams@.take(i as int).push(
                    self.upstreams@[i as int],
                ));
                assert(self.upstreams@.take(i + 1).map_values(|u: UpstreamConfig| upstream_tree(u@))
                    =~= self.upstreams@.take(i as int).map_values(
                    |u: UpstreamConfig| upstream_tree(u@),
                ).push(upstream_tree(self.upstreams@[i as int]@)));
            }
            i = i + 1;
        }
        assert(self.upstreams@.take(self.upstreams@.len() as int) =~= self.upstreams@);
        assert(jviews(items@) =~= self@.upstreams.map_values(|u: UpstreamConfigV| upstream_tree(u)));
        push_entry(&mut es, "upstreams", Json::Array(items));
        assert(jentries(es@) =~= (config_tree(self@))->Object_0);
        Json::Object(es)
    }

    /// This configuration as a pretty-printed TOML document (comments of the
    /// file it was read from are not kept).
    pub fn to_toml_string(&self) -> (r: Result<String, String>)
        ensures
            r matches Ok(s) ==> toml_text(config_tree(self@)) == Some(s@),
            r is Err ==> toml_text(config_tree(self@)) is None,
    {
        let tree = self.to_tree();
        render_toml(&tree)
    }
}

// ─── reading back what was written ───

pub broadcast proof fn lemma_obj_get_concat(
    a: Seq<(Seq<char>, JsonV)>,
    b: Seq<(Seq<char>, JsonV)>,
    k: Seq<char>,
)
    ensures
        #[trigger] obj_get(a + b, k) == match obj_get(a, k) {
            Some(v) => Some(v),
            None => obj_get(b, k),
        },
    decreases a.len(),
{
    if a.len() == 0 {
        assert(a + b =~= b);
    } else {
        assert((a + b)[0] == a[0]);
        if a[0].0 != k {
            assert((a + b).subrange(1, (a + b).len() as int) =~= a.subrange(1, a.len() as int) + b);
            lemma_obj_get_concat(a.subrange(1, a.len() as int), b, k);
        }
    }
}

pub broadcast proof fn lemma_obj_get_entry(k2: Seq<char>, v: JsonV, k: Seq<char>)
    ensures
        #[trigger] obj_get(entry(k2, v), k) == if k2 == k {
            Some(v)
        } else {
            None
        },
{
    let es = entry(k2, v);
    assert(es.len() == 1);
    assert(es[0] == (k2, v));
    if k2 != k {
        assert(es.subrange(1, 1) =~= Seq::<(Seq<char>, JsonV)>::empty());
        assert(obj_get(Seq::<(Seq<char>, JsonV)>::empty(), k) is None);
        assert(obj_get(es, k) == obj_get(es.subrange(1, 1), k));
    }
}

pub broadcast proof fn lemma_obj_get_opt_entry(k2: Seq<char>, o: Option<JsonV>, k: Seq<char>)
    ensures
        #[trigger] obj_get(opt_entry(k2, o), k) == if k2 == k {
            o
        } else {
            None
        },
{
    match o {
        Some(v) => {
            lemma_obj_get_entry(k2, v, k);
        },
        None => {},
    }
}

/// The decimal text of a `u64` reads back as its value.
pub proof fn lemma_num_reads(n: nat)
    requires
        n <= u64::MAX,
    ensures
        number_u64(decimal(n)) == Some(n),
{
    lemma_decimal_digits(n);
}

/// An upstream that is written and read back unchanged: a non-blank auth
/// header and, when it has a proxy, one that renders and reads back
/// unchanged.
pub open spec fn upstream_round_trips(u: UpstreamConfigV) -> bool {
    &&& trim_spec(u.auth_header).len() > 0
    &&& match u.proxy {
        Some(p) => proxy_round_trips(p),
        None => true,
    }
}

proof fn lemma_proxy_text_trimmed(p: ProxyV)
    requires
        proxy_round_trips(p),
    ensures
        trim_spec(proxy_text(p)) == proxy_text(p),
        trim_spec(proxy_text(p)).len() > 0,
{
    reveal_strlit(":");
    let d = decimal(p.port as nat);
    lemma_decimal_digits(p.port as nat);
    let t = proxy_text(p);
    assert(t[0] == p.host[0]);
    assert(p.host.len() > 0 ==> !is_ws(p.host[0]) && !is_ws(p.host.last())) by {
        if p.host.len() > 0 && (is_ws(p.host[0]) || is_ws(p.host.last())) {
            lemma_ws_end_changes(p.host);
        }
    }
    match (p.username, p.password) {
        (Some(u), Some(w)) => {
            assert(t.last() == w.last());
            assert(!is_ws(w.last())) by {
                if is_ws(w.last()) {
                    lemma_ws_end_changes(w);
                }
            }
        },
        _ => {
            assert(t.last() == d.last());
            assert(is_digit(d[d.len() - 1]));
        },
    }
    lemma_trim_unchanged(t);
}

proof fn lemma_ws_end_changes(s: Seq<char>)
    requires
        s.len() > 0,
        is_ws(s[0]) || is_ws(s.last()),
    ensures
        trim_spec(s) != s,
{
    crate::text::lemma_trim_len(s);
}

proof fn lemma_opt_u64_reads(o: Option<u64>)
    ensures
        o matches Some(n) ==> number_u64(decimal(n as nat)) == Some(n as nat),
{
    if let Some(n) = o {
        lemma_num_reads(n as nat);
    }
}

proof fn lemma_opt_usize_reads(o: Option<usize>)
    ensures
        o matches Some(n) ==> number_u64(decimal(n as nat)) == Some(n as nat),
{
    if let Some(n) = o {
        lemma_num_reads(n as nat);
    }
}

/// An upstream reads back from the tree written for it.
pub proof fn lemma_upstream_round_trip(u: UpstreamConfigV)
    requires
        upstream_round_trips(u),
    ensures
        upstream_of(upstream_tree(u)) == Some(u),
{
    broadcast use lemma_obj_get_concat, lemma_obj_get_entry, lemma_obj_get_opt_entry;

    reveal_strlit("name");
    reveal_strlit("url");
    reveal_strlit("api_key");
    reveal_strlit("auth_header");
    reveal_strlit("proxy");
    reveal_strlit("proxy_type");
    reveal_strlit("api_format");
    reveal_strlit("max_concurrent_requests");
    reveal_strlit("rpm");
    reveal_strlit("tpm");
    lemma_opt_usize_reads(u.max_concurrent_requests);
    lemma_opt_u64_reads(u.rpm);
    lemma_opt_u64_reads(u.tpm);
    lemma_proxy_type_round_trip(u.proxy_type);
    lemma_api_format_round_trip(u.api_format);
    if let Some(p) = u.proxy {
        lemma_proxy_text_trimmed(p);
        lemma_proxy_round_trip(p);
    }
    let t = upstream_tree(u);
    assert("name"@.len() == 4);
    assert("url"@.len() == 3 && "url"@[0] == 'u');
    assert("api_key"@.len() == 7);
    assert("auth_header"@.len() == 11);
    assert("proxy"@.len() == 5);
    assert("proxy_type"@.len() == 10 && "proxy_type"@[0] == 'p');
    assert("api_format"@.len() == 10 && "api_format"@[0] == 'a');
    assert("max_concurrent_requests"@.len() == 23);
    assert("rpm"@.len() == 3 && "rpm"@[0] == 'r');
    assert("tpm"@.len() == 3 && "tpm"@[0] == 't');
    assert(str_field(t, "name"@) == Some(u.name));
    assert(str_field(t, "url"@) == Some(Some(u.url)));
    assert(str_field(t, "api_key"@) == Some(Some(u.api_key)));
    assert(str_field(t, "auth_header"@) == Some(Some(u.auth_header)));
    assert(str_field(t, "proxy_type"@) == Some(Some(proxy_type_word(u.proxy_type))));
    assert(str_field(t, "api_format"@) == Some(Some(api_format_word(u.api_format))));
    assert(nat_field(t, "max_concurrent_requests"@, usize::MAX as nat) == Some(usize_nat(u.max_concurrent_requests)));
    assert(nat_field(t, "rpm"@, u64::MAX as nat) == Some(u64_nat(u.rpm)));
    assert(nat_field(t, "tpm"@, u64::MAX as nat) == Some(u64_nat(u.tpm)));
    assert(str_field(t, "proxy"@) == Some(match u.proxy {
        Some(p) => Some(proxy_text(p)),
        None => None,
    }));
}

proof fn lemma_performance_round_trip(p: PerformanceConfig)
    ensures
        performance_of(performance_tree(p)) == Some(p),
{
    broadcast use lemma_obj_get_concat, lemma_obj_get_entry, lemma_obj_get_opt_entry;

    reveal_strlit("upstream_max_concurrent_requests");
    reveal_strlit("global_rpm");
    reveal_strlit("global_tpm");
    assert("upstream_max_concurrent_requests"@.len() == 32);
    assert("global_rpm"@.len() == 10 && "global_rpm"@[7] == 'r');
    assert("global_tpm"@.len() == 10 && "global_tpm"@[7] == 't');
    lemma_opt_usize_reads(p.upstream_max_concurrent_requests);
    lemma_opt_u64_reads(p.global_rpm);
    lemma_opt_u64_reads(p.global_tpm);
}

proof fn lemma_aliases_round_trip(a: Seq<(Seq<char>, Seq<char>)>)
    ensures
        model_aliases_of(aliases_tree(a)) == Some(a),
{
    let es = a.map_values(|e: (Seq<char>, Seq<char>)| (e.0, JsonV::Str(e.1)));
    assert forall|i: int| 0 <= i < es.len() implies (#[trigger] es[i]).1 is Str by {}
    assert(es.map_values(|e: (Seq<char>, JsonV)| (e.0, e.1->Str_0)) =~= a);
}

proof fn lemma_routing_round_trip(r: RoutingConfigV)
    ensures
        routing_of(routing_tree(r)) == Some(r),
{
    broadcast use lemma_obj_get_concat, lemma_obj_get_entry, lemma_obj_get_opt_entry;

    reveal_strlit("load_balance");
    reveal_strlit("automatic_failover");
    reveal_strlit("fallback_model");
    reveal_strlit("expose_model_aliases");
    reveal_strlit("model_aliases");
    assert("load_balance"@.len() == 12);
    assert("automatic_failover"@.len() == 18);
    assert("fallback_model"@.len() == 14);
    assert("expose_model_aliases"@.len() == 20);
    assert("model_aliases"@.len() == 13);
    lemma_load_balance_round_trip(r.load_balance);
    lemma_aliases_round_trip(r.model_aliases);
}

proof fn lemma_health_round_trip(h: HealthConfig)
    ensures
        health_of(health_tree(h)) == Some(h),
{
    broadcast use lemma_obj_get_concat, lemma_obj_get_entry, lemma_obj_get_opt_entry;

    reveal_strlit("enabled");
    reveal_strlit("interval_millis");
    reveal_strlit("unhealthy_after_failures");
    assert("enabled"@.len() == 7);
    assert("interval_millis"@.len() == 15);
    assert("unhealthy_after_failures"@.len() == 24);
    lemma_num_reads(h.interval_millis as nat);
    lemma_num_reads(h.unhealthy_after_failures as nat);
}

proof fn lemma_rectifier_round_trip(x: RectifierConfig)
    ensures
        rectifier_of(rectifier_tree(x)) == Some(x),
{
    broadcast use lemma_obj_get_concat, lemma_obj_get_entry, lemma_obj_get_opt_entry;

    reveal_strlit("enabled");
    reveal_strlit("thinking_signature");
    reveal_strlit("thinking_budget");
    assert("enabled"@.len() == 7);
    assert("thinking_signature"@.len() == 18);
    assert("thinking_budget"@.len() == 15);
}

/// A configuration that is written and read back unchanged: each of its
/// upstreams has a non-blank auth header and a proxy (if any) that renders
/// and reads back unchanged.
pub open spec fn config_round_trips(c: ConfigV) -> bool {
    &&& c.upstream matches Some(u) ==> upstream_round_trips(u)
    &&& forall|i: int| 0 <= i < c.upstreams.len() ==> upstream_round_trips(#[trigger] c.upstreams[i])
}

/// Writing a configuration as a tree and reading the tree back gives the
/// same configuration: the tree form of what the desktop editor saves.
pub proof fn lemma_config_round_trip(c: ConfigV)
    requires
        config_round_trips(c),
    ensures
        config_of(config_tree(c)) == Some(c),
{
    broadcast use lemma_obj_get_concat, lemma_obj_get_entry, lemma_obj_get_opt_entry;

    reveal_strlit("port");
    reveal_strlit("auth_key");
    reveal_strlit("performance");
    reveal_strlit("routing");
    reveal_strlit("health");
    reveal_strlit("rectifier");
    reveal_strlit("upstream");
    reveal_strlit("upstreams");
    assert("port"@.len() == 4);
    assert("auth_key"@.len() == 8 && "auth_key"@[0] == 'a');
    assert("performance"@.len() == 11);
    assert("routing"@.len() == 7);
    assert("health"@.len() == 6);
    assert("rectifier"@.len() == 9);
    assert("upstream"@.len() == 8 && "upstream"@[0] == 'u');
    assert("upstreams"@.len() == 9 && "upstreams"@[0] == 'u' && "rectifier"@[0] == 'r');
    lemma_num_reads(c.port as nat);
    lemma_performance_round_trip(c.performance);
    lemma_routing_round_trip(c.routing);
    lemma_health_round_trip(c.health);
    lemma_rectifier_round_trip(c.rectifier);
    if let Some(u) = c.upstream {
        lemma_upstream_round_trip(u);
    }
    let us = c.upstreams.map_values(|u: UpstreamConfigV| upstream_tree(u));
    assert forall|i: int| 0 <= i < us.len() implies upstream_of(#[trigger] us[i]) is Some by {
        lemma_upstream_round_trip(c.upstreams[i]);
    }
    assert forall|i: int| 0 <= i < us.len() implies upstream_of(#[trigger] us[i])->0 == c.upstreams[i] by {
        lemma_upstream_round_trip(c.upstreams[i]);
    }
    assert(us.map_values(|x: JsonV| upstream_of(x)->0) =~= c.upstreams);
    assert(upstreams_of(JsonV::Array(us)) == Some(c.upstreams));
}

} // verus!
