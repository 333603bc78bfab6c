//! Proxy configuration: its types, the spellings each setting accepts, the
//! `host:port[:user:pass]` proxy syntax, and the upstream list in effect.

pub mod file;

use vstd::prelude::*;
use crate::text::{concat, decimal, first_char_index, is_digit, is_ws, lemma_decimal_digits, lemma_first_char_index, lemma_first_char_none, lower_spec, owned, parse_u16, parse_unsigned, split_n, splitn_chars, str_eq, strings_view, to_ascii_lowercase, trim, trim_spec, u64_text, chars_of};
use crate::types::opt_str;

verus! {

/// `lower_spec(trim_spec(s))`: the form in which setting names are matched.
pub open spec fn setting_word(s: Seq<char>) -> Seq<char> {
    lower_spec(trim_spec(s))
}

/// A setting word matched against a literal, the way the config reader
/// does: trimmed and ASCII lower-cased.
fn setting_word_exec(s: &str) -> (r: String)
    ensures
        r@ == setting_word(s@),
{
    let t = trim(s);
    to_ascii_lowercase(t.as_str())
}

/// A lower-case ASCII word (letters, digits, `_`, `-`) reads back as itself.
pub proof fn lemma_plain_word(s: Seq<char>)
    requires
        forall|i: int| 0 <= i < s.len() ==> ({
            let c = #[trigger] s[i];
            ('a' <= c && c <= 'z') || ('0' <= c && c <= '9') || c == '_' || c == '-'
        }),
    ensures
        setting_word(s) == s,
{
    if s.len() > 0 {
        assert(!is_ws(s[0]));
        assert(!is_ws(s.last()));
    }
    crate::text::lemma_trim_unchanged(s);
    assert(lower_spec(s) =~= s);
}

// ─── load balancing ───

/// How requests are spread over the configured upstreams.
#[derive(Debug, Clone, Copy, PartialEq, Eq, Structural)]
pub enum LoadBalanceStrategy {
    First,
    RoundRobin,
}

impl Default for LoadBalanceStrategy {
    fn default() -> (r: Self)
        ensures
            r == LoadBalanceStrategy::First,
    {
        LoadBalanceStrategy::First
    }
}

/// The strategy a config word names, if any.
pub open spec fn load_balance_of(s: Seq<char>) -> Option<LoadBalanceStrategy> {
    let w = setting_word(s);
    if w == ""@ || w == "first"@ {
        Some(LoadBalanceStrategy::First)
    } else if w == "round_robin"@ || w == "round-robin"@ || w == "roundrobin"@ {
        Some(LoadBalanceStrategy::RoundRobin)
    } else {
        None
    }
}

/// The word the config writer uses for a strategy.
pub open spec fn load_balance_word(x: LoadBalanceStrategy) -> Seq<char> {
    match x {
        LoadBalanceStrategy::First => "first"@,
        LoadBalanceStrategy::RoundRobin => "round_robin"@,
    }
}

impl LoadBalanceStrategy {
    /// Reads a strategy from its config word (`first`, `round_robin`, …;
    /// empty means `first`).
    pub fn from_config_str(s: &str) -> (r: Result<Self, String>)
        ensures
            r matches Ok(x) ==> load_balance_of(s@) == Some(x),
            r is Err ==> load_balance_of(s@) is None,
            r matches Err(e) ==> e@ == "load_balance must be first or round_robin"@,
    {
        let w = setting_word_exec(s);
        let w = w.as_str();
        if str_eq(w, "") || str_eq(w, "first") {
            Ok(LoadBalanceStrategy::First)
        } else if str_eq(w, "round_robin") || str_eq(w, "round-robin") || str_eq(w, "roundrobin") {
            Ok(LoadBalanceStrategy::RoundRobin)
        } else {
            Err(owned("load_balance must be first or round_robin"))
        }
    }

    /// The config word for this strategy.
    pub fn as_config_str(&self) -> (r: &'static str)
        ensures
            r@ == load_balance_word(*self),
    {
        match self {
            LoadBalanceStrategy::First => "first",
            LoadBalanceStrategy::RoundRobin => "round_robin",
        }
    }
}

/// The word written for a strategy reads back as that strategy.
pub proof fn lemma_load_balance_round_trip(x: LoadBalanceStrategy)
    ensures
        load_balance_of(load_balance_word(x)) == Some(x),
{
    reveal_strlit("");
    reveal_strlit("first");
    reveal_strlit("round_robin");
    reveal_strlit("round-robin");
    reveal_strlit("roundrobin");
    lemma_plain_word(load_balance_word(x));
    if x == LoadBalanceStrategy::RoundRobin {
        assert("round_robin"@ != "first"@);
    }
}

// ─── proxy type ───

/// The kind of proxy an upstream is reached through.
#[derive(Debug, Clone, Copy, PartialEq, Eq, Structural)]
pub enum UpstreamProxyType {
    Http,
    Socks,
}

impl Default for UpstreamProxyType {
    fn default() -> (r: Self)
        ensures
            r == UpstreamProxyType::Http,
    {
        UpstreamProxyType::Http
    }
}

/// The proxy type a config word names, if any.
pub open spec fn proxy_type_of(s: Seq<char>) -> Option<UpstreamProxyType> {
    let w = setting_word(s);
    if w == ""@ || w == "http"@ {
        Some(UpstreamProxyType::Http)
    } else if w == "socket"@ || w == "socks"@ || w == "socks5"@ {
        Some(UpstreamProxyType::Socks)
    } else {
        None
    }
}

/// The word the config writer uses for a proxy type.
pub open spec fn proxy_type_word(x: UpstreamProxyType) -> Seq<char> {
    match x {
        UpstreamProxyType::Http => "http"@,
        UpstreamProxyType::Socks => "socks"@,
    }
}

/// The URL scheme of a proxy type.
pub open spec fn scheme_of(x: UpstreamProxyType) -> Seq<char> {
    match x {
        UpstreamProxyType::Http => "http"@,
        UpstreamProxyType::Socks => "socks5"@,
    }
}

impl UpstreamProxyType {
    /// Reads a proxy type from its config word (`http`, `socket`, `socks`,
    /// `socks5`; empty means `http`).
    pub fn from_config_str(s: &str) -> (r: Result<Self, String>)
        ensures
            r matches Ok(x) ==> proxy_type_of(s@) == Some(x),
            r is Err ==> proxy_type_of(s@) is None,
            r matches Err(e) ==> e@ == "proxy_type must be http, socket, socks, or socks5"@,
    {
        let w = setting_word_exec(s);
        let w = w.as_str();
        if str_eq(w, "") || str_eq(w, "http") {
            Ok(UpstreamProxyType::Http)
        } else if str_eq(w, "socket") || str_eq(w, "socks") || str_eq(w, "socks5") {
            Ok(UpstreamProxyType::Socks)
        } else {
            Err(owned("proxy_type must be http, socket, socks, or socks5"))
        }
    }

    /// The config word for this proxy type.
    pub fn as_config_str(&self) -> (r: &'static str)
        ensures
            r@ == proxy_type_word(*self),
    {
        match self {
            UpstreamProxyType::Http => "http",
            UpstreamProxyType::Socks => "socks",
        }
    }

    /// The URL scheme used to reach a proxy of this type.
    pub fn scheme(self) -> (r: &'static str)
        ensures
            r@ == scheme_of(self),
    {
        match self {
            UpstreamProxyType::Http => "http",
            UpstreamProxyType::Socks => "socks5",
        }
    }
}

/// The word written for a proxy type reads back as that proxy type.
pub proof fn lemma_proxy_type_round_trip(x: UpstreamProxyType)
    ensures
        proxy_type_of(proxy_type_word(x)) == Some(x),
{
    reveal_strlit("");
    reveal_strlit("http");
    reveal_strlit("socks");
    lemma_plain_word(proxy_type_word(x));
    if x == UpstreamProxyType::Socks {
        assert("socks"@ != "http"@);
    }
}

// ─── API format ───

/// The API an upstream speaks.
#[derive(Debug, Clone, Copy, PartialEq, Eq, Structural)]
pub enum UpstreamApiFormat {
    ChatCompletions,
    AnthropicMessages,
}

impl Default for UpstreamApiFormat {
    fn default() -> (r: Self)
        ensures
            r == UpstreamApiFormat::ChatCompletions,
    {
        UpstreamApiFormat::ChatCompletions
    }
}

/// The API format a config word names, if any.
pub open spec fn api_format_of(s: Seq<char>) -> Option<UpstreamApiFormat> {
    let w = setting_word(s);
    if w == ""@ || w == "chat_completions"@ || w == "chat-completions"@ || w == "openai_chat"@
        || w == "openai-chat"@ {
        Some(UpstreamApiFormat::ChatCompletions)
    } else if w == "anthropic_messages"@ || w == "anthropic-messages"@ || w == "anthropic"@ || w
        == "messages"@ {
        Some(UpstreamApiFormat::AnthropicMessages)
    } else {
        None
    }
}

/// The word the config writer uses for an API format.
pub open spec fn api_format_word(x: UpstreamApiFormat) -> Seq<char> {
    match x {
        UpstreamApiFormat::ChatCompletions => "chat_completions"@,
        UpstreamApiFormat::AnthropicMessages => "anthropic_messages"@,
    }
}

impl UpstreamApiFormat {
    /// Reads an API format from its config word (`chat_completions`,
    /// `anthropic_messages` and their aliases; empty means Chat
    /// Completions).
    pub fn from_config_str(s: &str) -> (r: Result<Self, String>)
        ensures
            r matches Ok(x) ==> api_format_of(s@) == Some(x),
            r is Err ==> api_format_of(s@) is None,
            r matches Err(e) ==> e@ == "api_format must be chat_completions or anthropic_messages"@,
    {
        let w = setting_word_exec(s);
        let w = w.as_str();
        if str_eq(w, "") || str_eq(w, "chat_completions") || str_eq(w, "chat-completions")
            || str_eq(w, "openai_chat") || str_eq(w, "openai-chat") {
            Ok(UpstreamApiFormat::ChatCompletions)
        } else if str_eq(w, "anthropic_messages") || str_eq(w, "anthropic-messages") || str_eq(
            w,
            "anthropic",
        ) || str_eq(w, "messages") {
            Ok(UpstreamApiFormat::AnthropicMessages)
        } else {
            Err(owned("api_format must be chat_completions or anthropic_messages"))
        }
    }

    /// The config word for this API format.
    pub fn as_config_str(&self) -> (r: &'static str)
        ensures
            r@ == api_format_word(*self),
    {
        match self {
            UpstreamApiFormat::ChatCompletions => "chat_completions",
            UpstreamApiFormat::AnthropicMessages => "anthropic_messages",
        }
    }
}

/// The word written for an API format reads back as that format.
pub proof fn lemma_api_format_round_trip(x: UpstreamApiFormat)
    ensures
        api_format_of(api_format_word(x)) == Some(x),
{
    reveal_strlit("");
    reveal_strlit("chat_completions");
    reveal_strlit("chat-completions");
    reveal_strlit("openai_chat");
    reveal_strlit("openai-chat");
    reveal_strlit("anthropic_messages");
    lemma_plain_word(api_format_word(x));
    if x == UpstreamApiFormat::AnthropicMessages {
        assert("anthropic_messages"@ != "chat_completions"@);
        assert("anthropic_messages"@ != "chat-completions"@);
        assert("anthropic_messages"@ != "openai_chat"@);
        assert("anthropic_messages"@ != "openai-chat"@);
    }
}

// ─── upstream proxy ───

/// The proxy an upstream is reached through.
#[derive(Debug, Clone)]
pub struct UpstreamProxyConfig {
    pub host: String,
    pub port: u16,
    pub username: Option<String>,
    pub password: Option<String>,
}

pub struct UpstreamProxyConfigV {
    pub host: Seq<char>,
    pub port: u16,
    pub username: Option<Seq<char>>,
    pub password: Option<Seq<char>>,
}

impl View for UpstreamProxyConfig {
    type V = UpstreamProxyConfigV;

    open spec fn view(&self) -> UpstreamProxyConfigV {
        UpstreamProxyConfigV {
            host: self.host@,
            port: self.port,
            username: opt_str(self.username),
            password: opt_str(self.password),
        }
    }
}

/// What `UpstreamProxyConfig::parse` gives for a proxy string: the string
/// is cut at its first three colons into `host:port` or
/// `host:port:username:password`, each piece trimmed.
pub open spec fn proxy_parse(raw: Seq<char>) -> Result<UpstreamProxyConfigV, Seq<char>> {
    let parts = split_n(raw, ':', 4);
    if parts.len() != 2 && parts.len() != 4 {
        Err("proxy must use host:port or host:port:username:password"@)
    } else if trim_spec(parts[0]).len() == 0 {
        Err("proxy host cannot be empty"@)
    } else {
        match parse_unsigned(trim_spec(parts[1]), 0xffff) {
            None => Err("proxy port must be a valid u16"@),
            Some(port) => {
                let host = trim_spec(parts[0]);
                if parts.len() == 4 {
                    let user = trim_spec(parts[2]);
                    let pass = trim_spec(parts[3]);
                    if user.len() == 0 && pass.len() == 0 {
                        Ok(UpstreamProxyConfigV { host, port: port as u16, username: None, password: None })
                    } else if user.len() == 0 || pass.len() == 0 {
                        Err("proxy username and password must both be set or both omitted"@)
                    } else {
                        Ok(UpstreamProxyConfigV {
                            host,
                            port: port as u16,
                            username: Some(user),
                            password: Some(pass),
                        })
                    }
                } else {
                    Ok(UpstreamProxyConfigV { host, port: port as u16, username: None, password: None })
                }
            },
        }
    }
}

/// The text `to_config_string` writes for a proxy.
pub open spec fn proxy_text(p: UpstreamProxyConfigV) -> Seq<char> {
    let base = p.host + ":"@ + decimal(p.port as nat);
    match (p.username, p.password) {
        (Some(u), Some(w)) => base + ":"@ + u + ":"@ + w,
        _ => base,
    }
}

impl UpstreamProxyConfig {
    /// Parses `host:port` or `host:port:username:password`.
    pub fn parse(raw: &str) -> (r: Result<Self, String>)
        ensures
            r matches Ok(p) ==> proxy_parse(raw@) == Ok::<UpstreamProxyConfigV, Seq<char>>(p@),
            r matches Err(e) ==> proxy_parse(raw@) == Err::<UpstreamProxyConfigV, Seq<char>>(e@),
    {
        let chars = chars_of(raw);
        let parts = splitn_chars(&chars, ':', 4);
        proof {
            assert(strings_view(parts@).len() == parts@.len());
        }
        if parts.len() != 2 && parts.len() != 4 {
            return Err(owned("proxy must use host:port or host:port:username:password"));
        }
        proof {
            assert(strings_view(parts@)[0] == parts@[0]@);
            assert(strings_view(parts@)[1] == parts@[1]@);
        }
        let host = trim(parts[0].as_str());
        if host.unicode_len() == 0 {
            return Err(owned("proxy host cannot be empty"));
        }
        let port_text = trim(parts[1].as_str());
        let port = match parse_u16(port_text.as_str()) {
            Some(p) => p,
            None => {
                return Err(owned("proxy port must be a valid u16"));
            },
        };
        if parts.len() == 4 {
            proof {
                assert(strings_view(parts@)[2] == parts@[2]@);
                assert(strings_view(parts@)[3] == parts@[3]@);
            }
            let username = trim(parts[2].as_str());
            let password = trim(parts[3].as_str());
            let ue = username.unicode_len() == 0;
            let pe = password.unicode_len() == 0;
            if ue && pe {
                Ok(UpstreamProxyConfig { host, port, username: None, password: None })
            } else if ue || pe {
                Err(owned("proxy username and password must both be set or both omitted"))
            } else {
                Ok(UpstreamProxyConfig { host, port, username: Some(username), password: Some(password) })
            }
        } else {
            Ok(UpstreamProxyConfig { host, port, username: None, password: None })
        }
    }

    /// Renders the proxy in the form `parse` accepts: `host:port`, or
    /// `host:port:username:password` when both credentials are set.
    pub fn to_config_string(&self) -> (r: String)
        ensures
            r@ == proxy_text(self@),
    {
        let port = u64_text(self.port as u64);
        let mut out = concat(self.host.as_str(), ":");
        out.append(port.as_str());
        match (&self.username, &self.password) {
            (Some(u), Some(w)) => {
                out.append(":");
                out.append(u.as_str());
                out.append(":");
                out.append(w.as_str());
            },
            _ => {},
        }
        out
    }
}

/// A proxy that renders and reads back unchanged: a trimmed, non-empty host
/// without colons, and either no credentials or two trimmed, non-empty
/// ones, the username without colons.
pub open spec fn proxy_round_trips(p: UpstreamProxyConfigV) -> bool {
    &&& p.host.len() > 0
    &&& trim_spec(p.host) == p.host
    &&& !p.host.contains(':')
    &&& match (p.username, p.password) {
        (None, None) => true,
        (Some(u), Some(w)) => {
            &&& u.len() > 0
            &&& w.len() > 0
            &&& trim_spec(u) == u
            &&& trim_spec(w) == w
            &&& !u.contains(':')
        },
        _ => false,
    }
}

proof fn lemma_first_colon_after(a: Seq<char>, rest: Seq<char>)
    requires
        !a.contains(':'),
    ensures
        first_char_index(a + ":"@ + rest, ':') == Some(a.len() as int),
        (a + ":"@ + rest).take(a.len() as int) == a,
        (a + ":"@ + rest).skip(a.len() as int + 1) == rest,
{
    reveal_strlit(":");
    let s = a + ":"@ + rest;
    assert forall|k: int| 0 <= k < a.len() implies s[k] != ':' by {
        assert(s[k] == a[k]);
        if a[k] == ':' {
            assert(a.contains(':'));
        }
    }
    assert(s[a.len() as int] == ':');
    lemma_first_char_index(s, ':', a.len() as int);
    assert(s.take(a.len() as int) =~= a);
    assert(s.skip(a.len() as int + 1) =~= rest);
}

proof fn lemma_no_colon_at_all(a: Seq<char>)
    requires
        !a.contains(':'),
    ensures
        first_char_index(a, ':') is None,
{
    assert forall|k: int| 0 <= k < a.len() implies a[k] != ':' by {
        if a[k] == ':' {
            assert(a.contains(':'));
        }
    }
    lemma_first_char_none(a, ':');
}

/// The rendering of a proxy reads back as the same proxy.
pub proof fn lemma_proxy_round_trip(p: UpstreamProxyConfigV)
    requires
        proxy_round_trips(p),
    ensures
        proxy_parse(proxy_text(p)) == Ok::<UpstreamProxyConfigV, Seq<char>>(p),
{
    reveal_strlit(":");
    let d = decimal(p.port as nat);
    lemma_decimal_digits(p.port as nat);
    assert(!d.contains(':')) by {
        if d.contains(':') {
            let k = choose|k: int| 0 <= k < d.len() && d[k] == ':';
            assert(is_digit(d[k]));
        }
    }
    assert(d.len() > 0 ==> !is_ws(d[0]) && !is_ws(d.last())) by {
        if d.len() > 0 {
            assert(is_digit(d[0]));
            assert(is_digit(d[d.len() - 1]));
        }
    }
    crate::text::lemma_trim_unchanged(d);
    assert(parse_unsigned(d, 0xffff) == Some(p.port as nat)) by {
        if d.len() > 0 && d[0] == '+' {
            assert(is_digit(d[0]));
        }
    }
    let t = proxy_text(p);
    match (p.username, p.password) {
        (Some(u), Some(w)) => {
            let rest3 = u + ":"@ + w;
            let rest2 = d + ":"@ + rest3;
            assert(t =~= p.host + ":"@ + rest2);
            lemma_first_colon_after(p.host, rest2);
            lemma_first_colon_after(d, rest3);
            lemma_first_colon_after(u, w);
            let parts = split_n(t, ':', 4);
            assert(split_n(rest3, ':', 2) == seq![u] + split_n(w, ':', 1));
            assert(split_n(rest2, ':', 3) == seq![d] + split_n(rest3, ':', 2));
            assert(parts == seq![p.host] + split_n(rest2, ':', 3));
            assert(parts =~= seq![p.host, d, u, w]);
        },
        _ => {
            assert(t =~= p.host + ":"@ + d);
            lemma_first_colon_after(p.host, d);
            lemma_no_colon_at_all(d);
            let parts = split_n(t, ':', 4);
            assert(split_n(d, ':', 3) == seq![d]);
            assert(parts == seq![p.host] + split_n(d, ':', 3));
            assert(parts =~= seq![p.host, d]);
        },
    }
}

// ─── upstreams and the whole config ───

/// One upstream API endpoint.
#[derive(Debug, Clone)]
pub struct UpstreamConfig {
    pub name: Option<String>,
    pub url: String,
    pub api_key: String,
    pub auth_header: String,
    pub proxy: Option<UpstreamProxyConfig>,
    pub proxy_type: UpstreamProxyType,
    pub api_format: UpstreamApiFormat,
    pub max_concurrent_requests: Option<usize>,
    pub rpm: Option<u64>,
    pub tpm: Option<u64>,
}

pub struct UpstreamConfigV {
    pub name: Option<Seq<char>>,
    pub url: Seq<char>,
    pub api_key: Seq<char>,
    pub auth_header: Seq<char>,
    pub proxy: Option<UpstreamProxyConfigV>,
    pub proxy_type: UpstreamProxyType,
    pub api_format: UpstreamApiFormat,
    pub max_concurrent_requests: Option<usize>,
    pub rpm: Option<u64>,
    pub tpm: Option<u64>,
}

impl View for UpstreamConfig {
    type V = UpstreamConfigV;

    open spec fn view(&self) -> UpstreamConfigV {
        UpstreamConfigV {
            name: opt_str(self.name),
            url: self.url@,
            api_key: self.api_key@,
            auth_header: self.auth_header@,
            proxy: match self.proxy {
                Some(p) => Some(p@),
                None => None,
            },
            proxy_type: self.proxy_type,
            api_format: self.api_format,
            max_concurrent_requests: self.max_concurrent_requests,
            rpm: self.rpm,
            tpm: self.tpm,
        }
    }
}

/// Global concurrency and rate limits (none by default).
#[derive(Debug, Clone, Copy)]
pub struct PerformanceConfig {
    pub upstream_max_concurrent_requests: Option<usize>,
    pub global_rpm: Option<u64>,
    pub global_tpm: Option<u64>,
}

impl Default for PerformanceConfig {
    fn default() -> (r: Self)
        ensures
            r.upstream_max_concurrent_requests is None,
            r.global_rpm is None,
            r.global_tpm is None,
    {
        PerformanceConfig { upstream_max_concurrent_requests: None, global_rpm: None, global_tpm: None }
    }
}

/// Upstream selection: load balancing, failover, fallback model and model
/// aliases (alias name, target model), in key order.
#[derive(Debug, Clone)]
pub struct RoutingConfig {
    pub load_balance: LoadBalanceStrategy,
    pub automatic_failover: bool,
    pub fallback_model: Option<String>,
    pub expose_model_aliases: bool,
    pub model_aliases: Vec<(String, String)>,
}

pub struct RoutingConfigV {
    pub load_balance: LoadBalanceStrategy,
    pub automatic_failover: bool,
    pub fallback_model: Option<Seq<char>>,
    pub expose_model_aliases: bool,
    pub model_aliases: Seq<(Seq<char>, Seq<char>)>,
}

/// The views of a list of string pairs.
pub open spec fn pairs_view(v: Seq<(String, String)>) -> Seq<(Seq<char>, Seq<char>)> {
    v.map_values(|p: (String, String)| (p.0@, p.1@))
}

impl View for RoutingConfig {
    type V = RoutingConfigV;

    open spec fn view(&self) -> RoutingConfigV {
        RoutingConfigV {
            load_balance: self.load_balance,
            automatic_failover: self.automatic_failover,
            fallback_model: opt_str(self.fallback_model),
            expose_model_aliases: self.expose_model_aliases,
            model_aliases: pairs_view(self.model_aliases@),
        }
    }
}

impl Default for RoutingConfig {
    fn default() -> (r: Self)
        ensures
            r@ == (RoutingConfigV {
                load_balance: LoadBalanceStrategy::First,
                automatic_failover: false,
                fallback_model: None,
                expose_model_aliases: false,
                model_aliases: Seq::empty(),
            }),
    {
        let r = RoutingConfig {
            load_balance: LoadBalanceStrategy::First,
            automatic_failover: false,
            fallback_model: None,
            expose_model_aliases: false,
            model_aliases: Vec::new(),
        };
        assert(pairs_view(r.model_aliases@) =~= Seq::empty());
        r
    }
}

/// Periodic health checking of upstreams.
#[derive(Debug, Clone, Copy)]
pub struct HealthConfig {
    pub enabled: bool,
    pub interval_millis: u64,
    pub unhealthy_after_failures: u64,
}

impl Default for HealthConfig {
    fn default() -> (r: Self)
        ensures
            !r.enabled,
            r.interval_millis == 30_000,
            r.unhealthy_after_failures == 3,
    {
        HealthConfig {
            enabled: false,
            interval_millis: default_health_interval_millis(),
            unhealthy_after_failures: default_unhealthy_after_failures(),
        }
    }
}

/// Retrying Anthropic requests rejected for their thinking settings.
#[derive(Debug, Clone, Copy)]
pub struct RectifierConfig {
    pub enabled: bool,
    pub thinking_signature: bool,
    pub thinking_budget: bool,
}

impl Default for RectifierConfig {
    fn default() -> (r: Self)
        ensures
            r.enabled,
            r.thinking_signature,
            r.thinking_budget,
    {
        RectifierConfig { enabled: true, thinking_signature: true, thinking_budget: true }
    }
}

/// The whole proxy configuration.
#[derive(Debug, Clone)]
pub struct Config {
    pub port: u16,
    pub auth_key: Option<String>,
    pub performance: PerformanceConfig,
    pub routing: RoutingConfig,
    pub health: HealthConfig,
    pub rectifier: RectifierConfig,
    pub upstream: Option<UpstreamConfig>,
    pub upstreams: Vec<UpstreamConfig>,
}

pub struct ConfigV {
    pub port: u16,
    pub auth_key: Option<Seq<char>>,
    pub performance: PerformanceConfig,
    pub routing: RoutingConfigV,
    pub health: HealthConfig,
    pub rectifier: RectifierConfig,
    pub upstream: Option<UpstreamConfigV>,
    pub upstreams: Seq<UpstreamConfigV>,
}

impl View for Config {
    type V = ConfigV;

    open spec fn view(&self) -> ConfigV {
        ConfigV {
            port: self.port,
            auth_key: opt_str(self.auth_key),
            performance: self.performance,
            routing: self.routing@,
            health: self.health,
            rectifier: self.rectifier,
            upstream: match self.upstream {
                Some(u) => Some(u@),
                None => None,
            },
            upstreams: self.upstreams@.map_values(|u: UpstreamConfig| u@),
        }
    }
}

/// The port the proxy listens on when none is configured.
pub fn default_port() -> (r: u16)
    ensures
        r == 8080,
{
    8080
}

/// The health-check interval when none is configured.
pub fn default_health_interval_millis() -> (r: u64)
    ensures
        r == 30_000,
{
    30_000
}

/// Consecutive failures after which an upstream counts as unhealthy.
pub fn default_unhealthy_after_failures() -> (r: u64)
    ensures
        r == 3,
{
    3
}

/// The default of the rectifier switches.
pub fn default_true() -> (r: bool)
    ensures
        r,
{
    true
}

/// The header an upstream's API key is sent in when none is configured.
pub fn default_auth_header() -> (r: String)
    ensures
        r@ == "Authorization"@,
{
    owned("Authorization")
}

/// The auth header in effect for a configured value: the value, unless it
/// is missing or blank.
pub open spec fn auth_header_of(value: Option<Seq<char>>) -> Seq<char> {
    match value {
        Some(v) => if trim_spec(v).len() == 0 {
            "Authorization"@
        } else {
            v
        },
        None => "Authorization"@,
    }
}

/// The auth header in effect for a configured value (blank or missing
/// means `Authorization`).
pub fn normalize_auth_header(value: Option<String>) -> (r: String)
    ensures
        r@ == auth_header_of(opt_str(value)),
{
    match value {
        Some(v) => {
            if trim(v.as_str()).unicode_len() == 0 {
                default_auth_header()
            } else {
                v
            }
        },
        None => default_auth_header(),
    }
}

/// The proxy in effect for a configured proxy string: none when missing or
/// blank, else the trimmed string parsed.
pub open spec fn upstream_proxy_of(value: Option<Seq<char>>) -> Result<
    Option<UpstreamProxyConfigV>,
    Seq<char>,
> {
    match value {
        None => Ok(None),
        Some(v) => if trim_spec(v).len() == 0 {
            Ok(None)
        } else {
            match proxy_parse(trim_spec(v)) {
                Ok(p) => Ok(Some(p)),
                Err(e) => Err(e),
            }
        },
    }
}

/// Reads a configured proxy string (missing or blank means no proxy).
pub fn parse_upstream_proxy(value: Option<&str>) -> (r: Result<Option<UpstreamProxyConfig>, String>)
    ensures
        r matches Ok(Some(p)) ==> upstream_proxy_of(
            match value {
                Some(v) => Some(v@),
                None => None,
            },
        ) == Ok::<Option<UpstreamProxyConfigV>, Seq<char>>(Some(p@)),
        r matches Ok(None) ==> upstream_proxy_of(
            match value {
                Some(v) => Some(v@),
                None => None,
            },
        ) == Ok::<Option<UpstreamProxyConfigV>, Seq<char>>(None),
        r matches Err(e) ==> upstream_proxy_of(
            match value {
                Some(v) => Some(v@),
                None => None,
            },
        ) == Err::<Option<UpstreamProxyConfigV>, Seq<char>>(e@),
{
    match value {
        None => Ok(None),
        Some(v) => {
            let t = trim(v);
            if t.unicode_len() == 0 {
                Ok(None)
            } else {
                match UpstreamProxyConfig::parse(t.as_str()) {
                    Ok(p) => Ok(Some(p)),
                    Err(e) => Err(e),
                }
            }
        },
    }
}

/// The upstreams in effect: the `upstreams` list, or the single `upstream`
/// when the list is empty.
pub open spec fn configured_upstreams_of(c: Config) -> Seq<UpstreamConfig> {
    if c.upstreams@.len() == 0 {
        match c.upstream {
            Some(u) => seq![u],
            None => Seq::empty(),
        }
    } else {
        c.upstreams@
    }
}

impl Config {
    /// The upstreams in effect: the `upstreams` list, or the single
    /// `upstream` when the list is empty.
    pub fn configured_upstreams(&self) -> (r: Vec<&UpstreamConfig>)
        ensures
            r@.len() == configured_upstreams_of(*self).len(),
            forall|i: int| 0 <= i < r@.len() ==> *r@[i] == configured_upstreams_of(*self)[i],
    {
        let mut out: Vec<&UpstreamConfig> = Vec::new();
        if self.upstreams.len() == 0 {
            match &self.upstream {
                Some(u) => {
                    out.push(u);
                },
                None => {},
            }
        } else {
            let mut i: usize = 0;
            while i < self.upstreams.len()
                invariant
                    i <= self.upstreams@.len(),
                    self.upstreams@.len() > 0,
                    out@.len() == i,
                    forall|k: int| 0 <= k < i ==> *out@[k] == self.upstreams@[k],
                decreases self.upstreams.len() - i,
            {
                out.push(&self.upstreams[i]);
                i = i + 1;
            }
        }
        out
    }
}

} // verus!
