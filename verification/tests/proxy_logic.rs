use open_promux::routing::{model_list_after_refresh, messages_route, reply_handling, MessagesRoute, ReplyHandling, STREAMING_MESSAGES_UNSUPPORTED};
use open_promux::config::{
    Config, LoadBalanceStrategy, RectifierConfig, UpstreamApiFormat, UpstreamConfig,
    UpstreamProxyConfig, UpstreamProxyType,
};
use open_promux::json::Json;
use open_promux::models::{append_model_alias_items, merge_model_lists, rewrite_models_body};
use open_promux::rectifier::{
    extract_error_message, rectify_anthropic_retry_body, rectify_thinking_budget,
    rectify_thinking_signature, should_rectify_thinking_budget, should_rectify_thinking_signature,
};
use open_promux::routing::{
    attempt_action, can_failover, select_upstreams_for_model, select_upstreams_for_resolved_model,
    AttemptAction, AttemptOutcome,
};
use open_promux::types::{AnthropicMessage, AnthropicRequest};
use open_promux::upstream::{
    apply_upstream_auth, check_rate_limits, concurrency_limit, estimate_tokens_from_bytes,
    is_proxy_authorized, order_upstream_candidates, retry_delay_millis, select_index,
    should_retry_status, split_route_model, stats_upstream_name, upstream_health_snapshot,
    upstream_model_name, upstream_proxy_url, RateWindow, UpstreamHealth,
};

fn value_to_json(v: &serde_json::Value) -> Json {
    match v {
        serde_json::Value::Null => Json::Null,
        serde_json::Value::Bool(b) => Json::Bool(*b),
        serde_json::Value::Number(n) => Json::Number(n.to_string()),
        serde_json::Value::String(s) => Json::Str(s.clone()),
        serde_json::Value::Array(a) => Json::Array(a.iter().map(value_to_json).collect()),
        serde_json::Value::Object(m) => {
            Json::Object(m.iter().map(|(k, x)| (k.clone(), value_to_json(x))).collect())
        }
    }
}

fn json_to_value(j: &Json) -> serde_json::Value {
    match j {
        Json::Null => serde_json::Value::Null,
        Json::Bool(b) => serde_json::Value::Bool(*b),
        Json::Number(t) => serde_json::Value::Number(t.parse().expect("number text")),
        Json::Str(s) => serde_json::Value::String(s.clone()),
        Json::Array(a) => serde_json::Value::Array(a.iter().map(json_to_value).collect()),
        Json::Object(es) => {
            serde_json::Value::Object(es.iter().map(|(k, x)| (k.clone(), json_to_value(x))).collect())
        }
    }
}

fn parse_json_text(text: &str) -> Option<Json> {
    serde_json::from_str::<serde_json::Value>(text).ok().map(|v| value_to_json(&v))
}

fn to_json_text(j: &Json) -> String {
    json_to_value(j).to_string()
}

fn json(text: &str) -> Json {
    parse_json_text(text).expect("valid JSON")
}

fn same(a: &Json, expected: &str) -> bool {
    to_json_text(a) == to_json_text(&json(expected))
}

fn upstream(name: Option<&str>, url: &str) -> UpstreamConfig {
    UpstreamConfig {
        name: name.map(|s| s.to_string()),
        url: url.to_string(),
        api_key: String::new(),
        auth_header: "Authorization".to_string(),
        proxy: None,
        proxy_type: UpstreamProxyType::Http,
        api_format: UpstreamApiFormat::ChatCompletions,
        max_concurrent_requests: None,
        rpm: None,
        tpm: None,
    }
}

fn config(toml: &str) -> Config {
    Config::from_toml_str(toml).expect("valid config")
}

fn ids(list: &[&str]) -> Option<Vec<String>> {
    Some(list.iter().map(|s| s.to_string()).collect())
}

// ─── auth, retries, limits ───

#[test]
fn proxy_auth_key_must_match_as_bearer_token() {
    let c = config("auth_key = \"secret\"\n[upstream]\nurl = \"http://x\"\n");
    assert!(is_proxy_authorized(&c, Some("Bearer secret")));
    assert!(!is_proxy_authorized(&c, Some("secret")));
    assert!(!is_proxy_authorized(&c, None));
    let open = config("[upstream]\nurl = \"http://x\"\n");
    assert!(is_proxy_authorized(&open, None));
}

#[test]
fn upstream_auth_header_adds_bearer_only_for_authorization() {
    let mut u = upstream(None, "http://x");
    assert_eq!(apply_upstream_auth(&u), None);
    u.api_key = "sk".into();
    assert_eq!(apply_upstream_auth(&u), Some(("Authorization".to_string(), "Bearer sk".to_string())));
    u.auth_header = "x-api-key".into();
    assert_eq!(apply_upstream_auth(&u), Some(("x-api-key".to_string(), "sk".to_string())));
}

#[test]
fn retries_follow_the_status_and_back_off() {
    assert!(should_retry_status(429));
    assert!(should_retry_status(403));
    assert!(should_retry_status(503));
    assert!(!should_retry_status(404));
    assert!(!should_retry_status(200));
    assert_eq!(retry_delay_millis(0, true), Some(250));
    assert_eq!(retry_delay_millis(2, true), Some(750));
    assert_eq!(retry_delay_millis(3, true), None);
    assert_eq!(retry_delay_millis(0, false), None);
}

#[test]
fn token_estimate_is_a_quarter_of_the_bytes_rounded_up() {
    assert_eq!(estimate_tokens_from_bytes(b""), 1);
    assert_eq!(estimate_tokens_from_bytes(b"abcd"), 1);
    assert_eq!(estimate_tokens_from_bytes(b"abcde"), 2);
}

#[test]
fn concurrency_limit_prefers_the_upstream_setting() {
    assert_eq!(concurrency_limit(Some(4), Some(16)), Some(4));
    assert_eq!(concurrency_limit(None, Some(16)), Some(16));
    assert_eq!(concurrency_limit(Some(0), Some(16)), None);
    assert_eq!(concurrency_limit(None, Some(0)), None);
}

#[test]
fn rate_window_refuses_beyond_the_limit_until_the_minute_is_over() {
    let mut w = RateWindow::new(Some(2), 0).unwrap();
    assert!(w.try_acquire(1, 10));
    assert!(w.try_acquire(1, 20));
    assert!(!w.try_acquire(1, 30));
    assert!(!w.try_acquire(3, 70_000));
    assert!(w.try_acquire(1, 60_000));
    assert!(RateWindow::new(Some(0), 0).is_none());
    assert!(RateWindow::new(None, 0).is_none());
}

#[test]
fn global_rpm_of_one_refuses_the_second_request_of_the_minute() {
    let mut requests = RateWindow::new(Some(1), 0);
    let mut tokens = None;
    assert!(check_rate_limits(&mut requests, &mut tokens, 5, 100));
    assert_eq!(requests.unwrap().used, 1);
    assert!(!check_rate_limits(&mut requests, &mut tokens, 5, 59_999));
    assert_eq!(requests.unwrap().used, 1);
    assert!(check_rate_limits(&mut requests, &mut tokens, 5, 60_000));
    assert_eq!(requests.unwrap().started_at_ms, 60_000);
}

#[test]
fn token_budget_is_checked_after_the_request_budget() {
    let mut requests = RateWindow::new(Some(1), 0);
    let mut tokens = RateWindow::new(Some(100), 0);
    assert!(check_rate_limits(&mut requests, &mut tokens, 60, 1));
    assert!(!check_rate_limits(&mut requests, &mut tokens, 10, 2));
    assert_eq!(tokens.unwrap().used, 60);
    let mut none_r = None;
    let mut none_t = None;
    assert!(check_rate_limits(&mut none_r, &mut none_t, u64::MAX, 0));
}

#[test]
fn health_turns_bad_after_the_configured_failures_and_recovers() {
    let mut h = UpstreamHealth::new();
    let first = h.set_health_check_result(false, 2);
    assert!(first.first_check);
    assert!(first.current_healthy);
    let second = h.set_health_check_result(false, 2);
    assert!(!second.current_healthy);
    assert_eq!(second.failures, 2);
    let third = h.set_health_check_result(true, 2);
    assert!(third.current_healthy);
    assert_eq!(third.failures, 0);
}

#[test]
fn health_snapshot_lists_upstreams_in_order() {
    let a = upstream(Some("a"), "http://a");
    let b = upstream(None, "http://b");
    let mut hb = UpstreamHealth::new();
    hb.set_health_check_result(false, 1);
    let snap = upstream_health_snapshot(&vec![&a, &b], &vec![UpstreamHealth::new(), hb]);
    assert_eq!(snap.len(), 2);
    assert_eq!(snap[0].name.as_deref(), Some("a"));
    assert_eq!(snap[1].index, 1);
    assert_eq!(snap[1].url, "http://b");
    assert!(!snap[1].healthy);
    assert!(snap[1].checked);
}

#[test]
fn proxy_url_and_stats_names() {
    let mut u = upstream(None, "http://x");
    assert_eq!(stats_upstream_name(&u), "http://x");
    assert_eq!(upstream_proxy_url(&u), None);
    u.proxy = Some(UpstreamProxyConfig { host: "h".into(), port: 1080, username: Some("u".into()), password: Some("p".into()) });
    u.proxy_type = UpstreamProxyType::Socks;
    assert_eq!(
        upstream_proxy_url(&u),
        Some(("socks5://h:1080".to_string(), Some(("u".to_string(), "p".to_string()))))
    );
    u.name = Some("n".into());
    assert_eq!(stats_upstream_name(&u), "n");
}

// ─── routing ───

#[test]
fn route_model_prefix_is_split_and_stripped() {
    assert_eq!(split_route_model("local:qwen:7b"), Some(("local".to_string(), "qwen:7b".to_string())));
    assert_eq!(split_route_model("gpt"), None);
    assert_eq!(upstream_model_name(Some("local"), "local:qwen"), "qwen");
    assert_eq!(upstream_model_name(Some("other"), "local:qwen"), "local:qwen");
    assert_eq!(upstream_model_name(None, "local:qwen"), "local:qwen");
}

#[test]
fn round_robin_rotates_the_candidates() {
    assert_eq!(select_index(LoadBalanceStrategy::RoundRobin, 5, 3), (2, 6));
    assert_eq!(select_index(LoadBalanceStrategy::First, 5, 3), (0, 5));
    assert_eq!(order_upstream_candidates(vec![0, 1, 2], LoadBalanceStrategy::RoundRobin, 1), vec![1, 2, 0]);
    assert_eq!(order_upstream_candidates(vec![0, 1, 2], LoadBalanceStrategy::First, 1), vec![0, 1, 2]);
}

#[test]
fn routing_picks_healthy_upstreams_that_list_the_model() {
    let a = upstream(Some("a"), "http://a");
    let b = upstream(Some("b"), "http://b");
    let c = upstream(Some("c"), "http://c");
    let ups = vec![&a, &b, &c];
    let healthy = vec![true, false, true];
    let lists = vec![ids(&["m1"]), ids(&["m1"]), ids(&["m1", "m2"])];
    let (sel, counter) = select_upstreams_for_resolved_model(
        &ups, &healthy, &lists, Some("m1"), false, LoadBalanceStrategy::RoundRobin, 1,
    );
    let order: Vec<usize> = sel.iter().map(|s| s.index).collect();
    assert_eq!(order, vec![2, 0]);
    assert_eq!(counter, 2);
    assert!(sel.iter().all(|s| s.upstream_model.as_deref() == Some("m1")));

    let (named, _) = select_upstreams_for_resolved_model(
        &ups, &healthy, &lists, Some("c:m2"), false, LoadBalanceStrategy::First, 0,
    );
    assert_eq!(named.len(), 1);
    assert_eq!(named[0].index, 2);
    assert_eq!(named[0].upstream_model.as_deref(), Some("m2"));

    let (none, _) = select_upstreams_for_resolved_model(
        &ups, &healthy, &lists, Some("b:m1"), false, LoadBalanceStrategy::First, 0,
    );
    assert!(none.is_empty());
}

#[test]
fn routing_with_one_upstream_sends_the_model_without_prefix() {
    let a = upstream(Some("a"), "http://a");
    let ups = vec![&a];
    let (sel, _) = select_upstreams_for_resolved_model(
        &ups, &vec![false], &vec![None], Some("a:m"), false, LoadBalanceStrategy::First, 0,
    );
    assert_eq!(sel.len(), 1);
    assert_eq!(sel[0].index, 0);
    assert_eq!(sel[0].upstream_model.as_deref(), Some("m"));
}

#[test]
fn routing_uses_aliases_and_the_fallback_model() {
    let c = config(
        r#"
[routing]
fallback_model = "local:qwen"
[routing.model_aliases]
"gpt-5" = "remote:gpt-4"
[[upstreams]]
name = "local"
url = "http://local"
[[upstreams]]
name = "remote"
url = "http://remote"
"#,
    );
    let ups = c.configured_upstreams();
    let healthy = vec![true, true];
    let lists = vec![ids(&["qwen"]), ids(&["gpt-4"])];
    let (sel, _) = select_upstreams_for_model(&c, &ups, &healthy, &lists, Some("gpt-5"), 0);
    assert_eq!(sel.len(), 1);
    assert_eq!(sel[0].index, 1);
    assert_eq!(sel[0].upstream_model.as_deref(), Some("gpt-4"));
    assert_eq!(sel[0].requested_model.as_deref(), Some("gpt-5"));
    assert_eq!(sel[0].route_model.as_deref(), Some("remote:gpt-4"));
    assert!(!sel[0].used_fallback);

    let (fb, _) = select_upstreams_for_model(&c, &ups, &healthy, &lists, Some("missing"), 0);
    assert_eq!(fb.len(), 1);
    assert_eq!(fb[0].index, 0);
    assert_eq!(fb[0].upstream_model.as_deref(), Some("qwen"));
    assert_eq!(fb[0].route_model.as_deref(), Some("local:qwen"));
    assert!(fb[0].used_fallback);
}

// ─── model lists ───

#[test]
fn model_lists_merge_with_prefixes_and_aliases() {
    let lists = vec![
        (Some("a".to_string()), vec![json(r#"{"id": "m1"}"#)]),
        (None, vec![json(r#"{"id": "m2"}"#)]),
    ];
    let aliases = vec![("alias".to_string(), "a:m1".to_string())];
    let merged = merge_model_lists(lists, true, &aliases);
    let text = to_json_text(&merged);
    assert!(text.contains("\"a:m1\""));
    assert!(text.contains("\"m2\""));
    assert!(text.contains("\"alias\""));
    assert!(text.contains("\"object\":\"list\""));
}

#[test]
fn single_upstream_model_body_is_rewritten_only_when_needed() {
    let aliases: Vec<(String, String)> = Vec::new();
    let body = br#"{"data": [{"id": "m"}]}"#;
    assert_eq!(rewrite_models_body(body, None, false, &aliases), None);
    let rewritten = rewrite_models_body(body, Some("up"), false, &aliases).unwrap();
    assert!(rewritten.contains("\"up:m\""));
    assert_eq!(rewrite_models_body(b"not json", Some("up"), false, &aliases), None);
    let mut listed = json(r#"{"data": [{"id": "x"}]}"#);
    append_model_alias_items(&mut listed, &vec![("x".to_string(), "y".to_string()), ("z".to_string(), "y".to_string())]);
    let t = to_json_text(&listed);
    assert_eq!(t.matches("\"x\"").count(), 1);
    assert!(t.contains("\"z\""));
}

// ─── rectifier ───

fn anthropic_request(messages: Vec<AnthropicMessage>, thinking: Option<&str>, max_tokens: u32) -> AnthropicRequest {
    AnthropicRequest {
        model: "anthropic-model".into(),
        max_tokens,
        messages,
        system: None,
        stream: None,
        temperature: None,
        top_p: None,
        tools: None,
        tool_choice: None,
        extra: match thinking {
            Some(t) => vec![("thinking".to_string(), json(t))],
            None => Vec::new(),
        },
    }
}

#[test]
fn rectifier_recognises_its_errors() {
    assert_eq!(
        extract_error_message(br#"{"error": {"message": "Invalid signature in thinking block"}}"#).as_deref(),
        Some("Invalid signature in thinking block")
    );
    assert_eq!(extract_error_message(br#"{"message": "m"}"#).as_deref(), Some("m"));
    assert_eq!(extract_error_message(b"plain"), None);
    assert!(should_rectify_thinking_signature(Some("Invalid signature in thinking block")));
    assert!(should_rectify_thinking_signature(Some("非法请求")));
    assert!(!should_rectify_thinking_signature(Some("rate limited")));
    assert!(!should_rectify_thinking_signature(None));
    assert!(should_rectify_thinking_budget(Some("thinking.budget_tokens: Input should be greater than or equal to 1024")));
    assert!(!should_rectify_thinking_budget(Some("thinking budget too small")));
}

#[test]
fn signature_rectifier_drops_thinking_blocks_and_signatures() {
    let mut req = anthropic_request(
        vec![AnthropicMessage {
            role: "assistant".into(),
            content: json(
                r#"[{"type": "thinking", "thinking": "t", "signature": "s"},
                    {"type": "text", "text": "x", "signature": "s2"},
                    {"type": "tool_use", "id": "1", "name": "f", "input": {}}]"#,
            ),
        }],
        Some(r#"{"type": "enabled", "budget_tokens": 2000}"#),
        4000,
    );
    assert!(rectify_thinking_signature(&mut req));
    assert!(same(
        &req.messages[0].content,
        r#"[{"type": "text", "text": "x"}, {"type": "tool_use", "id": "1", "name": "f", "input": {}}]"#
    ));
    assert!(req.extra.is_empty());
    assert!(!rectify_thinking_signature(&mut req));
}

#[test]
fn budget_rectifier_raises_the_budget_and_max_tokens() {
    let mut req = anthropic_request(vec![], Some(r#"{"type": "enabled", "budget_tokens": 100}"#), 1000);
    assert!(rectify_thinking_budget(&mut req));
    assert_eq!(req.max_tokens, 64000);
    assert!(same(&req.extra[0].1, r#"{"type": "enabled", "budget_tokens": 32000}"#));
    let mut adaptive = anthropic_request(vec![], Some(r#"{"type": "adaptive"}"#), 1000);
    assert!(!rectify_thinking_budget(&mut adaptive));
}

#[test]
fn retry_body_is_only_built_when_the_rectifier_applies() {
    let cfg = RectifierConfig { enabled: true, thinking_signature: true, thinking_budget: true };
    let err = br#"{"error": {"message": "thinking.budget_tokens: Input should be greater than or equal to 1024"}}"#;
    let req = anthropic_request(vec![], None, 1000);
    let retried = rectify_anthropic_retry_body(&cfg, req, err).unwrap();
    assert_eq!(retried.max_tokens, 64000);
    let off = RectifierConfig { enabled: false, thinking_signature: true, thinking_budget: true };
    assert!(rectify_anthropic_retry_body(&off, anthropic_request(vec![], None, 1000), err).is_none());
    assert!(rectify_anthropic_retry_body(&cfg, anthropic_request(vec![], None, 1000), b"{}").is_none());
}

// ─── failover decisions ───


#[test]
fn failover_moves_on_only_before_the_last_upstream() {
    assert!(can_failover(true, 0, 2));
    assert!(!can_failover(true, 1, 2));
    assert!(!can_failover(false, 0, 2));
    assert_eq!(attempt_action(true, AttemptOutcome::RateLimited), AttemptAction::TryNext);
    assert_eq!(attempt_action(false, AttemptOutcome::RateLimited), AttemptAction::Fail(429));
    assert_eq!(attempt_action(false, AttemptOutcome::SendFailed), AttemptAction::Fail(502));
    assert_eq!(attempt_action(true, AttemptOutcome::Responded(503)), AttemptAction::TryNext);
    assert_eq!(attempt_action(true, AttemptOutcome::Responded(400)), AttemptAction::Use);
    assert_eq!(attempt_action(false, AttemptOutcome::Responded(503)), AttemptAction::Use);
    // At the last upstream nothing is handed on.
    for outcome in [AttemptOutcome::RateLimited, AttemptOutcome::SendFailed, AttemptOutcome::Responded(500)] {
        assert_ne!(attempt_action(can_failover(true, 2, 3), outcome), AttemptAction::TryNext);
    }
}

#[test]
fn error_answers_are_passed_through_and_others_converted_or_streamed() {
    assert_eq!(reply_handling(400, false), ReplyHandling::PassThroughError);
    assert_eq!(reply_handling(503, true), ReplyHandling::PassThroughError);
    assert_eq!(reply_handling(599, false), ReplyHandling::PassThroughError);
    assert_eq!(reply_handling(200, true), ReplyHandling::Stream);
    assert_eq!(reply_handling(200, false), ReplyHandling::Convert);
    assert_eq!(reply_handling(399, false), ReplyHandling::Convert);
}

#[test]
fn streamed_messages_through_a_chat_upstream_are_not_implemented() {
    assert_eq!(messages_route(UpstreamApiFormat::AnthropicMessages, true), MessagesRoute::Passthrough);
    assert_eq!(messages_route(UpstreamApiFormat::AnthropicMessages, false), MessagesRoute::Passthrough);
    assert_eq!(messages_route(UpstreamApiFormat::ChatCompletions, true), MessagesRoute::Unsupported);
    assert_eq!(messages_route(UpstreamApiFormat::ChatCompletions, false), MessagesRoute::ViaChat);
    assert_eq!(
        STREAMING_MESSAGES_UNSUPPORTED,
        "Streaming `/v1/messages` against a ChatCompletions upstream is not yet implemented. \
         Use an `api_format = \"anthropic_messages\"` upstream, or call `/v1/responses` (which already bridges Responses → Chat / Anthropic in both directions)."
    );
}

#[test]
fn model_lists_are_fetched_only_when_routing_needs_them() {
    use_needs(true, 2, false, true);
    use_needs(true, 1, true, true);
    use_needs(true, 1, false, false);
    use_needs(false, 3, true, false);
}

fn use_needs(has_model: bool, count: usize, fallback: bool, expected: bool) {
    assert_eq!(open_promux::routing::needs_model_lists(has_model, count, fallback), expected);
}

#[test]
fn client_credentials_and_host_are_not_forwarded() {
    use_forward("host", false, false);
    use_forward("authorization", false, false);
    use_forward("x-api-key", false, true);
    use_forward("x-api-key", true, false);
    use_forward("anthropic-beta", true, true);
    use_forward("content-type", false, true);
}

fn use_forward(name: &str, anthropic: bool, expected: bool) {
    assert_eq!(open_promux::routing::forwarded_header(name, anthropic), expected);
}

#[test]
fn a_failed_refresh_falls_back_to_the_stale_list() {
    assert_eq!(model_list_after_refresh(Ok(1), Some(2)), Ok(1));
    assert_eq!(model_list_after_refresh(Err(502), Some(2)), Ok(2));
    assert_eq!(model_list_after_refresh::<i32>(Err(502), None), Err(502));
}

#[test]
fn request_facts_read_stream_and_model_from_the_body() {
    let (body, is_stream, model) = open_promux::upstream::request_facts(br#"{"model":"m1","stream":true}"#);
    assert!(is_stream);
    assert_eq!(model.as_deref(), Some("m1"));
    assert_eq!(body.get_str("model"), Some("m1"));
    let (body, is_stream, model) = open_promux::upstream::request_facts(b"not json");
    assert!(matches!(body, Json::Null));
    assert!(!is_stream);
    assert!(model.is_none());
    let (_, is_stream, model) = open_promux::upstream::request_facts(br#"{"model":7,"stream":"yes"}"#);
    assert!(!is_stream);
    assert!(model.is_none());
}

#[test]
fn model_items_are_the_data_array_of_the_body() {
    let items = open_promux::models::model_items_of_body(br#"{"object":"list","data":[{"id":"a"},{"id":"b"}]}"#).unwrap();
    assert_eq!(items.len(), 2);
    assert_eq!(items[1].get_str("id"), Some("b"));
    assert_eq!(open_promux::models::model_items_of_body(br#"{"object":"list"}"#).unwrap().len(), 0);
    assert!(open_promux::models::model_items_of_body(b"<html>").is_none());
}

#[test]
fn error_message_of_a_parsed_body_prefers_the_nested_message() {
    let nested = Json::Object(vec![(
        "error".to_string(),
        Json::Object(vec![("message".to_string(), Json::Str("inner".to_string()))]),
    )]);
    assert_eq!(open_promux::rectifier::error_message_of_json(&nested), "inner");
    let flat = Json::Object(vec![("message".to_string(), Json::Str("outer".to_string()))]);
    assert_eq!(open_promux::rectifier::error_message_of_json(&flat), "outer");
    let other = Json::Object(vec![("code".to_string(), Json::Number("5".to_string()))]);
    assert_eq!(open_promux::rectifier::error_message_of_json(&other), "{\"code\":5}");
}

#[test]
fn token_counts_fit_when_their_sum_fits() {
    use_fits(Some((1, 2)), true);
    use_fits(Some((u32::MAX, 1)), false);
    use_fits(Some((u32::MAX, 0)), true);
    use_fits(None, true);
}

fn use_fits(u: Option<(u32, u32)>, expected: bool) {
    let u = u.map(|(i, o)| open_promux::types::AnthropicUsage { input_tokens: i, output_tokens: o });
    assert_eq!(open_promux::convert::responses::usage_fits(&u), expected);
}
