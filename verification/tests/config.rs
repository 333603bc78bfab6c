use open_promux::config::{
    normalize_auth_header, parse_upstream_proxy, Config, LoadBalanceStrategy, UpstreamApiFormat,
    UpstreamProxyConfig, UpstreamProxyType,
};

fn alias<'a>(config: &'a Config, model: &str) -> Option<&'a str> {
    config
        .routing
        .model_aliases
        .iter()
        .find(|(k, _)| k == model)
        .map(|(_, v)| v.as_str())
}

#[test]
fn config_should_default_missing_auth_header_to_openai_authorization() {
    let config = Config::from_toml_str(
        r#"
[upstream]
url = "http://example.com/v1"
api_key = "test-key"
"#,
    )
    .unwrap();

    assert_eq!(config.upstream.as_ref().unwrap().auth_header, "Authorization");
}

#[test]
fn config_should_default_empty_auth_header_to_openai_authorization() {
    let config = Config::from_toml_str(
        r#"
[upstream]
url = "http://example.com/v1"
api_key = "test-key"
auth_header = ""
"#,
    )
    .unwrap();

    assert_eq!(config.upstream.as_ref().unwrap().auth_header, "Authorization");
}

#[test]
fn config_should_parse_multiple_upstreams_without_legacy_upstream() {
    let config = Config::from_toml_str(
        r#"
[[upstreams]]
name = "upstream-a"
url = "http://upstream-a.example/v1"
api_key = "key-a"

[[upstreams]]
name = "upstream-b"
url = "http://upstream-b.example/v1"
api_key = "key-b"
auth_header = "api-key"
"#,
    )
    .unwrap();

    assert_eq!(config.configured_upstreams().len(), 2);
    assert_eq!(config.upstreams[0].name.as_deref(), Some("upstream-a"));
}

#[test]
fn config_should_parse_proxy_auth_key() {
    let config = Config::from_toml_str(
        r#"
port = 8080
auth_key = "proxy-secret"

[upstream]
url = "http://example.com/v1"
"#,
    )
    .unwrap();

    assert_eq!(config.auth_key.as_deref(), Some("proxy-secret"));
}

#[test]
fn config_should_default_performance_routing_and_rate_limits_to_disabled() {
    let config = Config::from_toml_str(
        r#"
[upstream]
url = "http://example.com/v1"
"#,
    )
    .unwrap();

    assert_eq!(config.performance.upstream_max_concurrent_requests, None);
    assert_eq!(config.performance.global_rpm, None);
    assert_eq!(config.performance.global_tpm, None);
    assert_eq!(config.routing.load_balance, LoadBalanceStrategy::First);
    assert!(!config.routing.automatic_failover);
    assert_eq!(config.routing.fallback_model, None);
    assert!(!config.routing.expose_model_aliases);
    assert!(config.routing.model_aliases.is_empty());
    assert!(!config.health.enabled);
    assert_eq!(config.health.interval_millis, 30_000);
    assert_eq!(config.health.unhealthy_after_failures, 3);
    assert!(config.rectifier.enabled);
    assert!(config.rectifier.thinking_signature);
    assert!(config.rectifier.thinking_budget);
    assert_eq!(config.upstream.as_ref().unwrap().max_concurrent_requests, None);
    assert_eq!(config.upstream.as_ref().unwrap().rpm, None);
    assert_eq!(config.upstream.as_ref().unwrap().tpm, None);
}

#[test]
fn config_should_parse_routing_and_rate_limit_settings() {
    let config = Config::from_toml_str(
        r#"
[performance]
upstream_max_concurrent_requests = 16
global_rpm = 100
global_tpm = 1000

[routing]
load_balance = "round_robin"
automatic_failover = true
fallback_model = "local:qwen3-coder"
expose_model_aliases = true

[routing.model_aliases]
"gpt-5.5" = "local:qwen3-coder"
"gpt-5.4-mini" = "openai:gpt-4.1-mini"

[health]
enabled = true
interval_millis = 1000
unhealthy_after_failures = 2

[rectifier]
enabled = false
thinking_signature = false
thinking_budget = false

[upstream]
url = "http://example.com/v1"
max_concurrent_requests = 4
rpm = 10
tpm = 200
"#,
    )
    .unwrap();

    assert_eq!(config.performance.upstream_max_concurrent_requests, Some(16));
    assert_eq!(config.performance.global_rpm, Some(100));
    assert_eq!(config.performance.global_tpm, Some(1000));
    assert_eq!(config.routing.load_balance, LoadBalanceStrategy::RoundRobin);
    assert!(config.routing.automatic_failover);
    assert_eq!(config.routing.fallback_model.as_deref(), Some("local:qwen3-coder"));
    assert!(config.routing.expose_model_aliases);
    assert_eq!(alias(&config, "gpt-5.5"), Some("local:qwen3-coder"));
    assert_eq!(alias(&config, "gpt-5.4-mini"), Some("openai:gpt-4.1-mini"));
    assert!(config.health.enabled);
    assert_eq!(config.health.interval_millis, 1000);
    assert_eq!(config.health.unhealthy_after_failures, 2);
    assert!(!config.rectifier.enabled);
    assert!(!config.rectifier.thinking_signature);
    assert!(!config.rectifier.thinking_budget);
    assert_eq!(config.upstream.as_ref().unwrap().max_concurrent_requests, Some(4));
    assert_eq!(config.upstream.as_ref().unwrap().rpm, Some(10));
    assert_eq!(config.upstream.as_ref().unwrap().tpm, Some(200));
}

#[test]
fn config_should_parse_upstream_http_proxy_without_auth() {
    let config = Config::from_toml_str(
        r#"
[upstream]
url = "http://example.com/v1"
proxy = "127.0.0.1:7890"
proxy_type = "http"
"#,
    )
    .unwrap();

    let upstream = config.upstream.as_ref().unwrap();
    let proxy = upstream.proxy.as_ref().unwrap();

    assert_eq!(proxy.host, "127.0.0.1");
    assert_eq!(proxy.port, 7890);
    assert!(proxy.username.is_none());
    assert!(proxy.password.is_none());
    assert_eq!(upstream.proxy_type, UpstreamProxyType::Http);
}

#[test]
fn config_should_parse_upstream_socket_proxy_with_auth() {
    let config = Config::from_toml_str(
        r#"
[upstream]
url = "http://example.com/v1"
proxy = "proxy.example.com:1080:user:pass"
proxy_type = "socket"
"#,
    )
    .unwrap();

    let upstream = config.upstream.as_ref().unwrap();
    let proxy = upstream.proxy.as_ref().unwrap();

    assert_eq!(proxy.host, "proxy.example.com");
    assert_eq!(proxy.port, 1080);
    assert_eq!(proxy.username.as_deref(), Some("user"));
    assert_eq!(proxy.password.as_deref(), Some("pass"));
    assert_eq!(upstream.proxy_type, UpstreamProxyType::Socks);
}

#[test]
fn config_should_round_trip_through_toml_for_desktop_editor() {
    let original = Config::from_toml_str(
        r#"
port = 9090
auth_key = "secret"

[performance]
upstream_max_concurrent_requests = 32
global_rpm = 600
global_tpm = 120000

[routing]
load_balance = "round_robin"
automatic_failover = true
fallback_model = "openai:gpt-4.1-mini"
expose_model_aliases = true

[routing.model_aliases]
"gpt-5.5" = "openai:gpt-4.1"

[health]
enabled = true
interval_millis = 5000
unhealthy_after_failures = 2

[rectifier]
enabled = false
thinking_signature = false
thinking_budget = false

[[upstreams]]
name = "openai"
url = "https://api.openai.com/v1"
api_key = "sk-test"
proxy = "127.0.0.1:1080:user:pass"
proxy_type = "socks"
api_format = "anthropic_messages"
max_concurrent_requests = 16
rpm = 100
tpm = 50000
"#,
    )
    .unwrap();

    let toml_text = original.to_toml_string().expect("serialize config");
    let parsed = Config::from_toml_str(&toml_text).expect("reparse config");

    assert_eq!(parsed.port, 9090);
    assert_eq!(parsed.auth_key.as_deref(), Some("secret"));
    assert_eq!(parsed.performance.upstream_max_concurrent_requests, Some(32));
    assert_eq!(parsed.routing.load_balance, LoadBalanceStrategy::RoundRobin);
    assert!(parsed.routing.automatic_failover);
    assert_eq!(parsed.routing.fallback_model.as_deref(), Some("openai:gpt-4.1-mini"));
    assert!(parsed.routing.expose_model_aliases);
    assert_eq!(alias(&parsed, "gpt-5.5"), Some("openai:gpt-4.1"));
    assert!(parsed.health.enabled);
    assert_eq!(parsed.health.interval_millis, 5000);
    assert_eq!(parsed.health.unhealthy_after_failures, 2);
    assert!(!parsed.rectifier.enabled);
    assert!(!parsed.rectifier.thinking_signature);
    assert!(!parsed.rectifier.thinking_budget);

    let upstream = &parsed.upstreams[0];
    assert_eq!(upstream.name.as_deref(), Some("openai"));
    assert_eq!(upstream.url, "https://api.openai.com/v1");
    assert_eq!(upstream.api_key, "sk-test");
    let proxy = upstream.proxy.as_ref().expect("proxy preserved");
    assert_eq!(proxy.host, "127.0.0.1");
    assert_eq!(proxy.port, 1080);
    assert_eq!(proxy.username.as_deref(), Some("user"));
    assert_eq!(proxy.password.as_deref(), Some("pass"));
    assert_eq!(upstream.proxy_type, UpstreamProxyType::Socks);
    assert_eq!(upstream.api_format, UpstreamApiFormat::AnthropicMessages);
    assert_eq!(upstream.max_concurrent_requests, Some(16));
    assert_eq!(upstream.rpm, Some(100));
    assert_eq!(upstream.tpm, Some(50000));
}

#[test]
fn proxy_address_should_round_trip_through_its_config_string() {
    let proxy = UpstreamProxyConfig::parse("proxy.example.com:1080:user:pass").unwrap();
    assert_eq!(proxy.to_config_string(), "proxy.example.com:1080:user:pass");
    let plain = UpstreamProxyConfig::parse("127.0.0.1:7890").unwrap();
    assert_eq!(plain.to_config_string(), "127.0.0.1:7890");
}

#[test]
fn proxy_address_should_reject_a_bad_port_and_a_missing_port() {
    assert!(UpstreamProxyConfig::parse("host:notaport").is_err());
    assert!(UpstreamProxyConfig::parse("host").is_err());
    assert!(UpstreamProxyConfig::parse("host:70000").is_err());
}

#[test]
fn empty_proxy_setting_means_no_proxy() {
    assert!(parse_upstream_proxy(None).unwrap().is_none());
    assert!(parse_upstream_proxy(Some("   ")).unwrap().is_none());
}

#[test]
fn auth_header_should_keep_a_custom_name() {
    assert_eq!(normalize_auth_header(Some("api-key".to_string())), "api-key");
    assert_eq!(normalize_auth_header(None), "Authorization");
}

#[test]
fn config_enums_should_round_trip_through_their_config_names() {
    for s in ["first", "round_robin"] {
        assert_eq!(LoadBalanceStrategy::from_config_str(s).unwrap().as_config_str(), s);
    }
    for s in ["chat_completions", "anthropic_messages"] {
        assert_eq!(UpstreamApiFormat::from_config_str(s).unwrap().as_config_str(), s);
    }
    assert!(LoadBalanceStrategy::from_config_str("random").is_err());
    assert_eq!(UpstreamProxyType::Socks.scheme(), "socks5");
    assert_eq!(UpstreamProxyType::Http.scheme(), "http");
}

#[test]
fn config_should_reject_invalid_toml() {
    assert!(Config::from_toml_str("port = [").is_err());
}

#[test]
fn config_should_reject_a_float_where_an_integer_is_expected() {
    assert!(Config::from_toml_str("port = 8080.0\n").is_err());
    assert_eq!(Config::from_toml_str("port = 8080\n").unwrap().port, 8080);
}

#[test]
fn config_should_reject_a_datetime_where_text_is_expected() {
    assert!(Config::from_toml_str("[upstream]\nurl = 1979-05-27T07:32:00Z\n").is_err());
}

#[test]
fn config_should_ignore_floats_and_datetimes_under_unknown_keys() {
    let config = Config::from_toml_str("port = 9000\nratio = 0.5\nwhen = 1979-05-27\n").unwrap();
    assert_eq!(config.port, 9000);
}

#[test]
fn load_path_reports_read_and_parse_errors_with_the_path() {
    assert_eq!(
        Config::load_path("c.toml", Err("no such file".to_string())).unwrap_err(),
        "failed to read config file c.toml: no such file"
    );
    assert!(Config::load_path("c.toml", Ok("port = [".to_string()))
        .unwrap_err()
        .starts_with("failed to parse config file c.toml: "));
    assert_eq!(Config::load_path("c.toml", Ok("port = 9000\n".to_string())).unwrap().port, 9000);
}

#[test]
fn load_gives_the_configuration_of_a_valid_file() {
    assert_eq!(Config::load("c.toml", Ok("port = 9000\n".to_string())).port, 9000);
}

#[test]
fn aliases_come_out_in_key_order_whatever_the_file_order() {
    let config = Config::from_toml_str(
        r#"
[routing.model_aliases]
zeta = "m3"
alpha = "m1"
mid = "m2"
"#,
    )
    .unwrap();
    let keys: Vec<&str> = config.routing.model_aliases.iter().map(|(k, _)| k.as_str()).collect();
    assert_eq!(keys, vec!["alpha", "mid", "zeta"]);
    assert_eq!(alias(&config, "mid"), Some("m2"));
}
