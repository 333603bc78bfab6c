use open_promux::config::{UpstreamApiFormat, UpstreamConfig, UpstreamProxyType};
use open_promux::upstream::apply_upstream_auth;
use open_promux::desktop::{models_parse_error, models_status_error, desktop_auth_header, extract_chat_preview, sort_dedup_models, take_chars};

fn upstream(api_key: &str, auth_header: &str) -> UpstreamConfig {
    UpstreamConfig {
        name: None,
        url: "http://example.test/v1".to_string(),
        api_key: api_key.to_string(),
        auth_header: auth_header.to_string(),
        proxy: None,
        proxy_type: UpstreamProxyType::Http,
        api_format: UpstreamApiFormat::ChatCompletions,
        max_concurrent_requests: None,
        rpm: None,
        tpm: None,
    }
}

/// The value set for a header (names compare without regard to case).
fn header_value(header: &Option<(String, String)>, name: &str) -> Option<String> {
    match header {
        Some((n, v)) if n.eq_ignore_ascii_case(name) => Some(v.clone()),
        _ => None,
    }
}

#[test]
fn apply_upstream_auth_omits_header_when_api_key_is_empty() {
    let header = desktop_auth_header(&upstream("", ""));
    assert!(header_value(&header, "authorization").is_none());
}

#[test]
fn apply_upstream_auth_uses_authorization_with_bearer_prefix() {
    let header = desktop_auth_header(&upstream("sk-1", ""));
    assert_eq!(header_value(&header, "authorization").as_deref(), Some("Bearer sk-1"));
}

#[test]
fn apply_upstream_auth_preserves_existing_bearer_prefix() {
    let header = desktop_auth_header(&upstream("Bearer sk-1", ""));
    assert_eq!(header_value(&header, "authorization").as_deref(), Some("Bearer sk-1"));
}

#[test]
fn desktop_auth_header_keeps_lower_case_bearer_prefix() {
    let header = desktop_auth_header(&upstream("bearer k", "Authorization"));
    assert_eq!(header_value(&header, "authorization").as_deref(), Some("bearer k"));
}

#[test]
fn desktop_and_proxy_send_the_same_credentials() {
    for (key, name) in [("bearer k", "Authorization"), ("BEARER k", "authorization"), ("k", "Authorization"), ("k", "x-api-key"), ("", "Authorization")] {
        let u = upstream(key, name);
        assert_eq!(desktop_auth_header(&u), apply_upstream_auth(&u));
    }
}

#[test]
fn apply_upstream_auth_uses_custom_header_without_bearer_prefix() {
    let header = desktop_auth_header(&upstream("rawkey", "x-api-key"));
    assert_eq!(header_value(&header, "x-api-key").as_deref(), Some("rawkey"));
    // Authorization must not be set in this branch.
    assert!(header_value(&header, "authorization").is_none());
}

#[test]
fn extract_chat_preview_reads_chat_completions_message() {
    let body = r#"{"choices":[{"message":{"content":"pong"}}]}"#;
    assert_eq!(
        extract_chat_preview(body, UpstreamApiFormat::ChatCompletions),
        Some("pong".to_string())
    );
}

#[test]
fn extract_chat_preview_concatenates_anthropic_text_blocks() {
    let body = r#"{"content":[{"type":"text","text":"po"},{"type":"text","text":"ng"}]}"#;
    assert_eq!(
        extract_chat_preview(body, UpstreamApiFormat::AnthropicMessages),
        Some("pong".to_string())
    );
}

#[test]
fn extract_chat_preview_returns_none_for_unparseable_body() {
    assert_eq!(extract_chat_preview("not-json", UpstreamApiFormat::ChatCompletions), None);
}

#[test]
fn extract_chat_preview_returns_none_when_text_is_whitespace_only() {
    let body = r#"{"choices":[{"message":{"content":"   \n  "}}]}"#;
    assert_eq!(extract_chat_preview(body, UpstreamApiFormat::ChatCompletions), None);
}

#[test]
fn extract_chat_preview_trims_the_text() {
    let body = r#"{"choices":[{"message":{"content":"  pong \n"}}]}"#;
    assert_eq!(
        extract_chat_preview(body, UpstreamApiFormat::ChatCompletions),
        Some("pong".to_string())
    );
}

#[test]
fn sort_dedup_models_sorts_and_removes_duplicates() {
    let out = sort_dedup_models(vec!["b".into(), "a".into(), "b".into(), "c".into(), "a".into()]);
    assert_eq!(out, vec!["a".to_string(), "b".to_string(), "c".to_string()]);
}

#[test]
fn take_chars_counts_characters_not_bytes() {
    assert_eq!(take_chars("你好世界", 2), "你好");
    assert_eq!(take_chars("ab", 5), "ab");
}

#[test]
fn model_fetch_errors_quote_the_start_of_the_body() {
    let long = "x".repeat(500);
    let e = models_status_error("404 Not Found", &long);
    assert_eq!(e, format!("upstream 404 Not Found: {}", "x".repeat(300)));
    assert_eq!(models_status_error("500 Internal Server Error", "oops"), "upstream 500 Internal Server Error: oops");
    let p = models_parse_error("expected value at line 1 column 1", &long);
    assert_eq!(
        p,
        format!("parse /models response failed: expected value at line 1 column 1; body starts with: {}", "x".repeat(120))
    );
}

#[test]
fn preview_of_a_parsed_reply_is_trimmed() {
    let v = open_promux::json::Json::Object(vec![(
        "content".to_string(),
        open_promux::json::Json::Array(vec![open_promux::json::Json::Object(vec![
            ("type".to_string(), open_promux::json::Json::Str("text".to_string())),
            ("text".to_string(), open_promux::json::Json::Str("  pong \n".to_string())),
        ])]),
    )]);
    assert_eq!(
        open_promux::desktop::chat_preview_of_value(&v, UpstreamApiFormat::AnthropicMessages),
        Some("pong".to_string())
    );
    assert_eq!(open_promux::desktop::chat_preview_of_value(&v, UpstreamApiFormat::ChatCompletions), None);
}
