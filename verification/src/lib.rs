//! Verified core of an API-format conversion proxy: SSE decoding, JSON
//! request/response conversion between the Responses, Chat Completions and
//! Anthropic Messages formats, upstream routing decisions, rate limiting,
//! configuration parsing, traffic statistics and the log ring buffer.

pub mod text;
pub mod sse;
pub mod json;
pub mod types;
pub mod convert;
pub mod config;
pub mod upstream;
pub mod models;
pub mod desktop;
pub mod rectifier;
pub mod bridge;
pub mod chat;
pub mod messages;
pub mod responses_stream;
pub mod stats;
pub mod logs;
pub mod routing;
