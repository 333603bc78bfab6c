//! Conversions between the Responses, Chat Completions and Anthropic
//! Messages API shapes.

pub mod ids;
pub mod requests;
pub mod responses;
pub mod anthropic;
pub mod stream;
