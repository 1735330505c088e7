//! A proxy that speaks the Responses API to its clients and the Responses or the Chat Completions
//! API to its upstream.

pub mod codec;
pub mod config;
pub mod error;
pub mod headers;
pub mod json;
pub mod laws;
pub mod promise_laws;
pub mod proxy;
pub mod proxy_laws;
pub mod request;
pub mod request_laws;
pub mod response;
pub mod response_laws;
pub mod sse;
pub mod stream;
pub mod stream_laws;
pub mod text;
