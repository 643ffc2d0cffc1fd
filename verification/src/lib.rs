//! Configuration model and request/response rules of a DeepSeek web-chat
//! API proxy: default settings, validation of a loaded configuration,
//! account de-duplication, the model registry, and the pure parts of the
//! HTTP client (envelope decoding, header validation, WAF detection).

pub mod text;
pub mod config;
pub mod client;
