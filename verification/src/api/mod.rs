//! The decisions behind the HTTP API: the bearer-token gate and the
//! upload and create steps of an import. Routing and I/O live in the
//! server.

pub mod auth;
pub mod upload;
pub mod library;
pub mod videos;
pub mod hibi_proxy;
pub mod settings;
