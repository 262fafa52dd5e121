//! Verified core of the inbox web UI: HTTP request parsing, form and URL
//! coding, HTML rendering, Basic-auth checking, routing, and the framing of
//! calls to the inbox API. The I/O around it lives in the companion app.

pub mod text;
pub mod request;
pub mod render;
pub mod auth;
pub mod handler;
pub mod write_api;
pub mod api_reads;
pub mod store_reads;
pub mod views;
pub mod acceptor;
