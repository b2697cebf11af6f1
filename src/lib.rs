//! Core of an intercepting HTTP/HTTPS forward proxy: the domain filter, the
//! HTTP/1.x codec with chunked and content-coded bodies, the response mutator
//! (CSP stripping, ad-script removal, script injection), and the per-connection
//! decisions of the listener, the tunnel and the TLS interceptor.
pub mod text;
pub mod filter;
pub mod chunked;
pub mod codec;
pub mod encoding;
pub mod message;
pub mod mutate;
pub mod config;
pub mod proxy;
pub mod cache;
pub mod sniff;
pub mod resolve;
