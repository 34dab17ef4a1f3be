//! A CORS-bypassing reverse proxy core for HLS video: request validation,
//! the upstream retry protocol, response classification, cache and CORS
//! header policy, and the playlist rewriter that routes every referenced
//! URI back through the proxy.
pub mod text;
pub mod urls;
pub mod attr;
pub mod playlist;
pub mod headers;
pub mod policy;
pub mod request;
