//! A request-dispatch gateway between an HTTP server framework and per-request
//! handlers: header reconciliation, route registration, render-response
//! assembly and the caching policy for static assets, with machine-checked
//! contracts.

pub mod assets;
pub mod headers;
pub mod pool;
pub mod registry;
pub mod render;
pub mod response;
pub mod server_fn;
pub mod text;
