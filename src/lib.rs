//! A loopback HTTP receiver for OAuth redirects: routing, callback
//! parameter extraction, static-asset resolution and authorization URLs.
//!
//! The library decides; the caller does the I/O. For each request the
//! caller asks `handle` for a `Step`, sends the response it names (first),
//! hands a callback payload to the host application, or reads the listed
//! files in order and answers with `serve_asset`.
pub mod assets;
pub mod authorize;
pub mod bridge;
pub mod bytes;
pub mod config;
pub mod metrics;
pub mod percent;
pub mod query;
pub mod router;

pub use assets::{
    candidates, content_kind, normalize_path, not_found, serve_asset, AssetRequest, Body,
    Candidate, ContentKind, Response,
};
pub use authorize::{authorization_url, ResponseType};
pub use bridge::DeliveryReport;
pub use config::{BindError, ServerConfig};
pub use metrics::disk_used_space;
pub use percent::{decode, encode};
pub use query::{callback_payload, extract, parse_query, query_param, CallbackPayload, QueryPair};
pub use router::{callback_page, handle, not_found_text, route, Method, Route, Step};
