//! # Dioxus IPC Bridge
//!
//! An HTTP-like IPC bridge between JavaScript and Rust in Dioxus applications: requests
//! with methods, URLs, path parameters, query strings, headers and bodies go from
//! JavaScript to Rust route handlers; events go from Rust to JavaScript listeners.
//!
//! The library decides everything that does not touch the webview: it parses URLs,
//! query strings and bodies, selects the route that takes a request, builds responses
//! and errors, and writes the scripts that the webview runs. Running those scripts is
//! left to the application.

pub mod text;
pub mod param_map;
pub mod json;
pub mod response;
pub mod request;
pub mod parser;
pub mod router;
pub mod plugin;
pub mod bridge;
pub mod streaming;
pub mod prelude;

pub use bridge::IpcBridge;
pub use param_map::ParamMap;
pub use plugin::BridgePlugin;
pub use request::{EnrichedRequest, FileUpload, IpcRequest, RequestBody};
pub use response::{IpcError, IpcResponse};
pub use router::{IpcRouter, RawBody, RawMessage, RouteHandler};
pub use streaming::StreamingTask;
