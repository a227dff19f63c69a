//! Commonly used items, for a single glob import.

pub use crate::bridge::IpcBridge;
pub use crate::param_map::ParamMap;
pub use crate::plugin::BridgePlugin;
pub use crate::request::{EnrichedRequest, IpcRequest, RequestBody};
pub use crate::response::{IpcError, IpcResponse};
pub use crate::router::{IpcRouter, RawBody, RawMessage, RouteHandler};
pub use crate::streaming::StreamingTask;
pub use serde_json::Value;
