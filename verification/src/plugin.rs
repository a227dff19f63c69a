//! Plugins that extend the bridge.
use vstd::prelude::*;
use crate::request::IpcRequest;
use crate::response::{IpcError, IpcResponse};

verus! {

/// Trait for implementing bridge plugins (logging, authentication, request and response
/// transformation, custom JavaScript).
///
/// An implementation may describe its name and its injected script with `is_named` and
/// `injects`: `name` and `inject_js` return only what these admit (by default they admit
/// anything).
pub trait BridgePlugin: Send + Sync {
    /// The names this plugin may give.
    open spec fn is_named(&self, name: Seq<char>) -> bool {
        true
    }

    /// The scripts (or no script) this plugin may inject.
    open spec fn injects(&self, script: Option<Seq<char>>) -> bool {
        true
    }

    /// Plugin identifier name.
    fn name(&self) -> (r: &str)
        ensures
            self.is_named(r@),
    ;

    /// Optional JavaScript code to inject during bridge initialization (`None` for a
    /// plugin that injects nothing).
    fn inject_js(&self) -> (r: Option<String>)
        ensures
            self.injects(crate::router::opt_view(r)),
    ;

    /// Called before a request is processed; may modify the request or reject it (by
    /// default it lets the request through unchanged).
    fn on_request(&self, req: &mut IpcRequest) -> (r: Result<(), IpcError>)
        default_ensures
            r is Ok,
            *final(req) == *old(req),
    {
        Ok(())
    }

    /// Called after a response is generated; may modify the response (by default it
    /// leaves the response unchanged).
    fn on_response(&self, res: &mut IpcResponse) -> (r: Result<(), IpcError>)
        default_ensures
            r is Ok,
            *final(res) == *old(res),
    {
        Ok(())
    }
}

} // verus!
