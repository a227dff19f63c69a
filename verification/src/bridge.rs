//! The JavaScript side of the bridge: the script that sets up `window.dioxusBridge`,
//! and the scripts that deliver events and responses to it.
use vstd::prelude::*;
use core::time::Duration;
use crate::json::{json_text, value_text};
use crate::text::{decimal, decimal_string, digit_char, push_str, string_from};

verus! {

/// The bridge script up to the first place of the timeout.
pub const BRIDGE_SCRIPT_HEAD: &'static str = r#"
        // Complete Dioxus Bridge - Unified IPC API
        // Preserve existing properties (like IPCBridge from React) if already initialized
        if (!window.dioxusBridge) {
            window.dioxusBridge = {};
        }

        // Preserve IPCBridge if it was already attached by React
        const existingIPCBridge = window.dioxusBridge.IPCBridge;

        // Preserve or create callbacks Map (MUST be same reference)
        if (!window.dioxusBridge.callbacks) {
            window.dioxusBridge.callbacks = new Map();
        }
        const callbacks = window.dioxusBridge.callbacks;

        // Add/update core Rust-provided properties
        Object.assign(window.dioxusBridge, {
            // Internal callback storage (previously window.dioxusBridgeCallbacks)
            callbacks: callbacks,

            // HTTP-like fetch() method for IPC communication
            fetch: function(url, options = {}) {
                return new Promise((resolve, reject) => {
                    const requestId = Math.floor(Math.random() * 1000000);

                    // Store callback in namespaced location (use explicit reference)
                    window.dioxusBridge.callbacks.set(requestId, {resolve, reject});

                    // Build HTTP-like IPC request
                    const request = {
                        id: requestId,
                        method: options.method || 'GET',
                        url: url,
                        headers: options.headers || {},
                        body: options.body
                    };

                    // Send to Rust via dioxus.send()
                    if (typeof dioxus !== 'undefined' && typeof dioxus.send === 'function') {
                        dioxus.send(request);
                    } else {
                        reject(new Error('dioxus.send() not available'));
                        return;
                    }

                    // Configurable timeout
                    setTimeout(() => {
                        if (window.dioxusBridge && window.dioxusBridge.callbacks && window.dioxusBridge.callbacks.has(requestId)) {
                            window.dioxusBridge.callbacks.delete(requestId);
                            reject(new Error('Request timeout after "#;

/// The bridge script between the two places of the timeout.
pub const BRIDGE_SCRIPT_MIDDLE: &'static str = r#" ms'));
                        }
                    }, "#;

/// The bridge script after the second place of the timeout.
pub const BRIDGE_SCRIPT_TAIL: &'static str = r#");
                });
            },

            // Rust → React event emitter (previously window.rustEmit)
            rustEmit: function(channel, data) {
                if (window.dioxusBridge.IPCBridge && typeof window.dioxusBridge.IPCBridge.emit === 'function') {
                    window.dioxusBridge.IPCBridge.emit(channel, data);
                } else {
                    console.warn('[Rust] IPCBridge not available, event not emitted:', channel);
                }
            },

            // Direct IPC interface
            ipc: {
                send: function(data) {
                    if (typeof dioxus !== 'undefined' && typeof dioxus.send === 'function') {
                        dioxus.send(data);
                    } else {
                        console.error('[Rust] dioxus.send() not available');
                    }
                },
                hasIPCBridge: function() {
                    return typeof window.dioxusBridge.IPCBridge !== 'undefined';
                }
            },

            // Low-level send wrapper
            send: function(data) {
                if (window.dioxusBridge && window.dioxusBridge.ipc) {
                    window.dioxusBridge.ipc.send(data);
                }
            }
        });

        // Restore IPCBridge if it existed before
        if (existingIPCBridge) {
            window.dioxusBridge.IPCBridge = existingIPCBridge;
        }

        console.log('[Rust] window.dioxusBridge ready (Unified IPC API)');
        new Promise(() => {}); // Keep eval alive
        "#;

/// The bridge script with its built-in 10-second timeout.
pub const DIOXUS_BRIDGE_SCRIPT: &'static str = r#"
        // Complete Dioxus Bridge - Unified IPC API
        // Preserve existing properties (like IPCBridge from React) if already initialized
        if (!window.dioxusBridge) {
            window.dioxusBridge = {};
        }

        // Preserve IPCBridge if it was already attached by React
        const existingIPCBridge = window.dioxusBridge.IPCBridge;

        // Preserve or create callbacks Map (MUST be same reference)
        if (!window.dioxusBridge.callbacks) {
            window.dioxusBridge.callbacks = new Map();
        }
        const callbacks = window.dioxusBridge.callbacks;

        // Add/update core Rust-provided properties
        Object.assign(window.dioxusBridge, {
            // Internal callback storage (previously window.dioxusBridgeCallbacks)
            callbacks: callbacks,

            // HTTP-like fetch() method for IPC communication
            fetch: function(url, options = {}) {
                return new Promise((resolve, reject) => {
                    const requestId = Math.floor(Math.random() * 1000000);

                    // Store callback in namespaced location (use explicit reference)
                    window.dioxusBridge.callbacks.set(requestId, {resolve, reject});

                    // Build HTTP-like IPC request
                    const request = {
                        id: requestId,
                        method: options.method || 'GET',
                        url: url,
                        headers: options.headers || {},
                        body: options.body
                    };

                    // Send to Rust via dioxus.send()
                    if (typeof dioxus !== 'undefined' && typeof dioxus.send === 'function') {
                        dioxus.send(request);
                    } else {
                        reject(new Error('dioxus.send() not available'));
                        return;
                    }

                    // 10 second timeout
                    setTimeout(() => {
                        if (window.dioxusBridge && window.dioxusBridge.callbacks && window.dioxusBridge.callbacks.has(requestId)) {
                            window.dioxusBridge.callbacks.delete(requestId);
                            reject(new Error('Request timeout after 10 seconds'));
                        }
                    }, 10000);
                });
            },

            // Rust → React event emitter (previously window.rustEmit)
            rustEmit: function(channel, data) {
                if (window.dioxusBridge.IPCBridge && typeof window.dioxusBridge.IPCBridge.emit === 'function') {
                    window.dioxusBridge.IPCBridge.emit(channel, data);
                } else {
                    console.warn('[Rust] IPCBridge not available, event not emitted:', channel);
                }
            },

            // Direct IPC interface
            ipc: {
                send: function(data) {
                    if (typeof dioxus !== 'undefined' && typeof dioxus.send === 'function') {
                        dioxus.send(data);
                    } else {
                        console.error('[Rust] dioxus.send() not available');
                    }
                },
                hasIPCBridge: function() {
                    return typeof window.dioxusBridge.IPCBridge !== 'undefined';
                }
            },

            // Low-level send wrapper
            send: function(data) {
                if (window.dioxusBridge && window.dioxusBridge.ipc) {
                    window.dioxusBridge.ipc.send(data);
                }
            }
        });

        // Restore IPCBridge if it existed before
        if (existingIPCBridge) {
            window.dioxusBridge.IPCBridge = existingIPCBridge;
        }

        console.log('[Rust] window.dioxusBridge ready (Unified IPC API)');
        new Promise(() => {}); // Keep eval alive
    "#;

/// The event script up to the channel.
pub const EMIT_SCRIPT_HEAD: &'static str = r#"
        if (window.dioxusBridge && window.dioxusBridge.rustEmit) {
            window.dioxusBridge.rustEmit('"#;

/// The event script between the channel and the data.
pub const EMIT_SCRIPT_MIDDLE: &'static str = r#"', "#;

/// The event script after the data.
pub const EMIT_SCRIPT_TAIL: &'static str = r#");
        }
        "#;

/// The response script up to the first place of the request id.
pub const CALLBACK_SCRIPT_HEAD: &'static str = r#"
                                    if (window.dioxusBridge && window.dioxusBridge.callbacks) {
                                        const callback = window.dioxusBridge.callbacks.get("#;

/// The response script between the request id and the response.
pub const CALLBACK_SCRIPT_RESOLVE: &'static str = r#");
                                        if (callback) {
                                            callback.resolve("#;

/// The response script between the response and the second place of the request id.
pub const CALLBACK_SCRIPT_DELETE: &'static str = r#");
                                            window.dioxusBridge.callbacks.delete("#;

/// The response script after the second place of the request id.
pub const CALLBACK_SCRIPT_TAIL: &'static str = r#");
                                        }
                                    }
                                    "#;

} // verus!

verus! {

/// The total number of whole milliseconds in a duration (`Duration::as_millis`).
pub uninterp spec fn duration_millis(d: Duration) -> u128;

/// `Duration::clone`: durations are `Copy`, so the clone is the same duration.
pub assume_specification[ <core::time::Duration as Clone>::clone ](d: &Duration) -> (r: Duration)
    ensures
        r == *d,
;

/// `Duration::as_millis`.
#[verifier::external_body]
fn millis_of(d: &Duration) -> (r: u128)
    ensures
        r == duration_millis(*d),
{
    d.as_millis()
}

/// The duration that `Duration::from_secs` makes of a number of whole seconds.
pub uninterp spec fn duration_of_secs(secs: u64) -> Duration;

/// `Duration::from_secs`: the duration of `secs` whole seconds, so of `secs * 1000`
/// milliseconds.
#[verifier::external_body]
fn duration_from_secs(secs: u64) -> (r: Duration)
    ensures
        r == duration_of_secs(secs),
        duration_millis(r) == secs * 1000,
{
    Duration::from_secs(secs)
}

/// The bridge script with the given timeout text in its two places.
pub open spec fn bridge_script_text(timeout_ms: Seq<char>) -> Seq<char> {
    BRIDGE_SCRIPT_HEAD@ + timeout_ms + BRIDGE_SCRIPT_MIDDLE@ + timeout_ms + BRIDGE_SCRIPT_TAIL@
}

/// The script that delivers an event: `rustEmit('<channel>', <data>)`.
pub open spec fn emit_script_text(channel: Seq<char>, data_json: Seq<char>) -> Seq<char> {
    EMIT_SCRIPT_HEAD@ + channel + EMIT_SCRIPT_MIDDLE@ + data_json + EMIT_SCRIPT_TAIL@
}

/// The decimal text of a signed number.
pub open spec fn signed_decimal(n: i64) -> Seq<char> {
    if n < 0 {
        seq!['-'] + decimal((-n) as nat)
    } else {
        decimal(n as nat)
    }
}

/// The script that resolves the pending call `request_id` with a response.
pub open spec fn callback_script_text(request_id: i64, response_json: Seq<char>) -> Seq<char> {
    CALLBACK_SCRIPT_HEAD@ + signed_decimal(request_id) + CALLBACK_SCRIPT_RESOLVE@ + response_json
        + CALLBACK_SCRIPT_DELETE@ + signed_decimal(request_id) + CALLBACK_SCRIPT_TAIL@
}

/// The decimal text of a signed number.
fn signed_decimal_string(n: i64) -> (r: String)
    ensures
        r@ == signed_decimal(n),
{
    if n < 0 {
        let magnitude: u64 = ((-(n + 1)) as u64) + 1;
        let mut r = String::new();
        crate::text::push_char(&mut r, '-');
        push_str(&mut r, decimal_string(magnitude).as_str());
        r
    } else {
        decimal_string(n as u64)
    }
}

/// The script that delivers an event on `channel` with the JSON text `data_json` to the
/// JavaScript listeners.
pub fn emit_script(channel: &str, data_json: &str) -> (r: String)
    ensures
        r@ == emit_script_text(channel@, data_json@),
{
    let mut r = string_from(EMIT_SCRIPT_HEAD);
    push_str(&mut r, channel);
    push_str(&mut r, EMIT_SCRIPT_MIDDLE);
    push_str(&mut r, data_json);
    push_str(&mut r, EMIT_SCRIPT_TAIL);
    r
}

/// The script that delivers an event on `channel` with the JSON value `data` (written as
/// compact JSON text) to the JavaScript listeners.
pub fn event_script(channel: &str, data: &serde_json::Value) -> (r: String)
    ensures
        r@ == emit_script_text(channel@, json_text(*data)),
{
    let text = value_text(data);
    emit_script(channel, text.as_str())
}

/// The script that resolves the pending JavaScript call `request_id` with the JSON text
/// of a response and forgets the call.
pub fn callback_script(request_id: i64, response_json: &str) -> (r: String)
    ensures
        r@ == callback_script_text(request_id, response_json@),
{
    let id = signed_decimal_string(request_id);
    let mut r = string_from(CALLBACK_SCRIPT_HEAD);
    push_str(&mut r, id.as_str());
    push_str(&mut r, CALLBACK_SCRIPT_RESOLVE);
    push_str(&mut r, response_json);
    push_str(&mut r, CALLBACK_SCRIPT_DELETE);
    push_str(&mut r, id.as_str());
    push_str(&mut r, CALLBACK_SCRIPT_TAIL);
    r
}

/// Generate the default Dioxus Bridge initialization script (with a 10-second timeout):
/// it creates `window.dioxusBridge` with an HTTP-like `fetch` API over `dioxus.send()`.
pub fn generate_dioxus_bridge_script() -> (r: &'static str)
    ensures
        r@ == DIOXUS_BRIDGE_SCRIPT@,
{
    DIOXUS_BRIDGE_SCRIPT
}

/// Configuration for the IPC bridge.
#[derive(Clone, PartialEq)]
pub struct IpcBridge {
    /// Request timeout duration
    pub timeout: Duration,
    /// Custom bridge JavaScript (if provided)
    pub custom_script: Option<String>,
    /// Names of the registered plugins
    plugins: Vec<String>,
    /// What each registered plugin's `inject_js` gave, in plugin order
    plugin_scripts: Vec<Option<String>>,
}

/// The plugin scripts appended to the core script: each script that a plugin injects,
/// on a line of its own, in plugin order.
pub open spec fn injected_text(scripts: Seq<Option<Seq<char>>>) -> Seq<char>
    decreases scripts.len(),
{
    if scripts.len() == 0 {
        seq![]
    } else {
        injected_text(scripts.drop_last()) + match scripts.last() {
            Some(js) => seq!['\n'] + js,
            None => seq![],
        }
    }
}

/// The views of strings.
pub open spec fn string_views(ss: Seq<String>) -> Seq<Seq<char>> {
    ss.map_values(|s: String| s@)
}

/// The views of optional strings.
pub open spec fn opt_views(ss: Seq<Option<String>>) -> Seq<Option<Seq<char>>> {
    ss.map_values(|s: Option<String>| crate::router::opt_view(s))
}

/// The script a bridge generates: its custom script when it has one, else the default
/// script with the timeout in milliseconds (cut to 32 bits).
pub open spec fn bridge_script(custom_script: Option<Seq<char>>, timeout: Duration) -> Seq<char> {
    match custom_script {
        Some(c) => c,
        None => bridge_script_text(decimal((duration_millis(timeout) as u32) as nat)),
    }
}

impl IpcBridge {
    /// The request timeout.
    pub closed spec fn timeout_value(&self) -> Duration {
        self.timeout
    }

    /// The custom script, if any.
    pub closed spec fn custom_script_value(&self) -> Option<Seq<char>> {
        crate::router::opt_view(self.custom_script)
    }

    /// The number of registered plugins.
    pub closed spec fn plugin_count(&self) -> nat {
        self.plugins@.len()
    }

    /// What each registered plugin's `inject_js` gave, in plugin order.
    pub closed spec fn plugin_scripts(&self) -> Seq<Option<Seq<char>>> {
        opt_views(self.plugin_scripts@)
    }

    /// What each registered plugin's `name` gave, in plugin order.
    pub closed spec fn plugin_names(&self) -> Seq<Seq<char>> {
        string_views(self.plugins@)
    }

    /// Create a new IPC bridge builder with a 10-second timeout, no custom script and no
    /// plugins.
    pub fn builder() -> (r: IpcBridgeBuilder)
        ensures
            r.timeout_value() == duration_of_secs(10),
            duration_millis(r.timeout_value()) == 10000,
            r.custom_script_value() is None,
            r.plugin_count() == 0,
    {
        IpcBridgeBuilder::new()
    }

    /// Generate the complete bridge initialization script: the core script (the custom
    /// one, or the default one with the timeout), then the plugins' scripts.
    pub fn generate_script(&self) -> (r: String)
        ensures
            r@ == bridge_script(self.custom_script_value(), self.timeout_value()) + injected_text(
                self.plugin_scripts(),
            ),
    {
        let mut script = match &self.custom_script {
            Some(custom) => custom.clone(),
            None => IpcBridge::default_bridge_script(millis_of(&self.timeout) as u32),
        };
        let ghost core = script@;
        let ghost ps = opt_views(self.plugin_scripts@);
        let mut i: usize = 0;
        assert(ps.take(0) =~= Seq::<Option<Seq<char>>>::empty());
        while i < self.plugin_scripts.len()
            invariant
                i <= self.plugin_scripts@.len(),
                ps == opt_views(self.plugin_scripts@),
                script@ == core + injected_text(ps.take(i as int)),
            decreases self.plugin_scripts@.len() - i,
        {
            assert(ps.take(i + 1).drop_last() =~= ps.take(i as int));
            assert(ps[i as int] == crate::router::opt_view(self.plugin_scripts@[i as int]));
            match &self.plugin_scripts[i] {
                Some(js) => {
                    crate::text::push_char(&mut script, '\n');
                    push_str(&mut script, js.as_str());
                    assert(script@ =~= core + injected_text(ps.take(i + 1)));
                },
                None => {
                    assert(script@ =~= core + injected_text(ps.take(i + 1)));
                },
            }
            i += 1;
        }
        assert(ps.take(i as int) =~= ps);
        script
    }

    /// The default bridge script with the given timeout in milliseconds.
    fn default_bridge_script(timeout_ms: u32) -> (r: String)
        ensures
            r@ == bridge_script_text(decimal(timeout_ms as nat)),
    {
        let t = decimal_string(timeout_ms as u64);
        let mut r = string_from(BRIDGE_SCRIPT_HEAD);
        push_str(&mut r, t.as_str());
        push_str(&mut r, BRIDGE_SCRIPT_MIDDLE);
        push_str(&mut r, t.as_str());
        push_str(&mut r, BRIDGE_SCRIPT_TAIL);
        r
    }
}

/// A plugin held by the builder, behind an `Arc` as the router holds its handlers.
struct PluginSlot {
    plugin: std::sync::Arc<Box<dyn crate::plugin::BridgePlugin>>,
}

/// One more plugin slot makes the sequence one longer (stated on its own: within the
/// builder's methods the solver does not find it for this element type).
proof fn lemma_slot_push(s: Seq<PluginSlot>, x: PluginSlot)
    ensures
        s.push(x).len() == s.len() + 1,
        s.push(x)[s.len() as int] == x,
        forall|i: int| 0 <= i < s.len() ==> s.push(x)[i] == s[i],
{
}

/// Builder for IpcBridge configuration.
pub struct IpcBridgeBuilder {
    timeout: Duration,
    custom_script: Option<String>,
    plugins: Vec<PluginSlot>,
}

impl IpcBridgeBuilder {
    /// The timeout set so far.
    pub closed spec fn timeout_value(&self) -> Duration {
        self.timeout
    }

    /// The custom script set so far.
    pub closed spec fn custom_script_value(&self) -> Option<Seq<char>> {
        crate::router::opt_view(self.custom_script)
    }

    /// The number of plugins added so far.
    pub closed spec fn plugin_count(&self) -> nat {
        self.plugins@.len()
    }

    /// Plugin `i` (in the order added) may give `name` as its name.
    pub closed spec fn plugin_named(&self, i: int, name: Seq<char>) -> bool {
        (*self.plugins@[i].plugin).is_named(name)
    }

    /// Plugin `i` (in the order added) may inject `script`.
    pub closed spec fn plugin_injects(&self, i: int, script: Option<Seq<char>>) -> bool {
        (*self.plugins@[i].plugin).injects(script)
    }

    /// Create a new builder with default settings (a 10-second timeout).
    pub fn new() -> (r: Self)
        ensures
            r.timeout_value() == duration_of_secs(10),
            duration_millis(r.timeout_value()) == 10000,
            r.custom_script_value() is None,
            r.plugin_count() == 0,
    {
        IpcBridgeBuilder { timeout: duration_from_secs(10), custom_script: None, plugins: Vec::new() }
    }

    /// Set the request timeout duration.
    pub fn timeout(self, duration: Duration) -> (r: Self)
        ensures
            r.timeout_value() == duration,
            r.custom_script_value() == self.custom_script_value(),
            r.plugin_count() == self.plugin_count(),
            forall|i: int, n: Seq<char>|
                0 <= i < self.plugin_count() ==> #[trigger] r.plugin_named(i, n) == self.plugin_named(i, n),
            forall|i: int, sc: Option<Seq<char>>|
                0 <= i < self.plugin_count() ==> #[trigger] r.plugin_injects(i, sc) == self.plugin_injects(i, sc),
    {
        IpcBridgeBuilder { timeout: duration, custom_script: self.custom_script, plugins: self.plugins }
    }

    /// Provide a custom bridge script, replacing the default one.
    pub fn custom_script(self, script: String) -> (r: Self)
        ensures
            r.timeout_value() == self.timeout_value(),
            r.custom_script_value() == Some(script@),
            r.plugin_count() == self.plugin_count(),
            forall|i: int, n: Seq<char>|
                0 <= i < self.plugin_count() ==> #[trigger] r.plugin_named(i, n) == self.plugin_named(i, n),
            forall|i: int, sc: Option<Seq<char>>|
                0 <= i < self.plugin_count() ==> #[trigger] r.plugin_injects(i, sc) == self.plugin_injects(i, sc),
    {
        IpcBridgeBuilder { timeout: self.timeout, custom_script: Some(script), plugins: self.plugins }
    }

    /// Add a plugin to extend bridge functionality.
    pub fn plugin(self, plugin: Box<dyn crate::plugin::BridgePlugin>) -> (r: Self)
        ensures
            r.timeout_value() == self.timeout_value(),
            r.custom_script_value() == self.custom_script_value(),
            r.plugin_count() == self.plugin_count() + 1,
            forall|i: int, n: Seq<char>|
                0 <= i < self.plugin_count() ==> #[trigger] r.plugin_named(i, n) == self.plugin_named(i, n),
            forall|i: int, sc: Option<Seq<char>>|
                0 <= i < self.plugin_count() ==> #[trigger] r.plugin_injects(i, sc) == self.plugin_injects(i, sc),
            forall|n: Seq<char>| #[trigger] r.plugin_named(self.plugin_count() as int, n) == plugin.is_named(n),
            forall|sc: Option<Seq<char>>| #[trigger] r.plugin_injects(self.plugin_count() as int, sc) == plugin.injects(sc),
    {
        let mut plugins = self.plugins;
        let ghost p = plugin;
        let shared = std::sync::Arc::new(plugin);
        assert(*shared == p);
        let slot = PluginSlot { plugin: shared };
        let ghost n = plugins@.len() as int;
        proof {
            lemma_slot_push(plugins@, slot);
        }
        plugins.push(slot);
        let r = IpcBridgeBuilder { timeout: self.timeout, custom_script: self.custom_script, plugins };
        assert(r.plugins@[n] == slot);
        r
    }

    /// Build the IpcBridge configuration, keeping the name of each plugin (one name per
    /// plugin, in order).
    pub fn build(self) -> (r: IpcBridge)
        ensures
            r.timeout_value() == self.timeout_value(),
            r.custom_script_value() == self.custom_script_value(),
            r.plugin_count() == self.plugin_count(),
            r.plugin_scripts().len() == self.plugin_count(),
            r.plugin_names().len() == self.plugin_count(),
            forall|i: int|
                0 <= i < self.plugin_count() ==> self.plugin_named(i, #[trigger] r.plugin_names()[i])
                    && self.plugin_injects(i, r.plugin_scripts()[i]),
    {
        let mut names: Vec<String> = Vec::new();
        let mut scripts: Vec<Option<String>> = Vec::new();
        let mut i: usize = 0;
        while i < self.plugins.len()
            invariant
                i <= self.plugins@.len(),
                names@.len() == i,
                scripts@.len() == i,
                forall|j: int|
                    0 <= j < i ==> self.plugin_named(j, #[trigger] names@[j]@)
                        && self.plugin_injects(j, crate::router::opt_view(scripts@[j])),
            decreases self.plugins@.len() - i,
        {
            let slot = &self.plugins[i];
            assert(*slot == self.plugins@[i as int]);
            let name = string_from(slot.plugin.name());
            let script = slot.plugin.inject_js();
            assert(self.plugin_named(i as int, name@));
            assert(self.plugin_injects(i as int, crate::router::opt_view(script)));
            let ghost names_before = names@;
            let ghost scripts_before = scripts@;
            names.push(name);
            scripts.push(script);
            assert(forall|j: int| 0 <= j < i ==> names@[j] == names_before[j] && scripts@[j] == scripts_before[j]);
            i += 1;
        }
        assert(opt_views(scripts@).len() == scripts@.len());
        assert(string_views(names@).len() == names@.len());
        assert forall|j: int| 0 <= j < self.plugin_count() implies self.plugin_named(j, #[trigger] string_views(names@)[j])
            && self.plugin_injects(j, opt_views(scripts@)[j]) by {
            assert(string_views(names@)[j] == names@[j]@);
            assert(opt_views(scripts@)[j] == crate::router::opt_view(scripts@[j]));
        }
        let ghost name_views = string_views(names@);
        let ghost script_views = opt_views(scripts@);
        let custom_script = match &self.custom_script {
            Some(c) => Some(c.clone()),
            None => None,
        };
        let r = IpcBridge { timeout: self.timeout, custom_script, plugins: names, plugin_scripts: scripts };
        assert(r.plugin_names() == name_views);
        assert(r.plugin_scripts() == script_views);
        r
    }
}

impl Default for IpcBridgeBuilder {
    fn default() -> (r: Self)
        ensures
            r.timeout_value() == duration_of_secs(10),
            duration_millis(r.timeout_value()) == 10000,
            r.custom_script_value() is None,
            r.plugin_count() == 0,
    {
        IpcBridgeBuilder::new()
    }
}

/// A bridge with the default 10-second timeout and no custom script generates the
/// default script with `10000` milliseconds in both places; a custom script is used
/// verbatim whatever the timeout; and with no plugin script, nothing follows the core
/// script.
pub proof fn law_bridge_script(timeout: Duration, custom: Seq<char>, scripts: Seq<Option<Seq<char>>>)
    ensures
        duration_millis(timeout) == 10000 ==> bridge_script(None, timeout) == bridge_script_text(decimal(10000)),
        bridge_script(Some(custom), timeout) == custom,
        (forall|i: int| 0 <= i < scripts.len() ==> scripts[i] is None) ==> injected_text(scripts) == Seq::<char>::empty(),
    decreases scripts.len(),
{
    if scripts.len() > 0 && forall|i: int| 0 <= i < scripts.len() ==> scripts[i] is None {
        let s0 = scripts.drop_last();
        assert forall|i: int| 0 <= i < s0.len() implies s0[i] is None by {
            assert(s0[i] == scripts[i]);
        }
        law_bridge_script(timeout, custom, s0);
        assert(scripts.last() is None);
    }
}

/// A decimal text has at least one digit, and exactly one for numbers below ten.
proof fn lemma_decimal_len(n: nat)
    ensures
        decimal(n).len() >= 1,
        decimal(n).len() == 1 <==> n < 10,
    decreases n,
{
    if n >= 10 {
        lemma_decimal_len(n / 10);
    }
}

/// A digit character gives its digit back.
proof fn lemma_digit_char_code(d: nat)
    requires
        d < 10,
    ensures
        digit_char(d) as u32 == 48 + d,
{
}

/// Different numbers have different decimal texts.
proof fn lemma_decimal_injective(a: nat, b: nat)
    requires
        decimal(a) == decimal(b),
    ensures
        a == b,
    decreases a,
{
    lemma_decimal_len(a);
    lemma_decimal_len(b);
    if a < 10 {
        assert(b < 10);
        assert(decimal(a) == seq![digit_char(a)]);
        assert(decimal(b) == seq![digit_char(b)]);
        assert(decimal(a)[0] == decimal(b)[0]);
        assert(seq![digit_char(a)][0] == digit_char(a));
        assert(seq![digit_char(b)][0] == digit_char(b));
        assert(digit_char(a) == digit_char(b));
        lemma_digit_char_code(a);
        lemma_digit_char_code(b);
        assert(digit_char(a) as u32 == digit_char(b) as u32);
        assert(48 + a == 48 + b);
    } else {
        assert(b >= 10);
        let da = decimal(a);
        let db = decimal(b);
        assert(da == decimal(a / 10).push(digit_char(a % 10)));
        assert(db == decimal(b / 10).push(digit_char(b % 10)));
        assert(da.last() == digit_char(a % 10));
        assert(db.last() == digit_char(b % 10));
        assert(da.last() == db.last());
        lemma_digit_char_code(a % 10);
        lemma_digit_char_code(b % 10);
        assert(a % 10 == b % 10);
        assert(da.drop_last() == decimal(a / 10));
        assert(db.drop_last() == decimal(b / 10));
        lemma_decimal_injective(a / 10, b / 10);
        assert(a == 10 * (a / 10) + a % 10);
        assert(b == 10 * (b / 10) + b % 10);
    }
}

/// Two bridges without custom scripts and with the same plugin scripts generate the same
/// script exactly when their timeouts, in milliseconds cut to 32 bits, are equal.
pub proof fn law_bridge_scripts_equal(t1: Duration, t2: Duration, scripts: Seq<Option<Seq<char>>>)
    ensures
        (bridge_script(None, t1) + injected_text(scripts) == bridge_script(None, t2) + injected_text(scripts))
            <==> ((duration_millis(t1) as u32) == (duration_millis(t2) as u32)),
{
    let d1 = decimal((duration_millis(t1) as u32) as nat);
    let d2 = decimal((duration_millis(t2) as u32) as nat);
    let a = bridge_script(None, t1);
    let b = bridge_script(None, t2);
    let extra = injected_text(scripts);
    if a + extra == b + extra {
        assert((a + extra).len() == (b + extra).len());
        assert(a.len() == b.len());
        assert(a =~= (a + extra).take(a.len() as int));
        assert(b =~= (b + extra).take(b.len() as int));
        let h = BRIDGE_SCRIPT_HEAD@.len();
        assert(d1.len() == d2.len());
        assert(a.subrange(h as int, (h + d1.len()) as int) =~= d1);
        assert(b.subrange(h as int, (h + d2.len()) as int) =~= d2);
        lemma_decimal_injective((duration_millis(t1) as u32) as nat, (duration_millis(t2) as u32) as nat);
    }
}

} // verus!
