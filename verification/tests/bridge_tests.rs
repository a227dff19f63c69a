use dioxus_ipc_bridge::bridge::{
    callback_script, emit_script, event_script, generate_dioxus_bridge_script, IpcBridge, BRIDGE_SCRIPT_HEAD,
    BRIDGE_SCRIPT_MIDDLE, BRIDGE_SCRIPT_TAIL,
};
use std::time::Duration;

#[test]
fn default_bridge_uses_ten_second_timeout() {
    let script = IpcBridge::builder().build().generate_script();
    let expected = format!("{}10000{}10000{}", BRIDGE_SCRIPT_HEAD, BRIDGE_SCRIPT_MIDDLE, BRIDGE_SCRIPT_TAIL);
    assert_eq!(script, expected);
    assert!(script.contains("reject(new Error('Request timeout after 10000 ms'));"));
    assert!(script.contains("}, 10000);"));
}

#[test]
fn timeout_is_written_in_milliseconds() {
    let bridge = IpcBridge::builder().timeout(Duration::from_millis(2500)).build();
    assert_eq!(bridge.timeout, Duration::from_millis(2500));
    let script = bridge.generate_script();
    assert!(script.contains("Request timeout after 2500 ms"));
    assert!(script.contains("}, 2500);"));
    assert!(script.starts_with("\n        // Complete Dioxus Bridge - Unified IPC API"));
}

#[test]
fn custom_script_replaces_default() {
    let bridge = IpcBridge::builder()
        .timeout(Duration::from_secs(30))
        .custom_script("console.log('custom');".to_string())
        .build();
    assert_eq!(bridge.custom_script, Some("console.log('custom');".to_string()));
    assert_eq!(bridge.generate_script(), "console.log('custom');");
}

#[test]
fn static_bridge_script() {
    let s = generate_dioxus_bridge_script();
    assert!(s.contains("reject(new Error('Request timeout after 10 seconds'));"));
    assert!(s.contains("window.dioxusBridge.callbacks.set(requestId, {resolve, reject});"));
}

#[test]
fn event_and_callback_scripts() {
    let e = emit_script("progress", "{\"percent\":75}");
    assert_eq!(
        e,
        "\n        if (window.dioxusBridge && window.dioxusBridge.rustEmit) {\n            window.dioxusBridge.rustEmit('progress', {\"percent\":75});\n        }\n        "
    );
    let c = callback_script(-42, "null");
    assert!(c.contains("window.dioxusBridge.callbacks.get(-42);"));
    assert!(c.contains("callback.resolve(null);"));
    assert!(c.contains("window.dioxusBridge.callbacks.delete(-42);"));
    let c = callback_script(i64::MIN, "{}");
    assert!(c.contains("callbacks.get(-9223372036854775808);"));
    let c = callback_script(123456, "{}");
    assert!(c.contains("callbacks.delete(123456);"));
}

#[test]
fn event_script_writes_compact_json() {
    let data: serde_json::Value = serde_json::from_str("{ \"percent\" : 75 ,\n \"status\": \"Almost done...\" }").unwrap();
    let e = event_script("progress", &data);
    assert_eq!(
        e,
        "\n        if (window.dioxusBridge && window.dioxusBridge.rustEmit) {\n            window.dioxusBridge.rustEmit('progress', {\"percent\":75,\"status\":\"Almost done...\"});\n        }\n        "
    );
}

struct Logging;

impl dioxus_ipc_bridge::BridgePlugin for Logging {
    fn name(&self) -> &str {
        "logging"
    }

    fn inject_js(&self) -> Option<String> {
        Some("console.log('[Plugin] Logging enabled');".to_string())
    }
}

struct Quiet;

impl dioxus_ipc_bridge::BridgePlugin for Quiet {
    fn name(&self) -> &str {
        "quiet"
    }

    fn inject_js(&self) -> Option<String> {
        None
    }
}

#[test]
fn plugin_scripts_follow_the_core_script() {
    let base = IpcBridge::builder().build().generate_script();
    let bridge = IpcBridge::builder().plugin(Box::new(Quiet)).plugin(Box::new(Logging)).build();
    assert_eq!(bridge.generate_script(), format!("{}\nconsole.log('[Plugin] Logging enabled');", base));
    let custom = IpcBridge::builder()
        .custom_script("init();".to_string())
        .plugin(Box::new(Logging))
        .plugin(Box::new(Logging))
        .build();
    assert_eq!(
        custom.generate_script(),
        "init();\nconsole.log('[Plugin] Logging enabled');\nconsole.log('[Plugin] Logging enabled');"
    );
    assert_eq!(IpcBridge::builder().plugin(Box::new(Quiet)).build().generate_script(), base);
}

#[test]
fn scripts_differ_exactly_by_whole_milliseconds() {
    let script = |d: Duration| IpcBridge::builder().timeout(d).build().generate_script();
    assert_eq!(script(Duration::from_micros(2_500_400)), script(Duration::from_millis(2500)));
    assert_ne!(script(Duration::from_millis(2501)), script(Duration::from_millis(2500)));
    assert_eq!(script(Duration::from_millis(4_294_967_296 + 7)), script(Duration::from_millis(7)));
}

struct Tagged(&'static str);

impl dioxus_ipc_bridge::BridgePlugin for Tagged {
    fn name(&self) -> &str {
        self.0
    }

    fn inject_js(&self) -> Option<String> {
        Some(format!("/* {} */", self.0))
    }
}

#[test]
fn plugin_scripts_keep_the_order_of_addition() {
    let base = IpcBridge::builder().build().generate_script();
    let bridge = IpcBridge::builder()
        .plugin(Box::new(Tagged("first")))
        .timeout(Duration::from_secs(10))
        .plugin(Box::new(Tagged("second")))
        .custom_script("core();".to_string())
        .plugin(Box::new(Tagged("third")))
        .build();
    assert_eq!(bridge.generate_script(), "core();\n/* first */\n/* second */\n/* third */");
    let plain = IpcBridge::builder().plugin(Box::new(Tagged("only"))).build();
    assert_eq!(plain.generate_script(), format!("{}\n/* only */", base));
}
