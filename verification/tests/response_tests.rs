use dioxus_ipc_bridge::response::{IpcError, IpcResponse};
use serde_json::Value;

fn j(text: &str) -> Value {
    serde_json::from_str(text).unwrap()
}

fn content_type(r: &IpcResponse) -> Option<String> {
    r.headers.get("Content-Type").cloned()
}

#[test]
fn constructors_set_status_headers_and_body() {
    let ok = IpcResponse::ok(j(r#"{"message": "Success!"}"#));
    assert_eq!(ok.status, 200);
    assert_eq!(content_type(&ok), Some("application/json".to_string()));
    assert_eq!(ok.body, j(r#"{"message": "Success!"}"#));

    let bad = IpcResponse::bad_request("Missing 'name' field");
    assert_eq!(bad.status, 400);
    assert_eq!(bad.body, j(r#"{"error": "Bad Request", "message": "Missing 'name' field"}"#));

    let nf = IpcResponse::not_found("/unknown/route");
    assert_eq!(nf.status, 404);
    assert_eq!(nf.body, j(r#"{"error": "Not Found", "message": "No route matches '/unknown/route'"}"#));

    let ie = IpcResponse::internal_error("Database connection failed");
    assert_eq!(ie.status, 500);
    assert_eq!(ie.body, j(r#"{"error": "Internal Server Error", "message": "Database connection failed"}"#));

    let custom = IpcResponse::with_status(201, j(r#"{"id": 123}"#));
    assert_eq!(custom.status, 201);
    assert_eq!(content_type(&custom), Some("application/json".to_string()));
}

#[test]
fn with_header_adds_and_replaces() {
    let r = IpcResponse::ok(Value::Null)
        .with_header("X-Trace".to_string(), "1".to_string())
        .with_header("Content-Type".to_string(), "text/plain".to_string());
    assert_eq!(r.status, 200);
    assert_eq!(r.headers.get("X-Trace"), Some(&"1".to_string()));
    assert_eq!(content_type(&r), Some("text/plain".to_string()));
    assert_eq!(r.headers.entries().len(), 2);
}

#[test]
fn errors_map_to_responses() {
    let r = IpcResponse::from_error(IpcError::BadRequest("x".to_string()));
    assert_eq!((r.status, r.body), (400, j(r#"{"error": "Bad Request", "message": "x"}"#)));
    let r = IpcResponse::from_error(IpcError::NotFound("/p".to_string()));
    assert_eq!((r.status, r.body), (404, j(r#"{"error": "Not Found", "message": "No route matches '/p'"}"#)));
    let r = IpcResponse::from_error(IpcError::InternalError("boom".to_string()));
    assert_eq!((r.status, r.body), (500, j(r#"{"error": "Internal Server Error", "message": "boom"}"#)));
    let r = IpcResponse::from_error(IpcError::ParseError("bad url".to_string()));
    assert_eq!((r.status, r.body), (400, j(r#"{"error": "Bad Request", "message": "Parse error: bad url"}"#)));
    let r = IpcResponse::from_error(IpcError::Unauthorized);
    assert_eq!((r.status, r.body), (401, j(r#"{"error": "Unauthorized", "message": "Authentication required"}"#)));
    let r: IpcResponse = IpcError::Forbidden("no".to_string()).into();
    assert_eq!((r.status, r.body), (403, j(r#"{"error": "Forbidden", "message": "no"}"#)));
}

#[test]
fn error_messages() {
    assert_eq!(IpcError::BadRequest("a".to_string()).message(), "Bad Request: a");
    assert_eq!(IpcError::NotFound("b".to_string()).message(), "Not Found: b");
    assert_eq!(IpcError::InternalError("c".to_string()).message(), "Internal Error: c");
    assert_eq!(IpcError::ParseError("d".to_string()).message(), "Parse Error: d");
    assert_eq!(IpcError::Unauthorized.message(), "Unauthorized");
    assert_eq!(IpcError::Forbidden("e".to_string()).message(), "Forbidden: e");
}

#[test]
fn custom_error_keeps_its_status() {
    let r = IpcResponse::from(IpcError::Custom { status: 403, message: "Access denied".to_string() });
    assert_eq!(r.status, 403);
    assert_eq!(r.body, j(r#"{"error": "Error", "message": "Access denied"}"#));
    assert_eq!(r.headers.get("Content-Type"), Some(&"application/json".to_string()));
    let e = IpcError::Custom { status: 418, message: "teapot".to_string() };
    assert_eq!(e.message(), "Error 418: teapot");
}
