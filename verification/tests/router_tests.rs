use dioxus_ipc_bridge::request::{EnrichedRequest, RequestBody};
use dioxus_ipc_bridge::response::{IpcError, IpcResponse};
use dioxus_ipc_bridge::router::{message_request_id, IpcRouter, RawBody, RawMessage, Resolution, RouteHandler};
use serde_json::Value;

fn j(text: &str) -> Value {
    serde_json::from_str(text).unwrap()
}

struct Greeting;

impl RouteHandler for Greeting {
    fn handle(&self, req: &EnrichedRequest) -> Result<IpcResponse, IpcError> {
        let name = req
            .path_param("name")
            .ok_or_else(|| IpcError::BadRequest("Missing name parameter".to_string()))?;
        let language = req.query_param("lang").map(|s| s.as_str()).unwrap_or("en");
        let greeting = match language {
            "es" => format!("¡Hola, {}!", name),
            _ => format!("Hello, {}!", name),
        };
        Ok(IpcResponse::ok(Value::from_iter(vec![("message", greeting)])))
    }
}

struct Echo;

impl RouteHandler for Echo {
    fn handle(&self, req: &EnrichedRequest) -> Result<IpcResponse, IpcError> {
        match &req.body {
            Some(RequestBody::Json(v)) => Ok(IpcResponse::ok(v.clone())),
            Some(RequestBody::UrlEncoded(m)) => Ok(IpcResponse::ok(Value::from_iter(vec![("name", m.get("name").cloned().unwrap_or_default())]))),
            _ => Err(IpcError::Forbidden("no body".to_string())),
        }
    }
}

struct Fixed(u16);

impl RouteHandler for Fixed {
    fn handle(&self, _req: &EnrichedRequest) -> Result<IpcResponse, IpcError> {
        Ok(IpcResponse::with_status(self.0, Value::Null))
    }
}

fn message(method: Option<&str>, url: &str) -> RawMessage {
    RawMessage {
        is_object: true,
        id: Some(7),
        method: method.map(|m| m.to_string()),
        url: Some(url.to_string()),
        headers: None,
        body: None,
    }
}

fn router() -> IpcRouter {
    IpcRouter::builder()
        .route("POST", "/greeting/:name", Box::new(Greeting))
        .route("POST", "/echo", Box::new(Echo))
        .route("GET", "/counter/value", Box::new(Fixed(201)))
        .route("get", "/counter/value", Box::new(Fixed(202)))
        .build()
}

#[test]
fn routes_are_listed_in_order() {
    let routes = router().list_routes();
    let expected: Vec<(String, String)> = vec![
        ("POST".to_string(), "/greeting/:name".to_string()),
        ("POST".to_string(), "/echo".to_string()),
        ("GET".to_string(), "/counter/value".to_string()),
        ("get".to_string(), "/counter/value".to_string()),
    ];
    assert_eq!(routes, expected);
    let mut r = IpcRouter::new();
    r.register("PUT", "/x", Box::new(Fixed(200)));
    assert_eq!(r.list_routes(), vec![("PUT".to_string(), "/x".to_string())]);
}

#[test]
fn path_and_query_parameters_reach_the_handler() {
    let r = router().dispatch_message(&message(Some("post"), "ipc://greeting/World?lang=es"));
    assert_eq!(r.status, 200);
    assert_eq!(r.body, j(r#"{"message": "¡Hola, World!"}"#));
}

#[test]
fn first_registered_route_wins() {
    let r = router().dispatch_message(&message(Some("GET"), "ipc://counter/value"));
    assert_eq!(r.status, 201);
    match router().resolve(&message(Some("GET"), "ipc://counter/value")) {
        Resolution::Handle { route, request } => {
            assert_eq!(route, 2);
            assert_eq!(request.path, "/counter/value");
            assert_eq!(request.id(), 7);
            assert_eq!(request.method(), "GET");
        }
        Resolution::Respond(_) => panic!("expected a route"),
    }
}

#[test]
fn method_defaults_to_get() {
    let r = router().dispatch_message(&message(None, "ipc://counter/value"));
    assert_eq!(r.status, 201);
}

#[test]
fn unmatched_request_is_not_found() {
    let r = router().dispatch_message(&message(Some("DELETE"), "ipc://counter/value?x=1"));
    assert_eq!(r.status, 404);
    assert_eq!(r.body, j(r#"{"error": "Not Found", "message": "No route matches 'DELETE /counter/value'"}"#));
}

#[test]
fn malformed_messages_are_bad_requests() {
    let mut m = message(Some("GET"), "ipc://counter/value");
    m.is_object = false;
    let r = router().dispatch_message(&m);
    assert_eq!((r.status, r.body), (400, j(r#"{"error": "Bad Request", "message": "Request must be an object"}"#)));

    let mut m = message(Some("GET"), "ipc://counter/value");
    m.id = None;
    let r = router().dispatch_message(&m);
    assert_eq!((r.status, r.body), (400, j(r#"{"error": "Bad Request", "message": "Missing 'id' field"}"#)));

    let mut m = message(Some("GET"), "ipc://counter/value");
    m.url = None;
    let r = router().dispatch_message(&m);
    assert_eq!((r.status, r.body), (400, j(r#"{"error": "Bad Request", "message": "Missing 'url' field"}"#)));

    let r = router().dispatch_message(&message(Some("GET"), "counter/value"));
    assert_eq!(r.status, 400);
    assert_eq!(
        r.body,
        j(r#"{"error": "Bad Request", "message": "Parse error: Invalid URL format: missing '://' in 'counter/value'"}"#)
    );
}

#[test]
fn bodies_are_parsed_by_content_type() {
    let mut m = message(Some("POST"), "ipc://echo");
    m.body = Some(RawBody::Value(j(r#"{"a": [1, 2]}"#)));
    let r = router().dispatch_message(&m);
    assert_eq!((r.status, r.body), (200, j(r#"{"a": [1, 2]}"#)));

    let mut m = message(Some("POST"), "ipc://echo");
    m.body = Some(RawBody::Text("{\"b\": true}".to_string()));
    let r = router().dispatch_message(&m);
    assert_eq!((r.status, r.body), (200, j(r#"{"b": true}"#)));

    let mut m = message(Some("POST"), "ipc://echo");
    m.headers = Some(vec![
        ("Content-Type".to_string(), Some("application/x-www-form-urlencoded".to_string())),
        ("X-Number".to_string(), None),
    ]);
    m.body = Some(RawBody::Text("name=Ann".to_string()));
    let r = router().dispatch_message(&m);
    assert_eq!((r.status, r.body), (200, j(r#"{"name": "Ann"}"#)));

    let mut m = message(Some("POST"), "ipc://echo");
    m.body = Some(RawBody::Text("{broken".to_string()));
    let r = router().dispatch_message(&m);
    assert_eq!(r.status, 400);

    let r = router().dispatch_message(&message(Some("POST"), "ipc://echo"));
    assert_eq!((r.status, r.body), (403, j(r#"{"error": "Forbidden", "message": "no body"}"#)));
}

#[test]
fn enriched_request_accessors() {
    let mut m = message(Some("POST"), "ipc://greeting/Ann?lang=fr");
    m.headers = Some(vec![("Content-Type".to_string(), Some("application/json".to_string()))]);
    match router().resolve(&m) {
        Resolution::Handle { request, .. } => {
            assert_eq!(request.path_param("name"), Some(&"Ann".to_string()));
            assert_eq!(request.query_param("lang"), Some(&"fr".to_string()));
            assert_eq!(request.header("content-type"), Some(&"application/json".to_string()));
            assert_eq!(request.header("Accept"), None);
            assert!(request.body.is_none());
        }
        Resolution::Respond(_) => panic!("expected a route"),
    }
}

#[test]
fn handler_outcomes_are_answered() {
    let r = IpcRouter::answer(Ok(IpcResponse::with_status(204, Value::Null)));
    assert_eq!(r.status, 204);
    let r = IpcRouter::answer(Err(IpcError::InternalError("x".to_string())));
    assert_eq!((r.status, r.body), (500, j(r#"{"error": "Internal Server Error", "message": "x"}"#)));
}

#[test]
fn json_messages_are_dispatched() {
    let r = router().dispatch(&j(r#"{"id": 5, "method": "POST", "url": "ipc://greeting/World"}"#));
    assert_eq!((r.status, r.body), (200, j(r#"{"message": "Hello, World!"}"#)));

    let r = router().dispatch(&j(r#"{"id": 5, "url": "ipc://counter/value"}"#));
    assert_eq!(r.status, 201);

    let r = router().dispatch(&j(
        r#"{"id": 6, "method": "POST", "url": "ipc://echo", "headers": {"Content-Type": "application/x-www-form-urlencoded", "X-Count": 3}, "body": "name=Bo"}"#,
    ));
    assert_eq!((r.status, r.body), (200, j(r#"{"name": "Bo"}"#)));

    let r = router().dispatch(&j(r#"{"id": 6, "method": "POST", "url": "ipc://echo", "body": {"k": "v"}}"#));
    assert_eq!((r.status, r.body), (200, j(r#"{"k": "v"}"#)));

    let r = router().dispatch(&j(r#"[1, 2]"#));
    assert_eq!((r.status, r.body), (400, j(r#"{"error": "Bad Request", "message": "Request must be an object"}"#)));

    let r = router().dispatch(&j(r#"{"id": -1, "url": "ipc://counter/value"}"#));
    assert_eq!((r.status, r.body), (400, j(r#"{"error": "Bad Request", "message": "Missing 'id' field"}"#)));

    let r = router().dispatch(&j(r#"{"id": 1, "url": 7}"#));
    assert_eq!((r.status, r.body), (400, j(r#"{"error": "Bad Request", "message": "Missing 'url' field"}"#)));
}

#[test]
fn json_messages_are_read() {
    let m = RawMessage::from_value(&j(
        r#"{"id": 9, "method": "PUT", "url": "ipc://a", "headers": {"A": "x", "B": 2}, "body": "text"}"#,
    ));
    assert!(m.is_object);
    assert_eq!(m.id, Some(9));
    assert_eq!(m.method, Some("PUT".to_string()));
    assert_eq!(m.url, Some("ipc://a".to_string()));
    assert_eq!(m.headers, Some(vec![("A".to_string(), Some("x".to_string())), ("B".to_string(), None)]));
    assert!(matches!(m.body, Some(RawBody::Text(ref t)) if t == "text"));

    let m = RawMessage::from_value(&j(r#""just text""#));
    assert!(!m.is_object);
    assert_eq!(m.id, None);

    let m = RawMessage::from_value(&j(r#"{"id": 1.5, "method": 3, "body": null}"#));
    assert!(m.is_object);
    assert_eq!(m.id, None);
    assert_eq!(m.method, None);
    assert!(matches!(m.body, Some(RawBody::Value(Value::Null))));
}

#[test]
fn request_ids_of_messages() {
    assert_eq!(message_request_id(&j(r#"{"id": 42}"#)), Some(42));
    assert_eq!(message_request_id(&j(r#"{"id": -3}"#)), Some(-3));
    assert_eq!(message_request_id(&j(r#"{"id": "42"}"#)), None);
    assert_eq!(message_request_id(&j(r#"{"url": "ipc://x"}"#)), None);
    assert_eq!(message_request_id(&j(r#"42"#)), None);
}

#[test]
fn method_case_does_not_change_the_route() {
    for method in ["GET", "get", "gEt"] {
        let r = router().dispatch_message(&message(Some(method), "ipc://counter/value"));
        assert_eq!(r.status, 201);
    }
    let r = router().dispatch_message(&message(Some("GETS"), "ipc://counter/value"));
    assert_eq!(r.status, 404);
}
