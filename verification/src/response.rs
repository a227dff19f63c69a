//! IPC responses and errors.
use vstd::prelude::*;
use crate::json::{json_string_object, string_object};
use crate::param_map::ParamMap;
use crate::text::{decimal, decimal_string, push_str, string_from};

verus! {

/// HTTP-like IPC response from Rust to JavaScript.
#[derive(Debug, Clone)]
pub struct IpcResponse {
    /// HTTP-like status code (200 success, 400 bad request, 404 not found, 500 handler error).
    pub status: u16,
    /// Response headers.
    pub headers: ParamMap,
    /// Response body (always JSON).
    pub body: serde_json::Value,
}

/// The meaning of a response: its status, its headers as a map, and its body.
pub struct ResponseView {
    pub status: u16,
    pub headers: Map<Seq<char>, Seq<char>>,
    pub body: serde_json::Value,
}

impl View for IpcResponse {
    type V = ResponseView;

    open spec fn view(&self) -> ResponseView {
        ResponseView { status: self.status, headers: self.headers@, body: self.body }
    }
}

/// The headers of every response the library builds: `Content-Type: application/json`.
pub open spec fn json_headers() -> Map<Seq<char>, Seq<char>> {
    Map::<Seq<char>, Seq<char>>::empty().insert("Content-Type"@, "application/json"@)
}

/// A response with the JSON content type.
pub open spec fn json_response(status: u16, body: serde_json::Value) -> ResponseView {
    ResponseView { status, headers: json_headers(), body }
}

/// The JSON body `{"error": error, "message": message}`.
pub open spec fn error_body(error: Seq<char>, message: Seq<char>) -> serde_json::Value {
    json_string_object(seq![("error"@, error), ("message"@, message)])
}

/// The message of a not-found response for `path`.
pub open spec fn not_found_message(path: Seq<char>) -> Seq<char> {
    "No route matches '"@ + path + "'"@
}

/// `IpcResponse::bad_request(message)`.
pub open spec fn bad_request_response(message: Seq<char>) -> ResponseView {
    json_response(400, error_body("Bad Request"@, message))
}

/// `IpcResponse::not_found(path)`.
pub open spec fn not_found_response(path: Seq<char>) -> ResponseView {
    json_response(404, error_body("Not Found"@, not_found_message(path)))
}

/// `IpcResponse::internal_error(error)`.
pub open spec fn internal_error_response(error: Seq<char>) -> ResponseView {
    json_response(500, error_body("Internal Server Error"@, error))
}

/// The JSON headers with one header added.
fn json_header_map() -> (r: ParamMap)
    ensures
        r@ == json_headers(),
{
    let mut h = ParamMap::new();
    h.insert(string_from("Content-Type"), string_from("application/json"));
    h
}

/// The body `{"error": error, "message": message}`.
fn make_error_body(error: &str, message: &str) -> (r: serde_json::Value)
    ensures
        r == error_body(error@, message@),
{
    let mut pairs: Vec<(String, String)> = Vec::new();
    pairs.push((string_from("error"), string_from(error)));
    pairs.push((string_from("message"), string_from(message)));
    proof {
        assert(crate::param_map::pair_views(pairs@) =~= seq![("error"@, error@), ("message"@, message@)]);
    }
    string_object(pairs)
}

impl IpcResponse {
    /// A successful (200 OK) response with the given body.
    pub fn ok(body: serde_json::Value) -> (r: Self)
        ensures
            r@ == json_response(200, body),
    {
        IpcResponse { status: 200, headers: json_header_map(), body }
    }

    /// A bad request (400) response: `{"error": "Bad Request", "message": message}`.
    pub fn bad_request(message: &str) -> (r: Self)
        ensures
            r@ == bad_request_response(message@),
    {
        IpcResponse { status: 400, headers: json_header_map(), body: make_error_body("Bad Request", message) }
    }

    /// A not found (404) response: `{"error": "Not Found", "message": "No route matches '<path>'"}`.
    pub fn not_found(path: &str) -> (r: Self)
        ensures
            r@ == not_found_response(path@),
    {
        let mut message = string_from("No route matches '");
        push_str(&mut message, path);
        push_str(&mut message, "'");
        IpcResponse {
            status: 404,
            headers: json_header_map(),
            body: make_error_body("Not Found", message.as_str()),
        }
    }

    /// An internal server error (500) response:
    /// `{"error": "Internal Server Error", "message": error}`.
    pub fn internal_error(error: &str) -> (r: Self)
        ensures
            r@ == internal_error_response(error@),
    {
        IpcResponse {
            status: 500,
            headers: json_header_map(),
            body: make_error_body("Internal Server Error", error),
        }
    }

    /// A response with the given status and body.
    pub fn with_status(status: u16, body: serde_json::Value) -> (r: Self)
        ensures
            r@ == json_response(status, body),
    {
        IpcResponse { status, headers: json_header_map(), body }
    }

    /// This response with one more header (replacing any header of the same name).
    pub fn with_header(self, key: String, value: String) -> (r: Self)
        ensures
            r.status == self.status,
            r.body == self.body,
            r.headers@ == self.headers@.insert(key@, value@),
    {
        let mut r = self;
        r.headers.insert(key, value);
        r
    }
}

/// IPC error types.
#[derive(Debug, Clone)]
pub enum IpcError {
    /// Invalid request format
    BadRequest(String),
    /// Route not found
    NotFound(String),
    /// Handler execution error
    InternalError(String),
    /// URL parsing error
    ParseError(String),
    /// Unauthorized access
    Unauthorized,
    /// Forbidden access
    Forbidden(String),
    /// An error answered with a status of the handler's choice
    Custom { status: u16, message: String },
}

/// The meaning of an error: its kind and message.
pub enum ErrorView {
    BadRequest(Seq<char>),
    NotFound(Seq<char>),
    InternalError(Seq<char>),
    ParseError(Seq<char>),
    Unauthorized,
    Forbidden(Seq<char>),
    Custom { status: u16, message: Seq<char> },
}

impl View for IpcError {
    type V = ErrorView;

    open spec fn view(&self) -> ErrorView {
        match self {
            IpcError::BadRequest(m) => ErrorView::BadRequest(m@),
            IpcError::NotFound(m) => ErrorView::NotFound(m@),
            IpcError::InternalError(m) => ErrorView::InternalError(m@),
            IpcError::ParseError(m) => ErrorView::ParseError(m@),
            IpcError::Unauthorized => ErrorView::Unauthorized,
            IpcError::Forbidden(m) => ErrorView::Forbidden(m@),
            IpcError::Custom { status, message } => ErrorView::Custom { status: *status, message: message@ },
        }
    }
}

/// The response that answers an error.
pub open spec fn error_response(e: ErrorView) -> ResponseView {
    match e {
        ErrorView::BadRequest(m) => bad_request_response(m),
        ErrorView::NotFound(m) => not_found_response(m),
        ErrorView::InternalError(m) => internal_error_response(m),
        ErrorView::ParseError(m) => bad_request_response("Parse error: "@ + m),
        ErrorView::Unauthorized => json_response(
            401,
            error_body("Unauthorized"@, "Authentication required"@),
        ),
        ErrorView::Forbidden(m) => json_response(403, error_body("Forbidden"@, m)),
        ErrorView::Custom { status, message } => json_response(status, error_body("Error"@, message)),
    }
}

/// The text of an error (as `Display` writes it in the app).
pub open spec fn error_text(e: ErrorView) -> Seq<char> {
    match e {
        ErrorView::BadRequest(m) => "Bad Request: "@ + m,
        ErrorView::NotFound(m) => "Not Found: "@ + m,
        ErrorView::InternalError(m) => "Internal Error: "@ + m,
        ErrorView::ParseError(m) => "Parse Error: "@ + m,
        ErrorView::Unauthorized => "Unauthorized"@,
        ErrorView::Forbidden(m) => "Forbidden: "@ + m,
        ErrorView::Custom { status, message } => "Error "@ + decimal(status as nat) + ": "@ + message,
    }
}

/// The status code of the response that answers an error.
pub open spec fn error_status(e: ErrorView) -> u16 {
    match e {
        ErrorView::BadRequest(_) => 400,
        ErrorView::NotFound(_) => 404,
        ErrorView::InternalError(_) => 500,
        ErrorView::ParseError(_) => 400,
        ErrorView::Unauthorized => 401,
        ErrorView::Forbidden(_) => 403,
        ErrorView::Custom { status, .. } => status,
    }
}

/// Every error is answered with the JSON content type and the status of its kind:
/// 400 for bad requests and parse errors, 404 for not found, 500 for handler errors,
/// 401 for unauthorized, 403 for forbidden, and its own status for a custom error.
pub proof fn law_error_status(e: ErrorView)
    ensures
        error_response(e).status == error_status(e),
        error_response(e).headers == json_headers(),
{
}

impl IpcError {
    /// The error's text, e.g. `"Bad Request: <message>"`.
    pub fn message(&self) -> (r: String)
        ensures
            r@ == error_text(self@),
    {
        match self {
            IpcError::BadRequest(m) => {
                let mut r = string_from("Bad Request: ");
                push_str(&mut r, m.as_str());
                r
            },
            IpcError::NotFound(m) => {
                let mut r = string_from("Not Found: ");
                push_str(&mut r, m.as_str());
                r
            },
            IpcError::InternalError(m) => {
                let mut r = string_from("Internal Error: ");
                push_str(&mut r, m.as_str());
                r
            },
            IpcError::ParseError(m) => {
                let mut r = string_from("Parse Error: ");
                push_str(&mut r, m.as_str());
                r
            },
            IpcError::Unauthorized => string_from("Unauthorized"),
            IpcError::Forbidden(m) => {
                let mut r = string_from("Forbidden: ");
                push_str(&mut r, m.as_str());
                r
            },
            IpcError::Custom { status, message } => {
                let mut r = string_from("Error ");
                push_str(&mut r, decimal_string(*status as u64).as_str());
                push_str(&mut r, ": ");
                push_str(&mut r, message.as_str());
                r
            },
        }
    }
}

impl IpcResponse {
    /// The response that answers an error: bad request, not found and internal errors
    /// go through the matching constructor, a parse error becomes a bad request with
    /// the message `"Parse error: <message>"`, unauthorized becomes 401, forbidden 403,
    /// and a custom error its own status with `{"error": "Error", "message": message}`.
    pub fn from_error(error: IpcError) -> (r: Self)
        ensures
            r@ == error_response(error@),
    {
        match error {
            IpcError::BadRequest(m) => IpcResponse::bad_request(m.as_str()),
            IpcError::NotFound(m) => IpcResponse::not_found(m.as_str()),
            IpcError::InternalError(m) => IpcResponse::internal_error(m.as_str()),
            IpcError::ParseError(m) => {
                let mut message = string_from("Parse error: ");
                push_str(&mut message, m.as_str());
                IpcResponse::bad_request(message.as_str())
            },
            IpcError::Unauthorized => IpcResponse::with_status(
                401,
                make_error_body("Unauthorized", "Authentication required"),
            ),
            IpcError::Forbidden(m) => IpcResponse::with_status(
                403,
                make_error_body("Forbidden", m.as_str()),
            ),
            IpcError::Custom { status, message } => IpcResponse::with_status(
                status,
                make_error_body("Error", message.as_str()),
            ),
        }
    }
}

impl From<IpcError> for IpcResponse {
    /// The response that answers an error (see `IpcResponse::from_error`).
    fn from(error: IpcError) -> (r: Self)
        ensures
            r@ == error_response(error@),
    {
        IpcResponse::from_error(error)
    }
}

/// Responses are described by their views (two responses with the same headers may hold
/// them in a different order), so no exact `from_spec` is claimed here; what `from`
/// returns is stated by view in its own `ensures`.
impl vstd::std_specs::convert::FromSpecImpl<IpcError> for IpcResponse {
    open spec fn obeys_from_spec() -> bool {
        false
    }

    open spec fn from_spec(v: IpcError) -> IpcResponse {
        arbitrary()
    }
}

} // verus!
