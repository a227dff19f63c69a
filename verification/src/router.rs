//! HTTP-like IPC router: routes incoming IPC requests to handlers by method and URL
//! pattern.
use vstd::prelude::*;
use std::sync::Arc;
use crate::param_map::{pair_views, ParamMap};
use crate::parser::{parse_body, parsed_body, parsed_url, pattern_match, ParsedUrl};
use crate::request::{body_view, enriched_view, BodyView, EnrichedRequest, EnrichedView, IpcRequest, RequestBody, RequestView};
use crate::response::{error_response, not_found_response, ErrorView, IpcError, IpcResponse, ResponseView};
use crate::json::{json_i64, json_members, json_str, json_u64, member_views as value_member_views, object_members, value_i64, value_str, value_u64};
use crate::text::{chars_of, eq_ignore_ascii_case, push_str, same_chars, same_ignoring_ascii_case, string_from};

verus! {

/// Trait for implementing HTTP-style route handlers.
///
/// An implementation describes its answers with `may_answer`: `handle` returns only
/// outcomes that `may_answer` admits for the request (by default it admits all).
pub trait RouteHandler: Send + Sync {
    /// The outcomes this handler may give for a request (any outcome, unless the
    /// implementation says more).
    open spec fn may_answer(&self, req: EnrichedView, outcome: Result<ResponseView, ErrorView>) -> bool {
        true
    }

    /// Handles the incoming HTTP-like IPC request.
    fn handle(&self, req: &EnrichedRequest) -> (r: Result<IpcResponse, IpcError>)
        ensures
            self.may_answer(req@, outcome_view(r)),
    ;
}

/// The view of a handler's outcome.
pub open spec fn outcome_view(outcome: Result<IpcResponse, IpcError>) -> Result<ResponseView, ErrorView> {
    match outcome {
        Ok(resp) => Ok(resp@),
        Err(e) => Err(e@),
    }
}

// ---------------------------------------------------------------------------
// The message from the webview
// ---------------------------------------------------------------------------

/// The body member of a message from the webview.
#[derive(Debug, Clone)]
pub enum RawBody {
    /// The body is a JSON string: its text.
    Text(String),
    /// The body is any other JSON value.
    Value(serde_json::Value),
}

/// The JSON message that the webview sends for a request, read into the values that the
/// router looks at.
#[derive(Debug, Clone)]
pub struct RawMessage {
    /// Whether the message is a JSON object.
    pub is_object: bool,
    /// Member `id`, when it is an unsigned integer.
    pub id: Option<u64>,
    /// Member `method`, when it is a string.
    pub method: Option<String>,
    /// Member `url`, when it is a string.
    pub url: Option<String>,
    /// Member `headers`, when it is an object: each of its members, with the value when
    /// that is a string.
    pub headers: Option<Vec<(String, Option<String>)>>,
    /// Member `body`, when present.
    pub body: Option<RawBody>,
}

/// The meaning of a message body.
pub enum RawBodyView {
    Text(Seq<char>),
    Value(serde_json::Value),
}

/// The meaning of a message.
pub struct RawView {
    pub is_object: bool,
    pub id: Option<u64>,
    pub method: Option<Seq<char>>,
    pub url: Option<Seq<char>>,
    pub headers: Option<Seq<(Seq<char>, Option<Seq<char>>)>>,
    pub body: Option<RawBodyView>,
}

/// The view of an optional string.
pub open spec fn opt_view(s: Option<String>) -> Option<Seq<char>> {
    match s {
        Some(s) => Some(s@),
        None => None,
    }
}

/// The views of header members.
pub open spec fn member_views(hs: Seq<(String, Option<String>)>) -> Seq<(Seq<char>, Option<Seq<char>>)> {
    hs.map_values(|h: (String, Option<String>)| (h.0@, opt_view(h.1)))
}

impl View for RawMessage {
    type V = RawView;

    open spec fn view(&self) -> RawView {
        RawView {
            is_object: self.is_object,
            id: self.id,
            method: opt_view(self.method),
            url: opt_view(self.url),
            headers: match self.headers {
                Some(hs) => Some(member_views(hs@)),
                None => None,
            },
            body: match self.body {
                Some(RawBody::Text(t)) => Some(RawBodyView::Text(t@)),
                Some(RawBody::Value(v)) => Some(RawBodyView::Value(v)),
                None => None,
            },
        }
    }
}

/// The value of the first member named `name`.
pub open spec fn member_value(ms: Seq<(Seq<char>, serde_json::Value)>, name: Seq<char>) -> Option<serde_json::Value>
    decreases ms.len(),
{
    if ms.len() == 0 {
        None
    } else if ms[0].0 == name {
        Some(ms[0].1)
    } else {
        member_value(ms.drop_first(), name)
    }
}

/// What the router reads of a JSON message: whether it is an object; its unsigned `id`,
/// string `method` and string `url` members; the members of its `headers` object, with
/// their string values; and its `body` member, as text when it is a string.
pub open spec fn raw_view_of(v: serde_json::Value) -> RawView {
    match json_members(v) {
        None => RawView { is_object: false, id: None, method: None, url: None, headers: None, body: None },
        Some(ms) => RawView {
            is_object: true,
            id: match member_value(ms, "id"@) {
                Some(x) => json_u64(x),
                None => None,
            },
            method: match member_value(ms, "method"@) {
                Some(x) => json_str(x),
                None => None,
            },
            url: match member_value(ms, "url"@) {
                Some(x) => json_str(x),
                None => None,
            },
            headers: match member_value(ms, "headers"@) {
                Some(h) => match json_members(h) {
                    Some(hs) => Some(hs.map_values(|m: (Seq<char>, serde_json::Value)| (m.0, json_str(m.1)))),
                    None => None,
                },
                None => None,
            },
            body: match member_value(ms, "body"@) {
                Some(b) => Some(
                    match json_str(b) {
                        Some(t) => RawBodyView::Text(t),
                        None => RawBodyView::Value(b),
                    },
                ),
                None => None,
            },
        },
    }
}

/// The value of the first member named `name`.
fn find_member(ms: &Vec<(String, serde_json::Value)>, name: &str) -> (r: Option<serde_json::Value>)
    ensures
        r == member_value(value_member_views(ms@), name@),
{
    let ghost mv = value_member_views(ms@);
    let wanted = chars_of(name);
    let mut i: usize = 0;
    assert(mv.skip(0) =~= mv);
    while i < ms.len()
        invariant
            i <= ms@.len(),
            mv == value_member_views(ms@),
            wanted@ == name@,
            member_value(mv, name@) == member_value(mv.skip(i as int), name@),
        decreases ms@.len() - i,
    {
        assert(mv.skip(i as int)[0] == (ms@[i as int].0@, ms@[i as int].1));
        assert(mv.skip(i as int).drop_first() =~= mv.skip(i + 1));
        if same_chars(&chars_of(ms[i].0.as_str()), &wanted) {
            return Some(ms[i].1.clone());
        }
        i += 1;
    }
    None
}

/// The request id of a JSON message, as the callback that answers it is keyed: its `id`
/// member as a signed integer.
pub open spec fn request_id_of(v: serde_json::Value) -> Option<i64> {
    match json_members(v) {
        Some(ms) => match member_value(ms, "id"@) {
            Some(x) => json_i64(x),
            None => None,
        },
        None => None,
    }
}

/// The request id of a JSON message (its `id` member as a signed integer), if it has one.
pub fn message_request_id(msg: &serde_json::Value) -> (r: Option<i64>)
    ensures
        r == request_id_of(*msg),
{
    match object_members(msg) {
        Some(ms) => match find_member(&ms, "id") {
            Some(x) => value_i64(&x),
            None => None,
        },
        None => None,
    }
}

impl RawMessage {
    /// Read a JSON message from the webview into the values that the router looks at.
    pub fn from_value(raw: &serde_json::Value) -> (r: RawMessage)
        ensures
            r@ == raw_view_of(*raw),
    {
        let ms = match object_members(raw) {
            None => {
                return RawMessage { is_object: false, id: None, method: None, url: None, headers: None, body: None };
            },
            Some(ms) => ms,
        };
        let id = match find_member(&ms, "id") {
            Some(x) => value_u64(&x),
            None => None,
        };
        let method = match find_member(&ms, "method") {
            Some(x) => value_str(&x),
            None => None,
        };
        let url = match find_member(&ms, "url") {
            Some(x) => value_str(&x),
            None => None,
        };
        let headers = match find_member(&ms, "headers") {
            Some(h) => match object_members(&h) {
                Some(hs) => Some(header_members(&hs)),
                None => None,
            },
            None => None,
        };
        let body = match find_member(&ms, "body") {
            Some(b) => Some(
                match value_str(&b) {
                    Some(t) => RawBody::Text(t),
                    None => RawBody::Value(b),
                },
            ),
            None => None,
        };
        RawMessage { is_object: true, id, method, url, headers, body }
    }
}

/// The views of header members after a push.
proof fn lemma_member_views_push(hs: Seq<(String, Option<String>)>, h: (String, Option<String>))
    ensures
        member_views(hs.push(h)) == member_views(hs).push((h.0@, opt_view(h.1))),
{
    assert(member_views(hs.push(h)) =~= member_views(hs).push((h.0@, opt_view(h.1))));
}

/// The header members, each with its value's text when that is a string.
fn header_members(hs: &Vec<(String, serde_json::Value)>) -> (r: Vec<(String, Option<String>)>)
    ensures
        member_views(r@) == value_member_views(hs@).map_values(
            |m: (Seq<char>, serde_json::Value)| (m.0, json_str(m.1)),
        ),
{
    let ghost target = value_member_views(hs@).map_values(|m: (Seq<char>, serde_json::Value)| (m.0, json_str(m.1)));
    let mut out: Vec<(String, Option<String>)> = Vec::new();
    let mut i: usize = 0;
    while i < hs.len()
        invariant
            i <= hs@.len(),
            target == value_member_views(hs@).map_values(|m: (Seq<char>, serde_json::Value)| (m.0, json_str(m.1))),
            member_views(out@) == target.take(i as int),
        decreases hs@.len() - i,
    {
        let name = hs[i].0.clone();
        let text = value_str(&hs[i].1);
        proof {
            assert(target[i as int] == (name@, opt_view(text)));
            lemma_member_views_push(out@, (name, text));
            assert(member_views(out@).push((name@, opt_view(text))) =~= target.take(i + 1));
        }
        out.push((name, text));
        i += 1;
    }
    assert(target.take(i as int) =~= target);
    out
}

/// The headers of a message: its string-valued header members.
pub open spec fn string_headers(hs: Seq<(Seq<char>, Option<Seq<char>>)>) -> Map<Seq<char>, Seq<char>>
    decreases hs.len(),
{
    if hs.len() == 0 {
        Map::empty()
    } else {
        let m = string_headers(hs.drop_last());
        match hs.last().1 {
            Some(v) => m.insert(hs.last().0, v),
            None => m,
        }
    }
}

/// The request that a message describes. A message that is not an object, or lacks an
/// unsigned `id` or a string `url`, is a bad request; the method defaults to `GET`; a
/// string body is parsed by the `Content-Type` header (JSON when there is none), any
/// other body is taken as JSON.
pub open spec fn raw_request(raw: RawView) -> Result<RequestView, ErrorView> {
    if !raw.is_object {
        Err(ErrorView::BadRequest("Request must be an object"@))
    } else {
        match raw.id {
            None => Err(ErrorView::BadRequest("Missing 'id' field"@)),
            Some(id) => {
                let method = match raw.method {
                    Some(m) => m,
                    None => "GET"@,
                };
                match raw.url {
                    None => Err(ErrorView::BadRequest("Missing 'url' field"@)),
                    Some(url) => {
                        let headers = match raw.headers {
                            Some(hs) => string_headers(hs),
                            None => Map::empty(),
                        };
                        match raw.body {
                            None => Ok(RequestView { id, method, url, headers, body: None }),
                            Some(RawBodyView::Value(v)) => Ok(
                                RequestView { id, method, url, headers, body: Some(BodyView::Json(v)) },
                            ),
                            Some(RawBodyView::Text(t)) => {
                                let ct = if headers.contains_key("Content-Type"@) {
                                    headers["Content-Type"@]
                                } else {
                                    "application/json"@
                                };
                                match parsed_body(ct, t) {
                                    Ok(b) => Ok(RequestView { id, method, url, headers, body: Some(b) }),
                                    Err(e) => Err(e),
                                }
                            },
                        }
                    },
                }
            },
        }
    }
}

// ---------------------------------------------------------------------------
// Route selection
// ---------------------------------------------------------------------------

/// A route (method, pattern) takes a request with this method (up to ASCII case) and path.
pub open spec fn route_takes(route: (Seq<char>, Seq<char>), method: Seq<char>, path: Seq<char>) -> bool {
    eq_ignore_ascii_case(route.0, method) && pattern_match(path, route.1) is Some
}

/// Route `i` is the first route that takes the request.
pub open spec fn is_selected(routes: Seq<(Seq<char>, Seq<char>)>, method: Seq<char>, path: Seq<char>, i: int) -> bool {
    &&& 0 <= i < routes.len()
    &&& route_takes(routes[i], method, path)
    &&& forall|j: int| 0 <= j < i ==> !#[trigger] route_takes(routes[j], method, path)
}

/// The first registered route that takes the request, if any.
pub open spec fn selected_route(routes: Seq<(Seq<char>, Seq<char>)>, method: Seq<char>, path: Seq<char>) -> Option<int> {
    if exists|i: int| is_selected(routes, method, path, i) {
        Some(choose|i: int| is_selected(routes, method, path, i))
    } else {
        None
    }
}

/// The first route that takes a request is the selected one.
pub proof fn lemma_selected(routes: Seq<(Seq<char>, Seq<char>)>, method: Seq<char>, path: Seq<char>, i: int)
    requires
        is_selected(routes, method, path, i),
    ensures
        selected_route(routes, method, path) == Some(i),
{
    let k = choose|k: int| is_selected(routes, method, path, k);
    assert(is_selected(routes, method, path, k));
    if k < i {
        assert(!route_takes(routes[k], method, path));
    } else if i < k {
        assert(!route_takes(routes[i], method, path));
    }
}

/// When some route takes a request, one is selected.
pub proof fn lemma_some_selected(routes: Seq<(Seq<char>, Seq<char>)>, method: Seq<char>, path: Seq<char>, j: int)
    requires
        0 <= j < routes.len(),
        route_takes(routes[j], method, path),
    ensures
        selected_route(routes, method, path) is Some,
    decreases j,
{
    if exists|k: int| 0 <= k < j && #[trigger] route_takes(routes[k], method, path) {
        let k = choose|k: int| 0 <= k < j && #[trigger] route_takes(routes[k], method, path);
        lemma_some_selected(routes, method, path, k);
    } else {
        assert(is_selected(routes, method, path, j));
    }
}

/// When no route takes a request, none is selected.
pub proof fn lemma_none_selected(routes: Seq<(Seq<char>, Seq<char>)>, method: Seq<char>, path: Seq<char>)
    requires
        forall|j: int| 0 <= j < routes.len() ==> !#[trigger] route_takes(routes[j], method, path),
    ensures
        selected_route(routes, method, path) is None,
{
}

/// What the router does with a message.
pub enum PlanView {
    /// Answer at once with this response.
    Respond(ResponseView),
    /// Hand this request to the handler of this route.
    Handle(int, EnrichedView),
}

/// What the router does with a message: a message that does not describe a request, or
/// whose URL does not parse, is answered with the error's response; a request that no
/// route takes is answered 404 with the message `No route matches '<METHOD> <path>'`;
/// else the first route that takes it gets the request, enriched with the URL's path,
/// the route's path parameters and the URL's query parameters.
pub open spec fn dispatch_plan(routes: Seq<(Seq<char>, Seq<char>)>, raw: RawView) -> PlanView {
    match raw_request(raw) {
        Err(e) => PlanView::Respond(error_response(e)),
        Ok(req) => match parsed_url(req.url) {
            Err(m) => PlanView::Respond(error_response(ErrorView::ParseError(m))),
            Ok(u) => match selected_route(routes, req.method, u.path) {
                None => PlanView::Respond(not_found_response(req.method + " "@ + u.path)),
                Some(i) => PlanView::Handle(
                    i,
                    enriched_view(req, u.path, pattern_match(u.path, routes[i].1).unwrap(), u.query_params),
                ),
            },
        },
    }
}

/// The response that answers a handler's outcome: its response, or its error's response.
pub open spec fn outcome_response(outcome: Result<ResponseView, ErrorView>) -> ResponseView {
    match outcome {
        Ok(r) => r,
        Err(e) => error_response(e),
    }
}

/// What the router does with a message.
pub enum Resolution {
    /// Answer at once with this response.
    Respond(IpcResponse),
    /// Hand `request` to the handler of route number `route`.
    Handle { route: usize, request: EnrichedRequest },
}

impl View for Resolution {
    type V = PlanView;

    open spec fn view(&self) -> PlanView {
        match self {
            Resolution::Respond(r) => PlanView::Respond(r@),
            Resolution::Handle { route, request } => PlanView::Handle(*route as int, request@),
        }
    }
}

// ---------------------------------------------------------------------------
// The router
// ---------------------------------------------------------------------------

/// Route definition.
#[derive(Clone)]
struct Route {
    /// HTTP method
    method: String,
    /// Path pattern with optional parameters (e.g., "/user/:id/posts/:postId")
    pattern: String,
    /// Handler for this route
    handler: Arc<Box<dyn RouteHandler>>,
}

/// HTTP-like IPC Router: routes incoming IPC requests to handlers based on method and
/// URL pattern, the first registered route that fits winning.
#[derive(Clone)]
pub struct IpcRouter {
    routes: Vec<Route>,
}

/// The (method, pattern) pairs of a sequence of routes.
spec fn route_views(rs: Seq<Route>) -> Seq<(Seq<char>, Seq<char>)> {
    rs.map_values(|r: Route| (r.method@, r.pattern@))
}

impl View for IpcRouter {
    type V = Seq<(Seq<char>, Seq<char>)>;

    /// The registered routes as (method, pattern) pairs, in registration order.
    closed spec fn view(&self) -> Seq<(Seq<char>, Seq<char>)> {
        route_views(self.routes@)
    }
}

/// A route pushed after others.
proof fn lemma_route_push(rs: Seq<Route>, r: Route)
    ensures
        rs.push(r).len() == rs.len() + 1,
        rs.push(r)[rs.len() as int] == r,
        forall|i: int| 0 <= i < rs.len() ==> rs.push(r)[i] == rs[i],
        route_views(rs).len() == rs.len(),
{
}

impl IpcRouter {
    /// Whether the handler of the route at position `i` of the view may give `outcome`
    /// for `req` (its `may_answer`).
    pub closed spec fn route_may_answer(&self, i: int, req: EnrichedView, outcome: Result<ResponseView, ErrorView>) -> bool {
        (*self.routes@[i].handler).may_answer(req, outcome)
    }

    /// `resp` answers the plan: it is the plan's response, or the response to an outcome
    /// that the chosen route's handler may give for the request.
    pub open spec fn answers_plan(&self, plan: PlanView, resp: ResponseView) -> bool {
        match plan {
            PlanView::Respond(r) => resp == r,
            PlanView::Handle(i, req) => self.handled_answer(i, req, resp),
        }
    }

    /// `resp` answers the request `req` that route `i` takes: it is the response to an
    /// outcome that the route's handler may give for `req`.
    pub open spec fn handled_answer(&self, i: int, req: EnrichedView, resp: ResponseView) -> bool {
        exists|o: Result<ResponseView, ErrorView>| #[trigger] self.route_may_answer(i, req, o) && resp == outcome_response(o)
    }
}

/// The headers of a message.
fn message_headers(members: &Option<Vec<(String, Option<String>)>>) -> (r: ParamMap)
    ensures
        r@ == match members {
            Some(hs) => string_headers(member_views(hs@)),
            None => Map::<Seq<char>, Seq<char>>::empty(),
        },
{
    let mut headers = ParamMap::new();
    match members {
        None => {},
        Some(hs) => {
            let ghost mv = member_views(hs@);
            let mut i: usize = 0;
            assert(mv.take(0) =~= Seq::<(Seq<char>, Option<Seq<char>>)>::empty());
            while i < hs.len()
                invariant
                    i <= hs@.len(),
                    mv == member_views(hs@),
                    headers@ == string_headers(mv.take(i as int)),
                decreases hs@.len() - i,
            {
                assert(mv.take(i + 1).drop_last() =~= mv.take(i as int));
                assert(mv.take(i + 1).last() == mv[i as int]);
                match &hs[i].1 {
                    Some(v) => {
                        headers.insert(hs[i].0.clone(), v.clone());
                    },
                    None => {},
                }
                i += 1;
            }
            assert(mv.take(hs@.len() as int) =~= mv);
        },
    }
    headers
}

impl IpcRouter {
    /// Creates a new empty IPC router.
    pub fn new() -> (r: Self)
        ensures
            r@ == Seq::<(Seq<char>, Seq<char>)>::empty(),
    {
        let r = IpcRouter { routes: Vec::new() };
        assert(route_views(r.routes@) =~= Seq::<(Seq<char>, Seq<char>)>::empty());
        r
    }

    /// Create a new router builder.
    pub fn builder() -> (r: IpcRouterBuilder)
        ensures
            r@ == Seq::<(Seq<char>, Seq<char>)>::empty(),
    {
        IpcRouterBuilder::new()
    }

    /// Registers a new route handler after the existing ones.
    pub fn register(&mut self, method: &str, pattern: &str, handler: Box<dyn RouteHandler>)
        ensures
            final(self)@ == old(self)@.push((method@, pattern@)),
            forall|i: int, req: EnrichedView, o: Result<ResponseView, ErrorView>|
                0 <= i < old(self)@.len() ==> #[trigger] final(self).route_may_answer(i, req, o) == old(self).route_may_answer(i, req, o),
            forall|req: EnrichedView, o: Result<ResponseView, ErrorView>|
                #[trigger] final(self).route_may_answer(old(self)@.len() as int, req, o) == handler.may_answer(req, o),
    {
        let ghost h = handler;
        let shared = Arc::new(handler);
        assert(*shared == h);
        let route = Route { method: string_from(method), pattern: string_from(pattern), handler: shared };
        proof {
            assert(route_views(self.routes@.push(route)) =~= route_views(self.routes@).push((method@, pattern@)));
            lemma_route_push(self.routes@, route);
        }
        self.routes.push(route);
        assert(self.routes@[old(self)@.len() as int] == route);
    }

    /// Returns a list of all registered routes as (method, pattern) pairs.
    pub fn list_routes(&self) -> (r: Vec<(String, String)>)
        ensures
            pair_views(r@) == self@,
    {
        let mut out: Vec<(String, String)> = Vec::new();
        let mut i: usize = 0;
        while i < self.routes.len()
            invariant
                i <= self.routes@.len(),
                pair_views(out@) == route_views(self.routes@.take(i as int)),
            decreases self.routes@.len() - i,
        {
            let m = self.routes[i].method.clone();
            let p = self.routes[i].pattern.clone();
            proof {
                assert(pair_views(out@.push((m, p))) =~= pair_views(out@).push((m@, p@)));
                assert(route_views(self.routes@.take(i + 1)) =~= route_views(self.routes@.take(i as int)).push(
                    (self.routes@[i as int].method@, self.routes@[i as int].pattern@),
                ));
            }
            out.push((m, p));
            i += 1;
        }
        assert(self.routes@.take(self.routes@.len() as int) =~= self.routes@);
        out
    }

    /// Parse a message from JavaScript into an `IpcRequest`.
    fn parse_raw_request(&self, raw: &RawMessage) -> (r: Result<IpcRequest, IpcError>)
        ensures
            match r {
                Ok(req) => raw_request(raw@) == Ok::<RequestView, ErrorView>(req@),
                Err(e) => raw_request(raw@) == Err::<RequestView, ErrorView>(e@),
            },
    {
        if !raw.is_object {
            return Err(IpcError::BadRequest(string_from("Request must be an object")));
        }
        let id = match raw.id {
            Some(id) => id,
            None => {
                return Err(IpcError::BadRequest(string_from("Missing 'id' field")));
            },
        };
        let method = match &raw.method {
            Some(m) => m.clone(),
            None => string_from("GET"),
        };
        let url = match &raw.url {
            Some(u) => u.clone(),
            None => {
                return Err(IpcError::BadRequest(string_from("Missing 'url' field")));
            },
        };
        let headers = message_headers(&raw.headers);
        let body = match &raw.body {
            None => None,
            Some(RawBody::Value(v)) => Some(RequestBody::Json(v.clone())),
            Some(RawBody::Text(t)) => {
                let content_type = match headers.get("Content-Type") {
                    Some(ct) => ct.clone(),
                    None => string_from("application/json"),
                };
                match parse_body(content_type.as_str(), t.as_str()) {
                    Ok(b) => Some(b),
                    Err(e) => {
                        return Err(e);
                    },
                }
            },
        };
        Ok(IpcRequest { id, method, url, headers, body })
    }

    /// Decide what to do with a message from JavaScript: answer it at once, or hand an
    /// enriched request to a route's handler.
    pub fn resolve(&self, raw: &RawMessage) -> (r: Resolution)
        ensures
            r@ == dispatch_plan(self@, raw@),
            r matches Resolution::Handle { route, .. } ==> route < self@.len(),
    {
        let request = match self.parse_raw_request(raw) {
            Ok(req) => req,
            Err(err) => {
                return Resolution::Respond(IpcResponse::from_error(err));
            },
        };
        let parsed = match ParsedUrl::parse(request.url.as_str()) {
            Ok(u) => u,
            Err(err) => {
                return Resolution::Respond(IpcResponse::from_error(err));
            },
        };
        let method = chars_of(request.method.as_str());
        let mut i: usize = 0;
        while i < self.routes.len()
            invariant
                i <= self.routes@.len(),
                method@ == request.method@,
                raw_request(raw@) == Ok::<RequestView, ErrorView>(request@),
                parsed_url(request.url@) == Ok::<crate::parser::UrlView, Seq<char>>(parsed@),
                forall|j: int| 0 <= j < i ==> !#[trigger] route_takes(self@[j], request.method@, parsed.path@),
            decreases self.routes@.len() - i,
        {
            let route = &self.routes[i];
            assert(self@[i as int] == (route.method@, route.pattern@));
            let route_method = chars_of(route.method.as_str());
            if same_ignoring_ascii_case(&route_method, &method) {
                match parsed.match_pattern(route.pattern.as_str()) {
                    Some(path_params) => {
                        proof {
                            lemma_selected(self@, request.method@, parsed.path@, i as int);
                        }
                        let path = parsed.path.clone();
                        let query_params = parsed.query_params.copy();
                        let enriched = EnrichedRequest::new(request, path, path_params, query_params);
                        return Resolution::Handle { route: i, request: enriched };
                    },
                    None => {},
                }
            }
            i += 1;
        }
        proof {
            lemma_none_selected(self@, request.method@, parsed.path@);
        }
        let mut target = request.method.clone();
        push_str(&mut target, " ");
        push_str(&mut target, parsed.path.as_str());
        Resolution::Respond(IpcResponse::not_found(target.as_str()))
    }

    /// The response that answers a handler's outcome.
    pub fn answer(outcome: Result<IpcResponse, IpcError>) -> (r: IpcResponse)
        ensures
            r@ == outcome_response(outcome_view(outcome)),
    {
        match outcome {
            Ok(response) => response,
            Err(err) => IpcResponse::from_error(err),
        }
    }

    /// Dispatches a JSON message from JavaScript to the route handler that takes it, and
    /// returns the response (a 404 response when no route takes it).
    pub fn dispatch(&self, raw_request: &serde_json::Value) -> (r: IpcResponse)
        ensures
            self.answers_plan(dispatch_plan(self@, raw_view_of(*raw_request)), r@),
    {
        let message = RawMessage::from_value(raw_request);
        self.dispatch_message(&message)
    }

    /// Dispatches a message, read into a `RawMessage`, to the route handler that takes it,
    /// and returns the response (a 404 response when no route takes it).
    pub fn dispatch_message(&self, raw: &RawMessage) -> (r: IpcResponse)
        ensures
            self.answers_plan(dispatch_plan(self@, raw@), r@),
    {
        let resolution = self.resolve(raw);
        match resolution {
            Resolution::Respond(response) => {
                assert(dispatch_plan(self@, raw@) == PlanView::Respond(response@));
                response
            },
            Resolution::Handle { route, request } => {
                assert(dispatch_plan(self@, raw@) == PlanView::Handle(route as int, request@));
                let entry = &self.routes[route];
                let outcome = entry.handler.handle(&request);
                assert(*entry == self.routes@[route as int]);
                let r = IpcRouter::answer(outcome);
                assert(self.route_may_answer(route as int, request@, outcome_view(outcome)));
                assert(self.handled_answer(route as int, request@, r@));
                r
            },
        }
    }
}

impl Default for IpcRouter {
    fn default() -> (r: Self)
        ensures
            r@ == Seq::<(Seq<char>, Seq<char>)>::empty(),
    {
        IpcRouter::new()
    }
}

/// Builder for IpcRouter.
pub struct IpcRouterBuilder {
    routes: Vec<(String, String, Box<dyn RouteHandler>)>,
}

/// The (method, pattern) pairs of a builder's routes.
spec fn pending_views(rs: Seq<(String, String, Box<dyn RouteHandler>)>) -> Seq<(Seq<char>, Seq<char>)> {
    rs.map_values(|r: (String, String, Box<dyn RouteHandler>)| (r.0@, r.1@))
}

impl View for IpcRouterBuilder {
    type V = Seq<(Seq<char>, Seq<char>)>;

    /// The routes added so far as (method, pattern) pairs, in order.
    closed spec fn view(&self) -> Seq<(Seq<char>, Seq<char>)> {
        pending_views(self.routes@)
    }
}

impl IpcRouterBuilder {
    /// Whether the handler of the route at position `i` of the view may give `outcome`
    /// for `req` (its `may_answer`).
    pub closed spec fn route_may_answer(&self, i: int, req: EnrichedView, outcome: Result<ResponseView, ErrorView>) -> bool {
        self.routes@[i].2.may_answer(req, outcome)
    }
}

impl IpcRouterBuilder {
    /// Create a new router builder.
    pub fn new() -> (r: Self)
        ensures
            r@ == Seq::<(Seq<char>, Seq<char>)>::empty(),
    {
        let r = IpcRouterBuilder { routes: Vec::new() };
        assert(pending_views(r.routes@) =~= Seq::<(Seq<char>, Seq<char>)>::empty());
        r
    }

    /// Add a route after the ones already added.
    pub fn route(self, method: &str, pattern: &str, handler: Box<dyn RouteHandler>) -> (r: Self)
        ensures
            r@ == self@.push((method@, pattern@)),
            forall|i: int, req: EnrichedView, o: Result<ResponseView, ErrorView>|
                0 <= i < self@.len() ==> #[trigger] r.route_may_answer(i, req, o) == self.route_may_answer(i, req, o),
            forall|req: EnrichedView, o: Result<ResponseView, ErrorView>|
                #[trigger] r.route_may_answer(self@.len() as int, req, o) == handler.may_answer(req, o),
    {
        let mut routes = self.routes;
        let entry = (string_from(method), string_from(pattern), handler);
        proof {
            assert(pending_views(routes@.push(entry)) =~= pending_views(routes@).push((method@, pattern@)));
        }
        routes.push(entry);
        IpcRouterBuilder { routes }
    }

    /// Build the IpcRouter, registering the routes in the order they were added.
    pub fn build(self) -> (r: IpcRouter)
        ensures
            r@ == self@,
            forall|i: int, req: EnrichedView, o: Result<ResponseView, ErrorView>|
                0 <= i < self@.len() ==> #[trigger] r.route_may_answer(i, req, o) == self.route_may_answer(i, req, o),
    {
        let mut router = IpcRouter::new();
        let mut routes = self.routes;
        let ghost all = pending_views(routes@);
        let ghost entries = routes@;
        let ghost n = entries.len();
        while routes.len() > 0
            invariant
                all == router@ + pending_views(routes@),
                all.len() == n,
                all == pending_views(entries),
                routes@ == entries.skip(router@.len() as int),
                forall|i: int, req: EnrichedView, o: Result<ResponseView, ErrorView>|
                    0 <= i < router@.len() ==> #[trigger] router.route_may_answer(i, req, o) == entries[i].2.may_answer(req, o),
            decreases routes@.len(),
        {
            let ghost before = routes@;
            let ghost k = router@.len() as int;
            let (method, pattern, handler) = routes.remove(0);
            let ghost h = handler;
            proof {
                assert(pending_views(before) =~= seq![(method@, pattern@)] + pending_views(routes@));
                assert(before[0] == entries[k]);
                assert(h == entries[k].2);
                assert(routes@ =~= entries.skip(k + 1));
            }
            let shared = Arc::new(handler);
            let route = Route { method, pattern, handler: shared };
            let ghost previous = router.routes@;
            let ghost prev_router = router;
            proof {
                assert(route_views(previous.push(route)) =~= route_views(previous).push((route.method@, route.pattern@)));
                lemma_route_push(previous, route);
            }
            router.routes.push(route);
            assert(all =~= router@ + pending_views(routes@));
            assert forall|i: int, req: EnrichedView, o: Result<ResponseView, ErrorView>|
                0 <= i < router@.len() implies #[trigger] router.route_may_answer(i, req, o) == entries[i].2.may_answer(req, o) by {
                if i < k {
                    assert(router.routes@[i] == previous[i]);
                    assert(prev_router.route_may_answer(i, req, o) == entries[i].2.may_answer(req, o));
                } else {
                    assert(router.routes@[k] == route);
                    assert(*route.handler == h);
                }
            }
        }
        assert(pending_views(routes@) =~= Seq::<(Seq<char>, Seq<char>)>::empty());
        assert(all =~= router@);
        router
    }
}

impl Default for IpcRouterBuilder {
    fn default() -> (r: Self)
        ensures
            r@ == Seq::<(Seq<char>, Seq<char>)>::empty(),
    {
        IpcRouterBuilder::new()
    }
}

// ---------------------------------------------------------------------------
// Laws
// ---------------------------------------------------------------------------

/// Registering a route never takes a request away from an earlier route that takes it;
/// a request that no earlier route takes goes to the new route when it takes it.
pub proof fn law_first_registered_route_wins(
    routes: Seq<(Seq<char>, Seq<char>)>,
    route: (Seq<char>, Seq<char>),
    method: Seq<char>,
    path: Seq<char>,
)
    ensures
        selected_route(routes, method, path) is Some ==> selected_route(routes.push(route), method, path)
            == selected_route(routes, method, path),
        selected_route(routes, method, path) is None && route_takes(route, method, path)
            ==> selected_route(routes.push(route), method, path) == Some(routes.len() as int),
        selected_route(routes, method, path) is None && !route_takes(route, method, path)
            ==> selected_route(routes.push(route), method, path) is None,
{
    let more = routes.push(route);
    if selected_route(routes, method, path) is Some {
        let i = choose|i: int| is_selected(routes, method, path, i);
        assert(is_selected(routes, method, path, i));
        assert forall|j: int| 0 <= j < i implies !#[trigger] route_takes(more[j], method, path) by {
            assert(more[j] == routes[j]);
            assert(!route_takes(routes[j], method, path));
        }
        assert(more[i] == routes[i]);
        lemma_selected(more, method, path, i);
    } else {
        assert forall|j: int| 0 <= j < routes.len() implies !#[trigger] route_takes(routes[j], method, path) by {
            if route_takes(routes[j], method, path) {
                lemma_some_selected(routes, method, path, j);
            }
        }
        assert forall|j: int| 0 <= j < routes.len() implies !#[trigger] route_takes(more[j], method, path) by {
            assert(more[j] == routes[j]);
        }
        if route_takes(route, method, path) {
            assert(more[routes.len() as int] == route);
            lemma_selected(more, method, path, routes.len() as int);
        } else {
            assert forall|j: int| 0 <= j < more.len() implies !#[trigger] route_takes(more[j], method, path) by {
                if j == routes.len() {
                    assert(more[j] == route);
                } else {
                    assert(more[j] == routes[j]);
                }
            }
            lemma_none_selected(more, method, path);
        }
    }
}

/// A message that is not a JSON object, or has no unsigned `id`, or no string `url`, is
/// answered 400 with the JSON content type.
pub proof fn law_malformed_message_is_bad_request(routes: Seq<(Seq<char>, Seq<char>)>, raw: RawView)
    requires
        !raw.is_object || raw.id is None || raw.url is None,
    ensures
        dispatch_plan(routes, raw) matches PlanView::Respond(r) && r.status == 400
            && r.headers == crate::response::json_headers(),
{
}

/// A request that no route takes is answered 404, `No route matches '<METHOD> <path>'`.
pub proof fn law_unrouted_request_is_not_found(
    routes: Seq<(Seq<char>, Seq<char>)>,
    raw: RawView,
    req: RequestView,
    url: crate::parser::UrlView,
)
    requires
        raw_request(raw) == Ok::<RequestView, ErrorView>(req),
        parsed_url(req.url) == Ok::<crate::parser::UrlView, Seq<char>>(url),
        forall|j: int| 0 <= j < routes.len() ==> !#[trigger] route_takes(routes[j], req.method, url.path),
    ensures
        dispatch_plan(routes, raw) == PlanView::Respond(not_found_response(req.method + " "@ + url.path)),
        not_found_response(req.method + " "@ + url.path).status == 404,
{
    lemma_none_selected(routes, req.method, url.path);
}

/// A request that a route takes goes to the first such route, with the path parameters
/// that its pattern binds and the URL's query parameters; the request's headers and body
/// are handed on unchanged.
pub proof fn law_routed_request_reaches_handler(
    routes: Seq<(Seq<char>, Seq<char>)>,
    raw: RawView,
    req: RequestView,
    url: crate::parser::UrlView,
    i: int,
)
    requires
        raw_request(raw) == Ok::<RequestView, ErrorView>(req),
        parsed_url(req.url) == Ok::<crate::parser::UrlView, Seq<char>>(url),
        is_selected(routes, req.method, url.path, i),
    ensures
        dispatch_plan(routes, raw) matches PlanView::Handle(k, e) && k == i && e.path == url.path
            && Some(e.path_params) == pattern_match(url.path, routes[i].1)
            && e.query_params == url.query_params && e.headers == req.headers && e.body == req.body,
{
    lemma_selected(routes, req.method, url.path, i);
}

/// A route takes a method exactly when it takes the same method in another ASCII case.
proof fn lemma_method_fold(routes: Seq<(Seq<char>, Seq<char>)>, m1: Seq<char>, m2: Seq<char>, path: Seq<char>, j: int)
    requires
        eq_ignore_ascii_case(m1, m2),
        0 <= j < routes.len(),
    ensures
        route_takes(routes[j], m1, path) == route_takes(routes[j], m2, path),
{
    let r = routes[j].0;
    if eq_ignore_ascii_case(r, m1) {
        assert forall|i: int| 0 <= i < r.len() implies crate::text::ascii_fold(r[i]) == crate::text::ascii_fold(m2[i]) by {
            assert(crate::text::ascii_fold(r[i]) == crate::text::ascii_fold(m1[i]));
            assert(crate::text::ascii_fold(m1[i]) == crate::text::ascii_fold(m2[i]));
        }
    }
    if eq_ignore_ascii_case(r, m2) {
        assert forall|i: int| 0 <= i < r.len() implies crate::text::ascii_fold(r[i]) == crate::text::ascii_fold(m1[i]) by {
            assert(crate::text::ascii_fold(r[i]) == crate::text::ascii_fold(m2[i]));
            assert(crate::text::ascii_fold(m1[i]) == crate::text::ascii_fold(m2[i]));
        }
    }
}

/// Which route takes a request does not depend on the ASCII case of its method.
pub proof fn law_method_case_insensitive(
    routes: Seq<(Seq<char>, Seq<char>)>,
    m1: Seq<char>,
    m2: Seq<char>,
    path: Seq<char>,
)
    requires
        eq_ignore_ascii_case(m1, m2),
    ensures
        selected_route(routes, m1, path) == selected_route(routes, m2, path),
{
    assert forall|j: int| 0 <= j < routes.len() implies route_takes(routes[j], m1, path) == route_takes(
        routes[j],
        m2,
        path,
    ) by {
        lemma_method_fold(routes, m1, m2, path, j);
    }
    if selected_route(routes, m1, path) is Some {
        let i = choose|i: int| is_selected(routes, m1, path, i);
        assert(is_selected(routes, m1, path, i));
        assert(is_selected(routes, m2, path, i));
        lemma_selected(routes, m1, path, i);
        lemma_selected(routes, m2, path, i);
    } else if selected_route(routes, m2, path) is Some {
        let i = choose|i: int| is_selected(routes, m2, path, i);
        assert(is_selected(routes, m2, path, i));
        assert(is_selected(routes, m1, path, i));
        lemma_selected(routes, m1, path, i);
    }
}

/// Two routers with the same routes, whose handlers may give the same outcomes, answer
/// every message alike: a router built with the builder answers as one built by
/// `register` in the same order.
pub proof fn law_same_routes_answer_alike(a: IpcRouter, b: IpcRouter, raw: RawView, resp: ResponseView)
    requires
        a@ == b@,
        forall|i: int, req: EnrichedView, o: Result<ResponseView, ErrorView>|
            0 <= i < a@.len() ==> #[trigger] a.route_may_answer(i, req, o) == b.route_may_answer(i, req, o),
    ensures
        a.answers_plan(dispatch_plan(a@, raw), resp) == b.answers_plan(dispatch_plan(b@, raw), resp),
{
    match dispatch_plan(a@, raw) {
        PlanView::Respond(_) => {},
        PlanView::Handle(i, req) => {
            lemma_handle_in_range(a@, raw);
            if a.handled_answer(i, req, resp) {
                let o = choose|o: Result<ResponseView, ErrorView>| #[trigger] a.route_may_answer(i, req, o) && resp == outcome_response(o);
                assert(b.route_may_answer(i, req, o));
            }
            if b.handled_answer(i, req, resp) {
                let o = choose|o: Result<ResponseView, ErrorView>| #[trigger] b.route_may_answer(i, req, o) && resp == outcome_response(o);
                assert(a.route_may_answer(i, req, o));
            }
        },
    }
}

/// A planned route is one of the routes.
proof fn lemma_handle_in_range(routes: Seq<(Seq<char>, Seq<char>)>, raw: RawView)
    ensures
        dispatch_plan(routes, raw) matches PlanView::Handle(i, _) ==> 0 <= i < routes.len(),
{
    if let Ok(req) = raw_request(raw) {
        if let Ok(u) = parsed_url(req.url) {
            if let Some(i) = selected_route(routes, req.method, u.path) {
                let k = choose|k: int| is_selected(routes, req.method, u.path, k);
                assert(is_selected(routes, req.method, u.path, k));
            }
        }
    }
}

/// What handler descriptions a builder's routes carry: route `i` may give exactly what
/// `descs[i]` admits.
pub open spec fn builder_carries(b: IpcRouterBuilder, descs: Seq<spec_fn(EnrichedView, Result<ResponseView, ErrorView>) -> bool>, k: int) -> bool {
    forall|i: int, q: EnrichedView, o: Result<ResponseView, ErrorView>|
        0 <= i < k ==> #[trigger] b.route_may_answer(i, q, o) == descs[i](q, o)
}

/// What handler descriptions a router's routes carry: route `i` may give exactly what
/// `descs[i]` admits.
pub open spec fn router_carries(r: IpcRouter, descs: Seq<spec_fn(EnrichedView, Result<ResponseView, ErrorView>) -> bool>, k: int) -> bool {
    forall|i: int, q: EnrichedView, o: Result<ResponseView, ErrorView>|
        0 <= i < k ==> #[trigger] r.route_may_answer(i, q, o) == descs[i](q, o)
}

/// Growing a builder by `route` calls and a router by `register` calls, with the same
/// methods, patterns and handlers (handler `k` admitting what `descs[k]` admits), in the
/// same order: after `k` steps both list the first `k` routes in order and carry the
/// first `k` handlers.
proof fn lemma_chains(
    bs: Seq<IpcRouterBuilder>,
    rs: Seq<IpcRouter>,
    ps: Seq<(Seq<char>, Seq<char>)>,
    descs: Seq<spec_fn(EnrichedView, Result<ResponseView, ErrorView>) -> bool>,
    k: int,
)
    requires
        descs.len() == ps.len(),
        bs.len() == ps.len() + 1,
        rs.len() == ps.len() + 1,
        bs[0]@ == Seq::<(Seq<char>, Seq<char>)>::empty(),
        rs[0]@ == Seq::<(Seq<char>, Seq<char>)>::empty(),
        forall|j: int| 0 <= j < ps.len() ==> #[trigger] bs[j + 1]@ == bs[j]@.push(ps[j]),
        forall|j: int| 0 <= j < ps.len() ==> #[trigger] rs[j + 1]@ == rs[j]@.push(ps[j]),
        forall|j: int, i: int, q: EnrichedView, o: Result<ResponseView, ErrorView>|
            0 <= i < j < ps.len() ==> #[trigger] bs[j + 1].route_may_answer(i, q, o) == bs[j].route_may_answer(i, q, o),
        forall|j: int, i: int, q: EnrichedView, o: Result<ResponseView, ErrorView>|
            0 <= i < j < ps.len() ==> #[trigger] rs[j + 1].route_may_answer(i, q, o) == rs[j].route_may_answer(i, q, o),
        forall|j: int, q: EnrichedView, o: Result<ResponseView, ErrorView>|
            0 <= j < ps.len() ==> #[trigger] bs[j + 1].route_may_answer(j, q, o) == descs[j](q, o),
        forall|j: int, q: EnrichedView, o: Result<ResponseView, ErrorView>|
            0 <= j < ps.len() ==> #[trigger] rs[j + 1].route_may_answer(j, q, o) == descs[j](q, o),
        0 <= k <= ps.len(),
    ensures
        bs[k]@ == ps.take(k),
        rs[k]@ == ps.take(k),
        builder_carries(bs[k], descs, k),
        router_carries(rs[k], descs, k),
    decreases k,
{
    if k == 0 {
        assert(ps.take(0) =~= Seq::<(Seq<char>, Seq<char>)>::empty());
    } else {
        let j = k - 1;
        lemma_chains(bs, rs, ps, descs, j);
        assert(bs[j + 1]@ == bs[j]@.push(ps[j]));
        assert(rs[j + 1]@ == rs[j]@.push(ps[j]));
        assert(ps.take(j).push(ps[j]) =~= ps.take(k));
        assert forall|i: int, q: EnrichedView, o: Result<ResponseView, ErrorView>|
            0 <= i < k implies #[trigger] bs[k].route_may_answer(i, q, o) == descs[i](q, o) by {
            if i < j {
                assert(bs[j + 1].route_may_answer(i, q, o) == bs[j].route_may_answer(i, q, o));
                assert(bs[j].route_may_answer(i, q, o) == descs[i](q, o));
            } else {
                assert(bs[j + 1].route_may_answer(j, q, o) == descs[j](q, o));
            }
        }
        assert forall|i: int, q: EnrichedView, o: Result<ResponseView, ErrorView>|
            0 <= i < k implies #[trigger] rs[k].route_may_answer(i, q, o) == descs[i](q, o) by {
            if i < j {
                assert(rs[j + 1].route_may_answer(i, q, o) == rs[j].route_may_answer(i, q, o));
                assert(rs[j].route_may_answer(i, q, o) == descs[i](q, o));
            } else {
                assert(rs[j + 1].route_may_answer(j, q, o) == descs[j](q, o));
            }
        }
    }
}

/// Routes are listed in registration order: a chain of `register` calls from a new router
/// lists exactly the registered (method, pattern) pairs, in order, duplicates kept. A
/// builder grown by the same chain of `route` calls and then built answers every message
/// as the registered router does.
///
/// The chains are given by their states, each related to the one before as the `ensures`
/// of `IpcRouter::new`/`register` and `IpcRouter::builder`/`route` state, and `built` as
/// `IpcRouterBuilder::build` states; handler `k` admits what `descs[k]` admits.
pub proof fn law_builder_chain_answers_like_register_chain(
    bs: Seq<IpcRouterBuilder>,
    rs: Seq<IpcRouter>,
    ps: Seq<(Seq<char>, Seq<char>)>,
    descs: Seq<spec_fn(EnrichedView, Result<ResponseView, ErrorView>) -> bool>,
    built: IpcRouter,
    raw: RawView,
    resp: ResponseView,
)
    requires
        descs.len() == ps.len(),
        bs.len() == ps.len() + 1,
        rs.len() == ps.len() + 1,
        bs[0]@ == Seq::<(Seq<char>, Seq<char>)>::empty(),
        rs[0]@ == Seq::<(Seq<char>, Seq<char>)>::empty(),
        forall|j: int| 0 <= j < ps.len() ==> #[trigger] bs[j + 1]@ == bs[j]@.push(ps[j]),
        forall|j: int| 0 <= j < ps.len() ==> #[trigger] rs[j + 1]@ == rs[j]@.push(ps[j]),
        forall|j: int, i: int, q: EnrichedView, o: Result<ResponseView, ErrorView>|
            0 <= i < j < ps.len() ==> #[trigger] bs[j + 1].route_may_answer(i, q, o) == bs[j].route_may_answer(i, q, o),
        forall|j: int, i: int, q: EnrichedView, o: Result<ResponseView, ErrorView>|
            0 <= i < j < ps.len() ==> #[trigger] rs[j + 1].route_may_answer(i, q, o) == rs[j].route_may_answer(i, q, o),
        forall|j: int, q: EnrichedView, o: Result<ResponseView, ErrorView>|
            0 <= j < ps.len() ==> #[trigger] bs[j + 1].route_may_answer(j, q, o) == descs[j](q, o),
        forall|j: int, q: EnrichedView, o: Result<ResponseView, ErrorView>|
            0 <= j < ps.len() ==> #[trigger] rs[j + 1].route_may_answer(j, q, o) == descs[j](q, o),
        built@ == bs[ps.len() as int]@,
        forall|i: int, q: EnrichedView, o: Result<ResponseView, ErrorView>|
            0 <= i < ps.len() ==> #[trigger] built.route_may_answer(i, q, o) == bs[ps.len() as int].route_may_answer(i, q, o),
    ensures
        rs[ps.len() as int]@ == ps,
        built@ == ps,
        built.answers_plan(dispatch_plan(built@, raw), resp) == rs[ps.len() as int].answers_plan(
            dispatch_plan(rs[ps.len() as int]@, raw),
            resp,
        ),
{
    let n = ps.len() as int;
    lemma_chains(bs, rs, ps, descs, n);
    assert(ps.take(n) =~= ps);
    assert forall|i: int, q: EnrichedView, o: Result<ResponseView, ErrorView>|
        0 <= i < built@.len() implies #[trigger] built.route_may_answer(i, q, o) == rs[n].route_may_answer(i, q, o) by {
        assert(built.route_may_answer(i, q, o) == bs[n].route_may_answer(i, q, o));
        assert(bs[n].route_may_answer(i, q, o) == descs[i](q, o));
        assert(rs[n].route_may_answer(i, q, o) == descs[i](q, o));
    }
    law_same_routes_answer_alike(built, rs[n], raw, resp);
}

/// Two characters are the same up to ASCII case: the same character, or an ASCII capital
/// and its small letter (in either order).
pub open spec fn same_char_ignoring_ascii_case(a: char, b: char) -> bool {
    ||| (a as u32) == (b as u32)
    ||| (65 <= (a as u32) && (a as u32) <= 90 && (b as u32) == (a as u32) + 32)
    ||| (65 <= (b as u32) && (b as u32) <= 90 && (a as u32) == (b as u32) + 32)
}

/// Two texts are the same up to ASCII case, character by character.
pub open spec fn same_text_ignoring_ascii_case(a: Seq<char>, b: Seq<char>) -> bool {
    &&& a.len() == b.len()
    &&& forall|k: int| 0 <= k < a.len() ==> same_char_ignoring_ascii_case(#[trigger] a[k], b[k])
}

/// Texts equal up to ASCII case are the same character by character up to case.
proof fn lemma_ascii_case_chars(a: Seq<char>, b: Seq<char>)
    requires
        eq_ignore_ascii_case(a, b),
    ensures
        same_text_ignoring_ascii_case(a, b),
{
    assert forall|k: int| 0 <= k < a.len() implies same_char_ignoring_ascii_case(#[trigger] a[k], b[k]) by {
        assert(crate::text::ascii_fold(a[k]) == crate::text::ascii_fold(b[k]));
    }
}

/// A request goes only to a route whose method is the request's method up to ASCII case
/// and whose pattern fits the request's path, and to the first such route; a request
/// that some route fits goes to a route.
pub proof fn law_route_fits_method_and_path(routes: Seq<(Seq<char>, Seq<char>)>, raw: RawView)
    ensures
        dispatch_plan(routes, raw) matches PlanView::Handle(i, e) ==> {
            &&& 0 <= i < routes.len()
            &&& same_text_ignoring_ascii_case(routes[i].0, e.original.method)
            &&& pattern_match(e.path, routes[i].1) is Some
            &&& forall|j: int|
                0 <= j < i ==> !(same_text_ignoring_ascii_case(#[trigger] routes[j].0, e.original.method)
                    && pattern_match(e.path, routes[j].1) is Some)
        },
        raw_request(raw) matches Ok(req) ==> (parsed_url(req.url) matches Ok(u) ==> (
        (exists|j: int| 0 <= j < routes.len() && same_text_ignoring_ascii_case(#[trigger] routes[j].0, req.method)
            && pattern_match(u.path, routes[j].1) is Some) ==> dispatch_plan(routes, raw) is Handle)),
{
    if let Ok(req) = raw_request(raw) {
        if let Ok(u) = parsed_url(req.url) {
            let m = req.method;
            let p = u.path;
            assert forall|j: int| 0 <= j < routes.len() implies #[trigger] route_takes(routes[j], m, p) == (
            same_text_ignoring_ascii_case(routes[j].0, m) && pattern_match(p, routes[j].1) is Some) by {
                if eq_ignore_ascii_case(routes[j].0, m) {
                    lemma_ascii_case_chars(routes[j].0, m);
                }
                if same_text_ignoring_ascii_case(routes[j].0, m) {
                    let a = routes[j].0;
                    assert forall|k: int| 0 <= k < a.len() implies crate::text::ascii_fold(a[k])
                        == crate::text::ascii_fold(m[k]) by {
                        assert(same_char_ignoring_ascii_case(a[k], m[k]));
                    }
                }
            }
            match selected_route(routes, m, p) {
                Some(i) => {
                    let k = choose|k: int| is_selected(routes, m, p, k);
                    assert(is_selected(routes, m, p, k));
                    assert forall|j: int| 0 <= j < k implies !(same_text_ignoring_ascii_case(
                        #[trigger] routes[j].0,
                        m,
                    ) && pattern_match(p, routes[j].1) is Some) by {
                        assert(!route_takes(routes[j], m, p));
                    }
                },
                None => {
                    if exists|j: int| 0 <= j < routes.len() && same_text_ignoring_ascii_case(#[trigger] routes[j].0, m)
                        && pattern_match(p, routes[j].1) is Some {
                        let j = choose|j: int| 0 <= j < routes.len() && same_text_ignoring_ascii_case(#[trigger] routes[j].0, m)
                            && pattern_match(p, routes[j].1) is Some;
                        lemma_some_selected(routes, m, p, j);
                    }
                },
            }
        }
    }
}

} // verus!
