//! IPC request types: the request from JavaScript, its body, and the request that
//! route handlers receive.
use vstd::prelude::*;
use crate::param_map::ParamMap;
use crate::text::eq_ignore_ascii_case;

verus! {

/// HTTP-like IPC request from JavaScript to Rust.
#[derive(Debug, Clone)]
pub struct IpcRequest {
    /// Unique request ID for promise resolution
    pub id: u64,
    /// HTTP method (GET, POST, PUT, DELETE, etc.)
    pub method: String,
    /// Full IPC URL including scheme, path, and query string
    pub url: String,
    /// Request headers (Content-Type, Authorization, etc.)
    pub headers: ParamMap,
    /// Request body (optional for GET-like operations)
    pub body: Option<RequestBody>,
}

/// Request body types.
#[derive(Debug, Clone)]
pub enum RequestBody {
    /// JSON body (application/json)
    Json(serde_json::Value),
    /// URL-encoded body (application/x-www-form-urlencoded)
    UrlEncoded(ParamMap),
    /// Multipart form data (multipart/form-data)
    Multipart {
        /// Text fields (key-value pairs)
        fields: ParamMap,
        /// File uploads
        files: Vec<FileUpload>,
    },
}

/// File upload data: a single file in a multipart/form-data request.
#[derive(Debug, Clone)]
pub struct FileUpload {
    /// Form field name
    pub name: String,
    /// Original filename
    pub filename: String,
    /// MIME type (e.g., "image/jpeg", "application/pdf")
    pub content_type: String,
    /// File data
    pub data: String,
}

/// The meaning of a file upload.
pub struct FileUploadView {
    pub name: Seq<char>,
    pub filename: Seq<char>,
    pub content_type: Seq<char>,
    pub data: Seq<char>,
}

impl View for FileUpload {
    type V = FileUploadView;

    open spec fn view(&self) -> FileUploadView {
        FileUploadView {
            name: self.name@,
            filename: self.filename@,
            content_type: self.content_type@,
            data: self.data@,
        }
    }
}

/// The views of a sequence of file uploads.
pub open spec fn file_views(fs: Seq<FileUpload>) -> Seq<FileUploadView> {
    fs.map_values(|f: FileUpload| f@)
}

/// The meaning of a request body.
pub enum BodyView {
    Json(serde_json::Value),
    UrlEncoded(Map<Seq<char>, Seq<char>>),
    Multipart { fields: Map<Seq<char>, Seq<char>>, files: Seq<FileUploadView> },
}

impl View for RequestBody {
    type V = BodyView;

    open spec fn view(&self) -> BodyView {
        match self {
            RequestBody::Json(v) => BodyView::Json(*v),
            RequestBody::UrlEncoded(m) => BodyView::UrlEncoded(m@),
            RequestBody::Multipart { fields, files } => BodyView::Multipart {
                fields: fields@,
                files: file_views(files@),
            },
        }
    }
}

/// The meaning of an optional body.
pub open spec fn body_view(b: Option<RequestBody>) -> Option<BodyView> {
    match b {
        Some(b) => Some(b@),
        None => None,
    }
}

/// The meaning of a request.
pub struct RequestView {
    pub id: u64,
    pub method: Seq<char>,
    pub url: Seq<char>,
    pub headers: Map<Seq<char>, Seq<char>>,
    pub body: Option<BodyView>,
}

impl View for IpcRequest {
    type V = RequestView;

    open spec fn view(&self) -> RequestView {
        RequestView {
            id: self.id,
            method: self.method@,
            url: self.url@,
            headers: self.headers@,
            body: body_view(self.body),
        }
    }
}

impl FileUpload {
    /// A copy of this upload.
    pub fn copy(&self) -> (r: Self)
        ensures
            r@ == self@,
    {
        FileUpload {
            name: self.name.clone(),
            filename: self.filename.clone(),
            content_type: self.content_type.clone(),
            data: self.data.clone(),
        }
    }
}

/// A copy of a list of uploads.
pub fn copy_files(files: &Vec<FileUpload>) -> (r: Vec<FileUpload>)
    ensures
        file_views(r@) == file_views(files@),
{
    let mut out: Vec<FileUpload> = Vec::new();
    let mut i: usize = 0;
    while i < files.len()
        invariant
            i <= files@.len(),
            file_views(out@) == file_views(files@.take(i as int)),
        decreases files@.len() - i,
    {
        let f = files[i].copy();
        proof {
            assert(file_views(out@.push(f)) =~= file_views(out@).push(f@));
            assert(file_views(files@.take(i + 1)) =~= file_views(files@.take(i as int)).push(files@[i as int]@));
        }
        out.push(f);
        i += 1;
    }
    assert(files@.take(files@.len() as int) =~= files@);
    out
}

impl RequestBody {
    /// A copy of this body.
    pub fn copy(&self) -> (r: Self)
        ensures
            r@ == self@,
    {
        match self {
            RequestBody::Json(v) => RequestBody::Json(v.clone()),
            RequestBody::UrlEncoded(m) => RequestBody::UrlEncoded(m.copy()),
            RequestBody::Multipart { fields, files } => RequestBody::Multipart {
                fields: fields.copy(),
                files: copy_files(files),
            },
        }
    }
}

/// A copy of an optional body.
pub fn copy_body(b: &Option<RequestBody>) -> (r: Option<RequestBody>)
    ensures
        body_view(r) == body_view(*b),
{
    match b {
        Some(b) => Some(b.copy()),
        None => None,
    }
}

/// Enriched request with parsed URL components: what route handlers receive after the
/// router parses the URL and extracts path parameters and query strings.
#[derive(Debug, Clone)]
pub struct EnrichedRequest {
    /// Original request
    pub original: IpcRequest,
    /// Parsed path parameters (e.g., /user/:id -> {"id": "123"})
    pub path_params: ParamMap,
    /// Parsed query parameters (e.g., ?page=2&sort=name -> {"page": "2", "sort": "name"})
    pub query_params: ParamMap,
    /// Extracted URL path without query string
    pub path: String,
    /// Request headers (convenience accessor)
    pub headers: ParamMap,
    /// Request body (convenience accessor)
    pub body: Option<RequestBody>,
}

/// The meaning of an enriched request.
pub struct EnrichedView {
    pub original: RequestView,
    pub path_params: Map<Seq<char>, Seq<char>>,
    pub query_params: Map<Seq<char>, Seq<char>>,
    pub path: Seq<char>,
    pub headers: Map<Seq<char>, Seq<char>>,
    pub body: Option<BodyView>,
}

impl View for EnrichedRequest {
    type V = EnrichedView;

    open spec fn view(&self) -> EnrichedView {
        EnrichedView {
            original: self.original@,
            path_params: self.path_params@,
            query_params: self.query_params@,
            path: self.path@,
            headers: self.headers@,
            body: body_view(self.body),
        }
    }
}

/// The enriched request built from a request, its path and its parameters: the headers
/// and the body are copies of the request's.
pub open spec fn enriched_view(
    original: RequestView,
    path: Seq<char>,
    path_params: Map<Seq<char>, Seq<char>>,
    query_params: Map<Seq<char>, Seq<char>>,
) -> EnrichedView {
    EnrichedView {
        original,
        path_params,
        query_params,
        path,
        headers: original.headers,
        body: original.body,
    }
}

impl EnrichedRequest {
    /// Create a new enriched request from a basic IPC request.
    pub fn new(
        original: IpcRequest,
        path: String,
        path_params: ParamMap,
        query_params: ParamMap,
    ) -> (r: Self)
        ensures
            r@ == enriched_view(original@, path@, path_params@, query_params@),
    {
        let headers = original.headers.copy();
        let body = copy_body(&original.body);
        EnrichedRequest { original, path_params, query_params, path, headers, body }
    }

    /// Get a path parameter by name.
    pub fn path_param(&self, name: &str) -> (r: Option<&String>)
        ensures
            r matches Some(v) ==> self.path_params@.contains_key(name@) && self.path_params@[name@] == v@,
            r is None ==> !self.path_params@.contains_key(name@),
    {
        self.path_params.get(name)
    }

    /// Get a query parameter by name.
    pub fn query_param(&self, name: &str) -> (r: Option<&String>)
        ensures
            r matches Some(v) ==> self.query_params@.contains_key(name@) && self.query_params@[name@] == v@,
            r is None ==> !self.query_params@.contains_key(name@),
    {
        self.query_params.get(name)
    }

    /// Get a header by name, ignoring ASCII case. When several header names match,
    /// which one answers is not fixed.
    pub fn header(&self, name: &str) -> (r: Option<&String>)
        ensures
            r matches Some(v) ==> exists|k: Seq<char>|
                #[trigger] self.headers@.contains_key(k) && eq_ignore_ascii_case(k, name@) && self.headers@[k] == v@,
            r is None ==> forall|k: Seq<char>|
                #[trigger] self.headers@.contains_key(k) ==> !eq_ignore_ascii_case(k, name@),
    {
        self.headers.get_ignoring_ascii_case(name)
    }

    /// Get the request method.
    pub fn method(&self) -> (r: &str)
        ensures
            r@ == self.original.method@,
    {
        self.original.method.as_str()
    }

    /// Get the request ID.
    pub fn id(&self) -> (r: u64)
        ensures
            r == self.original.id,
    {
        self.original.id
    }
}

} // verus!
