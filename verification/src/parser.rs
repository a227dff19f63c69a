//! URL and body parsing: IPC URLs (scheme, path, query parameters) and request bodies
//! (JSON, URL-encoded, multipart).
use vstd::prelude::*;
use crate::json::{json_from_text, parse_json};
use crate::param_map::ParamMap;
use crate::request::{file_views, BodyView, FileUpload, FileUploadView, RequestBody};
use crate::response::{ErrorView, IpcError};
use crate::text::{
    begins_with, chars_of, contains, find_char, first_char, has_char, is_first_char, lemma_first_char, lines,
    lines_of, push_char, push_str, same_chars, slice_of, split_char, split_on_char,
    split_on_seq, split_seq, starts_with, string_from, to_string, trim, trim_chars,
    trim_crlf_end, trim_end_crlf, trim_of, trimmed, views,
};

verus! {

// ---------------------------------------------------------------------------
// Percent-decoding
// ---------------------------------------------------------------------------

/// The value of a hexadecimal digit.
pub open spec fn hex_digit_value(c: char) -> Option<u8> {
    let x = c as u32;
    if 48 <= x && x <= 57 {
        Some((x - 48) as u8)
    } else if 97 <= x && x <= 102 {
        Some((x - 87) as u8)
    } else if 65 <= x && x <= 70 {
        Some((x - 55) as u8)
    } else {
        None
    }
}

/// The byte that the two characters after a `%` stand for, as `u8::from_str_radix(_, 16)`
/// reads them: two hexadecimal digits, or a `+` sign followed by one digit.
pub open spec fn hex_pair_value(a: char, b: char) -> Option<u8> {
    if a == '+' {
        hex_digit_value(b)
    } else {
        match (hex_digit_value(a), hex_digit_value(b)) {
            (Some(x), Some(y)) => Some((x * 16 + y) as u8),
            _ => None,
        }
    }
}

/// The percent-decoding of `s`: `%XX` becomes the character whose code is the byte
/// `XX`, `+` becomes a space. A `%` that is not followed by a readable pair stays, and
/// the (up to two) characters after it are dropped.
pub open spec fn url_decoded(s: Seq<char>) -> Seq<char>
    decreases s.len(),
{
    if s.len() == 0 {
        seq![]
    } else if s[0] == '%' {
        if s.len() >= 3 {
            match hex_pair_value(s[1], s[2]) {
                Some(b) => seq![b as char] + url_decoded(s.skip(3)),
                None => seq!['%'] + url_decoded(s.skip(3)),
            }
        } else {
            seq!['%']
        }
    } else if s[0] == '+' {
        seq![' '] + url_decoded(s.skip(1))
    } else {
        seq![s[0]] + url_decoded(s.skip(1))
    }
}

/// The value of a hexadecimal digit.
fn hex_digit(c: char) -> (r: Option<u8>)
    ensures
        r == hex_digit_value(c),
{
    let x = c as u32;
    if 48 <= x && x <= 57 {
        Some((x - 48) as u8)
    } else if 97 <= x && x <= 102 {
        Some((x - 87) as u8)
    } else if 65 <= x && x <= 70 {
        Some((x - 55) as u8)
    } else {
        None
    }
}

/// The byte that two characters after a `%` stand for.
fn hex_pair(a: char, b: char) -> (r: Option<u8>)
    ensures
        r == hex_pair_value(a, b),
{
    if a == '+' {
        hex_digit(b)
    } else {
        match (hex_digit(a), hex_digit(b)) {
            (Some(x), Some(y)) => Some(x * 16 + y),
            _ => None,
        }
    }
}

/// Decode a URL-encoded string.
pub fn url_decode(s: &str) -> (r: String)
    ensures
        r@ == url_decoded(s@),
{
    let cs = chars_of(s);
    let mut out = String::new();
    let mut i: usize = 0;
    assert(cs@.skip(0) =~= cs@);
    while i < cs.len()
        invariant
            i <= cs@.len(),
            cs@ == s@,
            url_decoded(s@) == out@ + url_decoded(cs@.skip(i as int)),
        decreases cs@.len() - i,
    {
        let ghost rest = cs@.skip(i as int);
        let c = cs[i];
        if c == '%' {
            if cs.len() - i >= 3 {
                proof {
                    assert(rest[1] == cs@[i + 1] && rest[2] == cs@[i + 2]);
                    assert(rest.skip(3) =~= cs@.skip(i + 3));
                }
                match hex_pair(cs[i + 1], cs[i + 2]) {
                    Some(b) => push_char(&mut out, b as char),
                    None => push_char(&mut out, '%'),
                }
                i += 3;
                assert(url_decoded(s@) == out@ + url_decoded(cs@.skip(i as int)));
            } else {
                push_char(&mut out, '%');
                assert(cs@.skip(cs@.len() as int) =~= Seq::<char>::empty());
                i = cs.len();
            }
        } else {
            if c == '+' {
                push_char(&mut out, ' ');
            } else {
                push_char(&mut out, c);
            }
            assert(rest.skip(1) =~= cs@.skip(i + 1));
            i += 1;
        }
    }
    assert(cs@.skip(i as int) =~= Seq::<char>::empty());
    out
}

// ---------------------------------------------------------------------------
// Query strings
// ---------------------------------------------------------------------------

/// What one `&`-separated piece of a query string contributes: `key=value` (split at
/// the first `=`, both sides decoded), a bare non-empty `key` with an empty value, or
/// nothing for an empty piece.
pub open spec fn query_entry(pair: Seq<char>) -> Option<(Seq<char>, Seq<char>)> {
    if has_char(pair, '=') {
        let i = first_char(pair, '=');
        Some((url_decoded(pair.take(i)), url_decoded(pair.skip(i + 1))))
    } else if pair.len() > 0 {
        Some((url_decoded(pair), seq![]))
    } else {
        None
    }
}

/// The parameters that a sequence of query pieces gives, a later key overriding an
/// earlier one.
pub open spec fn query_map(pairs: Seq<Seq<char>>) -> Map<Seq<char>, Seq<char>>
    decreases pairs.len(),
{
    if pairs.len() == 0 {
        Map::empty()
    } else {
        let m = query_map(pairs.drop_last());
        match query_entry(pairs.last()) {
            Some(e) => m.insert(e.0, e.1),
            None => m,
        }
    }
}

/// The parameters of a query string (without its leading `?`).
pub open spec fn query_params_of(query: Seq<char>) -> Map<Seq<char>, Seq<char>> {
    query_map(split_char(query, '&'))
}

/// Parse query string into key-value pairs.
pub fn parse_query_string(query: &str) -> (r: ParamMap)
    ensures
        r@ == query_params_of(query@),
{
    let cs = chars_of(query);
    let pairs = split_on_char(&cs, '&');
    let ghost ps = views(pairs@);
    let mut params = ParamMap::new();
    let mut i: usize = 0;
    assert(ps.take(0) =~= Seq::<Seq<char>>::empty());
    while i < pairs.len()
        invariant
            i <= pairs@.len(),
            ps == views(pairs@),
            params@ == query_map(ps.take(i as int)),
        decreases pairs@.len() - i,
    {
        let pair = &pairs[i];
        assert(ps[i as int] == pair@);
        assert(ps.take(i + 1).drop_last() =~= ps.take(i as int));
        assert(ps.take(i + 1).last() == pair@);
        match find_char(pair, '=') {
            Some(pos) => {
                proof {
                    lemma_first_char(pair@, '=', pos as int);
                }
                let key_chars = slice_of(pair, 0, pos);
                let value_chars = slice_of(pair, pos + 1, pair.len());
                assert(key_chars@ =~= pair@.take(pos as int));
                assert(value_chars@ =~= pair@.skip(pos + 1));
                let key = url_decode(to_string(&key_chars).as_str());
                let value = url_decode(to_string(&value_chars).as_str());
                params.insert(key, value);
            },
            None => {
                if pair.len() > 0 {
                    let key = url_decode(to_string(pair).as_str());
                    params.insert(key, String::new());
                }
            },
        }
        i += 1;
    }
    assert(ps.take(pairs@.len() as int) =~= ps);
    params
}

// ---------------------------------------------------------------------------
// URLs
// ---------------------------------------------------------------------------

/// Parsed IPC URL components.
#[derive(Debug, Clone)]
pub struct ParsedUrl {
    /// URL scheme (should be "ipc")
    pub scheme: String,
    /// Path component (e.g., "/calculator/fibonacci")
    pub path: String,
    /// Query parameters extracted from query string
    pub query_params: ParamMap,
}

/// The meaning of a parsed URL.
pub struct UrlView {
    pub scheme: Seq<char>,
    pub path: Seq<char>,
    pub query_params: Map<Seq<char>, Seq<char>>,
}

impl View for ParsedUrl {
    type V = UrlView;

    open spec fn view(&self) -> UrlView {
        UrlView { scheme: self.scheme@, path: self.path@, query_params: self.query_params@ }
    }
}

/// The path of a URL: the part between `://` and `?`, with a `/` put in front when it
/// does not start with one.
pub open spec fn path_of(part: Seq<char>) -> Seq<char> {
    if part.len() > 0 && part[0] == '/' {
        part
    } else {
        seq!['/'] + part
    }
}

/// The message of the error for a URL without `://`.
pub open spec fn invalid_url_message(url: Seq<char>) -> Seq<char> {
    "Invalid URL format: missing '://' in '"@ + url + "'"@
}

/// The components of `url`: the scheme before the first `://`; after it, the path up to
/// the first `?` and the query parameters after it. A URL without `://` is refused with
/// `invalid_url_message`.
pub open spec fn parsed_url(url: Seq<char>) -> Result<UrlView, Seq<char>> {
    let sep = "://"@;
    if crate::text::contains_seq(url, sep) {
        let i = crate::text::first_occurrence(url, sep);
        let rest = url.skip(i + sep.len());
        if has_char(rest, '?') {
            let q = first_char(rest, '?');
            Ok(
                UrlView {
                    scheme: url.take(i),
                    path: path_of(rest.take(q)),
                    query_params: query_params_of(rest.skip(q + 1)),
                },
            )
        } else {
            Ok(UrlView { scheme: url.take(i), path: path_of(rest), query_params: Map::empty() })
        }
    } else {
        Err(invalid_url_message(url))
    }
}

/// The non-empty pieces, in order.
pub open spec fn nonempty_pieces(ps: Seq<Seq<char>>) -> Seq<Seq<char>>
    decreases ps.len(),
{
    if ps.len() == 0 {
        seq![]
    } else {
        let r = nonempty_pieces(ps.drop_last());
        if ps.last().len() > 0 {
            r.push(ps.last())
        } else {
            r
        }
    }
}

/// The non-empty `/`-separated segments of a path or pattern.
pub open spec fn segments(s: Seq<char>) -> Seq<Seq<char>> {
    nonempty_pieces(split_char(s, '/'))
}

/// A pattern segment of the form `:name`.
pub open spec fn is_param_segment(seg: Seq<char>) -> bool {
    seg.len() > 0 && seg[0] == ':'
}

/// Path segments `ps` fit pattern segments `qs`: as many, and equal wherever the pattern
/// segment is not a parameter.
pub open spec fn segments_fit(ps: Seq<Seq<char>>, qs: Seq<Seq<char>>) -> bool {
    &&& ps.len() == qs.len()
    &&& forall|i: int| 0 <= i < qs.len() && !is_param_segment(qs[i]) ==> ps[i] == qs[i]
}

/// The parameters bound by matching path segments against pattern segments: each
/// `:name` segment binds `name` to the path segment at its position, a later binding of
/// the same name overriding an earlier one.
pub open spec fn bindings(ps: Seq<Seq<char>>, qs: Seq<Seq<char>>) -> Map<Seq<char>, Seq<char>>
    decreases qs.len(),
{
    if qs.len() == 0 || ps.len() == 0 {
        Map::empty()
    } else {
        let m = bindings(ps.drop_last(), qs.drop_last());
        if is_param_segment(qs.last()) {
            m.insert(qs.last().drop_first(), ps.last())
        } else {
            m
        }
    }
}

/// The result of matching a path against a route pattern.
pub open spec fn pattern_match(path: Seq<char>, pattern: Seq<char>) -> Option<Map<Seq<char>, Seq<char>>> {
    let ps = segments(path);
    let qs = segments(pattern);
    if segments_fit(ps, qs) {
        Some(bindings(ps, qs))
    } else {
        None
    }
}

/// The non-empty `/`-separated segments of `cs`.
fn path_segments(cs: &Vec<char>) -> (r: Vec<Vec<char>>)
    ensures
        views(r@) == segments(cs@),
{
    let pieces = split_on_char(cs, '/');
    let ghost ps = views(pieces@);
    let mut out: Vec<Vec<char>> = Vec::new();
    let mut i: usize = 0;
    assert(ps.take(0) =~= Seq::<Seq<char>>::empty());
    assert(views(out@) =~= Seq::<Seq<char>>::empty());
    while i < pieces.len()
        invariant
            i <= pieces@.len(),
            ps == views(pieces@),
            views(out@) == nonempty_pieces(ps.take(i as int)),
        decreases pieces@.len() - i,
    {
        assert(ps.take(i + 1).drop_last() =~= ps.take(i as int));
        assert(ps[i as int] == pieces@[i as int]@);
        if pieces[i].len() > 0 {
            let piece = slice_of(&pieces[i], 0, pieces[i].len());
            assert(piece@ =~= pieces@[i as int]@);
            proof {
                crate::text::lemma_views_push(out@, piece);
            }
            out.push(piece);
        }
        i += 1;
    }
    assert(ps.take(pieces@.len() as int) =~= ps);
    out
}

impl ParsedUrl {
    /// Parse an IPC URL string such as `"ipc://calculator/fibonacci?number=10"`.
    pub fn parse(url: &str) -> (r: Result<Self, crate::response::IpcError>)
        ensures
            match r {
                Ok(u) => parsed_url(url@) == Ok::<UrlView, Seq<char>>(u@),
                Err(e) => match parsed_url(url@) {
                    Ok(_) => false,
                    Err(m) => e@ == crate::response::ErrorView::ParseError(m),
                },
            },
    {
        let cs = chars_of(url);
        let sep = chars_of("://");
        match crate::text::find_seq(&cs, &sep) {
            None => {
                let mut message = crate::text::string_from("Invalid URL format: missing '://' in '");
                crate::text::push_str(&mut message, url);
                crate::text::push_str(&mut message, "'");
                Err(crate::response::IpcError::ParseError(message))
            },
            Some(i) => {
                proof {
                    crate::text::lemma_first_occurrence(cs@, sep@, i as int);
                }
                assert(crate::text::occurs_at(cs@, sep@, i as int));
                assert(i + sep@.len() <= cs@.len());
                let scheme_chars = slice_of(&cs, 0, i);
                let rest = slice_of(&cs, i + sep.len(), cs.len());
                assert(scheme_chars@ =~= cs@.take(i as int));
                assert(rest@ =~= cs@.skip(i + sep@.len()));
                let scheme = to_string(&scheme_chars);
                let (path_part, query_params) = match find_char(&rest, '?') {
                    Some(q) => {
                        proof {
                            lemma_first_char(rest@, '?', q as int);
                        }
                        let path_part = slice_of(&rest, 0, q);
                        let query = slice_of(&rest, q + 1, rest.len());
                        assert(path_part@ =~= rest@.take(q as int));
                        assert(query@ =~= rest@.skip(q + 1));
                        (path_part, parse_query_string(to_string(&query).as_str()))
                    },
                    None => (slice_of(&rest, 0, rest.len()), ParamMap::new()),
                };
                assert(has_char(rest@, '?') ==> path_part@ == rest@.take(first_char(rest@, '?')));
                assert(!has_char(rest@, '?') ==> path_part@ =~= rest@);
                let path = if path_part.len() > 0 && path_part[0] == '/' {
                    to_string(&path_part)
                } else {
                    let mut p = String::new();
                    push_char(&mut p, '/');
                    crate::text::push_str(&mut p, to_string(&path_part).as_str());
                    assert(p@ =~= seq!['/'] + path_part@);
                    p
                };
                Ok(ParsedUrl { scheme, path, query_params })
            },
        }
    }

    /// Match this URL's path against a route pattern with path parameters (e.g.
    /// `"/user/:id/posts/:postId"`): `Some` of the bound parameters when the non-empty
    /// segments fit, `None` when they do not.
    pub fn match_pattern(&self, pattern: &str) -> (r: Option<ParamMap>)
        ensures
            match r {
                Some(m) => pattern_match(self.path@, pattern@) == Some(m@),
                None => pattern_match(self.path@, pattern@) is None,
            },
    {
        let path_chars = chars_of(self.path.as_str());
        let pattern_chars = chars_of(pattern);
        let ps = path_segments(&path_chars);
        let qs = path_segments(&pattern_chars);
        let ghost pv = views(ps@);
        let ghost qv = views(qs@);
        if ps.len() != qs.len() {
            return None;
        }
        let mut params = ParamMap::new();
        let mut i: usize = 0;
        assert(pv.take(0) =~= Seq::<Seq<char>>::empty());
        assert(qv.take(0) =~= Seq::<Seq<char>>::empty());
        while i < qs.len()
            invariant
                i <= qs@.len(),
                ps@.len() == qs@.len(),
                pv == views(ps@),
                qv == views(qs@),
                pv == segments(self.path@),
                qv == segments(pattern@),
                forall|j: int| 0 <= j < i && !is_param_segment(qv[j]) ==> pv[j] == qv[j],
                params@ == bindings(pv.take(i as int), qv.take(i as int)),
            decreases qs@.len() - i,
        {
            let seg = &qs[i];
            assert(qv[i as int] == seg@);
            assert(pv[i as int] == ps@[i as int]@);
            assert(pv.take(i + 1).drop_last() =~= pv.take(i as int));
            assert(qv.take(i + 1).drop_last() =~= qv.take(i as int));
            if seg.len() > 0 && seg[0] == ':' {
                let name = slice_of(seg, 1, seg.len());
                assert(name@ =~= seg@.drop_first());
                params.insert(to_string(&name), to_string(&ps[i]));
            } else if !crate::text::same_chars(&ps[i], seg) {
                assert(!is_param_segment(qv[i as int]) && pv[i as int] != qv[i as int]);
                assert(!segments_fit(pv, qv));
                return None;
            }
            i += 1;
        }
        assert(pv.take(qs@.len() as int) =~= pv);
        assert(qv.take(qs@.len() as int) =~= qv);
        Some(params)
    }
}

// ---------------------------------------------------------------------------
// Multipart bodies
// ---------------------------------------------------------------------------

/// What one header line of a multipart part contributes: `key: value`, split at the
/// first `:`, both sides trimmed; nothing for a line without `:`.
pub open spec fn header_line_entry(line: Seq<char>) -> Option<(Seq<char>, Seq<char>)> {
    if has_char(line, ':') {
        let p = first_char(line, ':');
        Some((trimmed(line.take(p)), trimmed(line.skip(p + 1))))
    } else {
        None
    }
}

/// The headers that a sequence of header lines gives, a later key overriding an earlier one.
pub open spec fn header_lines_map(lines: Seq<Seq<char>>) -> Map<Seq<char>, Seq<char>>
    decreases lines.len(),
{
    if lines.len() == 0 {
        Map::empty()
    } else {
        let m = header_lines_map(lines.drop_last());
        match header_line_entry(lines.last()) {
            Some(e) => m.insert(e.0, e.1),
            None => m,
        }
    }
}

/// The headers of a multipart part.
pub open spec fn multipart_headers_of(headers: Seq<char>) -> Map<Seq<char>, Seq<char>> {
    header_lines_map(lines_of(headers))
}

/// The value of the first `;`-separated piece among `pieces` that, trimmed, starts with
/// `pat`: the rest of that piece, trimmed, without surrounding double quotes.
pub open spec fn disposition_in(pieces: Seq<Seq<char>>, pat: Seq<char>) -> Option<Seq<char>>
    decreases pieces.len(),
{
    if pieces.len() == 0 {
        None
    } else {
        let t = trimmed(pieces[0]);
        if starts_with(t, pat) {
            Some(trim_of(trimmed(t.skip(pat.len() as int)), true))
        } else {
            disposition_in(pieces.drop_first(), pat)
        }
    }
}

/// The value of `param` in a `Content-Disposition` header, e.g. `name` in
/// `form-data; name="file"; filename="photo.jpg"`.
pub open spec fn disposition_value(disposition: Seq<char>, param: Seq<char>) -> Option<Seq<char>> {
    disposition_in(split_char(disposition, ';'), param + "="@)
}

/// The blank line that separates a part's headers from its content.
pub open spec fn blank_line() -> Seq<char> {
    seq!['\r', '\n', '\r', '\n']
}

/// What a multipart part contributes.
pub enum PartView {
    Nothing,
    Field(Seq<char>, Seq<char>),
    File(FileUploadView),
}

/// What a multipart part contributes: parts that are empty or `--` once trimmed, parts
/// without a blank line and parts without a `Content-Disposition` header contribute
/// nothing; with a `filename` the part is a file (named `file` when it has no `name`,
/// typed `application/octet-stream` when it has no `Content-Type`); else with a `name`
/// it is a text field. The content is what follows the blank line, without trailing
/// line breaks.
pub open spec fn part_view(part: Seq<char>) -> PartView {
    let t = trimmed(part);
    if t.len() == 0 || t == "--"@ {
        PartView::Nothing
    } else if crate::text::contains_seq(part, blank_line()) {
        let i = crate::text::first_occurrence(part, blank_line());
        let headers = multipart_headers_of(part.take(i));
        let content = trim_end_crlf(part.skip(i + 4));
        if headers.contains_key("Content-Disposition"@) {
            let d = headers["Content-Disposition"@];
            let name = disposition_value(d, "name"@);
            match disposition_value(d, "filename"@) {
                Some(f) => PartView::File(
                    FileUploadView {
                        name: match name {
                            Some(n) => n,
                            None => "file"@,
                        },
                        filename: f,
                        content_type: if headers.contains_key("Content-Type"@) {
                            headers["Content-Type"@]
                        } else {
                            "application/octet-stream"@
                        },
                        data: content,
                    },
                ),
                None => match name {
                    Some(n) => PartView::Field(n, content),
                    None => PartView::Nothing,
                },
            }
        } else {
            PartView::Nothing
        }
    } else {
        PartView::Nothing
    }
}

/// The text fields of a sequence of parts, a later field overriding an earlier one.
pub open spec fn multipart_fields(parts: Seq<Seq<char>>) -> Map<Seq<char>, Seq<char>>
    decreases parts.len(),
{
    if parts.len() == 0 {
        Map::empty()
    } else {
        let m = multipart_fields(parts.drop_last());
        match part_view(parts.last()) {
            PartView::Field(n, c) => m.insert(n, c),
            _ => m,
        }
    }
}

/// The files of a sequence of parts, in order.
pub open spec fn multipart_files(parts: Seq<Seq<char>>) -> Seq<FileUploadView>
    decreases parts.len(),
{
    if parts.len() == 0 {
        seq![]
    } else {
        let fs = multipart_files(parts.drop_last());
        match part_view(parts.last()) {
            PartView::File(f) => fs.push(f),
            _ => fs,
        }
    }
}

/// The boundary separator `--<boundary>`.
pub open spec fn boundary_separator(boundary: Seq<char>) -> Seq<char> {
    seq!['-', '-'] + boundary
}

/// The message of the error for a multipart content type without a boundary.
pub open spec fn missing_boundary_message() -> Seq<char> {
    "Missing boundary in multipart Content-Type"@
}

/// A multipart body: the boundary is the trimmed text after the first `boundary=` of
/// the content type (up to a next `boundary=`); the body is split at `--<boundary>` and
/// every piece after the first is a part.
pub open spec fn multipart_of(content_type: Seq<char>, body: Seq<char>) -> Result<BodyView, ErrorView> {
    let pieces = split_seq(content_type, "boundary="@);
    if pieces.len() >= 2 {
        let parts = split_seq(body, boundary_separator(trimmed(pieces[1]))).drop_first();
        Ok(BodyView::Multipart { fields: multipart_fields(parts), files: multipart_files(parts) })
    } else {
        Err(ErrorView::ParseError(missing_boundary_message()))
    }
}

/// A body parsed by its content type: JSON (`serde_json`), URL-encoded or multipart;
/// any other content type is refused.
pub open spec fn parsed_body(content_type: Seq<char>, body: Seq<char>) -> Result<BodyView, ErrorView> {
    if crate::text::contains_seq(content_type, "application/json"@) {
        match json_from_text(body) {
            Ok(v) => Ok(BodyView::Json(v)),
            Err(m) => Err(ErrorView::ParseError("Invalid JSON: "@ + m)),
        }
    } else if crate::text::contains_seq(content_type, "application/x-www-form-urlencoded"@) {
        Ok(BodyView::UrlEncoded(query_params_of(body)))
    } else if crate::text::contains_seq(content_type, "multipart/form-data"@) {
        multipart_of(content_type, body)
    } else {
        Err(ErrorView::BadRequest("Unsupported Content-Type: "@ + content_type))
    }
}

/// Parse multipart part headers.
pub fn parse_multipart_headers(headers_str: &str) -> (r: ParamMap)
    ensures
        r@ == multipart_headers_of(headers_str@),
{
    let cs = chars_of(headers_str);
    let ls = lines(&cs);
    let ghost lv = views(ls@);
    let mut headers = ParamMap::new();
    let mut i: usize = 0;
    assert(lv.take(0) =~= Seq::<Seq<char>>::empty());
    while i < ls.len()
        invariant
            i <= ls@.len(),
            lv == views(ls@),
            headers@ == header_lines_map(lv.take(i as int)),
        decreases ls@.len() - i,
    {
        let line = &ls[i];
        assert(lv[i as int] == line@);
        assert(lv.take(i + 1).drop_last() =~= lv.take(i as int));
        match find_char(line, ':') {
            Some(pos) => {
                proof {
                    lemma_first_char(line@, ':', pos as int);
                }
                let key = trim(&slice_of(line, 0, pos));
                let value = trim(&slice_of(line, pos + 1, line.len()));
                assert(line@.take(pos as int) =~= line@.subrange(0, pos as int));
                assert(line@.skip(pos + 1) =~= line@.subrange(pos + 1, line@.len() as int));
                headers.insert(to_string(&key), to_string(&value));
            },
            None => {},
        }
        i += 1;
    }
    assert(lv.take(ls@.len() as int) =~= lv);
    headers
}

/// Extract the value of `param` from a `Content-Disposition` header.
pub fn extract_disposition_value(disposition: &str, param: &str) -> (r: Option<String>)
    ensures
        match r {
            Some(v) => disposition_value(disposition@, param@) == Some(v@),
            None => disposition_value(disposition@, param@) is None,
        },
{
    let mut pattern = string_from(param);
    push_str(&mut pattern, "=");
    let pat = chars_of(pattern.as_str());
    let cs = chars_of(disposition);
    let pieces = split_on_char(&cs, ';');
    let ghost pv = views(pieces@);
    let mut i: usize = 0;
    assert(pv.skip(0) =~= pv);
    while i < pieces.len()
        invariant
            i <= pieces@.len(),
            pv == views(pieces@),
            pat@ == param@ + "="@,
            disposition_value(disposition@, param@) == disposition_in(pv.skip(i as int), pat@),
        decreases pieces@.len() - i,
    {
        assert(pv.skip(i as int)[0] == pieces@[i as int]@);
        assert(pv.skip(i as int).drop_first() =~= pv.skip(i + 1));
        let part = trim(&pieces[i]);
        if begins_with(&part, &pat) {
            let value = trim(&slice_of(&part, pat.len(), part.len()));
            assert(part@.skip(pat@.len() as int) =~= part@.subrange(pat@.len() as int, part@.len() as int));
            let unquoted = trim_chars(&value, true);
            return Some(to_string(&unquoted));
        }
        i += 1;
    }
    None
}

/// The exec counterpart of `PartView`.
enum PartResult {
    Nothing,
    Field(String, String),
    File(FileUpload),
}

impl PartResult {
    spec fn view(&self) -> PartView {
        match self {
            PartResult::Nothing => PartView::Nothing,
            PartResult::Field(n, c) => PartView::Field(n@, c@),
            PartResult::File(f) => PartView::File(f@),
        }
    }
}

/// What one multipart part contributes.
fn parse_part(part: &Vec<char>) -> (r: PartResult)
    ensures
        r.view() == part_view(part@),
{
    let t = trim(part);
    let dashes = chars_of("--");
    if t.len() == 0 || same_chars(&t, &dashes) {
        return PartResult::Nothing;
    }
    let mut sep: Vec<char> = Vec::new();
    sep.push('\r');
    sep.push('\n');
    sep.push('\r');
    sep.push('\n');
    assert(sep@ =~= blank_line());
    match crate::text::find_seq(part, &sep) {
        None => PartResult::Nothing,
        Some(i) => {
            proof {
                crate::text::lemma_first_occurrence(part@, sep@, i as int);
            }
            assert(crate::text::occurs_at(part@, sep@, i as int));
            assert(i + sep@.len() <= part@.len());
            assert(i + 4 <= part.len());
            let head = slice_of(part, 0, i);
            let body = slice_of(part, i + 4, part.len());
            assert(head@ =~= part@.take(i as int));
            assert(body@ =~= part@.skip(i + 4));
            let headers = parse_multipart_headers(to_string(&head).as_str());
            let content = to_string(&trim_crlf_end(&body));
            match headers.get("Content-Disposition") {
                None => PartResult::Nothing,
                Some(d) => {
                    let name = extract_disposition_value(d.as_str(), "name");
                    let filename = extract_disposition_value(d.as_str(), "filename");
                    match filename {
                        Some(f) => {
                            let content_type = match headers.get("Content-Type") {
                                Some(ct) => ct.clone(),
                                None => string_from("application/octet-stream"),
                            };
                            let name = match name {
                                Some(n) => n,
                                None => string_from("file"),
                            };
                            PartResult::File(FileUpload { name, filename: f, content_type, data: content })
                        },
                        None => match name {
                            Some(n) => PartResult::Field(n, content),
                            None => PartResult::Nothing,
                        },
                    }
                },
            }
        },
    }
}

/// Parse a multipart/form-data body.
pub fn parse_multipart_body(content_type: &str, body_str: &str) -> (r: Result<RequestBody, IpcError>)
    ensures
        match r {
            Ok(b) => multipart_of(content_type@, body_str@) == Ok::<BodyView, ErrorView>(b@),
            Err(e) => multipart_of(content_type@, body_str@) == Err::<BodyView, ErrorView>(e@),
        },
{
    proof {
        reveal_strlit("boundary=");
    }
    let ct = chars_of(content_type);
    let marker = chars_of("boundary=");
    let pieces = split_on_seq(&ct, &marker);
    if pieces.len() < 2 {
        return Err(IpcError::ParseError(string_from("Missing boundary in multipart Content-Type")));
    }
    let boundary = trim(&pieces[1]);
    let mut sep: Vec<char> = Vec::new();
    sep.push('-');
    sep.push('-');
    let mut k: usize = 0;
    while k < boundary.len()
        invariant
            k <= boundary@.len(),
            sep@ == seq!['-', '-'] + boundary@.take(k as int),
        decreases boundary@.len() - k,
    {
        sep.push(boundary[k]);
        assert(boundary@.take(k + 1) =~= boundary@.take(k as int).push(boundary@[k as int]));
        k += 1;
    }
    assert(boundary@.take(boundary@.len() as int) =~= boundary@);
    assert(sep@ == boundary_separator(boundary@));
    let body = chars_of(body_str);
    let all_parts = split_on_seq(&body, &sep);
    let ghost parts = views(all_parts@).drop_first();
    let mut fields = ParamMap::new();
    let mut files: Vec<FileUpload> = Vec::new();
    let mut i: usize = 1;
    assert(parts.take(0) =~= Seq::<Seq<char>>::empty());
    assert(file_views(files@) =~= Seq::<FileUploadView>::empty());
    while i < all_parts.len()
        invariant
            1 <= i <= all_parts@.len(),
            parts == views(all_parts@).drop_first(),
            fields@ == multipart_fields(parts.take(i - 1)),
            file_views(files@) == multipart_files(parts.take(i - 1)),
        decreases all_parts@.len() - i,
    {
        assert(parts[i - 1] == all_parts@[i as int]@);
        assert(parts.take(i as int).drop_last() =~= parts.take(i - 1));
        assert(parts.take(i as int).last() == all_parts@[i as int]@);
        match parse_part(&all_parts[i]) {
            PartResult::Nothing => {},
            PartResult::Field(n, c) => {
                fields.insert(n, c);
            },
            PartResult::File(f) => {
                proof {
                    assert(file_views(files@.push(f)) =~= file_views(files@).push(f@));
                }
                files.push(f);
            },
        }
        i += 1;
    }
    assert(parts.take(all_parts@.len() - 1) =~= parts);
    Ok(RequestBody::Multipart { fields, files })
}

/// Parse a request body according to its content type.
pub fn parse_body(content_type: &str, body_str: &str) -> (r: Result<RequestBody, IpcError>)
    ensures
        match r {
            Ok(b) => parsed_body(content_type@, body_str@) == Ok::<BodyView, ErrorView>(b@),
            Err(e) => parsed_body(content_type@, body_str@) == Err::<BodyView, ErrorView>(e@),
        },
{
    let ct = chars_of(content_type);
    if contains(&ct, &chars_of("application/json")) {
        match parse_json(body_str) {
            Ok(v) => Ok(RequestBody::Json(v)),
            Err(m) => {
                let mut message = string_from("Invalid JSON: ");
                push_str(&mut message, m.as_str());
                Err(IpcError::ParseError(message))
            },
        }
    } else if contains(&ct, &chars_of("application/x-www-form-urlencoded")) {
        Ok(RequestBody::UrlEncoded(parse_query_string(body_str)))
    } else if contains(&ct, &chars_of("multipart/form-data")) {
        parse_multipart_body(content_type, body_str)
    } else {
        let mut message = string_from("Unsupported Content-Type: ");
        push_str(&mut message, content_type);
        Err(IpcError::BadRequest(message))
    }
}

// ---------------------------------------------------------------------------
// Laws
// ---------------------------------------------------------------------------

/// Text without `%` and `+` decodes to itself.
pub proof fn law_url_decode_plain(s: Seq<char>)
    requires
        forall|i: int| 0 <= i < s.len() ==> s[i] != '%' && s[i] != '+',
    ensures
        url_decoded(s) == s,
    decreases s.len(),
{
    if s.len() > 0 {
        let t = s.skip(1);
        assert forall|i: int| 0 <= i < t.len() implies t[i] != '%' && t[i] != '+' by {
            assert(t[i] == s[i + 1]);
        }
        law_url_decode_plain(t);
        assert(s =~= seq![s[0]] + t);
    }
}

/// The binding of a parameter segment that no later segment repeats.
proof fn lemma_bindings_value(ps: Seq<Seq<char>>, qs: Seq<Seq<char>>, i: int)
    requires
        ps.len() == qs.len(),
        0 <= i < qs.len(),
        is_param_segment(qs[i]),
        forall|j: int| i < j < qs.len() ==> qs[j] != qs[i],
    ensures
        bindings(ps, qs).contains_key(qs[i].drop_first()),
        bindings(ps, qs)[qs[i].drop_first()] == ps[i],
    decreases qs.len(),
{
    let n = qs.len() - 1;
    let name = qs[i].drop_first();
    if i < n {
        let q0 = qs.drop_last();
        let p0 = ps.drop_last();
        assert(q0[i] == qs[i]);
        assert forall|j: int| i < j < q0.len() implies q0[j] != q0[i] by {
            assert(q0[j] == qs[j]);
        }
        lemma_bindings_value(p0, q0, i);
        assert(p0[i] == ps[i]);
        if is_param_segment(qs.last()) {
            assert(qs.last() == qs[n]);
            assert(qs[n] != qs[i]);
            if qs.last().drop_first() == name {
                assert(qs.last() =~= seq![':'] + name);
                assert(qs[i] =~= seq![':'] + name);
            }
        }
    }
}

/// A pattern's `:name` segment binds `name` to the path segment at its position, when no
/// later segment of the pattern is the same parameter (a later one would override it).
pub proof fn law_parameter_binds_its_segment(path: Seq<char>, pattern: Seq<char>, i: int)
    requires
        pattern_match(path, pattern) is Some,
        0 <= i < segments(pattern).len(),
        is_param_segment(segments(pattern)[i]),
        forall|j: int| i < j < segments(pattern).len() ==> segments(pattern)[j] != segments(pattern)[i],
    ensures
        pattern_match(path, pattern).unwrap().contains_key(segments(pattern)[i].drop_first()),
        pattern_match(path, pattern).unwrap()[segments(pattern)[i].drop_first()] == segments(path)[i],
{
    lemma_bindings_value(segments(path), segments(pattern), i);
}

/// Decoding never makes a text longer.
pub proof fn law_url_decode_never_longer(s: Seq<char>)
    ensures
        url_decoded(s).len() <= s.len(),
    decreases s.len(),
{
    if s.len() > 0 {
        if s[0] == '%' && s.len() >= 3 {
            law_url_decode_never_longer(s.skip(3));
        } else if s[0] != '%' {
            law_url_decode_never_longer(s.skip(1));
        }
    }
}

/// Query piece `piece` gives a value for `key`.
pub open spec fn gives_key(piece: Seq<char>, key: Seq<char>) -> bool {
    query_entry(piece) matches Some(e) && e.0 == key
}

proof fn lemma_query_map_last(pairs: Seq<Seq<char>>, k: Seq<char>)
    ensures
        query_map(pairs).contains_key(k) <==> exists|i: int| 0 <= i < pairs.len() && #[trigger] gives_key(pairs[i], k),
        query_map(pairs).contains_key(k) ==> exists|i: int|
            0 <= i < pairs.len() && #[trigger] query_entry(pairs[i]) == Some((k, query_map(pairs)[k]))
                && forall|j: int| i < j < pairs.len() ==> !gives_key(pairs[j], k),
    decreases pairs.len(),
{
    if pairs.len() > 0 {
        let p0 = pairs.drop_last();
        let n = pairs.len() - 1;
        lemma_query_map_last(p0, k);
        assert forall|i: int| 0 <= i < p0.len() implies p0[i] == pairs[i] by {}
        if gives_key(pairs.last(), k) {
            assert(pairs[n] == pairs.last());
            assert(gives_key(pairs[n], k));
            assert(query_entry(pairs[n]) == Some((k, query_map(pairs)[k])));
        } else {
            assert(pairs[n] == pairs.last());
            if exists|i: int| 0 <= i < pairs.len() && #[trigger] gives_key(pairs[i], k) {
                let i = choose|i: int| 0 <= i < pairs.len() && #[trigger] gives_key(pairs[i], k);
                assert(i < n);
                assert(gives_key(p0[i], k));
            }
            if query_map(p0).contains_key(k) {
                let i = choose|i: int|
                    0 <= i < p0.len() && #[trigger] query_entry(p0[i]) == Some((k, query_map(p0)[k]))
                        && forall|j: int| i < j < p0.len() ==> !gives_key(p0[j], k);
                assert(query_entry(pairs[i]) == Some((k, query_map(pairs)[k])));
                assert forall|j: int| i < j < pairs.len() implies !gives_key(pairs[j], k) by {
                    if j < n {
                        assert(pairs[j] == p0[j]);
                    }
                }
            }
        }
    }
}

/// A query string gives a value for `key` exactly when one of its `&`-separated pieces
/// does, and the value is that of the last such piece.
pub proof fn law_query_last_value_wins(query: Seq<char>, key: Seq<char>)
    ensures
        query_params_of(query).contains_key(key) <==> exists|i: int|
            0 <= i < split_char(query, '&').len() && #[trigger] gives_key(split_char(query, '&')[i], key),
        query_params_of(query).contains_key(key) ==> exists|i: int|
            0 <= i < split_char(query, '&').len() && #[trigger] query_entry(split_char(query, '&')[i]) == Some(
                (key, query_params_of(query)[key]),
            ) && forall|j: int| i < j < split_char(query, '&').len() ==> !gives_key(split_char(query, '&')[j], key),
{
    lemma_query_map_last(split_char(query, '&'), key);
}

/// The hexadecimal digit for `d < 16`, in upper or lower case.
pub open spec fn hex_digit_char(d: nat, upper: bool) -> char {
    if d < 10 {
        (48 + d) as char
    } else if upper {
        (55 + d) as char
    } else {
        (87 + d) as char
    }
}

/// Every character of `t` written as `%XX`, the two hexadecimal digits of its code in
/// upper or lower case.
pub open spec fn percent_encoded(t: Seq<char>, upper: bool) -> Seq<char>
    decreases t.len(),
{
    if t.len() == 0 {
        seq![]
    } else {
        let x = t[0] as u32;
        seq!['%', hex_digit_char((x / 16) as nat, upper), hex_digit_char((x % 16) as nat, upper)]
            + percent_encoded(t.skip(1), upper)
    }
}

/// Decoding a percent-encoded ASCII text, in either case of hexadecimal digits, gives the
/// text back.
pub proof fn law_percent_encoding_decodes_back(t: Seq<char>, upper: bool)
    requires
        forall|i: int| 0 <= i < t.len() ==> (t[i] as u32) < 128,
    ensures
        url_decoded(percent_encoded(t, upper)) == t,
    decreases t.len(),
{
    if t.len() > 0 {
        let rest = t.skip(1);
        assert forall|i: int| 0 <= i < rest.len() implies (rest[i] as u32) < 128 by {
            assert(rest[i] == t[i + 1]);
        }
        law_percent_encoding_decodes_back(rest, upper);
        let e = percent_encoded(t, upper);
        let x = t[0] as u32;
        assert(x < 128);
        let hi = (x / 16) as nat;
        let lo = (x % 16) as nat;
        assert(hi < 8 && lo < 16);
        assert(hex_digit_value(hex_digit_char(hi, upper)) == Some(hi as u8));
        assert(hex_digit_value(hex_digit_char(lo, upper)) == Some(lo as u8));
        assert(e[0] == '%');
        assert(e[1] == hex_digit_char(hi, upper));
        assert(e[2] == hex_digit_char(lo, upper));
        assert(e[1] != '+');
        assert(hi * 16 + lo == x);
        assert(hex_pair_value(e[1], e[2]) == Some(x as u8));
        vstd::utf8::char_u32_cast(t[0], x);
        assert((x as char) == t[0]);
        assert(((x as u8) as char) == t[0]);
        assert(e.skip(3) =~= percent_encoded(rest, upper));
        assert(t =~= seq![t[0]] + rest);
    }
}

/// A route pattern fits a path exactly when both have as many non-empty segments and
/// every pattern segment that does not start with `:` equals the path segment at its
/// position, whether or not the pattern has parameters.
pub proof fn law_static_segments_must_equal(path: Seq<char>, pattern: Seq<char>)
    ensures
        pattern_match(path, pattern) is Some <==> {
            &&& segments(path).len() == segments(pattern).len()
            &&& forall|i: int|
                0 <= i < segments(pattern).len() && !(segments(pattern)[i].len() > 0 && segments(pattern)[i][0] == ':')
                    ==> #[trigger] segments(path)[i] == segments(pattern)[i]
        },
{
}

/// Query piece `k=v`, with no `=` or `&` in `k` and no `&` in `v`, is read as the
/// decoded key `k` with the decoded value `v` (both sides decoded, whatever they hold).
pub proof fn law_query_pair_decodes_key_and_value(key: Seq<char>, value: Seq<char>)
    requires
        forall|i: int| 0 <= i < key.len() ==> key[i] != '=' && key[i] != '&',
        forall|i: int| 0 <= i < value.len() ==> value[i] != '&',
    ensures
        query_params_of(key + seq!['='] + value) == Map::<Seq<char>, Seq<char>>::empty().insert(
            url_decoded(key),
            url_decoded(value),
        ),
{
    let q = key + seq!['='] + value;
    assert forall|i: int| 0 <= i < q.len() implies q[i] != '&' by {
        if i < key.len() {
            assert(q[i] == key[i]);
        } else if i > key.len() {
            assert(q[i] == value[i - key.len() - 1]);
        }
    }
    assert(!has_char(q, '&'));
    assert(split_char(q, '&') == seq![q]);
    let pieces = seq![q];
    assert(pieces.drop_last() =~= Seq::<Seq<char>>::empty());
    assert(is_first_char(q, '=', key.len() as int)) by {
        assert(q[key.len() as int] == '=');
        assert forall|j: int| 0 <= j < key.len() implies q[j] != '=' by {
            assert(q[j] == key[j]);
        }
    }
    lemma_first_char(q, '=', key.len() as int);
    assert(q.take(key.len() as int) =~= key);
    assert(q.skip(key.len() as int + 1) =~= value);
    assert(has_char(q, '='));
    assert(query_entry(q) == Some((url_decoded(key), url_decoded(value))));
    assert(pieces.last() == q);
    assert(query_map(pieces.drop_last()) == Map::<Seq<char>, Seq<char>>::empty());
}

/// `p` occurs in `s`, written out.
pub open spec fn occurs_in(s: Seq<char>, p: Seq<char>) -> bool {
    exists|i: int| 0 <= i && i + p.len() <= s.len() && #[trigger] s.subrange(i, i + p.len()) == p
}

/// A body is parsed by what its content type contains, parameters such as `; charset=`
/// allowed: JSON first; else URL-encoded, as a query string; else multipart; any other
/// content type is refused as a bad request naming it.
pub proof fn law_body_kind_by_content_type(ct: Seq<char>, body: Seq<char>)
    ensures
        occurs_in(ct, "application/json"@) ==> (parsed_body(ct, body) == match json_from_text(body) {
            Ok(v) => Ok::<BodyView, ErrorView>(BodyView::Json(v)),
            Err(m) => Err(ErrorView::ParseError("Invalid JSON: "@ + m)),
        }),
        !occurs_in(ct, "application/json"@) && occurs_in(ct, "application/x-www-form-urlencoded"@)
            ==> parsed_body(ct, body) == Ok::<BodyView, ErrorView>(BodyView::UrlEncoded(query_params_of(body))),
        !occurs_in(ct, "application/json"@) && !occurs_in(ct, "application/x-www-form-urlencoded"@)
            && occurs_in(ct, "multipart/form-data"@) ==> parsed_body(ct, body) == multipart_of(ct, body),
        !occurs_in(ct, "application/json"@) && !occurs_in(ct, "application/x-www-form-urlencoded"@)
            && !occurs_in(ct, "multipart/form-data"@) ==> parsed_body(ct, body) == Err::<BodyView, ErrorView>(
            ErrorView::BadRequest("Unsupported Content-Type: "@ + ct),
        ),
{
    lemma_occurs_in(ct, "application/json"@);
    lemma_occurs_in(ct, "application/x-www-form-urlencoded"@);
    lemma_occurs_in(ct, "multipart/form-data"@);
}

proof fn lemma_occurs_in(s: Seq<char>, p: Seq<char>)
    ensures
        occurs_in(s, p) == crate::text::contains_seq(s, p),
{
    if occurs_in(s, p) {
        let i = choose|i: int| 0 <= i && i + p.len() <= s.len() && #[trigger] s.subrange(i, i + p.len()) == p;
        assert(crate::text::occurs_at(s, p, i));
    }
    if crate::text::contains_seq(s, p) {
        let i = choose|i: int| #[trigger] crate::text::occurs_at(s, p, i);
        assert(s.subrange(i, i + p.len()) == p);
    }
}

/// The content of a text-field part.
pub open spec fn field_content(p: Seq<char>) -> Seq<char> {
    match part_view(p) {
        PartView::Field(_, c) => c,
        _ => seq![],
    }
}

/// Part `p` is a text field named `n`.
pub open spec fn is_field_named(p: Seq<char>, n: Seq<char>) -> bool {
    part_view(p) matches PartView::Field(m, _) && m == n
}

/// The text fields of a multipart body: a name is present exactly when some part is a
/// field of that name, and a field part whose name no later field part repeats keeps its
/// content, whatever fields come before or after it.
pub proof fn law_multipart_fields_accumulate(parts: Seq<Seq<char>>, n: Seq<char>)
    ensures
        multipart_fields(parts).contains_key(n) <==> exists|i: int| 0 <= i < parts.len() && #[trigger] is_field_named(parts[i], n),
        forall|i: int|
            0 <= i < parts.len() && #[trigger] is_field_named(parts[i], n)
                && (forall|j: int| i < j < parts.len() ==> !is_field_named(#[trigger] parts[j], n))
                ==> multipart_fields(parts).contains_key(n) && multipart_fields(parts)[n] == field_content(parts[i]),
    decreases parts.len(),
{
    if parts.len() > 0 {
        let p0 = parts.drop_last();
        let last = parts.len() - 1;
        law_multipart_fields_accumulate(p0, n);
        assert(parts.last() == parts[last]);
        if is_field_named(parts[last], n) {
            assert(multipart_fields(parts).contains_key(n));
            assert(multipart_fields(parts)[n] == field_content(parts[last]));
        } else {
            assert(multipart_fields(parts).contains_key(n) == multipart_fields(p0).contains_key(n));
            assert(multipart_fields(p0).contains_key(n) ==> multipart_fields(parts)[n] == multipart_fields(p0)[n]);
        }
        assert forall|i: int| 0 <= i < p0.len() implies p0[i] == parts[i] by {}
        if exists|i: int| 0 <= i < parts.len() && #[trigger] is_field_named(parts[i], n) {
            let i = choose|i: int| 0 <= i < parts.len() && #[trigger] is_field_named(parts[i], n);
            if i < last {
                assert(is_field_named(p0[i], n));
            }
        }
        if multipart_fields(p0).contains_key(n) {
            let i = choose|i: int| 0 <= i < p0.len() && #[trigger] is_field_named(p0[i], n);
            assert(is_field_named(parts[i], n));
        }
        assert forall|i: int|
            0 <= i < parts.len() && #[trigger] is_field_named(parts[i], n)
                && (forall|j: int| i < j < parts.len() ==> !is_field_named(#[trigger] parts[j], n))
                implies multipart_fields(parts).contains_key(n) && multipart_fields(parts)[n] == field_content(parts[i]) by {
            if i < last {
                assert(!is_field_named(parts[last], n));
                assert(is_field_named(p0[i], n));
                assert forall|j: int| i < j < p0.len() implies !is_field_named(#[trigger] p0[j], n) by {
                    assert(p0[j] == parts[j]);
                }
            }
        }
    }
}

/// The path of every parsed URL starts with `/`.
pub proof fn law_path_starts_with_slash(url: Seq<char>)
    ensures
        parsed_url(url) matches Ok(u) ==> u.path.len() > 0 && u.path[0] == '/',
{
}

/// A pattern without `:name` segments takes exactly the paths with the same non-empty
/// segments, and binds no parameter.
pub proof fn law_static_pattern(path: Seq<char>, pattern: Seq<char>)
    requires
        forall|i: int| 0 <= i < segments(pattern).len() ==> !is_param_segment(#[trigger] segments(pattern)[i]),
    ensures
        pattern_match(path, pattern) is Some <==> segments(path) == segments(pattern),
        pattern_match(path, pattern) matches Some(m) ==> m == Map::<Seq<char>, Seq<char>>::empty(),
{
    let ps = segments(path);
    let qs = segments(pattern);
    if segments_fit(ps, qs) {
        assert(ps =~= qs);
        lemma_static_bindings(ps, qs);
    }
}

/// Segments without parameters bind nothing.
proof fn lemma_static_bindings(ps: Seq<Seq<char>>, qs: Seq<Seq<char>>)
    requires
        forall|i: int| 0 <= i < qs.len() ==> !is_param_segment(#[trigger] qs[i]),
    ensures
        bindings(ps, qs) == Map::<Seq<char>, Seq<char>>::empty(),
    decreases qs.len(),
{
    if qs.len() > 0 && ps.len() > 0 {
        let q0 = qs.drop_last();
        assert forall|i: int| 0 <= i < q0.len() implies !is_param_segment(#[trigger] q0[i]) by {
            assert(q0[i] == qs[i]);
        }
        lemma_static_bindings(ps.drop_last(), q0);
        assert(!is_param_segment(qs[qs.len() - 1]));
    }
}

/// A key that occurs once in a query string, as `key=value` with nothing to decode on
/// either side, is read back with its value.
pub proof fn law_query_single_pair(key: Seq<char>, value: Seq<char>)
    requires
        key.len() > 0,
        forall|i: int| 0 <= i < key.len() ==> key[i] != '%' && key[i] != '+' && key[i] != '=' && key[i] != '&',
        forall|i: int| 0 <= i < value.len() ==> value[i] != '%' && value[i] != '+' && value[i] != '&',
    ensures
        query_params_of(key + seq!['='] + value) == Map::<Seq<char>, Seq<char>>::empty().insert(key, value),
{
    let q = key + seq!['='] + value;
    assert forall|i: int| 0 <= i < q.len() implies q[i] != '&' by {
        if i < key.len() {
            assert(q[i] == key[i]);
        } else if i > key.len() {
            assert(q[i] == value[i - key.len() - 1]);
        }
    }
    assert(!has_char(q, '&'));
    assert(split_char(q, '&') == seq![q]);
    let pieces = seq![q];
    assert(pieces.drop_last() =~= Seq::<Seq<char>>::empty());
    assert(is_first_char(q, '=', key.len() as int)) by {
        assert(q[key.len() as int] == '=');
        assert forall|j: int| 0 <= j < key.len() implies q[j] != '=' by {
            assert(q[j] == key[j]);
        }
    }
    lemma_first_char(q, '=', key.len() as int);
    assert(q.take(key.len() as int) =~= key);
    assert(q.skip(key.len() as int + 1) =~= value);
    law_url_decode_plain(key);
    law_url_decode_plain(value);
    assert(has_char(q, '='));
    assert(query_entry(q) == Some((key, value)));
    assert(pieces.last() == q);
    assert(query_map(pieces.drop_last()) == Map::<Seq<char>, Seq<char>>::empty());
    assert(query_map(pieces) == Map::<Seq<char>, Seq<char>>::empty().insert(key, value));
}

} // verus!
