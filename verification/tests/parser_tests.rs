use dioxus_ipc_bridge::parser::{
    extract_disposition_value, parse_body, parse_multipart_body, parse_multipart_headers,
    parse_query_string, url_decode, ParsedUrl,
};
use dioxus_ipc_bridge::request::RequestBody;
use dioxus_ipc_bridge::response::IpcError;

#[test]
fn test_parse_url() {
    let url = ParsedUrl::parse("ipc://calculator/fibonacci?number=10").unwrap();
    assert_eq!(url.scheme, "ipc");
    assert_eq!(url.path, "/calculator/fibonacci");
    assert_eq!(url.query_params.get("number"), Some(&"10".to_string()));
}

#[test]
fn test_match_pattern() {
    let url = ParsedUrl::parse("ipc://user/123/posts/456").unwrap();
    let params = url.match_pattern("/user/:id/posts/:postId").unwrap();
    assert_eq!(params.get("id"), Some(&"123".to_string()));
    assert_eq!(params.get("postId"), Some(&"456".to_string()));
}

#[test]
fn test_url_decode() {
    assert_eq!(url_decode("Hello%20World"), "Hello World");
    assert_eq!(url_decode("email%40example.com"), "email@example.com");
    assert_eq!(url_decode("foo+bar"), "foo bar");
}

#[test]
fn test_parse_query_string() {
    let params = parse_query_string("name=John%20Doe&age=25&city=NYC");
    assert_eq!(params.get("name"), Some(&"John Doe".to_string()));
    assert_eq!(params.get("age"), Some(&"25".to_string()));
    assert_eq!(params.get("city"), Some(&"NYC".to_string()));
}

#[test]
fn url_without_scheme_separator_is_a_parse_error() {
    match ParsedUrl::parse("calculator/fibonacci") {
        Err(IpcError::ParseError(m)) => {
            assert_eq!(m, "Invalid URL format: missing '://' in 'calculator/fibonacci'")
        }
        _ => panic!("expected a parse error"),
    }
}

#[test]
fn url_path_gets_leading_slash_and_empty_query() {
    let url = ParsedUrl::parse("ipc://ping").unwrap();
    assert_eq!(url.path, "/ping");
    assert_eq!(url.query_params.get("x"), None);
    let url = ParsedUrl::parse("ipc:///abs?").unwrap();
    assert_eq!(url.path, "/abs");
    let url = ParsedUrl::parse("a://b://c?x=1?y").unwrap();
    assert_eq!(url.scheme, "a");
    assert_eq!(url.path, "/b://c");
    assert_eq!(url.query_params.get("x"), Some(&"1?y".to_string()));
}

#[test]
fn static_pattern_matches_only_same_segments() {
    let url = ParsedUrl::parse("ipc://counter//value/").unwrap();
    let params = url.match_pattern("/counter/value").unwrap();
    assert_eq!(params.entries().len(), 0);
    assert!(url.match_pattern("/counter/other").is_none());
    assert!(url.match_pattern("/counter").is_none());
    assert!(url.match_pattern("/counter/value/more").is_none());
}

#[test]
fn repeated_parameter_keeps_last_segment() {
    let url = ParsedUrl::parse("ipc://a/1/2").unwrap();
    let params = url.match_pattern("/a/:x/:x").unwrap();
    assert_eq!(params.get("x"), Some(&"2".to_string()));
}

#[test]
fn url_decode_edge_cases() {
    // An unreadable escape keeps the '%' and drops the two characters after it.
    assert_eq!(url_decode("a%zzb"), "a%b");
    // A short escape at the end keeps the '%' only.
    assert_eq!(url_decode("100%"), "100%");
    assert_eq!(url_decode("x%4"), "x%");
    // A '+' sign before one digit is read as that digit.
    assert_eq!(url_decode("%+41"), "\u{4}1");
    // Bytes decode to the character with that code.
    assert_eq!(url_decode("%C3%A9"), "\u{c3}\u{a9}");
    assert_eq!(url_decode("%41%62"), "Ab");
    assert_eq!(url_decode(""), "");
    assert_eq!(url_decode("plain-text"), "plain-text");
}

#[test]
fn query_string_edge_cases() {
    let params = parse_query_string("flag&&a=1&a=2&=v&k=x=y");
    assert_eq!(params.get("flag"), Some(&"".to_string()));
    assert_eq!(params.get("a"), Some(&"2".to_string()));
    assert_eq!(params.get(""), Some(&"v".to_string()));
    assert_eq!(params.get("k"), Some(&"x=y".to_string()));
    assert_eq!(parse_query_string("").entries().len(), 0);
    let single = parse_query_string("key=value");
    assert_eq!(single.entries().len(), 1);
    assert_eq!(single.get("key"), Some(&"value".to_string()));
}

#[test]
fn json_body_is_parsed() {
    match parse_body("application/json; charset=utf-8", r#"{"name":"John","age":25}"#).unwrap() {
        RequestBody::Json(v) => {
            assert_eq!(v["name"], "John");
            assert_eq!(v["age"], 25);
        }
        _ => panic!("expected JSON"),
    }
}

#[test]
fn invalid_json_body_is_a_parse_error() {
    match parse_body("application/json", "{not json") {
        Err(IpcError::ParseError(m)) => assert!(m.starts_with("Invalid JSON: ")),
        _ => panic!("expected a parse error"),
    }
}

#[test]
fn urlencoded_body_is_parsed() {
    match parse_body("application/x-www-form-urlencoded", "name=John&age=25").unwrap() {
        RequestBody::UrlEncoded(m) => {
            assert_eq!(m.get("name"), Some(&"John".to_string()));
            assert_eq!(m.get("age"), Some(&"25".to_string()));
        }
        _ => panic!("expected URL-encoded"),
    }
}

#[test]
fn unsupported_content_type_is_a_bad_request() {
    match parse_body("text/plain", "hello") {
        Err(IpcError::BadRequest(m)) => assert_eq!(m, "Unsupported Content-Type: text/plain"),
        _ => panic!("expected a bad request"),
    }
}

#[test]
fn multipart_body_is_parsed() {
    let body = "--XyZ\r\nContent-Disposition: form-data; name=\"title\"\r\n\r\nHello\r\n\
--XyZ\r\nContent-Disposition: form-data; name=\"file\"; filename=\"photo.jpg\"\r\nContent-Type: image/jpeg\r\n\r\nDATA\r\n\
--XyZ\r\nContent-Disposition: form-data; filename=\"notes.txt\"\r\n\r\nnotes\r\n\
--XyZ--\r\n";
    match parse_body("multipart/form-data; boundary=XyZ", body).unwrap() {
        RequestBody::Multipart { fields, files } => {
            assert_eq!(fields.get("title"), Some(&"Hello".to_string()));
            assert_eq!(files.len(), 2);
            assert_eq!(files[0].name, "file");
            assert_eq!(files[0].filename, "photo.jpg");
            assert_eq!(files[0].content_type, "image/jpeg");
            assert_eq!(files[0].data, "DATA");
            assert_eq!(files[1].name, "file");
            assert_eq!(files[1].filename, "notes.txt");
            assert_eq!(files[1].content_type, "application/octet-stream");
            assert_eq!(files[1].data, "notes");
        }
        _ => panic!("expected multipart"),
    }
}

#[test]
fn multipart_without_boundary_is_a_parse_error() {
    match parse_multipart_body("multipart/form-data", "whatever") {
        Err(IpcError::ParseError(m)) => assert_eq!(m, "Missing boundary in multipart Content-Type"),
        _ => panic!("expected a parse error"),
    }
}

#[test]
fn multipart_headers_and_disposition() {
    let headers = parse_multipart_headers("Content-Disposition:  form-data; name=\"a\"\r\nX-Empty:\r\nno colon here\n");
    assert_eq!(headers.get("Content-Disposition"), Some(&"form-data; name=\"a\"".to_string()));
    assert_eq!(headers.get("X-Empty"), Some(&"".to_string()));
    assert_eq!(headers.entries().len(), 2);
    assert_eq!(
        extract_disposition_value("form-data; name=\"file\"; filename=\"photo.jpg\"", "filename"),
        Some("photo.jpg".to_string())
    );
    assert_eq!(
        extract_disposition_value("form-data; filename=\"photo.jpg\"", "name"),
        None
    );
    assert_eq!(extract_disposition_value("form-data; name= \"x\" ", "name"), Some("x".to_string()));
}

#[test]
fn decoded_text_is_never_longer() {
    for s in ["%41%42%43", "a+b+c", "%zz%", "%", "%4", "plain", "%E9t%C3%A9", ""] {
        assert!(url_decode(s).chars().count() <= s.chars().count());
    }
    assert_eq!(url_decode("%41%42%43"), "ABC");
}

#[test]
fn unicode_white_space_is_trimmed() {
    let headers = parse_multipart_headers("Key:\u{3000}value\u{a0}\u{2003}\nOther\u{85}: x\u{200b}");
    assert_eq!(headers.get("Key"), Some(&"value".to_string()));
    assert_eq!(headers.get("Other"), Some(&"x\u{200b}".to_string()));
    assert_eq!(
        extract_disposition_value("form-data;\u{2028}name=\"n\"\u{1680}", "name"),
        Some("n".to_string())
    );
}

#[test]
fn trimming_agrees_with_char_is_whitespace() {
    for code in 0u32..0x3100 {
        let Some(c) = char::from_u32(code) else { continue };
        if c == '\n' {
            continue;
        }
        let headers = parse_multipart_headers(&format!("K:{}v", c));
        let expected = if c.is_whitespace() { "v".to_string() } else { format!("{}v", c) };
        assert_eq!(headers.get("K"), Some(&expected), "code point {:#x}", code);
    }
}

#[test]
fn percent_encoded_ascii_decodes_back() {
    for t in ["Hello, World!", "a%b+c=d&e", "~\t\u{7f}", ""] {
        let upper: String = t.bytes().map(|b| format!("%{:02X}", b)).collect();
        let lower: String = t.bytes().map(|b| format!("%{:02x}", b)).collect();
        assert_eq!(url_decode(&upper), t);
        assert_eq!(url_decode(&lower), t);
    }
    assert_eq!(url_decode("%25"), "%");
}

#[test]
fn last_query_value_wins() {
    let params = parse_query_string("a=1&b=2&a=3&flag&&a");
    assert_eq!(params.get("a"), Some(&"".to_string()));
    assert_eq!(params.get("b"), Some(&"2".to_string()));
    assert_eq!(params.get("flag"), Some(&"".to_string()));
    assert_eq!(params.get(""), None);
    let params = parse_query_string("x=1&x=2");
    assert_eq!(params.get("x"), Some(&"2".to_string()));
}
