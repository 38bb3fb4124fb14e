use fluxion_rust::http::headers::HeaderMap;
use fluxion_rust::http::method::Method;
use fluxion_rust::http::parse_error::ParseError;
use fluxion_rust::http::request::Request;

fn body_of(req: &Request) -> Option<String> {
    req.body().cloned()
}

#[test]
fn method_tokens_in_any_casing() {
    let cases = [
        ("GET", Method::Get),
        ("get", Method::Get),
        ("gEt", Method::Get),
        ("POST", Method::Post),
        ("post", Method::Post),
        ("Put", Method::Put),
        ("delete", Method::Delete),
        ("PaTcH", Method::Patch),
        ("options", Method::Options),
        ("HEAD", Method::Head),
        ("head", Method::Head),
    ];
    for (tok, m) in cases.iter() {
        assert_eq!(Method::from_str(tok), Ok(*m), "token {}", tok);
    }
}

#[test]
fn method_other_tokens_rejected() {
    for tok in ["", "GETS", "GE", "CONNECT", "TRACE", "P0ST", " GET", "optıons", "poſt"].iter() {
        assert_eq!(
            Method::from_str(tok),
            Err(ParseError::UnsupportedMethod(tok.to_string())),
            "token {:?}",
            tok
        );
    }
}

#[test]
fn parse_simple_get() {
    let req = Request::from_raw(b"GET / HTTP/1.1\r\n\r\n").unwrap();
    assert_eq!(*req.method(), Method::Get);
    assert_eq!(req.path(), "/");
    assert_eq!(req.headers().len(), 0);
    assert_eq!(body_of(&req), None);
}

#[test]
fn parse_headers_and_body() {
    let raw = b"POST /json HTTP/1.1\r\nContent-Length: 20\r\nHost: x\r\n\r\n{\"id\":1,\"name\":\"Al\"}";
    let req = Request::from_raw(raw).unwrap();
    assert_eq!(*req.method(), Method::Post);
    assert_eq!(req.path(), "/json");
    assert_eq!(req.headers().get("Content-Length").map(|s| s.as_str()), Some("20"));
    assert_eq!(req.headers().get("Host").map(|s| s.as_str()), Some("x"));
    assert_eq!(req.headers().get("host"), None);
    assert_eq!(body_of(&req), Some("{\"id\":1,\"name\":\"Al\"}".to_string()));
}

#[test]
fn body_longer_than_declared_is_cut() {
    let req = Request::from_raw(b"POST /a HTTP/1.1\nContent-Length: 3\n\nabcdef").unwrap();
    assert_eq!(body_of(&req), Some("abc".to_string()));
}

#[test]
fn body_shorter_than_declared_is_absent() {
    let req = Request::from_raw(b"POST /a HTTP/1.1\r\nContent-Length: 50\r\n\r\nshort").unwrap();
    assert_eq!(*req.method(), Method::Post);
    assert_eq!(body_of(&req), None);
}

#[test]
fn body_lines_joined_without_line_ends() {
    let req = Request::from_raw(b"PUT /a HTTP/1.1\r\nContent-Length: 6\r\n\r\nabc\r\ndef\r\n").unwrap();
    assert_eq!(body_of(&req), Some("abcdef".to_string()));
}

#[test]
fn body_needs_numeric_length() {
    let req = Request::from_raw(b"POST /a HTTP/1.1\r\nContent-Length: x1\r\n\r\nabc").unwrap();
    assert_eq!(body_of(&req), None);
    let req = Request::from_raw(b"POST /a HTTP/1.1\r\nContent-Length: -1\r\n\r\nabc").unwrap();
    assert_eq!(body_of(&req), None);
    let req = Request::from_raw(b"POST /a HTTP/1.1\r\nContent-Length: \r\n\r\nabc").unwrap();
    assert_eq!(body_of(&req), None);
    let req = Request::from_raw(b"POST /a HTTP/1.1\r\nContent-Length: +2\r\n\r\nabc").unwrap();
    assert_eq!(body_of(&req), Some("ab".to_string()));
    let req = Request::from_raw(b"POST /a HTTP/1.1\r\nContent-Length: 99999999999999999999999\r\n\r\nabc").unwrap();
    assert_eq!(body_of(&req), None);
}

#[test]
fn body_absent_without_length_header() {
    let req = Request::from_raw(b"POST /a HTTP/1.1\r\nX: 1\r\n\r\nabc").unwrap();
    assert_eq!(body_of(&req), None);
}

#[test]
fn zero_length_gives_empty_body() {
    let req = Request::from_raw(b"POST /a HTTP/1.1\r\nContent-Length: 0\r\n\r\n").unwrap();
    assert_eq!(body_of(&req), Some(String::new()));
}

#[test]
fn duplicate_header_last_wins() {
    let req = Request::from_raw(b"GET / HTTP/1.1\r\nA: 1\r\nB: 2\r\nA: 3\r\n\r\n").unwrap();
    assert_eq!(req.headers().len(), 2);
    assert_eq!(req.headers().get("A").map(|s| s.as_str()), Some("3"));
}

#[test]
fn header_value_split_at_first_separator() {
    let req = Request::from_raw(b"GET / HTTP/1.1\r\nA: b: c\r\n\r\n").unwrap();
    assert_eq!(req.headers().get("A").map(|s| s.as_str()), Some("b: c"));
}

#[test]
fn parse_errors() {
    assert_eq!(Request::from_raw(b"").unwrap_err(), ParseError::EmptyRequest);
    assert_eq!(Request::from_raw(b"\r\n").unwrap_err(), ParseError::MissingMethod);
    assert_eq!(Request::from_raw(b"   \r\n").unwrap_err(), ParseError::MissingMethod);
    assert_eq!(Request::from_raw(b"GET\r\n").unwrap_err(), ParseError::MissingPath);
    assert_eq!(Request::from_raw(b"GET /\r\n").unwrap_err(), ParseError::MissingVersion);
    assert_eq!(
        Request::from_raw(b"FETCH / HTTP/1.1\r\n").unwrap_err(),
        ParseError::UnsupportedMethod("FETCH".to_string())
    );
    assert_eq!(
        Request::from_raw(b"GET / HTTP/1.1\r\nNoSeparator\r\n\r\n").unwrap_err(),
        ParseError::InvalidHeaderLine
    );
    assert_eq!(
        Request::from_raw(b"GET / HTTP/1.1\r\nA:1\r\n\r\n").unwrap_err(),
        ParseError::InvalidHeaderLine
    );
}

#[test]
fn missing_version_checked_before_method() {
    assert_eq!(Request::from_raw(b"FETCH /\r\n").unwrap_err(), ParseError::MissingVersion);
}

#[test]
fn tokens_split_on_any_white_space() {
    let req = Request::from_raw(b"  get\t/x \x0b HTTP/1.0  extra\r\n\r\n").unwrap();
    assert_eq!(*req.method(), Method::Get);
    assert_eq!(req.path(), "/x");
}

#[test]
fn invalid_bytes_become_replacement_characters() {
    let req = Request::from_raw(b"GET /a\xffb HTTP/1.1\r\n\r\n").unwrap();
    assert_eq!(req.path(), "/a\u{fffd}b");
}

#[test]
fn request_line_without_line_end() {
    let req = Request::from_raw(b"HEAD /x HTTP/1.1").unwrap();
    assert_eq!(*req.method(), Method::Head);
    assert_eq!(req.path(), "/x");
}

#[test]
fn round_trip_of_built_request() {
    let body = "hello world";
    let raw = format!(
        "PATCH /items/7 HTTP/1.1\r\nContent-Length: {}\r\nX-Token: abc\r\n\r\n{}",
        body.len(),
        body
    );
    let req = Request::from_raw(raw.as_bytes()).unwrap();
    assert_eq!(*req.method(), Method::Patch);
    assert_eq!(req.path(), "/items/7");
    assert_eq!(req.headers().len(), 2);
    assert_eq!(req.headers().get("X-Token").map(|s| s.as_str()), Some("abc"));
    assert_eq!(req.headers().get("Content-Length").map(|s| s.as_str()), Some("11"));
    assert_eq!(body_of(&req), Some(body.to_string()));
}

#[test]
fn from_text_matches_from_raw() {
    let raw = "DELETE /z HTTP/1.1\nContent-Length: 2\n\nok";
    let chars: Vec<char> = raw.chars().collect();
    let a = Request::from_text(&chars).unwrap();
    let b = Request::from_raw(raw.as_bytes()).unwrap();
    assert_eq!(*a.method(), *b.method());
    assert_eq!(a.path(), b.path());
    assert_eq!(body_of(&a), body_of(&b));
}

#[test]
fn request_new_keeps_fields() {
    let mut headers = HeaderMap::new();
    headers.insert("K".to_string(), "V".to_string());
    let req = Request::new(Method::Options, "/o".to_string(), headers, Some("b".to_string()));
    assert_eq!(*req.method(), Method::Options);
    assert_eq!(req.path(), "/o");
    assert_eq!(req.headers().get("K").map(|s| s.as_str()), Some("V"));
    assert_eq!(body_of(&req), Some("b".to_string()));
}

#[test]
fn header_map_insert_replaces() {
    let mut h = HeaderMap::new();
    h.insert("A".to_string(), "1".to_string());
    h.insert("a".to_string(), "2".to_string());
    h.insert("A".to_string(), "3".to_string());
    assert_eq!(h.len(), 2);
    assert_eq!(h.get("A").map(|s| s.as_str()), Some("3"));
    assert_eq!(h.get("a").map(|s| s.as_str()), Some("2"));
    assert_eq!(h.get("b"), None);
}

#[test]
fn content_length_counts_characters() {
    let raw = "POST /u HTTP/1.1\r\nContent-Length: 5\r\n\r\nhéllo!";
    let req = Request::from_raw(raw.as_bytes()).unwrap();
    assert_eq!(body_of(&req), Some("héllo".to_string()));
}
