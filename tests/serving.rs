use std::cell::RefCell;
use std::rc::Rc;

use fluxion_rust::http::headers::HeaderMap;
use fluxion_rust::http::method::Method;
use fluxion_rust::http::parse_error::ParseError;
use fluxion_rust::http::request::Request;
use fluxion_rust::http::response::Response;
use fluxion_rust::http::status_code::StatusCode;
use fluxion_rust::middleware::MiddlewareStack;
use fluxion_rust::routing::router::{not_found, Router};
use fluxion_rust::server::{Server, READ_BUFFER_SIZE};
use fluxion_rust::static_files::StaticFiles;

type Handler = fn(&Request) -> Response;
type Check = fn(&Request) -> Result<(), Response>;

fn text_response(status: StatusCode, body: &str) -> Response {
    Response::new(status, HeaderMap::new(), Some(body.to_string()))
}

fn hello(_req: &Request) -> Response {
    text_response(StatusCode::OK, "Hello")
}

fn first(_req: &Request) -> Response {
    text_response(StatusCode::OK, "first")
}

fn second(_req: &Request) -> Response {
    text_response(StatusCode::OK, "second")
}

fn echo_json(req: &Request) -> Response {
    let body = req.body().expect("body");
    match serde_json::from_str::<serde_json::Value>(body) {
        Ok(v) => Response::json_body(serde_json::to_string(&v).unwrap()),
        Err(e) => text_response(StatusCode::BadRequest, &format!("Invalid JSON: {}", e)),
    }
}

fn block_path(req: &Request) -> Result<(), Response> {
    if req.path() == "/blocked" {
        return Err(text_response(StatusCode::Forbidden, "This path is blocked by middleware."));
    }
    Ok(())
}

fn get(path: &str) -> Request {
    Request::new(Method::Get, path.to_string(), HeaderMap::new(), None)
}

fn body_text(r: &Response) -> Option<String> {
    r.body().cloned()
}

#[test]
fn status_codes_and_reasons() {
    assert_eq!(StatusCode::OK.as_u16(), 200);
    assert_eq!(StatusCode::BadRequest.as_u16(), 400);
    assert_eq!(StatusCode::Forbidden.as_u16(), 403);
    assert_eq!(StatusCode::NotFound.as_u16(), 404);
    assert_eq!(StatusCode::OK.as_str(), "OK");
    assert_eq!(StatusCode::BadRequest.as_str(), "Bad Request");
    assert_eq!(StatusCode::Forbidden.as_str(), "Forbidden");
    assert_eq!(StatusCode::NotFound.as_str(), "Not Found");
    assert_eq!(StatusCode::Forbidden.code_text(), "403");
}

#[test]
fn response_to_raw_exact() {
    let mut h = HeaderMap::new();
    h.insert("Content-Type".to_string(), "text/plain".to_string());
    let r = Response::new(StatusCode::OK, h, Some("hi".to_string()));
    assert_eq!(r.to_raw(), "HTTP/1.1 200 OK\nContent-Type: text/plain\n\r\nhi");
    let r = Response::new(StatusCode::NotFound, HeaderMap::new(), None);
    assert_eq!(r.to_raw(), "HTTP/1.1 404 Not Found\n\r\n");
}

#[test]
fn response_to_raw_has_no_content_length() {
    let r = Response::json_body("{}".to_string());
    let raw = r.to_raw();
    assert_eq!(raw, "HTTP/1.1 200 OK\nContent-Type: application/json\n\r\n{}");
    assert!(!raw.contains("Content-Length"));
}

#[test]
fn get_root_says_hello() {
    let mut router: Router<Handler> = Router::new();
    router.add_route(Method::Get, "/", hello);
    let req = Request::from_raw(b"GET / HTTP/1.1\r\n\r\n").unwrap();
    let resp = router.route(&req);
    let raw = resp.to_raw();
    assert!(raw.starts_with("HTTP/1.1 200"));
    assert!(raw.contains("200"));
    assert!(raw.ends_with("Hello"));
    assert_eq!(body_text(&resp), Some("Hello".to_string()));
}

#[test]
fn json_post_round_trips() {
    let mut router: Router<Handler> = Router::new();
    router.add_route(Method::Post, "/json", echo_json);
    let raw = b"POST /json HTTP/1.1\r\nContent-Length: 20\r\n\r\n{\"id\":1,\"name\":\"Al\"}";
    let req = Request::from_raw(raw).unwrap();
    let resp = router.route(&req);
    assert_eq!(resp.status_code(), StatusCode::OK);
    assert_eq!(
        resp.headers().get("Content-Type").map(|s| s.as_str()),
        Some("application/json")
    );
    let sent: serde_json::Value = serde_json::from_str("{\"id\":1,\"name\":\"Al\"}").unwrap();
    let got: serde_json::Value = serde_json::from_str(&body_text(&resp).unwrap()).unwrap();
    assert_eq!(got, sent);
}

#[test]
fn unregistered_path_is_not_found_for_every_method() {
    let mut router: Router<Handler> = Router::new();
    router.add_route(Method::Get, "/", hello);
    for m in [
        Method::Get,
        Method::Post,
        Method::Put,
        Method::Delete,
        Method::Patch,
        Method::Options,
        Method::Head,
    ]
    .iter()
    {
        let req = Request::new(*m, "/missing".to_string(), HeaderMap::new(), None);
        let resp = router.route(&req);
        assert_eq!(resp.status_code(), StatusCode::NotFound);
        assert_eq!(body_text(&resp), Some("Not Found".to_string()));
        assert_eq!(resp.headers().len(), 0);
    }
}

#[test]
fn routes_match_exactly() {
    let mut router: Router<Handler> = Router::new();
    router.add_route(Method::Get, "/a", hello);
    assert_eq!(router.route(&get("/a")).status_code(), StatusCode::OK);
    assert_eq!(router.route(&get("/a/")).status_code(), StatusCode::NotFound);
    assert_eq!(router.route(&get("/A")).status_code(), StatusCode::NotFound);
    let post = Request::new(Method::Post, "/a".to_string(), HeaderMap::new(), None);
    assert_eq!(router.route(&post).status_code(), StatusCode::NotFound);
}

#[test]
fn reregistering_keeps_second_handler() {
    let mut router: Router<Handler> = Router::new();
    router.add_route(Method::Get, "/x", first);
    router.add_route(Method::Get, "/x", second);
    assert_eq!(body_text(&router.route(&get("/x"))), Some("second".to_string()));
    assert!(router.handler(Method::Get, "/x").is_some());
    assert!(router.handler(Method::Post, "/x").is_none());
}

#[test]
fn not_found_response() {
    let r = not_found();
    assert_eq!(r.status_code(), StatusCode::NotFound);
    assert_eq!(r.to_raw(), "HTTP/1.1 404 Not Found\n\r\nNot Found");
}

#[test]
fn middleware_stops_at_first_rejection() {
    let log: Rc<RefCell<Vec<u32>>> = Rc::new(RefCell::new(Vec::new()));
    let mut stack: MiddlewareStack<Box<dyn Fn(&Request) -> Result<(), Response>>> =
        MiddlewareStack::new();
    let l1 = log.clone();
    stack.add(Box::new(move |_r: &Request| {
        l1.borrow_mut().push(1);
        Ok(())
    }));
    let l2 = log.clone();
    stack.add(Box::new(move |_r: &Request| {
        l2.borrow_mut().push(2);
        Err(text_response(StatusCode::Forbidden, "no"))
    }));
    let l3 = log.clone();
    stack.add(Box::new(move |_r: &Request| {
        l3.borrow_mut().push(3);
        Err(text_response(StatusCode::BadRequest, "late"))
    }));
    let out = stack.handle(&get("/"));
    let resp = out.unwrap_err();
    assert_eq!(resp.status_code(), StatusCode::Forbidden);
    assert_eq!(body_text(&resp), Some("no".to_string()));
    assert_eq!(*log.borrow(), vec![1, 2]);
}

#[test]
fn middleware_all_pass() {
    let log: Rc<RefCell<Vec<u32>>> = Rc::new(RefCell::new(Vec::new()));
    let mut stack: MiddlewareStack<Box<dyn Fn(&Request) -> Result<(), Response>>> =
        MiddlewareStack::new();
    for k in 0..3u32 {
        let l = log.clone();
        stack.add(Box::new(move |_r: &Request| {
            l.borrow_mut().push(k);
            Ok(())
        }));
    }
    assert!(stack.handle(&get("/")).is_ok());
    assert_eq!(*log.borrow(), vec![0, 1, 2]);
    let empty: MiddlewareStack<Check> = MiddlewareStack::new();
    assert!(empty.handle(&get("/")).is_ok());
}

fn demo_server() -> Server<Handler, Check> {
    let mut router: Router<Handler> = Router::new();
    router.add_route(Method::Get, "/", hello);
    router.add_route(Method::Get, "/blocked", hello);
    let mut stack: MiddlewareStack<Check> = MiddlewareStack::new();
    stack.add(block_path);
    Server::new("127.0.0.1:8080", router, stack)
}

#[test]
fn server_dispatch_and_respond() {
    let server = demo_server();
    assert_eq!(server.address(), "127.0.0.1:8080");
    let ok = server.respond(b"GET / HTTP/1.1\r\n\r\n").unwrap();
    assert_eq!(ok.to_raw(), "HTTP/1.1 200 OK\n\r\nHello");
    let blocked = server.respond(b"GET /blocked HTTP/1.1\r\n\r\n").unwrap();
    assert_eq!(blocked.status_code(), StatusCode::Forbidden);
    let missing = server.dispatch(&get("/nope"));
    assert_eq!(missing.status_code(), StatusCode::NotFound);
    assert_eq!(server.respond(b"").unwrap_err(), ParseError::EmptyRequest);
    assert_eq!(READ_BUFFER_SIZE, 1024);
}

#[test]
fn mime_types() {
    assert_eq!(StaticFiles::get_mime_type("html"), Some("text/html"));
    assert_eq!(StaticFiles::get_mime_type("css"), Some("text/css"));
    assert_eq!(StaticFiles::get_mime_type("js"), Some("application/javascript"));
    assert_eq!(StaticFiles::get_mime_type("json"), Some("application/json"));
    assert_eq!(StaticFiles::get_mime_type("png"), Some("image/png"));
    assert_eq!(StaticFiles::get_mime_type("jpg"), Some("image/jpeg"));
    assert_eq!(StaticFiles::get_mime_type("jpeg"), Some("image/jpeg"));
    assert_eq!(StaticFiles::get_mime_type("gif"), Some("image/gif"));
    assert_eq!(StaticFiles::get_mime_type("svg"), Some("image/svg+xml"));
    assert_eq!(StaticFiles::get_mime_type("ico"), Some("image/x-icon"));
    assert_eq!(StaticFiles::get_mime_type("txt"), None);
    assert_eq!(StaticFiles::get_mime_type("HTML"), None);
    assert_eq!(StaticFiles::get_mime_type(""), None);
}

#[test]
fn static_file_responses() {
    let files = StaticFiles::new("static");
    assert_eq!(files.root, "static");
    assert_eq!(StaticFiles::relative_path(&get("/css/site.css")), "css/site.css");
    assert_eq!(StaticFiles::relative_path(&get("")), "");
    let r = StaticFiles::file_response(Some("css"), Some("body{}".to_string()));
    assert_eq!(r.status_code(), StatusCode::OK);
    assert_eq!(r.headers().get("Content-Type").map(|s| s.as_str()), Some("text/css"));
    assert_eq!(body_text(&r), Some("body{}".to_string()));
    let r = StaticFiles::file_response(Some("txt"), Some("x".to_string()));
    assert_eq!(r.headers().len(), 0);
    let r = StaticFiles::file_response(None, None);
    assert_eq!(r.status_code(), StatusCode::NotFound);
    assert_eq!(body_text(&r), Some("File Not Found".to_string()));
}
