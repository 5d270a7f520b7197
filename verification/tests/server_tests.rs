use web_server::connection::respond;
use web_server::http::{HttpMethod, HttpRequest, ParseError};
use web_server::pool::{JobQueue, PoolConfig, PoolError};
use web_server::response::HttpResponse;
use web_server::router::{Router, StaticHandler};

fn html_handler(status_code: u16, status_text: &str, body: &str) -> StaticHandler {
    StaticHandler {
        status_code,
        status_text: status_text.to_string(),
        json: false,
        body: body.to_string(),
    }
}

fn json_handler(status_code: u16, status_text: &str, body: &str) -> StaticHandler {
    StaticHandler {
        status_code,
        status_text: status_text.to_string(),
        json: true,
        body: body.to_string(),
    }
}

fn demo_router() -> Router<StaticHandler> {
    Router::new()
        .get("/", html_handler(200, "OK", "<h1>Welcome to Rust Web Server!</h1>"))
        .get(
            "/api/health",
            json_handler(200, "OK", "{\"status\": \"healthy\"}"),
        )
        .post(
            "/api/users",
            json_handler(
                201,
                "CREATED",
                "{\"message\": \"User created successfully\", \"id\": 3}",
            ),
        )
}

#[test]
fn method_from_str_recognizes_the_four_methods() {
    assert_eq!(HttpMethod::from_str("GET"), Some(HttpMethod::GET));
    assert_eq!(HttpMethod::from_str("POST"), Some(HttpMethod::POST));
    assert_eq!(HttpMethod::from_str("PUT"), Some(HttpMethod::PUT));
    assert_eq!(HttpMethod::from_str("DELETE"), Some(HttpMethod::DELETE));
    assert_eq!(HttpMethod::from_str("PATCH"), None);
    assert_eq!(HttpMethod::from_str("get"), None);
}

#[test]
fn parse_well_formed_request() {
    let req = HttpRequest::parse("GET /index HTTP/1.1\r\nHost: example.com\r\n\r\nhello")
        .expect("well-formed request must parse");
    assert_eq!(req.method, HttpMethod::GET);
    assert_eq!(req.path, "/index");
    assert_eq!(req.header("host"), Some(&"example.com".to_string()));
    assert_eq!(req.body, "hello");
}

#[test]
fn parse_body_may_contain_crlf() {
    let req = HttpRequest::parse("POST /x HTTP/1.1\r\n\r\nline one\r\nline two")
        .expect("well-formed request must parse");
    assert_eq!(req.body, "line one\r\nline two");
}

#[test]
fn parse_without_blank_line_has_empty_body() {
    let req = HttpRequest::parse("GET / HTTP/1.1\r\nHost: x")
        .expect("request without blank line still parses");
    assert_eq!(req.body, "");
}

#[test]
fn header_keys_fold_to_lower_case_and_later_wins() {
    let req = HttpRequest::parse(
        "GET / HTTP/1.1\r\nContent-Type: x\r\ncontent-type: y\r\n\r\n",
    )
    .expect("must parse");
    assert_eq!(req.header("content-type"), Some(&"y".to_string()));
    assert_eq!(req.header("Content-Type"), None);
}

#[test]
fn header_values_are_trimmed() {
    let req = HttpRequest::parse("GET / HTTP/1.1\r\n  Host  :   spaced out   \r\n\r\n")
        .expect("must parse");
    assert_eq!(req.header("host"), Some(&"spaced out".to_string()));
}

#[test]
fn parse_rejects_wrong_token_count() {
    assert!(matches!(
        HttpRequest::parse("GET /"),
        Err(ParseError::MalformedRequestLine)
    ));
    assert!(matches!(
        HttpRequest::parse("GET / HTTP/1.1 extra\r\n\r\n"),
        Err(ParseError::MalformedRequestLine)
    ));
    assert!(matches!(
        HttpRequest::parse(""),
        Err(ParseError::MalformedRequestLine)
    ));
}

#[test]
fn parse_rejects_unknown_method() {
    assert!(matches!(
        HttpRequest::parse("FETCH / HTTP/1.1\r\n\r\n"),
        Err(ParseError::UnknownMethod)
    ));
}

#[test]
fn with_body_sets_content_length_to_byte_length() {
    let resp = HttpResponse::ok().with_body("hello".to_string());
    let got = resp
        .headers
        .iter()
        .find(|(k, _)| k.as_str() == "Content-Length")
        .map(|(_, v)| v.clone());
    assert_eq!(got, Some("5".to_string()));
}

#[test]
fn with_body_counts_bytes_not_characters() {
    let resp = HttpResponse::ok().with_body("héllo".to_string());
    let got = resp
        .headers
        .iter()
        .find(|(k, _)| k.as_str() == "Content-Length")
        .map(|(_, v)| v.clone());
    assert_eq!(got, Some("6".to_string()));
}

#[test]
fn with_header_overwrites_existing_key() {
    let resp = HttpResponse::ok().with_header("Content-Type", "text/plain");
    let types: Vec<&(String, String)> = resp
        .headers
        .iter()
        .filter(|(k, _)| k.as_str() == "Content-Type")
        .collect();
    assert_eq!(types.len(), 1);
    assert_eq!(types[0].1, "text/plain");
}

#[test]
fn serialization_has_exact_wire_form() {
    let resp = HttpResponse::ok().with_body("hi".to_string());
    assert_eq!(
        resp.to_string(),
        "HTTP/1.1 200 OK\r\nContent-Type: text/html\r\nContent-Length: 2\r\n\r\nhi"
    );
}

#[test]
fn json_constructor_overrides_content_type() {
    let resp = HttpResponse::json(201, "CREATED");
    assert_eq!(
        resp.to_string(),
        "HTTP/1.1 201 CREATED\r\nContent-Type: application/json\r\n\r\n"
    );
}

#[test]
fn dispatch_miss_returns_fixed_not_found() {
    let router = demo_router();
    let req = HttpRequest::parse("GET /nope HTTP/1.1\r\n\r\n").expect("must parse");
    let resp = router.handle(&req);
    assert_eq!(resp.status_code, 404);
    assert_eq!(resp.status_text, "NOT FOUND");
    assert_eq!(resp.body, "<h1>404 - Page Not Found</h1>");
}

#[test]
fn dispatch_matches_method_as_well_as_path() {
    let router = demo_router();
    let req = HttpRequest::parse("DELETE / HTTP/1.1\r\n\r\n").expect("must parse");
    let resp = router.handle(&req);
    assert_eq!(resp.status_code, 404);
}

#[test]
fn later_registration_for_same_key_wins() {
    let router = Router::new()
        .get("/", html_handler(200, "OK", "first"))
        .get("/", html_handler(200, "OK", "second"));
    let req = HttpRequest::parse("GET / HTTP/1.1\r\n\r\n").expect("must parse");
    let resp = router.handle(&req);
    assert_eq!(resp.body, "second");
}

#[test]
fn get_root_serves_registered_handler() {
    let router = demo_router();
    let out = respond(&router, "GET / HTTP/1.1\r\nHost: x\r\n\r\n");
    assert!(out.starts_with("HTTP/1.1 200 OK\r\n"));
    assert!(out.contains("Content-Type: text/html\r\n"));
    assert!(out.ends_with("\r\n\r\n<h1>Welcome to Rust Web Server!</h1>"));
}

#[test]
fn post_api_users_creates() {
    let router = demo_router();
    let out = respond(
        &router,
        "POST /api/users HTTP/1.1\r\nContent-Length: 2\r\n\r\n{}",
    );
    assert!(out.starts_with("HTTP/1.1 201 CREATED\r\n"));
    assert!(out.contains("Content-Type: application/json\r\n"));
    assert!(out.contains("User created successfully"));
}

#[test]
fn unregistered_path_serves_not_found_page() {
    let router = demo_router();
    let out = respond(&router, "GET /nope HTTP/1.1\r\n\r\n");
    assert!(out.starts_with("HTTP/1.1 404 NOT FOUND\r\n"));
    assert!(out.ends_with("\r\n\r\n<h1>404 - Page Not Found</h1>"));
}

#[test]
fn garbage_input_serves_bad_request_page() {
    let router = demo_router();
    let out = respond(&router, "GARBAGE\r\n\r\n");
    assert!(out.starts_with("HTTP/1.1 400 BAD REQUEST\r\n"));
    assert!(out.ends_with("\r\n\r\n<h1>400 - Bad Request</h1>"));
}

#[test]
fn pool_config_rejects_zero_workers() {
    assert!(matches!(PoolConfig::new(0), Err(PoolError::InvalidPoolSize)));
    let cfg = PoolConfig::new(4).expect("a positive size is accepted");
    assert_eq!(cfg.size, 4);
}

#[test]
fn job_queue_is_fifo_and_hands_each_job_out_once() {
    let mut queue: JobQueue<u32> = JobQueue::new();
    assert_eq!(queue.take(), None);
    queue.submit(10);
    queue.submit(20);
    queue.submit(30);
    assert_eq!(queue.len(), 3);
    let mut seen: Vec<u32> = Vec::new();
    while let Some(job) = queue.take() {
        seen.push(job);
    }
    assert_eq!(seen, vec![10, 20, 30]);
    assert_eq!(queue.len(), 0);
    assert_eq!(queue.take(), None);
}

#[test]
fn with_body_empty_body_has_length_zero() {
    let resp = HttpResponse::ok().with_body(String::new());
    assert_eq!(
        resp.to_string(),
        "HTTP/1.1 200 OK\r\nContent-Type: text/html\r\nContent-Length: 0\r\n\r\n"
    );
}

#[test]
fn health_endpoint_serves_json() {
    let router = demo_router();
    let out = respond(&router, "GET /api/health HTTP/1.1\r\n\r\n");
    assert!(out.starts_with("HTTP/1.1 200 OK\r\n"));
    assert!(out.contains("Content-Type: application/json\r\n"));
    assert!(out.contains("\"status\": \"healthy\""));
}
