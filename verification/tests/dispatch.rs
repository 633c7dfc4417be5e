use http_core::dispatch::failure_response;
use http_core::handlers::{done, echo};
use http_core::method::{parse_method, Method};
use http_core::request::{DecodeError, Request};
use http_core::router::Router;

type Handler = fn(&Request) -> String;

fn count_files(request: &Request) -> String {
    format!("200 Ok\r\n\r\n{} {}", request.files.len(), request.body.get("a").map(|s| s.as_str()).unwrap_or("-"))
}

fn root(_request: &Request) -> String {
    done()
}

fn routes() -> Router<Handler> {
    let mut router: Router<Handler> = Router::new();
    router.get("/", root);
    router.get("/echo/:message", echo);
    router.get("/test/:message", echo);
    router.post("/post_test", count_files);
    router
}

fn request(head: &str) -> Request {
    Request::parse_head(head).expect("the head is well formed")
}

#[test]
fn echo_answers_with_the_captured_segment() {
    let router = routes();
    let mut request = request("GET /echo/hi HTTP/1.1\r\nHost: x\r\n");
    let response = router.handle_request(&mut request);
    assert_eq!(request.params.get("message").map(|s| s.as_str()), Some("hi"));
    assert_eq!(
        response,
        "HTTP/1.1 200 Ok\r\nContent-Type:text/plain\r\nContent-Length: 2\r\n\r\nhi"
    );
    assert!(response.contains("Content-Length: 2"));
    assert!(response.ends_with("\r\n\r\nhi"));
}

#[test]
fn an_unregistered_path_is_not_found() {
    let router = routes();
    let mut request = request("GET /nothing/here HTTP/1.1\r\n");
    let response = router.handle_request(&mut request);
    assert_eq!(response, "HTTP/1.1 404 Not Found\r\n\r\n");
    let body = response.split("\r\n\r\n").nth(1);
    assert_eq!(body, Some(""));
}

#[test]
fn an_unknown_method_is_not_allowed() {
    let router = routes();
    let mut request = request("TRACE /echo/hi HTTP/1.1\r\n");
    let response = router.handle_request(&mut request);
    assert_eq!(
        response,
        "HTTP/1.1 405 Method Not Allowed\r\nAllow: GET, POST, PUT, DELETE, PATCH\r\n\r\n"
    );
    assert!(request.params.is_empty());
}

#[test]
fn a_known_method_without_routes_is_not_found() {
    let router = routes();
    let mut request = request("DELETE /echo/hi HTTP/1.1\r\n");
    assert_eq!(router.handle_request(&mut request), "HTTP/1.1 404 Not Found\r\n\r\n");
}

#[test]
fn the_method_token_is_read_without_regard_to_case() {
    let router = routes();
    let mut request = request("get / HTTP/1.1\r\n");
    assert_eq!(
        router.handle_request(&mut request),
        "HTTP/1.1 200 Ok\r\nContent-Type:text/plain\r\n\r\nDone"
    );
}

#[test]
fn exec_handler_gives_what_the_handler_returns() {
    let router = routes();
    let mut request = request("GET /test/abc HTTP/1.1\r\n");
    let text = router.exec_handler(Method::GET, &mut request);
    assert_eq!(text, "200 Ok\r\nContent-Type:text/plain\r\nContent-Length: 3\r\n\r\nabc");
    let mut request = request_for_post();
    let text = router.exec_handler(Method::POST, &mut request);
    assert_eq!(text, "200 Ok\r\n\r\n0 -");
    let mut missing = Request::parse_head("GET /test HTTP/1.1\r\n").unwrap();
    assert_eq!(router.exec_handler(Method::GET, &mut missing), "404 Not Found\r\n\r\n");
}

fn request_for_post() -> Request {
    Request::parse_head("POST /post_test HTTP/1.1\r\n").unwrap()
}

#[test]
fn respond_answers_a_parsed_method() {
    let router = routes();
    let mut request = request("GET /echo/x HTTP/1.1\r\n");
    let response = router.respond(Ok(Method::GET), &mut request);
    assert_eq!(
        response,
        "HTTP/1.1 200 Ok\r\nContent-Type:text/plain\r\nContent-Length: 1\r\n\r\nx"
    );
    let mut request = request_for_post();
    let response = router.respond(parse_method("OPTIONS"), &mut request);
    assert_eq!(
        response,
        "HTTP/1.1 405 Method Not Allowed\r\nAllow: GET, POST, PUT, DELETE, PATCH\r\n\r\n"
    );
}

#[test]
fn the_handler_sees_the_decoded_body() {
    let router = routes();
    let mut request = Request::parse_head(
        "POST /post_test HTTP/1.1\r\nContent-Type: multipart/form-data; boundary=B\r\n",
    )
    .unwrap();
    let body = b"--B\r\nContent-Disposition: form-data; name=\"a\"\r\n\r\nv\r\n--B\r\nContent-Disposition: form-data; name=\"f\"; filename=\"n\"\r\n\r\nxyz--B--";
    assert_eq!(request.read_body(body), 0);
    assert_eq!(router.handle_request(&mut request), "HTTP/1.1 200 Ok\r\n\r\n1 v");
}

#[test]
fn a_closed_connection_gets_no_response() {
    assert_eq!(failure_response(DecodeError::ConnectionClosed), None);
}

#[test]
fn a_malformed_request_gets_a_bad_request() {
    assert_eq!(
        failure_response(DecodeError::MalformedStartLine),
        Some("HTTP/1.1 400 Bad Request\r\n\r\n".to_string())
    );
    assert_eq!(
        failure_response(DecodeError::ShortBody),
        Some("HTTP/1.1 400 Bad Request\r\n\r\n".to_string())
    );
}
