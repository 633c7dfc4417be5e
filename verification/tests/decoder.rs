use http_core::decoder::{Action, Decoder, Event};
use http_core::request::{DecodeError, Request};

fn text(value: Option<&String>) -> Option<&str> {
    value.map(|s| s.as_str())
}

fn feed_lines(lines: &[&str]) -> (Decoder, Action) {
    let mut decoder = Decoder::new();
    let mut action = Action::ReadLine;
    for line in lines {
        assert!(matches!(action, Action::ReadLine));
        let (next, wish) = decoder.step(Event::Line(line.to_string()));
        decoder = next;
        action = wish;
    }
    (decoder, action)
}

fn delivered(action: Action) -> (Request, usize) {
    match action {
        Action::Deliver(request, left_out) => (request, left_out),
        other => panic!("no request was delivered: {:?}", other),
    }
}

#[test]
fn a_request_without_body_is_delivered_after_the_empty_body() {
    let (decoder, action) = feed_lines(&["GET /echo/hi HTTP/1.1\r\n", "Host: x\r\n", "\r\n"]);
    assert!(matches!(decoder, Decoder::Body(_)));
    assert!(matches!(action, Action::ReadBody(0)));
    let (decoder, action) = decoder.step(Event::Body(Vec::new()));
    assert!(matches!(decoder, Decoder::Finished));
    let (request, left_out) = delivered(action);
    assert_eq!(left_out, 0);
    assert_eq!(request.method, "GET");
    assert_eq!(request.route, "/echo/hi");
    assert_eq!(text(request.headers.get("Host")), Some("x"));
    assert!(request.body.is_empty());
    assert!(request.files.is_empty());
}

#[test]
fn each_line_of_the_head_asks_for_another() {
    let decoder = Decoder::new();
    let (decoder, action) = decoder.step(Event::Line("GET / HTTP/1.1\r\n".to_string()));
    assert!(matches!(action, Action::ReadLine));
    match &decoder {
        Decoder::Head(head) => assert_eq!(head, "GET / HTTP/1.1\r\n"),
        other => panic!("the head is not finished: {:?}", other),
    }
    let (decoder, action) = decoder.step(Event::Line("A: b\r\n".to_string()));
    assert!(matches!(action, Action::ReadLine));
    match &decoder {
        Decoder::Head(head) => assert_eq!(head, "GET / HTTP/1.1\r\nA: b\r\n"),
        other => panic!("the head is not finished: {:?}", other),
    }
}

#[test]
fn the_end_of_input_before_any_line_is_a_closed_connection() {
    let (decoder, action) = Decoder::new().step(Event::Line(String::new()));
    assert!(matches!(decoder, Decoder::Finished));
    assert!(matches!(action, Action::Fail(DecodeError::ConnectionClosed)));
}

#[test]
fn the_end_of_input_after_the_head_ends_the_head() {
    let (decoder, action) = feed_lines(&["GET /a HTTP/1.1\r\n", "A: b\r\n", ""]);
    assert!(matches!(action, Action::ReadBody(0)));
    let (_, action) = decoder.step(Event::Body(Vec::new()));
    let (request, _) = delivered(action);
    assert_eq!(request.route, "/a");
    assert_eq!(text(request.headers.get("A")), Some("b"));
}

#[test]
fn a_start_line_with_one_token_is_malformed() {
    let (decoder, action) = feed_lines(&["GET\r\n", "\r\n"]);
    assert!(matches!(decoder, Decoder::Finished));
    assert!(matches!(action, Action::Fail(DecodeError::MalformedStartLine)));
    let (_, action) = feed_lines(&["\r\n"]);
    assert!(matches!(action, Action::Fail(DecodeError::MalformedStartLine)));
    let (_, action) = feed_lines(&["GET", ""]);
    assert!(matches!(action, Action::Fail(DecodeError::MalformedStartLine)));
}

#[test]
fn a_body_shorter_than_announced_fails() {
    let (decoder, action) = feed_lines(&["POST /p HTTP/1.1\r\n", "Content-Length: 10\r\n", "\r\n"]);
    assert!(matches!(action, Action::ReadBody(10)));
    let (decoder, action) = decoder.step(Event::Body(b"short".to_vec()));
    assert!(matches!(decoder, Decoder::Finished));
    assert!(matches!(action, Action::Fail(DecodeError::ShortBody)));
}

#[test]
fn a_multipart_body_fills_fields_and_files() {
    let mut body: Vec<u8> = Vec::new();
    body.extend_from_slice(b"------X\r\nContent-Disposition: form-data; name=\"a\"\r\n\r\nhello\r\n");
    body.extend_from_slice(b"------X\r\nContent-Disposition: form-data; name=\"f\"; filename=\"t.txt\"\r\n\r\n");
    body.extend_from_slice(&[0, 1, 2]);
    body.extend_from_slice(b"------X--\r\n");
    let length = format!("Content-Length: {}\r\n", body.len());
    let (decoder, action) = feed_lines(&[
        "POST /post_test HTTP/1.1\r\n",
        "Content-Type: multipart/form-data; boundary=----X\r\n",
        &length,
        "\r\n",
    ]);
    match action {
        Action::ReadBody(n) => assert_eq!(n, body.len()),
        other => panic!("the body is not asked for: {:?}", other),
    }
    let (_, action) = decoder.step(Event::Body(body));
    let (request, left_out) = delivered(action);
    assert_eq!(left_out, 0);
    assert_eq!(text(request.body.get("a")), Some("hello"));
    assert_eq!(request.files.len(), 1);
    assert_eq!(text(request.files[0].0.get("filename")), Some("t.txt"));
    assert_eq!(request.files[0].1, vec![0, 1, 2]);
}

#[test]
fn a_body_without_boundary_is_read_and_dropped() {
    let (decoder, action) = feed_lines(&[
        "POST /p HTTP/1.1\r\n",
        "Content-Type: application/json\r\n",
        "Content-Length: 7\r\n",
        "\r\n",
    ]);
    assert!(matches!(action, Action::ReadBody(7)));
    let (_, action) = decoder.step(Event::Body(b"{\"a\":1}".to_vec()));
    let (request, left_out) = delivered(action);
    assert_eq!(left_out, 0);
    assert!(request.body.is_empty());
    assert!(request.files.is_empty());
}

#[test]
fn only_the_announced_bytes_of_the_body_count() {
    let body = b"--B\r\nContent-Disposition: form-data; name=\"a\"\r\n\r\n1--B--B\r\nContent-Disposition: form-data; name=\"b\"\r\n\r\n2--B".to_vec();
    let first = "--B\r\nContent-Disposition: form-data; name=\"a\"\r\n\r\n1--B".len();
    let length = format!("Content-Length: {}\r\n", first);
    let (decoder, _) = feed_lines(&[
        "POST /p HTTP/1.1\r\n",
        "Content-Type: multipart/form-data; boundary=B\r\n",
        &length,
        "\r\n",
    ]);
    let (_, action) = decoder.step(Event::Body(body));
    let (request, _) = delivered(action);
    assert_eq!(text(request.body.get("a")), Some("1"));
    assert!(!request.body.contains_key("b"));
}

#[test]
fn an_event_that_was_not_asked_for_changes_nothing() {
    let (decoder, action) = Decoder::new().step(Event::Body(vec![1, 2, 3]));
    assert!(matches!(action, Action::ReadLine));
    match &decoder {
        Decoder::Head(head) => assert_eq!(head, ""),
        other => panic!("the decoder left the head: {:?}", other),
    }
    let (decoder, _) = feed_lines(&["POST /p HTTP/1.1\r\n", "Content-Length: 3\r\n", "\r\n"]);
    let (decoder, action) = decoder.step(Event::Line("late\r\n".to_string()));
    assert!(matches!(action, Action::ReadBody(3)));
    assert!(matches!(decoder, Decoder::Body(_)));
}

#[test]
fn a_finished_decoder_stays_idle() {
    let (decoder, _) = Decoder::new().step(Event::Line(String::new()));
    let (decoder, action) = decoder.step(Event::Line("GET / HTTP/1.1\r\n".to_string()));
    assert!(matches!(action, Action::Idle));
    let (decoder, action) = decoder.step(Event::Body(Vec::new()));
    assert!(matches!(action, Action::Idle));
    assert!(matches!(decoder, Decoder::Finished));
}

#[test]
fn read_body_reads_multipart_only_where_a_boundary_is_announced() {
    let body = b"--B\r\nContent-Disposition: form-data; name=\"a\"\r\n\r\n1--B--";
    let mut plain = Request::parse_head("POST / HTTP/1.1\r\n").unwrap();
    assert_eq!(plain.read_body(body), 0);
    assert!(plain.body.is_empty());
    let mut multi =
        Request::parse_head("POST / HTTP/1.1\r\nContent-Type: multipart/form-data; boundary=B\r\n")
            .unwrap();
    assert_eq!(multi.read_body(body), 0);
    assert_eq!(text(multi.body.get("a")), Some("1"));
}
