use maven_uploader::http::{
    parse_request, read_request, write_error, write_response, Body, ReadStep, RequestError,
    RequestReader, Response, MAX_REQUEST_SIZE,
};

#[test]
fn http11_is_keep_alive_by_default() {
    let request = "GET /a.jar HTTP/1.1\r\nHost: localhost\r\n\r\n";
    assert_eq!(parse_request(request).unwrap().2, true);
}

#[test]
fn connection_close_disables_keep_alive() {
    let request = "GET /a.jar HTTP/1.1\r\nHost: localhost\r\nConnection: close\r\n\r\n";
    assert!(!parse_request(request).unwrap().2);
}

#[test]
fn http10_needs_explicit_keep_alive() {
    let request = "GET /a.jar HTTP/1.0\r\nHost: localhost\r\n\r\n";
    assert!(!parse_request(request).unwrap().2);
    let request = "GET /a.jar HTTP/1.0\r\nHost: localhost\r\nConnection: keep-alive\r\n\r\n";
    assert!(parse_request(request).unwrap().2);
}

#[test]
fn parses_method_and_target() {
    let (method, target, _) = parse_request("HEAD  /g/a?x=1\tHTTP/1.1\r\n\r\n").unwrap();
    assert_eq!(method, "HEAD");
    assert_eq!(target, "/g/a?x=1");
}

#[test]
fn close_is_stronger_than_keep_alive() {
    let request = "GET / HTTP/1.0\r\ncONNECTION: Keep-Alive,\u{a0}CLOSE \r\n\r\n";
    assert!(!parse_request(request).unwrap().2);
    let request = "GET / HTTP/1.1\r\nX: close\r\nConnection: upgrade\r\n\r\nConnection: close";
    assert!(parse_request(request).unwrap().2);
}

#[test]
fn refuses_what_is_no_request() {
    assert!(parse_request("").is_err());
    assert!(parse_request("GET /\r\n\r\n").is_err());
    assert!(parse_request("GET / HTTP/2\r\n\r\n").is_err());
    assert!(parse_request("GET / HTTP/1.1 x\r\n\r\n").is_err());
    assert!(parse_request("GET / HTTP/1.1\r\nno colon\r\n\r\n").is_err());
}

#[test]
fn reads_one_request_of_several() {
    let stream = "GET /a HTTP/1.1\r\n\r\nGET /b HTTP/1.1\r\n\r\n".as_bytes();
    let (request, taken) = read_request(stream);
    assert_eq!(request.unwrap().as_deref(), Some("GET /a HTTP/1.1\r\n\r\n"));
    assert_eq!(taken, 19);
    let (request, taken) = read_request(&stream[taken..]);
    assert_eq!(request.unwrap().as_deref(), Some("GET /b HTTP/1.1\r\n\r\n"));
    assert_eq!(taken, 19);
    let (request, taken) = read_request(&stream[38..]);
    assert!(request.unwrap().is_none());
    assert_eq!(taken, 0);
}

#[test]
fn reports_why_no_request_was_read() {
    let (request, taken) = read_request("GET / HT".as_bytes());
    assert_eq!(request.unwrap_err(), RequestError::Closed);
    assert_eq!(taken, 8);
    let (request, _) = read_request(&[0xff, 13, 10, 13, 10]);
    assert_eq!(request.unwrap_err(), RequestError::NotText);
    let large = vec![b'a'; MAX_REQUEST_SIZE + 10];
    let (request, taken) = read_request(&large);
    assert_eq!(request.unwrap_err(), RequestError::TooLarge);
    assert_eq!(taken, MAX_REQUEST_SIZE + 1);
    assert_eq!(RequestError::Closed.message(), "客户端提前关闭连接");
    assert_eq!(RequestError::TooLarge.message(), "HTTP 请求头过大");
    assert_eq!(RequestError::NotText.message(), "HTTP 请求不是有效 UTF-8");
}

#[test]
fn a_head_may_end_one_byte_past_the_limit() {
    let mut head = vec![b'a'; MAX_REQUEST_SIZE - 3];
    head.extend_from_slice(b"\r\n\r\n");
    let (request, taken) = read_request(&head);
    assert_eq!(request.unwrap().unwrap().len(), MAX_REQUEST_SIZE + 1);
    assert_eq!(taken, MAX_REQUEST_SIZE + 1);
}

#[test]
fn collects_a_request_byte_by_byte() {
    let mut reader = RequestReader::new();
    for byte in "é\r\n\r".as_bytes() {
        assert!(matches!(reader.step(Some(*byte)), ReadStep::More));
    }
    match reader.step(Some(b'\n')) {
        ReadStep::Done(Ok(Some(text))) => assert_eq!(text, "é\r\n\r\n"),
        _ => panic!("not done"),
    }
}

fn response() -> Response {
    Response::ok("application/xml", Body::Bytes(b"<a/>".to_vec()))
}

#[test]
fn head_is_answered_like_get_without_a_body() {
    let get = write_response(response(), false, true);
    let head = write_response(response(), true, true);
    assert_eq!(
        get.head,
        "HTTP/1.1 200 OK\r\nContent-Length: 4\r\nContent-Type: application/xml\r\nCache-Control: no-cache\r\nConnection: keep-alive\r\nKeep-Alive: timeout=10, max=100\r\n\r\n"
    );
    assert_eq!(head.head, get.head);
    assert!(head.body.is_none());
    match get.body {
        Some(Body::Bytes(bytes)) => assert_eq!(bytes, b"<a/>"),
        _ => panic!("no body"),
    }
}

#[test]
fn knows_the_length_of_a_body() {
    assert_eq!(Body::File(u64::MAX).len(), u64::MAX);
    assert_eq!(Body::Bytes(vec![1, 2, 3]).len(), 3);
}

#[test]
fn an_error_counts_the_bytes_of_its_message() {
    assert_eq!(
        write_error("404 Not Found", "文件不存在\n", false, None).head,
        "HTTP/1.1 404 Not Found\r\nContent-Length: 16\r\nContent-Type: text/plain; charset=utf-8\r\nConnection: close\r\n\r\n文件不存在\n"
    );
    assert_eq!(
        write_error("405 Method Not Allowed", "x", true, Some("GET, HEAD")).head,
        "HTTP/1.1 405 Method Not Allowed\r\nAllow: GET, HEAD\r\nContent-Length: 1\r\nContent-Type: text/plain; charset=utf-8\r\nConnection: keep-alive\r\n\r\nx"
    );
}

#[test]
fn the_only_blank_line_of_a_head_is_its_end() {
    for keep_alive in [true, false] {
        let head = write_response(response(), true, keep_alive).head;
        assert_eq!(head.find("\r\n\r\n"), Some(head.len() - 4));
    }
}
