use maven_uploader::http::{Body, RequestError, Response, MAX_REQUESTS_PER_CONNECTION};
use maven_uploader::platform::Platform;
use maven_uploader::repository::RepoError;
use maven_uploader::server::{
    is_would_block, start_server, Answer, Connection, Lookup, ServerArgs, ServerHandle, Turn,
};

fn args() -> ServerArgs {
    ServerArgs {
        root: "/repo".to_string(),
        host: "127.0.0.1".to_string(),
        port: 8080,
        upstreams: vec!["https://a//".to_string(), "///".to_string(), "https://b/c".to_string()],
    }
}

#[test]
fn starts_with_upstreams_that_can_be_asked() {
    let startup = start_server(&args(), "/repo", true).unwrap();
    assert_eq!(startup.bind_address, "127.0.0.1:8080");
    assert_eq!(startup.upstreams, vec!["https://a", "https://b/c"]);
}

#[test]
fn serves_directories_only() {
    assert_eq!(
        start_server(&args(), "/repo/a.jar", false).unwrap_err(),
        "Maven 仓库路径不是目录: /repo/a.jar"
    );
}

#[test]
fn says_where_it_listens() {
    let handle = ServerHandle { address: "127.0.0.1:41".to_string() };
    assert_eq!(handle.base_url(), "http://127.0.0.1:41/");
}

#[test]
fn knows_when_no_connection_is_waiting() {
    assert!(is_would_block(true, None, Platform::Unix));
    assert!(is_would_block(false, Some(10035), Platform::Windows));
    assert!(!is_would_block(false, Some(10035), Platform::Unix));
    assert!(!is_would_block(false, Some(5), Platform::Windows));
    assert!(!is_would_block(false, None, Platform::Windows));
}

fn ask(connection: Connection, request: &str) -> Turn {
    connection.receive(Ok(Some(request.to_string())))
}

fn look(request: &str) -> Lookup {
    match ask(Connection::new(), request) {
        Turn::Look(lookup) => lookup,
        _ => panic!("not looked up"),
    }
}

fn sent(request: &str) -> (String, bool, bool) {
    match look(request).answer(found()) {
        Answer::Send { reply, next, .. } => (reply.head, reply.body.is_some(), next.is_some()),
        Answer::Abort(_) => panic!("aborted"),
    }
}

#[test]
fn looks_up_what_get_and_head_ask_for() {
    assert_eq!(look("GET /g/a.jar HTTP/1.1\r\n\r\n").target(), "/g/a.jar");
    let (get, body, open) = sent("GET /g/a.jar HTTP/1.1\r\n\r\n");
    assert!(body && open);
    let (head, body, open) = sent("HEAD /g/a.jar HTTP/1.1\r\n\r\n");
    assert!(!body && open);
    assert_eq!(head, get);
    assert!(!sent("HEAD /a HTTP/1.0\r\n\r\n").2);
}

#[test]
fn refuses_to_change_the_repository() {
    for method in ["PUT", "DELETE", "POST", "get"] {
        match ask(Connection::new(), &format!("{} /a HTTP/1.1\r\n\r\n", method)) {
            Turn::Refuse(reply) => {
                assert_eq!(
                    reply.head,
                    "HTTP/1.1 405 Method Not Allowed\r\nAllow: GET, HEAD\r\nContent-Length: 30\r\nContent-Type: text/plain; charset=utf-8\r\nConnection: close\r\n\r\n仅支持 GET 和 HEAD 请求\n"
                );
                assert!(reply.body.is_none());
            }
            _ => panic!("not refused"),
        }
    }
}

#[test]
fn refuses_what_it_does_not_understand() {
    match ask(Connection::new(), "nonsense\r\n\r\n") {
        Turn::Refuse(reply) => {
            assert!(reply.head.starts_with("HTTP/1.1 400 Bad Request\r\n"));
            assert!(reply.head.ends_with("\r\n\r\n非法 HTTP 请求\n"));
        }
        _ => panic!("not refused"),
    }
}

#[test]
fn ends_with_the_stream() {
    assert!(matches!(Connection::new().receive(Ok(None)), Turn::Close));
    assert!(matches!(
        Connection::new().receive(Err(RequestError::Closed)),
        Turn::Abort(RequestError::Closed)
    ));
}

fn found() -> Result<Response, RepoError> {
    Ok(Response::ok("application/json", Body::File(7)))
}

#[test]
fn a_connection_carries_a_hundred_requests() {
    let mut connection = Connection::new();
    let mut carried = 0;
    loop {
        let lookup = match ask(connection, "GET /a HTTP/1.1\r\n\r\n") {
            Turn::Look(lookup) => lookup,
            _ => panic!("not looked up"),
        };
        carried += 1;
        match lookup.answer(found()) {
            Answer::Send { reply, next: Some(next), .. } => {
                assert!(reply.head.contains("\r\nConnection: keep-alive\r\n"));
                connection = next;
            }
            Answer::Send { reply, next: None, .. } => {
                assert!(reply.head.contains("\r\nConnection: close\r\n"));
                break;
            }
            Answer::Abort(_) => panic!("aborted"),
        }
    }
    assert_eq!(carried, MAX_REQUESTS_PER_CONNECTION);
    assert_eq!(carried, 100);
}

fn answer(request: &str, outcome: Result<Response, RepoError>) -> (String, Option<String>, bool) {
    match look(request).answer(outcome) {
        Answer::Send { reply, log, next } => (reply.head, log, next.is_some()),
        Answer::Abort(_) => panic!("aborted"),
    }
}

#[test]
fn a_missing_file_leaves_the_connection_open() {
    let (head, log, open) = answer("GET /a HTTP/1.1\r\n\r\n", Err(RepoError::NotFound));
    assert!(head.starts_with("HTTP/1.1 404 Not Found\r\n"));
    assert!(head.ends_with("\r\nConnection: keep-alive\r\n\r\n文件不存在\n"));
    assert!(log.is_none());
    assert!(open);
    assert!(!answer("GET /a HTTP/1.0\r\n\r\n", Err(RepoError::NotFound)).2);
}

#[test]
fn a_bad_path_closes_the_connection() {
    let (head, log, open) = answer("GET /a HTTP/1.1\r\n\r\n", Err(RepoError::BadPath));
    assert!(head.starts_with("HTTP/1.1 400 Bad Request\r\n"));
    assert!(head.ends_with("\r\nConnection: close\r\n\r\n非法仓库路径\n"));
    assert!(log.is_none());
    assert!(!open);
}

#[test]
fn an_upstream_in_trouble_is_reported() {
    let (head, log, open) = answer(
        "GET /a HTTP/1.1\r\n\r\n",
        Err(RepoError::UpstreamUnavailable("upstream unavailable: x".to_string())),
    );
    assert!(head.starts_with("HTTP/1.1 502 Bad Gateway\r\n"));
    assert!(head.ends_with("\r\nConnection: close\r\n\r\nMaven 上游暂时不可用\n"));
    assert_eq!(log.as_deref(), Some("upstream unavailable: x"));
    assert!(!open);
}

#[test]
fn a_failure_sends_nothing() {
    match look("GET /a HTTP/1.1\r\n\r\n").answer(Err(RepoError::Failed("disk".to_string()))) {
        Answer::Abort(reason) => assert_eq!(reason, "disk"),
        _ => panic!("sent"),
    }
}
