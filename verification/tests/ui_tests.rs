use raft::http::{
    http_content_length, percent_decode, query_param, query_would_panic, split_http_target, ui_allowed_hosts,
    validate_ui_request_security, HttpRequest,
};
use raft::request::{frame_complete, parse_request};
use raft::uiroute::{ui_route, ui_route_would_panic, UiPost, UiRoute};

fn request(method: &str, headers: &[(&str, &str)]) -> HttpRequest {
    HttpRequest {
        method: method.to_string(),
        target: "/".to_string(),
        headers: headers.iter().map(|(k, v)| (k.to_string(), v.to_string())).collect(),
        body: vec![],
    }
}

#[test]
fn ui_answers_only_its_own_host_and_origin() {
    assert_eq!(
        ui_allowed_hosts("0.0.0.0", 8787),
        vec!["127.0.0.1:8787".to_string(), "localhost:8787".to_string()]
    );
    assert_eq!(ui_allowed_hosts(" box.lan ", 80).len(), 3);
    let ok = request("GET", &[("host", "localhost:8787")]);
    assert!(validate_ui_request_security(&ok, "127.0.0.1", 8787).is_ok());
    let foreign = request("GET", &[("host", "evil.example:8787")]);
    assert_eq!(
        validate_ui_request_security(&foreign, "127.0.0.1", 8787).err().unwrap().message,
        "blocked request Host \"evil.example:8787\""
    );
    let missing = request("GET", &[]);
    assert_eq!(
        validate_ui_request_security(&missing, "127.0.0.1", 8787).err().unwrap().message,
        "missing Host header"
    );
    let write = request("POST", &[("host", "127.0.0.1:8787"), ("origin", "http://evil.example")]);
    assert_eq!(
        validate_ui_request_security(&write, "127.0.0.1", 8787).err().unwrap().message,
        "blocked cross-origin UI write"
    );
    let own = request("POST", &[("host", "127.0.0.1:8787"), ("referer", "http://LOCALHOST:8787/index.html")]);
    assert!(validate_ui_request_security(&own, "127.0.0.1", 8787).is_ok());
}

#[test]
fn query_values_are_percent_decoded() {
    let (path, query) = split_http_target("/api/snapshot?agent=a%40b&limit=5+x");
    assert_eq!(path, "/api/snapshot");
    let q = query.unwrap();
    assert_eq!(query_param(Some(&q), "agent"), Some("a@b".to_string()));
    assert_eq!(query_param(Some(&q), "limit"), Some("5 x".to_string()));
    assert_eq!(query_param(Some(&q), "none"), None);
    assert_eq!(query_param(None, "agent"), None);
    assert_eq!(percent_decode("%41%zz"), "A%zz");
    assert!(!query_would_panic(Some(&q), "agent"));
    assert_eq!(split_http_target("/health"), ("/health".to_string(), None));
}

#[test]
fn routes_follow_method_and_path() {
    let route = |m: &str, t: &str| ui_route(m, t, None, "ann", 50);
    assert!(matches!(route("", "/"), UiRoute::Ignore));
    assert!(matches!(route("GET", "/"), UiRoute::Page));
    assert!(matches!(route("GET", "/index.html"), UiRoute::Page));
    assert!(matches!(route("GET", "/health"), UiRoute::Health));
    assert!(matches!(route("GET", "/favicon.ico"), UiRoute::Favicon));
    assert!(matches!(route("GET", "/nope"), UiRoute::NotFound));
    assert!(matches!(route("POST", "/api/send"), UiRoute::Post(UiPost::Send)));
    assert!(matches!(route("POST", "/api/open"), UiRoute::Post(UiPost::Open)));
    assert!(matches!(route("POST", "/api/channel"), UiRoute::Post(UiPost::Channel)));
    assert!(matches!(route("POST", "/api/join"), UiRoute::Post(UiPost::Join)));
    assert!(matches!(route("POST", "/api/other"), UiRoute::NotFound));
    assert!(matches!(route("DELETE", "/"), UiRoute::MethodNotAllowed));
    match ui_route("GET", "/", Some("blocked cross-origin UI write".to_string()), "ann", 50) {
        UiRoute::Forbidden(m) => assert_eq!(m, "blocked cross-origin UI write"),
        _ => panic!("expected a refusal"),
    }
}

#[test]
fn snapshot_route_reads_agent_and_clamped_limit() {
    match ui_route("GET", "/api/snapshot", None, "ann", 50) {
        UiRoute::Snapshot(a, n) => {
            assert_eq!(a, "ann");
            assert_eq!(n, 50);
        }
        _ => panic!("expected a snapshot"),
    }
    match ui_route("GET", "/api/snapshot?agent=bob&limit=9000", None, "ann", 50) {
        UiRoute::Snapshot(a, n) => {
            assert_eq!(a, "bob");
            assert_eq!(n, 500);
        }
        _ => panic!("expected a snapshot"),
    }
    match ui_route("GET", "/api/snapshot?limit=0", None, "ann", 50) {
        UiRoute::Snapshot(_, n) => assert_eq!(n, 1),
        _ => panic!("expected a snapshot"),
    }
    match ui_route("GET", "/api/snapshot?limit=many", None, "ann", 50) {
        UiRoute::Snapshot(_, n) => assert_eq!(n, 50),
        _ => panic!("expected a snapshot"),
    }
    match ui_route("GET", "/api/snapshot?agent=no%20good", None, "ann", 50) {
        UiRoute::Failed(e) => assert!(e.message.starts_with("invalid agent id \"no good\"")),
        _ => panic!("expected a failure"),
    }
    assert!(!ui_route_would_panic("GET", "/api/snapshot?agent=bob", &None, "ann"));
}

#[test]
fn requests_are_framed_by_content_length() {
    let head = b"POST /api/send HTTP/1.1\r\nHost: localhost:8787\r\nContent-Length: 5\r\n\r\n";
    let mut bytes = head.to_vec();
    assert_eq!(frame_complete(&bytes).ok(), Some(false));
    bytes.extend_from_slice(b"he");
    assert_eq!(frame_complete(&bytes).ok(), Some(false));
    bytes.extend_from_slice(b"llo");
    assert_eq!(frame_complete(&bytes).ok(), Some(true));
    assert_eq!(frame_complete(b"GET / HTTP/1.1\r\nHost: x").ok(), Some(false));
    let bad = b"GET / HTTP/1.1\r\nContent-Length: lots\r\n\r\n";
    assert_eq!(frame_complete(bad).err().unwrap().message, "invalid Content-Length");
    let huge = vec![b'a'; 1_048_577];
    assert_eq!(frame_complete(&huge).err().unwrap().message, "request body is too large");
    assert_eq!(http_content_length("GET / HTTP/1.1\r\nHost: x").ok(), Some(0));
}

#[test]
fn requests_parse_into_method_target_headers_and_body() {
    let bytes = b"POST   /api/send?x=1 HTTP/1.1\r\nHost: localhost:8787\r\nContent-Length: 5\r\n\r\nhello world";
    let r = parse_request(bytes).ok().unwrap();
    assert_eq!(r.method, "POST");
    assert_eq!(r.target, "/api/send?x=1");
    assert_eq!(r.body, b"hello".to_vec());
    assert_eq!(r.headers[0], ("host".to_string(), "localhost:8787".to_string()));
    let short = parse_request(b"GET\r\n\r\n").ok().unwrap();
    assert_eq!(short.method, "GET");
    assert_eq!(short.target, "/");
    let empty = parse_request(b"").ok().unwrap();
    assert_eq!(empty.method, "");
    assert_eq!(parse_request(b"GET / HTTP/1.1").err().unwrap().message, "invalid HTTP request");
    assert_eq!(parse_request(b"\r\n\r\n").err().unwrap().message, "missing HTTP request line");
}
