use rawhttp::{Endpoint, HostAddress, HttpError, Method, Proxy, Request, Response, TunnelHandshake, TunnelStep};

fn local(port: u16) -> Vec<Endpoint> {
    vec![Endpoint { address: HostAddress::V4([127, 0, 0, 1]), port }]
}

fn build(method: Method, host: &str, port: u16, path: &str) -> Request {
    Request::new(method, host, port, path, &local(port)).unwrap()
}

fn response(text: &str) -> Response {
    Response(text.as_bytes().to_vec())
}

#[test]
fn fresh_request_has_request_line_host_and_connection() {
    let cases = [
        (Method::GET, "GET"),
        (Method::PUT, "PUT"),
        (Method::POST, "POST"),
        (Method::HEAD, "HEAD"),
        (Method::PATCH, "PATCH"),
        (Method::DELETE, "DELETE"),
        (Method::OPTIONS, "OPTIONS"),
    ];
    for (method, token) in cases {
        let r = build(method, "example.com", 80, "/a/b?c=d");
        let text = r.raw_string();
        assert_eq!(
            text,
            format!("{} /a/b?c=d HTTP/1.1\r\nHost: example.com\r\nConnection: close\r\n", token)
        );
        assert_eq!(text.matches("Host:").count(), 1);
        assert_eq!(text.matches("Connection: close").count(), 1);
    }
}

#[test]
fn host_and_connection_come_before_added_headers() {
    let mut r = build(Method::GET, "h", 8080, "/");
    r.set_header("Accept", "*/*");
    let text = r.raw_string();
    let host = text.find("Host: h\r\n").unwrap();
    let conn = text.find("Connection: close\r\n").unwrap();
    let accept = text.find("Accept: */*\r\n").unwrap();
    assert!(text.starts_with("GET / HTTP/1.1\r\n"));
    assert!(host < conn && conn < accept);
}

#[test]
fn set_header_appears_verbatim() {
    let mut r = build(Method::POST, "example.com", 80, "/");
    r.set_header("X", "Y");
    assert!(r.raw_string().contains("X: Y\r\n"));
    assert!(r.raw_string().ends_with("Connection: close\r\nX: Y\r\n"));
}

#[test]
fn repeated_headers_both_appear() {
    let mut r = build(Method::GET, "example.com", 80, "/");
    r.set_header("A", "1");
    r.set_header("A", "2");
    assert!(r.raw_string().ends_with("A: 1\r\nA: 2\r\n"));
}

#[test]
fn set_body_adds_blank_line_then_body() {
    let mut r = build(Method::POST, "example.com", 80, "/submit");
    r.set_header("Content-Length", "5");
    r.set_body("hello");
    assert!(r.raw_string().ends_with("Content-Length: 5\r\n\r\nhello"));
    assert_eq!(r.raw_bytes(), r.raw_string().as_bytes());
}

#[test]
fn new_without_endpoint_is_resolution_error() {
    let r = Request::new(Method::GET, "nowhere.invalid", 80, "/", &[]);
    assert!(matches!(r, Err(HttpError::AddressResolution)));
}

#[test]
fn new_keeps_first_endpoint_and_target() {
    let eps = vec![
        Endpoint { address: HostAddress::V4([10, 0, 0, 1]), port: 443 },
        Endpoint { address: HostAddress::V6([0, 0, 0, 0, 0, 0, 0, 1]), port: 443 },
    ];
    let r = Request::new(Method::GET, "example.com", 443, "/", &eps).unwrap();
    assert_eq!(r.endpoint(), eps[0]);
    assert_eq!(r.host(), "example.com");
    assert_eq!(r.port(), 443);
}

#[test]
fn clone_is_independent_of_source() {
    let source = build(Method::GET, "example.com", 80, "/");
    let before = source.raw_string();
    let mut copy = source.clone();
    copy.set_header("X", "Y");
    assert_eq!(source.raw_string(), before);
    assert!(copy.raw_string().contains("X: Y\r\n"));
}

#[test]
fn authority_joins_host_and_port() {
    assert_eq!(Request::authority("example.com", 443), "example.com:443");
    assert_eq!(Request::authority("h", 0), "h:0");
    assert_eq!(Request::authority("h", 65535), "h:65535");
}

#[test]
fn full_response_is_parsed() {
    let r = response("HTTP/1.1 200 OK\r\nA: B\r\n\r\nHELLO");
    assert_eq!(r.read_status_code(), 200);
    let h = r.read_headers();
    assert_eq!(h.len(), 1);
    assert_eq!(h.get("A"), Some("B"));
    assert_eq!(r.read_body_string(), "HELLO");
    assert_eq!(r.read_body(), b"HELLO".to_vec());
}

#[test]
fn body_empty_without_blank_line() {
    let r = response("HTTP/1.1 200 OK\r\nA: B\r\nHELLO");
    assert_eq!(r.read_body(), Vec::<u8>::new());
    assert_eq!(r.read_body_string(), "");
    assert_eq!(Response(Vec::new()).read_body(), Vec::<u8>::new());
}

#[test]
fn body_starts_after_any_four_crlf_bytes() {
    let r = response("HTTP/1.1 200 OK\n\n\n\nrest");
    assert_eq!(r.read_body(), b"rest".to_vec());
    let r = response("X\r\n\r\n\r\nY");
    assert_eq!(r.read_body(), b"\r\nY".to_vec());
}

#[test]
fn body_string_of_invalid_utf8_is_empty() {
    let r = Response(vec![b'H', b'\r', b'\n', b'\r', b'\n', 0xff, 0xfe]);
    assert_eq!(r.read_body(), vec![0xff, 0xfe]);
    assert_eq!(r.read_body_string(), "");
}

#[test]
fn body_string_decodes_utf8() {
    let r = response("HTTP/1.1 200 OK\r\n\r\nh\u{e9}llo");
    assert_eq!(r.read_body_string(), "h\u{e9}llo");
}

#[test]
fn status_without_second_space_is_zero() {
    assert_eq!(response("garbage").read_status_code(), 0);
    assert_eq!(response("HTTP/1.1 200").read_status_code(), 0);
    assert_eq!(response("").read_status_code(), 0);
}

#[test]
fn status_that_is_no_u16_is_zero() {
    assert_eq!(response("HTTP/1.1 abc OK\r\n").read_status_code(), 0);
    assert_eq!(response("HTTP/1.1 70000 OK\r\n").read_status_code(), 0);
    assert_eq!(response("HTTP/1.1  OK\r\n").read_status_code(), 0);
    assert_eq!(response("HTTP/1.1 + OK\r\n").read_status_code(), 0);
    assert_eq!(response("HTTP/1.1 -1 OK\r\n").read_status_code(), 0);
}

#[test]
fn status_code_values() {
    assert_eq!(response("HTTP/1.1 404 Not Found\r\n").read_status_code(), 404);
    assert_eq!(response("HTTP/1.1 +201 Created\r\n").read_status_code(), 201);
    assert_eq!(response("HTTP/1.1 65535 X\r\n").read_status_code(), 65535);
    assert_eq!(response("HTTP/1.1 007 X").read_status_code(), 7);
}

#[test]
fn headers_last_duplicate_wins() {
    let r = response("HTTP/1.1 200 OK\r\nK: 1\r\nk: 2\r\nK: 3\r\nnocolon\r\nV: a: b\r\n\r\nZ: body");
    let h = r.read_headers();
    assert_eq!(h.len(), 3);
    assert_eq!(h.get("K"), Some("3"));
    assert_eq!(h.get("k"), Some("2"));
    assert_eq!(h.get("V"), Some("a: b"));
    assert_eq!(h.get("Z"), None);
}

#[test]
fn headers_of_invalid_utf8_are_empty() {
    let mut bytes = b"HTTP/1.1 200 OK\r\nA: B\r\n\r\n".to_vec();
    bytes.push(0xff);
    assert_eq!(Response(bytes).read_headers().len(), 0);
}

#[test]
fn headers_without_blank_line_use_whole_text() {
    let h = response("HTTP/1.1 200 OK\r\nA: B\r\nC: D").read_headers();
    assert_eq!(h.len(), 2);
    assert_eq!(h.get("C"), Some("D"));
    assert_eq!(response("HTTP/1.1 200 OK").read_headers().len(), 0);
}

#[test]
fn proxy_with_credentials_gets_basic_header() {
    let s = "alice:secret@proxy.example:3128";
    assert_eq!(Proxy::address_part(s), "proxy.example:3128");
    let p = Proxy::parse_http(s, &local(3128)).unwrap();
    assert!(!p.authorization_header().is_empty());
    assert_eq!(p.authorization_header(), "Proxy-Authorization: Basic YWxpY2U6c2VjcmV0\r\n");
    assert_eq!(p.endpoint(), local(3128)[0]);
}

#[test]
fn proxy_without_credentials_has_empty_header() {
    let s = "proxy.example:3128";
    assert_eq!(Proxy::address_part(s), "proxy.example:3128");
    let p = Proxy::parse_http(s, &local(3128)).unwrap();
    assert_eq!(p.authorization_header(), "");
}

#[test]
fn proxy_splits_at_first_at_sign() {
    let s = "u:p@w@host:1";
    assert_eq!(Proxy::address_part(s), "w@host:1");
    let p = Proxy::parse_http(s, &local(1)).unwrap();
    assert_eq!(p.authorization_header(), "Proxy-Authorization: Basic dTpw\r\n");
}

#[test]
fn proxy_without_endpoint_is_resolution_error() {
    assert!(matches!(Proxy::parse_http("a:b@h:1", &[]), Err(HttpError::AddressResolution)));
}

#[test]
fn connect_request_text() {
    let r = build(Method::GET, "example.com", 80, "/");
    let p = Proxy::parse_http("alice:secret@proxy.example:3128", &local(3128)).unwrap();
    assert_eq!(
        r.connect_request(&p),
        "CONNECT example.com:80 HTTP/1.1\r\nHost: example.com:80\r\nProxy-Authorization: Basic YWxpY2U6c2VjcmV0\r\n\r\n"
    );
    let q = Proxy::parse_http("proxy.example:3128", &local(3128)).unwrap();
    assert_eq!(r.connect_request(&q), "CONNECT example.com:80 HTTP/1.1\r\nHost: example.com:80\r\n\r\n");
}

fn run_handshake(reply: &[u8]) -> Vec<TunnelStep> {
    let mut hs = TunnelHandshake::new();
    reply.iter().map(|&b| hs.receive(b)).collect()
}

#[test]
fn proxy_refusal_rejects_without_sending() {
    let steps = run_handshake(b"HTTP/1.1 407 Proxy Authentication Required\r\n\r\n");
    let (last, rest) = steps.split_last().unwrap();
    assert_eq!(*last, TunnelStep::Reject);
    assert!(rest.iter().all(|s| *s == TunnelStep::ReadMore));
    assert!(!steps.contains(&TunnelStep::SendRequest));
}

#[test]
fn proxy_acceptance_sends_request() {
    let steps = run_handshake(b"HTTP/1.1 200 Connection established\r\n\r\n");
    let (last, rest) = steps.split_last().unwrap();
    assert_eq!(*last, TunnelStep::SendRequest);
    assert!(rest.iter().all(|s| *s == TunnelStep::ReadMore));
}

#[test]
fn short_reply_is_rejected() {
    let steps = run_handshake(b"\r\n\r\n");
    assert_eq!(steps, vec![TunnelStep::ReadMore, TunnelStep::ReadMore, TunnelStep::ReadMore, TunnelStep::Reject]);
}
