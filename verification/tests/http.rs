use taskpool::http::{
    collapse_slashes, decimal_bytes, handle_request, parse_header, replace_all, route_response,
    Pages,
};

fn b(s: &str) -> Vec<u8> {
    s.as_bytes().to_vec()
}

fn pages() -> Pages {
    Pages {
        home: b("<h1>Hello</h1>"),
        forbidden: b("<h1>Forbidden</h1>"),
        reply_template: b("<p>##METHOD## ##URI##</p>"),
    }
}

#[test]
fn parse_simple_request_line() {
    let (method, uri) = parse_header(b"GET / HTTP/1.1\r\nHost: x".as_slice());
    assert_eq!(method, b("GET"));
    assert_eq!(uri, b("/"));
}

#[test]
fn parse_strips_trailing_slashes() {
    let (method, uri) = parse_header(b"POST /foo// HTTP/1.1".as_slice());
    assert_eq!(method, b("POST"));
    assert_eq!(uri, b("/foo"));
}

#[test]
fn parse_only_slashes_leaves_the_root() {
    let (method, uri) = parse_header(b"GET //// HTTP/1.1".as_slice());
    assert_eq!(method, b("GET"));
    assert_eq!(uri, b("/"));
}

#[test]
fn parse_is_not_anchored_to_the_start() {
    let (method, uri) = parse_header(b"xx DELETE /a/b HTTP/1.1".as_slice());
    assert_eq!(method, b("DELETE"));
    assert_eq!(uri, b("/a/b"));
}

#[test]
fn parse_keeps_inner_slash_runs() {
    let (method, uri) = parse_header(b"GET /a//b// HTTP/1.1".as_slice());
    assert_eq!(method, b("GET"));
    assert_eq!(uri, b("/a//b"));
}

#[test]
fn parse_allows_spaces_inside_the_path() {
    let (method, uri) = parse_header(b"PUT /a b HTTP/1.1".as_slice());
    assert_eq!(method, b("PUT"));
    assert_eq!(uri, b("/a b"));
}

#[test]
fn parse_rejects_garbage() {
    let (method, uri) = parse_header(b"HELLO WORLD".as_slice());
    assert!(method.is_empty());
    assert!(uri.is_empty());
    let (method, uri) = parse_header(b"GET x HTTP/1.1".as_slice());
    assert!(method.is_empty());
    assert!(uri.is_empty());
}

#[test]
fn parse_path_never_spans_a_newline() {
    let (method, uri) = parse_header(b"GET /a\nb HTTP/1.1".as_slice());
    assert!(method.is_empty());
    assert!(uri.is_empty());
}

#[test]
fn collapse_slash_runs() {
    assert_eq!(collapse_slashes(b"/a///b//c".as_slice()), b("/a/b/c"));
    assert_eq!(collapse_slashes(b"////".as_slice()), b("/"));
    assert_eq!(collapse_slashes(b"/a/b".as_slice()), b("/a/b"));
    assert_eq!(collapse_slashes(b"".as_slice()), b(""));
}

#[test]
fn replace_markers() {
    assert_eq!(
        replace_all(b"x##URI##y".as_slice(), b"##URI##".as_slice(), b"/z".as_slice()),
        b("x/zy")
    );
    assert_eq!(replace_all(b"aaa".as_slice(), b"aa".as_slice(), b"b".as_slice()), b("ba"));
    assert_eq!(replace_all(b"no hit".as_slice(), b"zz".as_slice(), b"q".as_slice()), b("no hit"));
}

#[test]
fn decimal_rendering() {
    assert_eq!(decimal_bytes(0), b("0"));
    assert_eq!(decimal_bytes(7), b("7"));
    assert_eq!(decimal_bytes(10), b("10"));
    assert_eq!(decimal_bytes(1024), b("1024"));
    assert_eq!(decimal_bytes(65535), b("65535"));
}

#[test]
fn route_home_and_index() {
    let p = pages();
    let expected = b("HTTP/1.1 200 OK\r\nContent-Length: 14\r\n\r\n<h1>Hello</h1>");
    let r = route_response(b"GET", b"/", &p, b"T");
    assert_eq!(r.response, expected);
    assert_eq!(r.sleep_ms, 0);
    assert!(!r.kill);
    let r = route_response(b"GET", b"/index.html", &p, b"T");
    assert_eq!(r.response, expected);
}

#[test]
fn route_error_page() {
    let p = pages();
    let r = route_response(b"GET", b"/error", &p, b"T");
    assert_eq!(
        r.response,
        b("HTTP/1.1 403 Forbidden\r\nContent-Length: 18\r\n\r\n<h1>Forbidden</h1>")
    );
}

#[test]
fn route_now_counts_the_timestamp_without_its_newline() {
    let p = pages();
    let now = "2021-01-01T00:00:00+00:00";
    let r = route_response(b"GET", b"/now", &p, now.as_bytes());
    let expected = format!("HTTP/1.1 200 OK\r\nContent-Length: {}\r\n\r\n{}\n", now.len(), now);
    assert_eq!(r.response, expected.into_bytes());
}

#[test]
fn route_other_get_fills_the_template() {
    let p = pages();
    let r = route_response(b"GET", b"/abc", &p, b"T");
    assert_eq!(r.response, b("HTTP/1.1 200 OK\r\nContent-Length: 15\r\n\r\n<p>GET /abc</p>"));
}

#[test]
fn route_put_and_post() {
    let p = pages();
    let ok = b("HTTP/1.1 200 OK\r\nContent-Length: 8\r\n\r\nSuccess\n");
    assert_eq!(route_response(b"PUT", b"/make_cat", &p, b"T").response, ok);
    assert_eq!(route_response(b"POST", b"/make_dog", &p, b"T").response, ok);
    let r = route_response(b"PUT", b"/sleep", &p, b"T");
    assert_eq!(r.response, ok);
    assert_eq!(r.sleep_ms, 10000);
    assert!(!r.kill);
    let r = route_response(b"POST", b"/kill_server", &p, b"T");
    assert_eq!(
        r.response,
        b("HTTP/1.1 200 OK\r\nContent-Length: 18\r\n\r\nSuccess, Bye bye!\n")
    );
    assert!(r.kill);
    assert_eq!(
        route_response(b"PUT", b"/other", &p, b"T").response,
        b("HTTP/1.1 403 Forbidden\r\nContent-Length: 14\r\n\r\nAccess Denied\n")
    );
}

#[test]
fn route_delete_is_not_allowed() {
    let p = pages();
    let r = route_response(b"DELETE", b"/x", &p, b"T");
    assert_eq!(r.response, b("HTTP/1.1 405 Method Not Allowed\r\n\r\n"));
    assert_eq!(r.sleep_ms, 0);
    assert!(!r.kill);
}

#[test]
fn handle_request_serves_the_home_page() {
    let p = pages();
    let buf = b"GET /index.html HTTP/1.1\r\nHost: localhost\r\n\r\n";
    let reply = handle_request(buf.as_slice(), &p).expect("a valid request must get a reply");
    assert_eq!(
        reply.response,
        b("HTTP/1.1 200 OK\r\nContent-Length: 14\r\n\r\n<h1>Hello</h1>")
    );
}

#[test]
fn handle_request_collapses_the_path_before_routing() {
    let p = pages();
    let buf = b"GET //foo HTTP/1.1\r\n";
    let reply = handle_request(buf.as_slice(), &p).expect("a valid request must get a reply");
    assert_eq!(
        reply.response,
        b("HTTP/1.1 200 OK\r\nContent-Length: 15\r\n\r\n<p>GET /foo</p>")
    );
}

#[test]
fn handle_request_rejects_an_unparsable_buffer() {
    let p = pages();
    assert!(handle_request(b"garbage".as_slice(), &p).is_none());
}
