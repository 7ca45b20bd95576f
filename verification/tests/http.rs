use netlab::http::{response, route, thread_count, Route};

fn args(list: &[&str]) -> Vec<String> {
    list.iter().map(|s| s.to_string()).collect()
}

#[test]
fn routes() {
    assert_eq!(route("GET / HTTP/1.1\r\nHost: x\r\n\r\n"), Route::Index);
    assert_eq!(route("GET /sleep HTTP/1.1\r\n\r\n"), Route::Sleep);
    assert_eq!(route("GET /other HTTP/1.1\r\n"), Route::NotFound);
    assert_eq!(route("GET / HTTP/1.1"), Route::NotFound);
    assert_eq!(route(""), Route::NotFound);
}

#[test]
fn pages() {
    assert_eq!(Route::Index.status_line(), "HTTP/1.1 200 OK");
    assert_eq!(Route::Sleep.page(), "hello.html");
    assert!(Route::Sleep.sleeps());
    assert!(!Route::Index.sleeps());
    assert_eq!(Route::NotFound.status_line(), "HTTP/1.1 404 Not Found");
    assert_eq!(Route::NotFound.page(), "404.html");
}

#[test]
fn response_layout() {
    assert_eq!(response("HTTP/1.1 200 OK", "<p>hi</p>"), "HTTP/1.1 200 OK\r\n\r\n<p>hi</p>");
}

#[test]
fn threads_from_command_line() {
    assert_eq!(thread_count(&args(&["hello"])), Some(4));
    assert_eq!(thread_count(&args(&["hello", "8"])), Some(8));
    assert_eq!(thread_count(&args(&["hello", "eight"])), None);
}

#[test]
fn routes_raw_requests() {
    let mut buf = [0u8; 512];
    let req = b"GET /sleep HTTP/1.1\r\nHost: x\r\n\r\n";
    buf[..req.len()].copy_from_slice(req);
    assert_eq!(netlab::http::route_request(&buf), Route::Sleep);
    let bad = [0xffu8, b'G', b'E', b'T', b' ', b'/', b' '];
    assert_eq!(netlab::http::route_request(&bad), Route::NotFound);
    assert_eq!(netlab::http::route_request(b"GET / HTTP/1.1\r\n"), Route::Index);
}

#[test]
fn invalid_bytes_after_the_request_line_do_not_matter() {
    let mut buf = Vec::from(&b"GET / HTTP/1.1\r\nHost: x\r\n"[..]);
    buf.extend_from_slice(&[0xff, 0xfe, 0x80]);
    assert_eq!(netlab::http::route_request(&buf), Route::Index);
}
