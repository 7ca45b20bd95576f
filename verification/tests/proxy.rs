use netlab::proxy::{chars_of, on_request, parse_connect, tunnel_continues, ProxyAction};

#[test]
fn connect_request() {
    assert_eq!(
        parse_connect("CONNECT example.com:443 HTTP/1.1\r\nHost: example.com\r\n\r\n"),
        Some("example.com:443".to_string())
    );
}

#[test]
fn method_case_is_ignored() {
    assert_eq!(parse_connect("cOnNeCt host:1 HTTP/1.1\r\n"), Some("host:1".to_string()));
}

#[test]
fn not_connect() {
    assert_eq!(parse_connect("GET / HTTP/1.1\r\n"), None);
    assert_eq!(parse_connect("CONNECTX a b\r\n"), None);
    assert_eq!(parse_connect("CONNECT\r\nhost x\r\n"), None);
    assert_eq!(parse_connect(""), None);
}

#[test]
fn single_part_after_method() {
    assert_eq!(parse_connect("CONNECT host"), Some("host".to_string()));
    assert_eq!(parse_connect("CONNECT  host"), Some("".to_string()));
    assert_eq!(parse_connect("CONNECT host\rx y"), Some("host\rx".to_string()));
}

#[test]
fn chars_of_keeps_every_char() {
    assert_eq!(chars_of("aé\r"), vec!['a', 'é', '\r']);
}

#[test]
fn first_read() {
    assert!(matches!(on_request(0, "CONNECT a b"), ProxyAction::Disconnect));
    match on_request(12, "CONNECT a:1 HTTP/1.1\r\n") {
        ProxyAction::Tunnel(h) => assert_eq!(h, "a:1"),
        _ => panic!("expected a tunnel"),
    }
    assert!(matches!(on_request(5, "hello"), ProxyAction::Echo(5)));
}

#[test]
fn tunnel_ends_when_a_side_is_done() {
    assert!(tunnel_continues(3, 4));
    assert!(!tunnel_continues(0, 4));
    assert!(!tunnel_continues(3, 0));
}

#[test]
fn first_read_decodes_the_buffer() {
    let mut buf = [0u8; 64];
    let req = b"CONNECT h:2 HTTP/1.1\r\n";
    buf[..req.len()].copy_from_slice(req);
    let (content, action) = netlab::proxy::first_read(req.len(), &buf);
    assert_eq!(content.len(), 64);
    assert!(content.starts_with("CONNECT h:2"));
    match action {
        ProxyAction::Tunnel(h) => assert_eq!(h, "h:2"),
        _ => panic!("expected a tunnel"),
    }
    let (text, action) = netlab::proxy::first_read(2, &[0xff, b'x']);
    assert_eq!(text, "\u{FFFD}x");
    assert!(matches!(action, ProxyAction::Echo(2)));
}
