use rtcli::error::Error;
use rtcli::scgi::{checked_response_body, encode_request, is_tcp_url, response_body};

fn expected_request(body: &[u8]) -> Vec<u8> {
    let len = body.len().to_string();
    let headers: Vec<(&str, &str)> = vec![
        ("CONTENT_LENGTH", &len),
        ("SCGI", "1"),
        ("REQUEST_METHOD", "POST"),
        ("REQUEST_URI", "/RPC2"),
        ("CONTENT_TYPE", "application/json"),
    ];
    let mut header_bytes = Vec::new();
    for (k, v) in &headers {
        header_bytes.extend_from_slice(k.as_bytes());
        header_bytes.push(0);
        header_bytes.extend_from_slice(v.as_bytes());
        header_bytes.push(0);
    }
    let mut request = Vec::new();
    request.extend_from_slice(header_bytes.len().to_string().as_bytes());
    request.push(b':');
    request.extend_from_slice(&header_bytes);
    request.push(b',');
    request.extend_from_slice(body);
    request
}

#[test]
fn request_framing_exact_bytes() {
    let body = b"{\"id\":1}";
    let r = encode_request(body);
    let expected: &[u8] =
        b"92:CONTENT_LENGTH\x008\x00SCGI\x001\x00REQUEST_METHOD\x00POST\x00REQUEST_URI\x00/RPC2\x00CONTENT_TYPE\x00application/json\x00,{\"id\":1}";
    assert_eq!(r, expected);
}

#[test]
fn request_framing_matches_netstring_layout() {
    for size in [0usize, 1, 9, 10, 99, 100, 12345] {
        let body = vec![b'x'; size];
        assert_eq!(encode_request(&body), expected_request(&body));
    }
}

#[test]
fn request_ends_with_body() {
    let body = b"payload";
    let r = encode_request(body);
    assert!(r.ends_with(b",payload"));
}

#[test]
fn response_body_after_blank_line() {
    let reply = b"Status: 200 OK\r\nContent-Type: application/json\r\n\r\n{\"result\":1}";
    assert_eq!(response_body(reply).unwrap(), b"{\"result\":1}".to_vec());
    assert_eq!(response_body(b"\r\n\r\n").unwrap(), Vec::<u8>::new());
}

#[test]
fn response_body_missing_delimiter() {
    match response_body(b"Status: 200 OK\r\n\r") {
        Err(Error::Scgi(m)) => assert_eq!(m, "missing HTTP header delimiter in response"),
        other => panic!("unexpected {other:?}"),
    }
}

#[test]
fn response_body_position_comes_from_the_decoded_text() {
    // The invalid byte is decoded as U+FFFD (three bytes), so the delimiter is
    // found three bytes later in the text than in the reply.
    let reply = [0xffu8, b'\r', b'\n', b'\r', b'\n', b'a', b'b', b'c'];
    assert_eq!(response_body(&reply).unwrap(), b"c".to_vec());
}

#[test]
fn checked_response_body_refuses_out_of_range() {
    let reply = [0xffu8, 0xff, b'\r', b'\n', b'\r', b'\n'];
    assert!(checked_response_body(&reply).is_none());
    let ok = checked_response_body(b"h\r\n\r\nbody").unwrap().unwrap();
    assert_eq!(ok, b"body".to_vec());
}

#[test]
fn valid_text_reply_gives_its_body() {
    let ok = checked_response_body(b"\r\n\r\n1").unwrap().unwrap();
    assert_eq!(ok, b"1".to_vec());
    let text = "Status: 200 OK\r\nContent-Type: application/json\r\n\r\n{\"r\u{e9}sult\":1}";
    let ok = checked_response_body(text.as_bytes()).unwrap().unwrap();
    assert_eq!(ok, "{\"r\u{e9}sult\":1}".as_bytes().to_vec());
}

#[test]
fn tcp_or_unix_addresses() {
    assert!(is_tcp_url("localhost:5000"));
    assert!(is_tcp_url("127.0.0.1:5000"));
    assert!(!is_tcp_url("/run/rtorrent.sock"));
    assert!(!is_tcp_url("/tmp/odd:name.sock"));
    assert!(!is_tcp_url("relative.sock"));
}

#[test]
fn text_header_with_binary_body_is_cut_at_the_raw_delimiter() {
    let mut reply = "Status: 200 OK\r\nX-Name: caf\u{e9}\r\n\r\n".as_bytes().to_vec();
    reply.extend_from_slice(&[0xff, 0xfe, 0x80, b'{', 0xc3]);
    assert_eq!(response_body(&reply).unwrap(), vec![0xff, 0xfe, 0x80, b'{', 0xc3]);
    assert_eq!(checked_response_body(&reply).unwrap().unwrap(), vec![0xff, 0xfe, 0x80, b'{', 0xc3]);
}
