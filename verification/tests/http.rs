use sshttp::http::{
    bad_gateway, find_header_end, parse_authority, parse_connect, parse_connect_for_test,
    read_request, refusal, ConnectTarget, ParseError, MAX_HEADER_BYTES,
};

fn parse(head: &[u8]) -> Result<ConnectTarget, &'static str> {
    parse_connect_for_test(head)
}

#[test]
fn parses_simple_connect() {
    let t = parse(b"CONNECT example.com:443 HTTP/1.1\r\nHost: example.com:443\r\n\r\n").unwrap();
    assert_eq!(t.host, "example.com");
    assert_eq!(t.port, 443);
}

#[test]
fn parses_connect_ipv6() {
    let t = parse(b"CONNECT [2001:db8::1]:443 HTTP/1.1\r\n\r\n").unwrap();
    assert_eq!(t.host, "2001:db8::1");
    assert_eq!(t.port, 443);
}

#[test]
fn rejects_non_connect() {
    assert_eq!(parse(b"GET / HTTP/1.1\r\n\r\n").unwrap_err(), "not CONNECT");
}

#[test]
fn rejects_missing_port() {
    assert!(parse(b"CONNECT example.com HTTP/1.1\r\n\r\n").is_err());
}

#[test]
fn rejects_bad_port() {
    assert!(parse(b"CONNECT example.com:abc HTTP/1.1\r\n\r\n").is_err());
}

#[test]
fn finds_header_end() {
    assert_eq!(find_header_end(b"GET / HTTP/1.1\r\n\r\n"), Some(18));
    assert_eq!(find_header_end(b"GET / HTTP/1.1\r\n"), None);
}

#[test]
fn rejects_empty_host() {
    assert!(parse(b"CONNECT :443 HTTP/1.1\r\n\r\n").is_err());
}

#[test]
fn parses_connect_with_extra_headers() {
    let head = b"CONNECT example.com:443 HTTP/1.1\r\n\
                 Host: example.com:443\r\n\
                 Proxy-Connection: keep-alive\r\n\
                 User-Agent: curl/8\r\n\r\n";
    let t = parse(head).unwrap();
    assert_eq!(t.host, "example.com");
    assert_eq!(t.port, 443);
}

#[test]
fn rejects_lf_only_line_endings() {
    // No CRLF: the headers never end, and the request line does not either.
    assert!(parse(b"CONNECT example.com:443 HTTP/1.1\n\n").is_err());
}

#[test]
fn rejects_short_request_line() {
    assert!(parse(b"CONNECT\r\n\r\n").is_err());
    assert!(parse(b"CONNECT example.com:443\r\n\r\n").is_err());
}

#[test]
fn accepts_lowercase_method() {
    let t = parse(b"connect example.com:443 HTTP/1.1\r\n\r\n").unwrap();
    assert_eq!(t.host, "example.com");
}

#[test]
fn rejects_port_out_of_range() {
    assert!(parse(b"CONNECT example.com:99999 HTTP/1.1\r\n\r\n").is_err());
}

#[test]
fn each_malformation_has_its_words() {
    assert_eq!(parse(b"").unwrap_err(), "missing request line");
    assert_eq!(parse(b"CONNECT a:1 HTTP/1.1\n\n").unwrap_err(), "missing request line");
    assert_eq!(parse(b"CONNECT \xff:1 HTTP/1.1\r\n").unwrap_err(), "non-UTF-8 request line");
    assert_eq!(parse(b"\r\n\r\n").unwrap_err(), "missing request target");
    assert_eq!(parse(b"GET\r\n\r\n").unwrap_err(), "missing request target");
    assert_eq!(parse(b"GET /\r\n\r\n").unwrap_err(), "missing HTTP version");
    assert_eq!(parse(b"CONNECT a HTTP/1.1\r\n").unwrap_err(), "invalid CONNECT target");
    assert_eq!(parse(b"CONNECTX a:1 HTTP/1.1\r\n").unwrap_err(), "not CONNECT");
}

#[test]
fn request_line_details() {
    // Two spaces make an empty field.
    assert_eq!(parse(b"CONNECT  a:1 HTTP/1.1\r\n").unwrap_err(), "invalid CONNECT target");
    // The version is not looked at, and neither is anything behind it.
    assert_eq!(parse(b"cOnNeCt a:1  x y z\r\n").unwrap().port, 1);
    // Text that is not ASCII.
    let t = parse("CONNECT bücher.example:443 HTTP/1.1\r\n".as_bytes()).unwrap();
    assert_eq!(t.host, "bücher.example");
    // Whatever follows the first line, even bytes that are no text.
    assert_eq!(parse(b"CONNECT a:1 HTTP/1.1\r\n\xff\xfe").unwrap().host, "a");
    assert!(matches!(parse_connect(b"GET / HTTP/1.1\r\n"), Err(ParseError::NotConnect)));
}

#[test]
fn authorities() {
    let t = parse_authority("a:b:443").unwrap();
    assert_eq!((t.host.as_str(), t.port), ("a:b", 443));
    let t = parse_authority("[]:80").unwrap();
    assert_eq!((t.host.as_str(), t.port), ("", 80));
    let t = parse_authority("h:+00080").unwrap();
    assert_eq!((t.host.as_str(), t.port), ("h", 80));
    let t = parse_authority("h:65535").unwrap();
    assert_eq!(t.port, 65535);
    assert_eq!(
        parse_authority("h:0"),
        Some(ConnectTarget { host: "h".to_string(), port: 0 })
    );
    for bad in ["", "h", "h:", "h:+", "h:++1", "h:-1", "h: 1", "h:65536", ":1", "[h:1", "[h]", "[h]1", "[h]:"] {
        assert_eq!(parse_authority(bad), None, "{bad}");
    }
}

#[test]
fn header_end_is_the_first() {
    assert_eq!(find_header_end(b""), None);
    assert_eq!(find_header_end(b"\r\n\r"), None);
    assert_eq!(find_header_end(b"\r\n\r\n"), Some(4));
    assert_eq!(find_header_end(b"a\r\r\n\r\n\r\n\r\n"), Some(6));
}

#[test]
fn header_end_does_not_move() {
    let whole = b"CONNECT a:1 HTTP/1.1\r\n\r\nrest\r\n\r\n";
    for n in 24..=whole.len() {
        assert_eq!(find_header_end(&whole[..n]), Some(24));
    }
}

#[test]
fn requests_are_read_with_what_follows() {
    assert!(matches!(read_request(b"CONNECT a:1 HTTP/1.1\r\n"), Ok(None)));
    match read_request(b"CONNECT a:1 HTTP/1.1\r\n\r\nhello") {
        Ok(Some((target, leftover))) => {
            assert_eq!(target.host, "a");
            assert_eq!(target.port, 1);
            assert_eq!(leftover, b"hello");
        }
        other => panic!("{other:?}"),
    }
    let mut full = vec![b'x'; MAX_HEADER_BYTES];
    assert!(matches!(read_request(&full), Ok(None)));
    full.push(b'x');
    assert!(matches!(read_request(&full), Err(ParseError::TooLarge)));
    // The limit counts even if the headers ended before it.
    let mut late = b"CONNECT a:1 HTTP/1.1\r\n\r\n".to_vec();
    late.resize(MAX_HEADER_BYTES + 1, b'x');
    assert!(matches!(read_request(&late), Err(ParseError::TooLarge)));
}

#[test]
fn refusals() {
    assert_eq!(
        refusal(&ParseError::TooLarge).unwrap(),
        b"HTTP/1.1 431 Request Header Fields Too Large\r\nConnection: close\r\n\r\n"
    );
    assert_eq!(
        refusal(&ParseError::NotConnect).unwrap(),
        b"HTTP/1.1 405 Method Not Allowed\r\nAllow: CONNECT\r\nConnection: close\r\n\r\n"
    );
    assert_eq!(
        refusal(&ParseError::Malformed("missing HTTP version")).unwrap(),
        b"HTTP/1.1 400 Bad Request\r\nConnection: close\r\nContent-Length: 20\r\n\r\nmissing HTTP version"
    );
    assert_eq!(
        refusal(&ParseError::Malformed("")).unwrap(),
        b"HTTP/1.1 400 Bad Request\r\nConnection: close\r\nContent-Length: 0\r\n\r\n"
    );
    assert_eq!(
        refusal(&ParseError::Malformed("ü")).unwrap(),
        "HTTP/1.1 400 Bad Request\r\nConnection: close\r\nContent-Length: 2\r\n\r\nü".as_bytes()
    );
    let broken = ParseError::from(std::io::Error::new(std::io::ErrorKind::Other, "gone"));
    assert!(matches!(broken, ParseError::Io(_)));
    assert!(refusal(&broken).is_none());
    assert_eq!(
        bad_gateway("no route"),
        b"HTTP/1.1 502 Bad Gateway\r\nConnection: close\r\n\r\nno route"
    );
}

#[test]
fn announced_length_is_the_length_of_the_body() {
    for reason in ["", "x", "connection closed before request", "größer"] {
        let reply = refusal(&ParseError::Malformed(reason)).unwrap();
        let end = find_header_end(&reply).unwrap();
        assert_eq!(&reply[end..], reason.as_bytes());
        let head = String::from_utf8(reply[..end].to_vec()).unwrap();
        assert!(head.contains(&format!("Content-Length: {}\r\n", reason.len())));
    }
}
