use sshttp::connection::{handle_conn, Connection, Event, READ_SIZE};
use sshttp::http::MAX_HEADER_BYTES;

fn gone() -> std::io::Error {
    std::io::Error::new(std::io::ErrorKind::Other, "gone")
}

fn read_all(chunks: &[&[u8]]) -> Connection {
    let mut conn = handle_conn();
    for chunk in chunks {
        conn = conn.step(Event::Read(chunk.to_vec()));
    }
    conn
}

fn reply_of(conn: Connection) -> String {
    match conn {
        Connection::Refusing { reply } => String::from_utf8(reply).unwrap(),
        other => panic!("{other:?}"),
    }
}

#[test]
fn starts_by_reading() {
    match handle_conn() {
        Connection::Reading { buf } => assert!(buf.is_empty()),
        other => panic!("{other:?}"),
    }
}

#[test]
fn a_tunnel_from_start_to_end() {
    let mut conn = read_all(&[b"CONNECT example.com:443 HTTP/1.1\r\n\r", b"\nhello"]);
    match &conn {
        Connection::CheckingSession { target, leftover } => {
            assert_eq!(target.host, "example.com");
            assert_eq!(target.port, 443);
            assert_eq!(leftover, b"hello");
        }
        other => panic!("{other:?}"),
    }
    conn = conn.step(Event::Session { closed: false });
    match &conn {
        Connection::OpeningTunnel { target, .. } => assert_eq!(target.host, "example.com"),
        other => panic!("{other:?}"),
    }
    conn = conn.step(Event::TunnelOpened);
    match &conn {
        Connection::Confirming { reply, .. } => {
            assert_eq!(reply, b"HTTP/1.1 200 Connection Established\r\n\r\n")
        }
        other => panic!("{other:?}"),
    }
    conn = conn.step(Event::Done);
    match &conn {
        Connection::Forwarding { leftover } => assert_eq!(leftover, b"hello"),
        other => panic!("{other:?}"),
    }
    conn = conn.step(Event::Done);
    assert!(matches!(conn, Connection::Relaying));
    conn = conn.step(Event::Done);
    assert!(matches!(conn, Connection::Finished));
    conn = conn.step(Event::TunnelOpened);
    assert!(matches!(conn, Connection::Finished));
}

#[test]
fn nothing_is_forwarded_when_nothing_was_left_over() {
    let conn = read_all(&[b"CONNECT a:1 HTTP/1.1\r\n\r\n"])
        .step(Event::Session { closed: false })
        .step(Event::TunnelOpened)
        .step(Event::Done);
    assert!(matches!(conn, Connection::Relaying));
}

#[test]
fn reads_may_be_cut_anywhere() {
    let stream: &[u8] = b"CONNECT a:1 HTTP/1.1\r\nHost: a\r\n\r\nleft over";
    for cut in 1..stream.len() {
        let mut conn = handle_conn();
        let mut unread = stream;
        for part in [&stream[..cut], &stream[cut..]] {
            if matches!(conn, Connection::Reading { .. }) {
                conn = conn.step(Event::Read(part.to_vec()));
                unread = &unread[part.len()..];
            }
        }
        match conn {
            Connection::CheckingSession { target, leftover } => {
                assert_eq!((target.host.as_str(), target.port), ("a", 1));
                let mut all = leftover;
                all.extend_from_slice(unread);
                assert_eq!(all, b"left over");
            }
            other => panic!("{other:?}"),
        }
    }
}

#[test]
fn refused_requests_are_answered_and_closed() {
    assert!(reply_of(read_all(&[b"GET / HTTP/1.1\r\n\r\n"])).starts_with("HTTP/1.1 405 "));
    assert!(reply_of(read_all(&[b"CONNECT a HTTP/1.1\r\n\r\n"]))
        .ends_with("Content-Length: 22\r\n\r\ninvalid CONNECT target"));
    assert!(reply_of(read_all(&[b"CONNECT a:1", b""]))
        .ends_with("Content-Length: 32\r\n\r\nconnection closed before request"));
    let conn = read_all(&[b"GET / HTTP/1.1\r\n\r\n"]).step(Event::Done);
    assert!(matches!(conn, Connection::Finished));
    let conn = read_all(&[b"GET / HTTP/1.1\r\n\r\n"]).step(Event::Broken(gone()));
    assert!(matches!(conn, Connection::Finished));
}

#[test]
fn endless_headers_are_cut_off() {
    let chunk = [b'x'; 1024];
    let mut conn = handle_conn();
    let mut fed = 0;
    while matches!(conn, Connection::Reading { .. }) {
        conn = conn.step(Event::Read(chunk.to_vec()));
        fed += chunk.len();
        if let Connection::Reading { buf } = &conn {
            assert_eq!(buf.len(), fed);
            assert!(buf.len() <= MAX_HEADER_BYTES);
        }
    }
    assert_eq!(fed, MAX_HEADER_BYTES + 1024);
    assert!(reply_of(conn).starts_with("HTTP/1.1 431 "));
}

#[test]
fn no_tunnel_without_a_session() {
    let conn = read_all(&[b"CONNECT a:1 HTTP/1.1\r\n\r\n"]).step(Event::Session { closed: true });
    assert_eq!(
        reply_of(conn),
        "HTTP/1.1 502 Bad Gateway\r\nConnection: close\r\n\r\nSSH session closed"
    );
    let conn = read_all(&[b"CONNECT a:1 HTTP/1.1\r\n\r\n"])
        .step(Event::Session { closed: false })
        .step(Event::TunnelRefused);
    assert_eq!(
        reply_of(conn),
        "HTTP/1.1 502 Bad Gateway\r\nConnection: close\r\n\r\nSSH direct-tcpip to a:1 failed"
    );
}

#[test]
fn broken_connections_fail() {
    assert!(matches!(handle_conn().step(Event::Broken(gone())), Connection::Failed(_)));
    let confirming = || {
        read_all(&[b"CONNECT a:1 HTTP/1.1\r\n\r\nx"])
            .step(Event::Session { closed: false })
            .step(Event::TunnelOpened)
    };
    assert!(matches!(confirming().step(Event::Broken(gone())), Connection::Failed(_)));
    assert!(matches!(
        confirming().step(Event::Done).step(Event::Broken(gone())),
        Connection::Failed(_)
    ));
    match confirming().step(Event::Done).step(Event::Done).step(Event::Broken(gone())) {
        Connection::Failed(e) => assert_eq!(e.to_string(), "gone"),
        other => panic!("{other:?}"),
    }
}

#[test]
fn events_that_answer_nothing_change_nothing() {
    let conn = read_all(&[b"CONNECT"])
        .step(Event::TunnelOpened)
        .step(Event::Done)
        .step(Event::Session { closed: true });
    match conn {
        Connection::Reading { buf } => assert_eq!(buf, b"CONNECT"),
        other => panic!("{other:?}"),
    }
}

#[test]
fn less_than_one_read_is_left_over() {
    // The headers end with the first byte of a read that is as long as it may be.
    let mut last = vec![b'\n'];
    last.resize(READ_SIZE, b'x');
    match read_all(&[b"CONNECT a:1 HTTP/1.1\r\n\r", &last]) {
        Connection::CheckingSession { leftover, .. } => assert_eq!(leftover.len(), READ_SIZE - 1),
        other => panic!("{other:?}"),
    }
}

#[test]
fn a_client_is_answered_once() {
    let asked = |c: &Connection| matches!(c, Connection::OpeningTunnel { .. });
    let answering =
        |c: &Connection| matches!(c, Connection::Refusing { .. } | Connection::Confirming { .. });
    for served in [true, false] {
        let mut conn = handle_conn();
        let mut tunnels = 0;
        let mut replies = 0;
        for _ in 0..3 {
            let opened = if served { Event::TunnelOpened } else { Event::TunnelRefused };
            for event in [
                Event::Read(b"CONNECT a:1 HTTP/1.1\r\n\r\n".to_vec()),
                Event::Session { closed: false },
                opened,
                Event::Done,
                Event::Done,
            ] {
                let (was_asked, was_answering) = (asked(&conn), answering(&conn));
                conn = conn.step(event);
                tunnels += (asked(&conn) && !was_asked) as u32;
                replies += (answering(&conn) && !was_answering) as u32;
            }
        }
        assert!(matches!(conn, Connection::Finished));
        assert_eq!((tunnels, replies), (1, 1));
    }
}

#[test]
fn a_bracketed_host_is_heard() {
    let conn = read_all(&[b"connect [2001:db8::1]:443 HTTP/1.1\r\nHost: x\r\n", b"\r\n\0\xff"]);
    match conn {
        Connection::CheckingSession { target, leftover } => {
            assert_eq!((target.host.as_str(), target.port), ("2001:db8::1", 443));
            assert_eq!(leftover, b"\0\xff");
        }
        other => panic!("{other:?}"),
    }
}
