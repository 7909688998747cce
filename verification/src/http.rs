//! The HTTP side: what a client asks for, and what it is answered.

use vstd::prelude::*;

use crate::text;

verus! {

/// The most bytes that may be buffered while the end of the headers is sought.
pub const MAX_HEADER_BYTES: usize = 8192;

/// `std::io::Error`, which the connection carries through unread.
#[verifier::external_type_specification]
#[verifier::external_body]
pub struct ExIoError(std::io::Error);

/// Where a client wants to be connected to.
#[derive(Debug, PartialEq, Eq)]
pub struct ConnectTarget {
    pub host: String,
    pub port: u16,
}

/// What a `ConnectTarget` says.
pub struct ConnectTargetView {
    pub host: Seq<char>,
    pub port: u16,
}

impl View for ConnectTarget {
    type V = ConnectTargetView;

    open spec fn view(&self) -> ConnectTargetView {
        ConnectTargetView { host: self.host@, port: self.port }
    }
}

/// Why a request could not be read.
#[derive(Debug)]
pub enum ParseError {
    TooLarge,
    NotConnect,
    Malformed(&'static str),
    Io(std::io::Error),
}

/// What a `ParseError` says.
pub enum ParseErrorView {
    TooLarge,
    NotConnect,
    Malformed(Seq<char>),
    Io(std::io::Error),
}

impl View for ParseError {
    type V = ParseErrorView;

    open spec fn view(&self) -> ParseErrorView {
        match *self {
            ParseError::TooLarge => ParseErrorView::TooLarge,
            ParseError::NotConnect => ParseErrorView::NotConnect,
            ParseError::Malformed(m) => ParseErrorView::Malformed(m@),
            ParseError::Io(e) => ParseErrorView::Io(e),
        }
    }
}

impl From<std::io::Error> for ParseError {
    fn from(e: std::io::Error) -> (r: ParseError) {
        ParseError::Io(e)
    }
}

impl vstd::std_specs::convert::FromSpecImpl<std::io::Error> for ParseError {
    open spec fn obeys_from_spec() -> bool {
        true
    }

    open spec fn from_spec(e: std::io::Error) -> ParseError {
        ParseError::Io(e)
    }
}

/// The end of a line.
pub open spec fn crlf() -> Seq<u8> {
    seq![13u8, 10u8]
}

/// The end of the headers: an empty line.
pub open spec fn blank_line() -> Seq<u8> {
    seq![13u8, 10u8, 13u8, 10u8]
}

/// The number of bytes up to the end of the headers.
pub open spec fn header_end(buf: Seq<u8>) -> Option<int> {
    match text::first_occurrence(buf, blank_line()) {
        Some(p) => Some(p + 4),
        None => None,
    }
}

/// Finds where the headers end.
pub fn find_header_end(buf: &[u8]) -> (end: Option<usize>)
    ensures
        match end {
            Some(e) => {
                &&& header_end(buf@) == Some(e as int)
                &&& 4 <= e <= buf@.len()
                &&& text::first_occurs_at(buf@, blank_line(), e - 4)
            },
            None => {
                &&& header_end(buf@) is None
                &&& forall|i: int| !#[trigger] text::occurs_at(buf@, blank_line(), i)
            },
        },
{
    let pat: [u8; 4] = [13, 10, 13, 10];
    assert(pat@ =~= blank_line());
    assert(buf.len() == buf@.len());
    proof {
        text::lemma_first_occurrence(buf@, blank_line());
    }
    match text::find_bytes(buf, &pat) {
        Some(p) => Some(p + 4),
        None => None,
    }
}

/// The `host:port` or `[host]:port` that a request line names.
pub open spec fn authority(s: Seq<char>) -> Option<ConnectTargetView> {
    if s.len() > 0 && s[0] == '[' {
        let rest = s.drop_first();
        match rest.index_of_first(']') {
            Some(end) => {
                let after = rest.skip(end + 1);
                if after.len() > 0 && after[0] == ':' {
                    match text::port_value(after.drop_first()) {
                        Some(port) => Some(ConnectTargetView { host: rest.take(end), port }),
                        None => None,
                    }
                } else {
                    None
                }
            },
            None => None,
        }
    } else {
        match s.index_of_last(':') {
            Some(colon) => match text::port_value(s.skip(colon + 1)) {
                Some(port) if colon > 0 => Some(ConnectTargetView { host: s.take(colon), port }),
                _ => None,
            },
            None => None,
        }
    }
}

/// Reads the `host:port` or `[host]:port` that a request line names.
pub fn parse_authority(s: &str) -> (target: Option<ConnectTarget>)
    ensures
        match target {
            Some(t) => authority(s@) == Some(t@),
            None => authority(s@) is None,
        },
{
    let n: usize = s.unicode_len();
    if n > 0 && s.get_char(0) == '[' {
        let rest: &str = s.substring_char(1, n);
        assert(rest@ =~= s@.drop_first());
        proof {
            rest@.index_of_first_ensures(']');
        }
        let end: usize = match text::find_char(rest, ']') {
            Some(end) => end,
            None => return None,
        };
        let host: &str = rest.substring_char(0, end);
        assert(host@ =~= rest@.take(end as int));
        let after: &str = rest.substring_char(end + 1, n - 1);
        assert(after@ =~= rest@.skip(end + 1));
        let m: usize = after.unicode_len();
        if m == 0 || after.get_char(0) != ':' {
            return None;
        }
        let port_text: &str = after.substring_char(1, m);
        assert(port_text@ =~= after@.drop_first());
        return match text::parse_port(port_text) {
            Ok(port) => Some(ConnectTarget { host: host.to_owned(), port }),
            Err(_) => None,
        };
    }
    proof {
        s@.index_of_last_ensures(':');
    }
    let colon: usize = match text::rfind_char(s, ':') {
        Some(colon) => colon,
        None => return None,
    };
    if colon == 0 {
        return None;
    }
    let host: &str = s.substring_char(0, colon);
    assert(host@ =~= s@.take(colon as int));
    let port_text: &str = s.substring_char(colon + 1, n);
    assert(port_text@ =~= s@.skip(colon + 1));
    match text::parse_port(port_text) {
        Ok(port) => Some(ConnectTarget { host: host.to_owned(), port }),
        Err(_) => None,
    }
}

/// What a request line asks for: a method, a target and a version, each
/// followed by one space but the last.
pub open spec fn request_line(line: Seq<char>) -> Result<ConnectTargetView, ParseErrorView> {
    match line.index_of_first(' ') {
        None => Err(ParseErrorView::Malformed("missing request target"@)),
        Some(a) => {
            let rest = line.skip(a + 1);
            match rest.index_of_first(' ') {
                None => Err(ParseErrorView::Malformed("missing HTTP version"@)),
                Some(b) => if !text::same_ignoring_case(line.take(a), "CONNECT"@) {
                    Err(ParseErrorView::NotConnect)
                } else {
                    match authority(rest.take(b)) {
                        Some(target) => Ok(target),
                        None => Err(ParseErrorView::Malformed("invalid CONNECT target"@)),
                    }
                },
            }
        },
    }
}

/// What the headers of a request ask for. Only the first line counts.
pub open spec fn connect_request(head: Seq<u8>) -> Result<ConnectTargetView, ParseErrorView> {
    match text::first_occurrence(head, crlf()) {
        None => Err(ParseErrorView::Malformed("missing request line"@)),
        Some(end) => if vstd::utf8::valid_utf8(head.take(end)) {
            request_line(vstd::utf8::decode_utf8(head.take(end)))
        } else {
            Err(ParseErrorView::Malformed("non-UTF-8 request line"@))
        },
    }
}

/// A result as its contracts speak of it.
pub open spec fn parsed_view(
    r: Result<ConnectTarget, ParseError>,
) -> Result<ConnectTargetView, ParseErrorView> {
    match r {
        Ok(t) => Ok(t@),
        Err(e) => Err(e@),
    }
}

/// Reads the request line of `head`.
pub fn parse_connect(head: &[u8]) -> (target: Result<ConnectTarget, ParseError>)
    ensures
        parsed_view(target) == connect_request(head@),
{
    let pat: [u8; 2] = [13, 10];
    assert(pat@ =~= crlf());
    let line_end: usize = match text::find_bytes(head, &pat) {
        Some(end) => end,
        None => return Err(ParseError::Malformed("missing request line")),
    };
    let bytes: &[u8] = vstd::slice::slice_subrange(head, 0, line_end);
    assert(bytes@ =~= head@.take(line_end as int));
    let line: &str = match text::utf8_text(bytes) {
        Some(line) => line,
        None => return Err(ParseError::Malformed("non-UTF-8 request line")),
    };
    let n: usize = line.unicode_len();
    proof {
        line@.index_of_first_ensures(' ');
    }
    let a: usize = match text::find_char(line, ' ') {
        Some(a) => a,
        None => return Err(ParseError::Malformed("missing request target")),
    };
    let method: &str = line.substring_char(0, a);
    assert(method@ =~= line@.take(a as int));
    let rest: &str = line.substring_char(a + 1, n);
    assert(rest@ =~= line@.skip(a + 1));
    proof {
        rest@.index_of_first_ensures(' ');
    }
    let b: usize = match text::find_char(rest, ' ') {
        Some(b) => b,
        None => return Err(ParseError::Malformed("missing HTTP version")),
    };
    if !text::eq_ignore_case(method, "CONNECT") {
        return Err(ParseError::NotConnect);
    }
    let target: &str = rest.substring_char(0, b);
    assert(target@ =~= rest@.take(b as int));
    match parse_authority(target) {
        Some(t) => Ok(t),
        None => Err(ParseError::Malformed("invalid CONNECT target")),
    }
}

/// `parse_connect`, with the reason of a refusal in words.
pub fn parse_connect_for_test(head: &[u8]) -> (target: Result<ConnectTarget, &'static str>)
    ensures
        match (target, connect_request(head@)) {
            (Ok(t), Ok(want)) => t@ == want,
            (Err(m), Err(ParseErrorView::Malformed(want))) => m@ == want,
            (Err(m), Err(ParseErrorView::NotConnect)) => m@ == "not CONNECT"@,
            _ => false,
        },
{
    match parse_connect(head) {
        Ok(t) => Ok(t),
        Err(ParseError::Malformed(m)) => Err(m),
        Err(ParseError::NotConnect) => Err("not CONNECT"),
        Err(ParseError::TooLarge) => Err("too large"),
        Err(ParseError::Io(_)) => Err("io"),
    }
}

/// What the bytes read so far amount to: a target and the bytes behind the
/// headers, or nothing yet.
pub open spec fn request_in(
    buf: Seq<u8>,
) -> Result<Option<(ConnectTargetView, Seq<u8>)>, ParseErrorView> {
    if buf.len() > MAX_HEADER_BYTES {
        Err(ParseErrorView::TooLarge)
    } else {
        match header_end(buf) {
            None => Ok(None),
            Some(end) => match connect_request(buf.take(end)) {
                Ok(target) => Ok(Some((target, buf.skip(end)))),
                Err(e) => Err(e),
            },
        }
    }
}

/// Looks for a whole request in the bytes read so far. `Ok(None)` asks for
/// more of them.
pub fn read_request(buf: &[u8]) -> (request: Result<Option<(ConnectTarget, Vec<u8>)>, ParseError>)
    ensures
        match request {
            Ok(Some((target, leftover))) => request_in(buf@) == Ok::<
                Option<(ConnectTargetView, Seq<u8>)>,
                ParseErrorView,
            >(Some((target@, leftover@))),
            Ok(None) => request_in(buf@) == Ok::<
                Option<(ConnectTargetView, Seq<u8>)>,
                ParseErrorView,
            >(None),
            Err(e) => request_in(buf@) == Err::<
                Option<(ConnectTargetView, Seq<u8>)>,
                ParseErrorView,
            >(e@),
        },
{
    let n: usize = buf.len();
    if n > MAX_HEADER_BYTES {
        return Err(ParseError::TooLarge);
    }
    let end: usize = match find_header_end(buf) {
        Some(end) => end,
        None => return Ok(None),
    };
    let head: &[u8] = vstd::slice::slice_subrange(buf, 0, end);
    assert(head@ =~= buf@.take(end as int));
    match parse_connect(head) {
        Ok(target) => {
            let rest: &[u8] = vstd::slice::slice_subrange(buf, end, n);
            assert(rest@ =~= buf@.skip(end as int));
            Ok(Some((target, vstd::slice::slice_to_vec(rest))))
        },
        Err(e) => Err(e),
    }
}

/// The reply to a request that was read and is refused.
pub open spec fn refusal_text(e: ParseErrorView) -> Option<Seq<char>> {
    match e {
        ParseErrorView::TooLarge => Some(
            "HTTP/1.1 431 Request Header Fields Too Large\r\nConnection: close\r\n\r\n"@,
        ),
        ParseErrorView::NotConnect => Some(
            "HTTP/1.1 405 Method Not Allowed\r\nAllow: CONNECT\r\nConnection: close\r\n\r\n"@,
        ),
        ParseErrorView::Malformed(m) => Some(
            "HTTP/1.1 400 Bad Request\r\nConnection: close\r\nContent-Length: "@ + text::decimal(
                vstd::utf8::encode_utf8(m).len(),
            ) + "\r\n\r\n"@ + m,
        ),
        ParseErrorView::Io(_) => None,
    }
}

/// The reply to a request for which no tunnel could be had, and why.
pub open spec fn gateway_text(reason: Seq<char>) -> Seq<char> {
    "HTTP/1.1 502 Bad Gateway\r\nConnection: close\r\n\r\n"@ + reason
}

/// The reply that announces the tunnel.
pub open spec fn established_text() -> Seq<char> {
    "HTTP/1.1 200 Connection Established\r\n\r\n"@
}

/// The reply to a request that was read and is refused. A failed read has none.
pub fn refusal(e: &ParseError) -> (reply: Option<Vec<u8>>)
    ensures
        match reply {
            Some(bytes) => refusal_text(e@) is Some && bytes@ == vstd::utf8::encode_utf8(
                refusal_text(e@)->0,
            ),
            None => refusal_text(e@) is None,
        },
{
    match e {
        ParseError::TooLarge => Some(
            "HTTP/1.1 431 Request Header Fields Too Large\r\nConnection: close\r\n\r\n".as_bytes_vec(),
        ),
        ParseError::NotConnect => Some(
            "HTTP/1.1 405 Method Not Allowed\r\nAllow: CONNECT\r\nConnection: close\r\n\r\n".as_bytes_vec(),
        ),
        ParseError::Malformed(m) => {
            let mut body =
                "HTTP/1.1 400 Bad Request\r\nConnection: close\r\nContent-Length: ".to_owned();
            let len: usize = m.as_bytes().len();
            text::push_decimal(&mut body, len as u64);
            body.append("\r\n\r\n");
            body.append(*m);
            Some(body.as_str().as_bytes_vec())
        },
        ParseError::Io(_) => None,
    }
}

/// The reply to a request for which no tunnel could be had.
pub fn bad_gateway(reason: &str) -> (reply: Vec<u8>)
    ensures
        reply@ == vstd::utf8::encode_utf8(gateway_text(reason@)),
{
    let mut body = "HTTP/1.1 502 Bad Gateway\r\nConnection: close\r\n\r\n".to_owned();
    body.append(reason);
    body.as_str().as_bytes_vec()
}

/// The end of the headers, once it has been read, does not move when more
/// bytes come in.
pub proof fn law_header_end_stable(buf: Seq<u8>, more: Seq<u8>)
    requires
        header_end(buf) is Some,
    ensures
        header_end(buf + more) == header_end(buf),
{
    text::lemma_first_occurrence_stable(buf, more, blank_line());
}

/// Only the request line counts: whatever follows it, the headers included,
/// changes nothing.
pub proof fn law_only_the_request_line(head: Seq<u8>, more: Seq<u8>)
    requires
        text::first_occurrence(head, crlf()) is Some,
    ensures
        connect_request(head + more) == connect_request(head),
{
    text::lemma_first_occurrence(head, crlf());
    text::lemma_first_occurrence_stable(head, more, crlf());
    let end = text::first_occurrence(head, crlf())->0;
    assert((head + more).take(end) =~= head.take(end));
}

/// `host:port` names that host and that port.
pub proof fn law_authority_plain(host: Seq<char>, port: u16)
    requires
        host.len() > 0,
        host[0] != '[',
    ensures
        authority(host + seq![':'] + text::decimal(port as nat)) == Some(
            ConnectTargetView { host, port },
        ),
{
    let digits = text::decimal(port as nat);
    let s = host + seq![':'] + digits;
    text::lemma_decimal_value(port as nat);
    text::lemma_port_of_decimal(port);
    assert forall|j: int| host.len() < j < s.len() implies s[j] != ':' by {
        assert('0' <= digits[j - host.len() - 1] <= '9');
    }
    text::lemma_index_of_last(s, ':', host.len() as int);
    assert(s.take(host.len() as int) =~= host);
    assert(s.skip(host.len() as int + 1) =~= digits);
}

/// `[host]:port` names that host, without the brackets, and that port.
pub proof fn law_authority_bracketed(host: Seq<char>, port: u16)
    requires
        !host.contains(']'),
    ensures
        authority(seq!['['] + host + seq![']', ':'] + text::decimal(port as nat)) == Some(
            ConnectTargetView { host, port },
        ),
{
    let digits = text::decimal(port as nat);
    let s = seq!['['] + host + seq![']', ':'] + digits;
    let rest = s.drop_first();
    text::lemma_port_of_decimal(port);
    assert forall|j: int| 0 <= j < host.len() implies rest[j] != ']' by {
        assert(rest[j] == host[j]);
        assert(host.contains(host[j]));
    }
    text::lemma_index_of_first(rest, ']', host.len() as int);
    assert(rest.take(host.len() as int) =~= host);
    assert(rest.skip(host.len() as int + 1) =~= seq![':'] + digits);
    assert((seq![':'] + digits).drop_first() =~= digits);
}

/// A request line with the method `CONNECT`, in any case, asks for what its
/// second field names, whatever the version.
pub proof fn law_connect_line(method: Seq<char>, target: Seq<char>, version: Seq<char>)
    requires
        text::same_ignoring_case(method, "CONNECT"@),
        !target.contains(' '),
    ensures
        request_line(method + seq![' '] + (target + seq![' '] + version)) == (match authority(
            target,
        ) {
            Some(t) => Ok(t),
            None => Err(ParseErrorView::Malformed("invalid CONNECT target"@)),
        }),
{
    reveal_strlit("CONNECT");
    let rest = target + seq![' '] + version;
    let line = method + seq![' '] + rest;
    assert forall|j: int| 0 <= j < method.len() implies line[j] != ' ' by {
        assert(text::same_letter(method[j], "CONNECT"@[j]));
    }
    text::lemma_index_of_first(line, ' ', method.len() as int);
    assert(line.take(method.len() as int) =~= method);
    assert(line.skip(method.len() as int + 1) =~= rest);
    assert forall|j: int| 0 <= j < target.len() implies rest[j] != ' ' by {
        assert(rest[j] == target[j]);
        assert(target.contains(target[j]));
    }
    text::lemma_index_of_first(rest, ' ', target.len() as int);
    assert(rest.take(target.len() as int) =~= target);
}

/// Whether no line end stands in `line`.
pub open spec fn one_line(line: Seq<char>) -> bool {
    forall|i: int| 0 <= i < line.len() - 1 ==> !(#[trigger] line[i] == '\r' && line[i + 1] == '\n')
}

proof fn lemma_first_byte(line: Seq<char>)
    requires
        line.len() > 0,
    ensures
        vstd::utf8::encode_utf8(line).len() > 0,
        vstd::utf8::encode_utf8(line)[0] == 13 ==> line[0] == '\r',
        vstd::utf8::encode_utf8(line)[0] == 10 ==> line[0] == '\n',
{
    vstd::utf8::encode_utf8_first_scalar(line);
    let b = vstd::utf8::encode_utf8(line)[0];
    if b < 0x80 {
        assert(b & 0x7f == b) by (bit_vector)
            requires
                b < 0x80,
        ;
        vstd::utf8::char_u32_cast(line[0], b as u32);
    }
}

proof fn lemma_encoded_line(line: Seq<char>)
    requires
        one_line(line),
    ensures
        forall|k: int| !#[trigger] text::occurs_at(vstd::utf8::encode_utf8(line), crlf(), k),
    decreases line.len(),
{
    let bytes = vstd::utf8::encode_utf8(line);
    if line.len() > 0 {
        let rest = line.drop_first();
        let tail = vstd::utf8::encode_utf8(rest);
        let w = vstd::utf8::encode_scalar(line[0] as u32).len() as int;
        assert(one_line(rest)) by {
            assert forall|i: int| 0 <= i < rest.len() - 1 implies !(#[trigger] rest[i] == '\r'
                && rest[i + 1] == '\n') by {
                assert(line[i + 1] == rest[i]);
                assert(line[i + 2] == rest[i + 1]);
            }
        }
        lemma_encoded_line(rest);
        vstd::utf8::encode_utf8_first_scalar(line);
        lemma_first_byte(line);
        if rest.len() > 0 {
            lemma_first_byte(rest);
        }
        assert forall|k: int| !#[trigger] text::occurs_at(bytes, crlf(), k) by {
            if text::occurs_at(bytes, crlf(), k) {
                assert(bytes.subrange(k, k + 2)[0] == 13 && bytes.subrange(k, k + 2)[1] == 10);
                assert(bytes[k] == 13 && bytes[k + 1] == 10);
                if k >= w {
                    assert(bytes.subrange(k, k + 2) =~= tail.subrange(k - w, k - w + 2));
                    assert(text::occurs_at(tail, crlf(), k - w));
                } else if k == w - 1 {
                    assert(w == 1);
                    assert(tail[0] == 10);
                    assert(line[0] == '\r' && line[1] == '\n');
                }
            }
        }
    }
}

/// Headers that begin with the line `line` ask for what `line` asks for.
pub proof fn law_request_of_line(line: Seq<char>, more: Seq<u8>)
    requires
        one_line(line),
    ensures
        connect_request(vstd::utf8::encode_utf8(line) + crlf() + more) == request_line(line),
{
    let bytes = vstd::utf8::encode_utf8(line);
    let n = bytes.len() as int;
    let head = bytes + crlf() + more;
    lemma_encoded_line(line);
    assert(head.subrange(n, n + 2) =~= crlf());
    assert forall|j: int| 0 <= j < n implies !#[trigger] text::occurs_at(head, crlf(), j) by {
        if text::occurs_at(head, crlf(), j) {
            assert(head.subrange(j, j + 2)[1] == 10);
            assert(head[j + 1] == 10);
            assert(j + 1 < n);
            assert(head.subrange(j, j + 2) =~= bytes.subrange(j, j + 2));
            assert(text::occurs_at(bytes, crlf(), j));
        }
    }
    text::lemma_first_occurrence_is(head, crlf(), n);
    assert(head.take(n) =~= bytes);
    vstd::utf8::encode_utf8_valid_utf8(line);
    vstd::utf8::encode_utf8_decode_utf8(line);
}

/// A request with the method `CONNECT` asks for what its second field names,
/// whatever the case of the method, the version and the headers.
pub proof fn law_connect_request(
    method: Seq<char>,
    target: Seq<char>,
    version: Seq<char>,
    more: Seq<u8>,
)
    requires
        text::same_ignoring_case(method, "CONNECT"@),
        !target.contains(' '),
        one_line(target),
        one_line(version),
    ensures
        connect_request(
            vstd::utf8::encode_utf8(method + seq![' '] + (target + seq![' '] + version)) + crlf()
                + more,
        ) == (match authority(target) {
            Some(t) => Ok(t),
            None => Err(ParseErrorView::Malformed("invalid CONNECT target"@)),
        }),
{
    law_connect_line(method, target, version);
    lemma_line_of_fields(method, target, version);
    law_request_of_line(method + seq![' '] + (target + seq![' '] + version), more);
}

/// A `CONNECT` request for `host:port` is understood as that host and that
/// port, whatever the case of the method, the version and the headers.
pub proof fn law_connect_is_understood(
    method: Seq<char>,
    host: Seq<char>,
    port: u16,
    version: Seq<char>,
    more: Seq<u8>,
)
    requires
        text::same_ignoring_case(method, "CONNECT"@),
        host.len() > 0,
        host[0] != '[',
        !host.contains(' '),
        one_line(host),
        one_line(version),
    ensures
        connect_request(
            vstd::utf8::encode_utf8(
                method + seq![' '] + (host + seq![':'] + text::decimal(port as nat) + seq![' ']
                    + version),
            ) + crlf() + more,
        ) == Ok::<ConnectTargetView, ParseErrorView>(ConnectTargetView { host, port }),
{
    lemma_target_field(host, port);
    law_authority_plain(host, port);
    law_connect_request(method, host + seq![':'] + text::decimal(port as nat), version, more);
}

proof fn lemma_target_field(host: Seq<char>, port: u16)
    requires
        !host.contains(' '),
        one_line(host),
    ensures
        !(host + seq![':'] + text::decimal(port as nat)).contains(' '),
        one_line(host + seq![':'] + text::decimal(port as nat)),
{
    let digits = text::decimal(port as nat);
    let target = host + seq![':'] + digits;
    text::lemma_decimal_value(port as nat);
    assert forall|j: int| host.len() < j < target.len() implies '0' <= #[trigger] target[j]
        <= '9' by {
        assert(target[j] == digits[j - host.len() - 1]);
    }
    assert forall|j: int| 0 <= j < target.len() implies target[j] != ' ' by {
        if j < host.len() {
            assert(target[j] == host[j]);
            assert(host.contains(host[j]));
        }
    }
    assert forall|i: int| 0 <= i < target.len() - 1 implies !(#[trigger] target[i] == '\r'
        && target[i + 1] == '\n') by {
        if i + 1 < host.len() {
            assert(target[i] == host[i]);
            assert(target[i + 1] == host[i + 1]);
        } else if i + 1 > host.len() {
            assert('0' <= target[i + 1] <= '9');
        }
    }
}

proof fn lemma_line_of_fields(method: Seq<char>, target: Seq<char>, version: Seq<char>)
    requires
        text::same_ignoring_case(method, "CONNECT"@),
        one_line(target),
        one_line(version),
    ensures
        one_line(method + seq![' '] + (target + seq![' '] + version)),
{
    reveal_strlit("CONNECT");
    let line = method + seq![' '] + (target + seq![' '] + version);
    let m = method.len() as int;
    let t = target.len() as int;
    assert forall|i: int| 0 <= i < line.len() - 1 implies !(#[trigger] line[i] == '\r' && line[i
        + 1] == '\n') by {
        if i < m {
            assert(text::same_letter(method[i], "CONNECT"@[i]));
        } else if m < i && i < m + t {
            assert(line[i] == target[i - m - 1]);
            assert(line[i + 1] == target[i - m]);
        } else if i > m + 1 + t {
            assert(line[i] == version[i - m - t - 2]);
            assert(line[i + 1] == version[i - m - t - 1]);
        }
    }
}

/// The same for a host in brackets, which may hold colons.
pub proof fn law_bracketed_connect_is_understood(
    method: Seq<char>,
    host: Seq<char>,
    port: u16,
    version: Seq<char>,
    more: Seq<u8>,
)
    requires
        text::same_ignoring_case(method, "CONNECT"@),
        !host.contains(']'),
        !host.contains(' '),
        one_line(host),
        one_line(version),
    ensures
        connect_request(
            vstd::utf8::encode_utf8(
                method + seq![' '] + (seq!['['] + host + seq![']', ':'] + text::decimal(
                    port as nat,
                ) + seq![' '] + version),
            ) + crlf() + more,
        ) == Ok::<ConnectTargetView, ParseErrorView>(ConnectTargetView { host, port }),
{
    let bracketed = seq!['['] + host + seq![']'];
    let target = seq!['['] + host + seq![']', ':'] + text::decimal(port as nat);
    assert(target =~= bracketed + seq![':'] + text::decimal(port as nat));
    assert forall|j: int| 0 <= j < bracketed.len() implies bracketed[j] != ' ' by {
        if 0 < j && j <= host.len() {
            assert(bracketed[j] == host[j - 1]);
            assert(host.contains(host[j - 1]));
        }
    }
    assert forall|i: int| 0 <= i < bracketed.len() - 1 implies !(#[trigger] bracketed[i] == '\r'
        && bracketed[i + 1] == '\n') by {
        if 0 < i && i < host.len() {
            assert(bracketed[i] == host[i - 1]);
            assert(bracketed[i + 1] == host[i]);
        }
    }
    lemma_target_field(bracketed, port);
    law_authority_bracketed(host, port);
    law_connect_request(method, target, version, more);
}

/// The method of a request line.
pub open spec fn method_of(line: Seq<char>) -> Seq<char> {
    match line.index_of_first(' ') {
        Some(a) => line.take(a),
        None => line,
    }
}

/// Only `CONNECT` is served. A request that is understood has that method, and
/// a whole request line with another method is refused for it.
pub proof fn law_only_connect(line: Seq<char>)
    ensures
        request_line(line) is Ok ==> text::same_ignoring_case(method_of(line), "CONNECT"@),
        ({
            &&& line.index_of_first(' ') matches Some(a)
            &&& line.skip(a + 1).contains(' ')
            &&& !text::same_ignoring_case(method_of(line), "CONNECT"@)
        }) <==> request_line(line) == Err::<ConnectTargetView, ParseErrorView>(
            ParseErrorView::NotConnect,
        ),
{
    if let Some(a) = line.index_of_first(' ') {
        line.skip(a + 1).index_of_first_ensures(' ');
    }
}

/// Reading headers gives a target, a wrong method or a malformation, never
/// anything else.
pub proof fn law_request_errors(head: Seq<u8>)
    ensures
        match connect_request(head) {
            Ok(_) => true,
            Err(e) => e is NotConnect || e is Malformed,
        },
{
}

proof fn lemma_encode_concat(a: Seq<char>, b: Seq<char>)
    ensures
        vstd::utf8::encode_utf8(a + b) == vstd::utf8::encode_utf8(a) + vstd::utf8::encode_utf8(b),
    decreases a.len(),
{
    if a.len() == 0 {
        assert(a + b =~= b);
        assert(vstd::utf8::encode_utf8(a) + vstd::utf8::encode_utf8(b) =~= vstd::utf8::encode_utf8(
            b,
        ));
    } else {
        lemma_encode_concat(a.drop_first(), b);
        assert((a + b).drop_first() =~= a.drop_first() + b);
        assert(vstd::utf8::encode_utf8(a + b) =~= vstd::utf8::encode_utf8(a)
            + vstd::utf8::encode_utf8(b));
    }
}

/// The reply to a malformed request says why, and the number of bytes that it
/// announces for its body is the number of bytes of the reason.
pub proof fn law_content_length(reason: Seq<char>)
    ensures
        ({
            let body = vstd::utf8::encode_utf8(reason);
            let announced = text::decimal(body.len());
            let head = "HTTP/1.1 400 Bad Request\r\nConnection: close\r\nContent-Length: "@ + announced
                + "\r\n\r\n"@;
            &&& text::all_digits(announced)
            &&& text::digits_value(announced) == body.len()
            &&& refusal_text(ParseErrorView::Malformed(reason)) is Some
            &&& vstd::utf8::encode_utf8(refusal_text(ParseErrorView::Malformed(reason))->0)
                == vstd::utf8::encode_utf8(head) + body
        }),
{
    let body = vstd::utf8::encode_utf8(reason);
    let announced = text::decimal(body.len());
    let head = "HTTP/1.1 400 Bad Request\r\nConnection: close\r\nContent-Length: "@ + announced
        + "\r\n\r\n"@;
    text::lemma_decimal_value(body.len());
    lemma_encode_concat(head, reason);
}

/// Complete headers have a complete request line.
pub proof fn lemma_headers_hold_the_line(buf: Seq<u8>)
    requires
        header_end(buf) is Some,
    ensures
        text::first_occurrence(buf.take(header_end(buf)->0), crlf()) is Some,
{
    text::lemma_first_occurrence(buf, blank_line());
    let p = text::first_occurrence(buf, blank_line())->0;
    let head = buf.take(p + 4);
    assert(buf.subrange(p, p + 4) == blank_line());
    assert(head.subrange(p, p + 2) =~= buf.subrange(p, p + 4).subrange(0, 2));
    assert(head.subrange(p, p + 2) =~= crlf());
    assert(text::occurs_at(head, crlf(), p));
    text::lemma_first_occurrence(head, crlf());
}

/// A target is its host and its port.
pub proof fn law_connect_target_view(target: ConnectTarget)
    ensures
        target@ == (ConnectTargetView { host: target.host@, port: target.port }),
{
}

/// A fault is what it is, and one that is put in words is those words.
pub proof fn law_parse_error_view(e: ParseError)
    ensures
        match e {
            ParseError::TooLarge => e@ == ParseErrorView::TooLarge,
            ParseError::NotConnect => e@ == ParseErrorView::NotConnect,
            ParseError::Malformed(m) => e@ == ParseErrorView::Malformed(m@),
            ParseError::Io(err) => e@ == ParseErrorView::Io(err),
        },
{
}

/// A result is its target, or its fault.
pub proof fn law_parsed_view(r: Result<ConnectTarget, ParseError>)
    ensures
        match r {
            Ok(t) => parsed_view(r) == Ok::<ConnectTargetView, ParseErrorView>(t@),
            Err(e) => parsed_view(r) == Err::<ConnectTargetView, ParseErrorView>(e@),
        },
{
}

/// The headers end behind the first CR LF CR LF, and have no end where there is
/// none.
pub proof fn law_header_end(buf: Seq<u8>, j: int)
    ensures
        ({
            let ends_at = |e: int|
                4 <= e <= buf.len() && buf[e - 4] == 13 && buf[e - 3] == 10 && buf[e - 2] == 13
                    && buf[e - 1] == 10;
            match header_end(buf) {
                Some(e) => ends_at(e) && (j < e ==> !ends_at(j)),
                None => !ends_at(j),
            }
        }),
{
    text::lemma_first_occurrence(buf, blank_line());
    if let Some(e) = header_end(buf) {
        let found = buf.subrange(e - 4, e);
        assert(found == blank_line());
        assert(found[0] == 13 && found[1] == 10 && found[2] == 13 && found[3] == 10);
        assert(buf[e - 4] == found[0] && buf[e - 3] == found[1]);
        assert(buf[e - 2] == found[2] && buf[e - 1] == found[3]);
    }
    if 4 <= j <= buf.len() && buf[j - 4] == 13 && buf[j - 3] == 10 && buf[j - 2] == 13 && buf[j - 1]
        == 10 {
        assert(buf.subrange(j - 4, j) =~= blank_line());
        assert(text::occurs_at(buf, blank_line(), j - 4));
    }
}

/// What stands in front of the last colon of a text without a bracket in front
/// is the host, and what stands behind it the port.
pub proof fn law_authority_splits_at_last_colon(host: Seq<char>, port: Seq<char>)
    requires
        host.len() > 0 ==> host[0] != '[',
        !port.contains(':'),
    ensures
        authority(host + seq![':'] + port) == (match text::port_value(port) {
            Some(p) if host.len() > 0 => Some(ConnectTargetView { host, port: p }),
            _ => None,
        }),
{
    let s = host + seq![':'] + port;
    assert forall|j: int| host.len() < j < s.len() implies s[j] != ':' by {
        assert(s[j] == port[j - host.len() - 1]);
        assert(port.contains(port[j - host.len() - 1]));
    }
    text::lemma_index_of_last(s, ':', host.len() as int);
    assert(s.take(host.len() as int) =~= host);
    assert(s.skip(host.len() as int + 1) =~= port);
}

/// What stands between brackets in front is the host, and what follows a colon
/// right behind them the port. Anything else behind the brackets is refused.
pub proof fn law_authority_splits_at_bracket(host: Seq<char>, after: Seq<char>)
    requires
        !host.contains(']'),
    ensures
        authority(seq!['['] + host + seq![']'] + after) == (if after.len() > 0 && after[0] == ':' {
            match text::port_value(after.skip(1)) {
                Some(p) => Some(ConnectTargetView { host, port: p }),
                None => None,
            }
        } else {
            None
        }),
{
    let s = seq!['['] + host + seq![']'] + after;
    let rest = s.drop_first();
    assert forall|j: int| 0 <= j < host.len() implies rest[j] != ']' by {
        assert(rest[j] == host[j]);
        assert(host.contains(host[j]));
    }
    text::lemma_index_of_first(rest, ']', host.len() as int);
    assert(rest.take(host.len() as int) =~= host);
    assert(rest.skip(host.len() as int + 1) =~= after);
    assert(after.len() > 0 ==> after.drop_first() =~= after.skip(1));
}

/// A text without a colon is refused, and so is one with an opening bracket in
/// front and no closing one.
pub proof fn law_authority_needs_its_marks(s: Seq<char>)
    ensures
        !s.contains(':') ==> authority(s) is None,
        s.len() > 0 && s[0] == '[' && !s.contains(']') ==> authority(s) is None,
{
    s.index_of_last_ensures(':');
    if s.len() > 0 && s[0] == '[' {
        let rest = s.drop_first();
        rest.index_of_first_ensures(']');
        if let Some(end) = rest.index_of_first(']') {
            assert(s[end + 1] == ']');
            let after = rest.skip(end + 1);
            if after.len() > 0 && after[0] == ':' {
                assert(s[end + 2] == ':');
            }
        }
    }
}

/// A request line is cut at its first two spaces. With another method than
/// `CONNECT` it is refused for that, and otherwise it asks for what its second
/// field names; what stands behind the second space does not matter.
pub proof fn law_request_line_fields(method: Seq<char>, target: Seq<char>, version: Seq<char>)
    requires
        !method.contains(' '),
        !target.contains(' '),
    ensures
        request_line(method + seq![' '] + (target + seq![' '] + version)) == (
        if text::same_ignoring_case(method, "CONNECT"@) {
            match authority(target) {
                Some(t) => Ok::<ConnectTargetView, ParseErrorView>(t),
                None => Err(ParseErrorView::Malformed("invalid CONNECT target"@)),
            }
        } else {
            Err(ParseErrorView::NotConnect)
        }),
{
    lemma_first_space(method, target + seq![' '] + version);
    lemma_first_space(target, version);
}

proof fn lemma_first_space(field: Seq<char>, more: Seq<char>)
    requires
        !field.contains(' '),
    ensures
        ({
            let line = field + seq![' '] + more;
            &&& line.index_of_first(' ') == Some(field.len() as int)
            &&& line.take(field.len() as int) == field
            &&& line.skip(field.len() as int + 1) == more
        }),
{
    let line = field + seq![' '] + more;
    assert forall|j: int| 0 <= j < field.len() implies line[j] != ' ' by {
        assert(line[j] == field[j]);
        assert(field.contains(field[j]));
    }
    text::lemma_index_of_first(line, ' ', field.len() as int);
    assert(line.take(field.len() as int) =~= field);
    assert(line.skip(field.len() as int + 1) =~= more);
}

/// A request line without a space has no target, and one with a single space
/// no version, whatever the method is.
pub proof fn law_short_request_lines(method: Seq<char>, target: Seq<char>)
    requires
        !method.contains(' '),
        !target.contains(' '),
    ensures
        request_line(method) == Err::<ConnectTargetView, ParseErrorView>(
            ParseErrorView::Malformed("missing request target"@),
        ),
        request_line(method + seq![' '] + target) == Err::<ConnectTargetView, ParseErrorView>(
            ParseErrorView::Malformed("missing HTTP version"@),
        ),
{
    method.index_of_first_ensures(' ');
    lemma_first_space(method, target);
    target.index_of_first_ensures(' ');
}

/// Bytes without a CR LF hold no request line, and bytes in front of the first
/// CR LF that are no UTF-8 are none either. Those that are say what is asked
/// for, whatever follows.
pub proof fn law_request_line_faults(bytes: Seq<u8>, more: Seq<u8>)
    requires
        forall|i: int| 0 <= i < bytes.len() - 1 ==> !(#[trigger] bytes[i] == 13 && bytes[i + 1]
            == 10),
    ensures
        connect_request(bytes) == Err::<ConnectTargetView, ParseErrorView>(
            ParseErrorView::Malformed("missing request line"@),
        ),
        !vstd::utf8::valid_utf8(bytes) ==> connect_request(bytes + seq![13u8, 10u8] + more)
            == Err::<ConnectTargetView, ParseErrorView>(
            ParseErrorView::Malformed("non-UTF-8 request line"@),
        ),
        vstd::utf8::valid_utf8(bytes) ==> connect_request(bytes + seq![13u8, 10u8] + more)
            == request_line(vstd::utf8::decode_utf8(bytes)),
{
    let n = bytes.len() as int;
    let head = bytes + seq![13u8, 10u8] + more;
    text::lemma_first_occurrence(bytes, crlf());
    assert forall|j: int| !#[trigger] text::occurs_at(bytes, crlf(), j) by {
        if text::occurs_at(bytes, crlf(), j) {
            assert(bytes.subrange(j, j + 2)[0] == 13 && bytes.subrange(j, j + 2)[1] == 10);
            assert(bytes[j] == 13 && bytes[j + 1] == 10);
        }
    }
    assert(head.subrange(n, n + 2) =~= crlf());
    assert forall|j: int| 0 <= j < n implies !#[trigger] text::occurs_at(head, crlf(), j) by {
        if text::occurs_at(head, crlf(), j) {
            assert(head.subrange(j, j + 2)[0] == 13 && head.subrange(j, j + 2)[1] == 10);
            assert(head[j] == 13 && head[j + 1] == 10);
            assert(bytes[j] == head[j]);
            assert(j + 1 < n ==> bytes[j + 1] == head[j + 1]);
        }
    }
    text::lemma_first_occurrence_is(head, crlf(), n);
    assert(head.take(n) =~= bytes);
}

/// More than 8192 bytes are too many. Fewer are a request once its headers are
/// complete: the headers say what it asks for, and what follows them is handed
/// on, all of it. Until then there is no request.
pub proof fn law_request_in(buf: Seq<u8>)
    ensures
        MAX_HEADER_BYTES == 8192,
        buf.len() > 8192 ==> request_in(buf) == Err::<
            Option<(ConnectTargetView, Seq<u8>)>,
            ParseErrorView,
        >(ParseErrorView::TooLarge),
        buf.len() <= 8192 ==> match header_end(buf) {
            None => request_in(buf) == Ok::<
                Option<(ConnectTargetView, Seq<u8>)>,
                ParseErrorView,
            >(None),
            Some(end) => match request_in(buf) {
                Ok(Some((target, leftover))) => {
                    &&& connect_request(buf.take(end)) == Ok::<ConnectTargetView, ParseErrorView>(
                        target,
                    )
                    &&& buf.take(end) + leftover == buf
                },
                Ok(None) => false,
                Err(e) => connect_request(buf.take(end)) == Err::<
                    ConnectTargetView,
                    ParseErrorView,
                >(e),
            },
        },
{
    if let Some(end) = header_end(buf) {
        text::lemma_first_occurrence(buf, blank_line());
        assert(buf.take(end) + buf.skip(end) =~= buf);
    }
}

/// What is sent for each fault: a status line with its number and its words, a
/// note that the connection closes, and whatever else the status calls for. A
/// failed read is not answered.
pub proof fn law_refusal_texts(reason: Seq<char>, broken: std::io::Error)
    ensures
        refusal_text(ParseErrorView::TooLarge) == Some(
            "HTTP/1.1 431 Request Header Fields Too Large\r\nConnection: close\r\n\r\n"@,
        ),
        refusal_text(ParseErrorView::NotConnect) == Some(
            "HTTP/1.1 405 Method Not Allowed\r\nAllow: CONNECT\r\nConnection: close\r\n\r\n"@,
        ),
        refusal_text(ParseErrorView::Malformed(reason)) == Some(
            "HTTP/1.1 400 Bad Request\r\nConnection: close\r\nContent-Length: "@ + text::decimal(
                vstd::utf8::encode_utf8(reason).len(),
            ) + "\r\n\r\n"@ + reason,
        ),
        refusal_text(ParseErrorView::Io(broken)) is None,
        gateway_text(reason) == "HTTP/1.1 502 Bad Gateway\r\nConnection: close\r\n\r\n"@ + reason,
        established_text() == "HTTP/1.1 200 Connection Established\r\n\r\n"@,
{
}

} // verus!
