//! One client connection, from its first byte to the end of the tunnel.
//!
//! A `Connection` is what has to be done next; an `Event` is what came of it.

use vstd::prelude::*;

use crate::http;
use crate::http::{ConnectTarget, ParseError};
use crate::ssh;
use crate::text;

verus! {

/// The most bytes that one read takes from a client.
pub const READ_SIZE: usize = 1024;

/// What a connection waits for.
#[derive(Debug)]
pub enum Connection {
    /// Read from the client. `buf` is what has come so far.
    Reading { buf: Vec<u8> },
    /// Send `reply` to the client, as far as it takes it, and close.
    Refusing { reply: Vec<u8> },
    /// Ask whether the SSH session is closed.
    CheckingSession { target: ConnectTarget, leftover: Vec<u8> },
    /// Open a tunnel to `target`.
    OpeningTunnel { target: ConnectTarget, leftover: Vec<u8> },
    /// Send `reply` to the client.
    Confirming { reply: Vec<u8>, leftover: Vec<u8> },
    /// Send `leftover`, which came behind the headers, into the tunnel.
    Forwarding { leftover: Vec<u8> },
    /// Copy both ways until both sides are done.
    Relaying,
    /// Nothing more: the connection was served, or refused.
    Finished,
    /// Nothing more: the connection broke.
    Failed(std::io::Error),
}

/// What came of the thing that a connection waited for.
#[derive(Debug)]
pub enum Event {
    /// A read gave these bytes; none at the end of the stream.
    Read(Vec<u8>),
    /// Whether the SSH session is closed.
    Session { closed: bool },
    /// The tunnel is open.
    TunnelOpened,
    /// The tunnel was not opened.
    TunnelRefused,
    /// The write or the copying is done.
    Done,
    /// The read, the write or the copying failed.
    Broken(std::io::Error),
}

/// What a `Connection` says.
pub enum ConnectionView {
    Reading { buf: Seq<u8> },
    Refusing { reply: Seq<u8> },
    CheckingSession { target: http::ConnectTargetView, leftover: Seq<u8> },
    OpeningTunnel { target: http::ConnectTargetView, leftover: Seq<u8> },
    Confirming { reply: Seq<u8>, leftover: Seq<u8> },
    Forwarding { leftover: Seq<u8> },
    Relaying,
    Finished,
    Failed(std::io::Error),
}

/// What an `Event` says.
pub enum EventView {
    Read(Seq<u8>),
    Session { closed: bool },
    TunnelOpened,
    TunnelRefused,
    Done,
    Broken(std::io::Error),
}

impl View for Connection {
    type V = ConnectionView;

    open spec fn view(&self) -> ConnectionView {
        match *self {
            Connection::Reading { buf } => ConnectionView::Reading { buf: buf@ },
            Connection::Refusing { reply } => ConnectionView::Refusing { reply: reply@ },
            Connection::CheckingSession { target, leftover } => ConnectionView::CheckingSession {
                target: target@,
                leftover: leftover@,
            },
            Connection::OpeningTunnel { target, leftover } => ConnectionView::OpeningTunnel {
                target: target@,
                leftover: leftover@,
            },
            Connection::Confirming { reply, leftover } => ConnectionView::Confirming {
                reply: reply@,
                leftover: leftover@,
            },
            Connection::Forwarding { leftover } => ConnectionView::Forwarding {
                leftover: leftover@,
            },
            Connection::Relaying => ConnectionView::Relaying,
            Connection::Finished => ConnectionView::Finished,
            Connection::Failed(e) => ConnectionView::Failed(e),
        }
    }
}

impl View for Event {
    type V = EventView;

    open spec fn view(&self) -> EventView {
        match *self {
            Event::Read(chunk) => EventView::Read(chunk@),
            Event::Session { closed } => EventView::Session { closed },
            Event::TunnelOpened => EventView::TunnelOpened,
            Event::TunnelRefused => EventView::TunnelRefused,
            Event::Done => EventView::Done,
            Event::Broken(e) => EventView::Broken(e),
        }
    }
}

/// How a connection starts: nothing has been read.
pub open spec fn fresh() -> ConnectionView {
    ConnectionView::Reading { buf: Seq::empty() }
}

/// What a connection does about a request that it cannot read.
pub open spec fn refused(e: http::ParseErrorView) -> ConnectionView {
    match e {
        http::ParseErrorView::Io(err) => ConnectionView::Failed(err),
        _ => ConnectionView::Refusing {
            reply: vstd::utf8::encode_utf8(http::refusal_text(e)->0),
        },
    }
}

/// What a connection does once `buf` has been read.
pub open spec fn examined(buf: Seq<u8>) -> ConnectionView {
    match http::request_in(buf) {
        Ok(Some((target, leftover))) => ConnectionView::CheckingSession { target, leftover },
        Ok(None) => ConnectionView::Reading { buf },
        Err(e) => refused(e),
    }
}

/// What a connection does next. An event that does not answer what it waits
/// for changes nothing.
pub open spec fn next(c: ConnectionView, event: EventView) -> ConnectionView {
    match (c, event) {
        (ConnectionView::Reading { buf }, EventView::Read(chunk)) => if chunk.len() == 0 {
            refused(http::ParseErrorView::Malformed("connection closed before request"@))
        } else {
            examined(buf + chunk)
        },
        (ConnectionView::Reading { .. }, EventView::Broken(e)) => ConnectionView::Failed(e),
        (ConnectionView::Refusing { .. }, EventView::Done) => ConnectionView::Finished,
        (ConnectionView::Refusing { .. }, EventView::Broken(_)) => ConnectionView::Finished,
        (
            ConnectionView::CheckingSession { target, leftover },
            EventView::Session { closed },
        ) => if closed {
            ConnectionView::Refusing {
                reply: vstd::utf8::encode_utf8(http::gateway_text("SSH session closed"@)),
            }
        } else {
            ConnectionView::OpeningTunnel { target, leftover }
        },
        (ConnectionView::OpeningTunnel { leftover, .. }, EventView::TunnelOpened) =>
            ConnectionView::Confirming {
            reply: vstd::utf8::encode_utf8(http::established_text()),
            leftover,
        },
        (ConnectionView::OpeningTunnel { target, .. }, EventView::TunnelRefused) =>
            ConnectionView::Refusing {
            reply: vstd::utf8::encode_utf8(
                http::gateway_text(ssh::tunnel_failure_text(target.host, target.port)),
            ),
        },
        (ConnectionView::Confirming { leftover, .. }, EventView::Done) => if leftover.len() == 0 {
            ConnectionView::Relaying
        } else {
            ConnectionView::Forwarding { leftover }
        },
        (ConnectionView::Confirming { .. }, EventView::Broken(e)) => ConnectionView::Failed(e),
        (ConnectionView::Forwarding { .. }, EventView::Done) => ConnectionView::Relaying,
        (ConnectionView::Forwarding { .. }, EventView::Broken(e)) => ConnectionView::Failed(e),
        (ConnectionView::Relaying, EventView::Done) => ConnectionView::Finished,
        (ConnectionView::Relaying, EventView::Broken(e)) => ConnectionView::Failed(e),
        _ => c,
    }
}

/// What a connection does after a series of events.
pub open spec fn run(c: ConnectionView, events: Seq<EventView>) -> ConnectionView
    decreases events.len(),
{
    if events.len() == 0 {
        c
    } else {
        next(run(c, events.drop_last()), events.last())
    }
}

fn refuse(e: ParseError) -> (c: Connection)
    ensures
        c@ == refused(e@),
{
    match http::refusal(&e) {
        Some(reply) => Connection::Refusing { reply },
        None => match e {
            ParseError::Io(err) => Connection::Failed(err),
            _ => Connection::Finished,
        },
    }
}

/// A connection that was just accepted.
pub fn handle_conn() -> (c: Connection)
    ensures
        c@ == fresh(),
        c@ == (ConnectionView::Reading { buf: Seq::empty() }),
{
    Connection::Reading { buf: Vec::new() }
}

impl Connection {
    /// Takes in what came of the thing that was waited for.
    pub fn step(self, event: Event) -> (c: Connection)
        ensures
            c@ == next(self@, event@),
    {
        match (self, event) {
            (Connection::Reading { buf }, Event::Read(chunk)) => {
                if chunk.len() == 0 {
                    return refuse(ParseError::Malformed("connection closed before request"));
                }
                let mut buf = buf;
                let mut chunk = chunk;
                buf.append(&mut chunk);
                match http::read_request(buf.as_slice()) {
                    Ok(Some((target, leftover))) => Connection::CheckingSession {
                        target,
                        leftover,
                    },
                    Ok(None) => Connection::Reading { buf },
                    Err(e) => refuse(e),
                }
            },
            (Connection::Reading { .. }, Event::Broken(e)) => refuse(ParseError::from(e)),
            (Connection::Refusing { .. }, Event::Done) => Connection::Finished,
            (Connection::Refusing { .. }, Event::Broken(_)) => Connection::Finished,
            (Connection::CheckingSession { target, leftover }, Event::Session { closed }) => {
                if closed {
                    Connection::Refusing { reply: http::bad_gateway("SSH session closed") }
                } else {
                    Connection::OpeningTunnel { target, leftover }
                }
            },
            (Connection::OpeningTunnel { leftover, .. }, Event::TunnelOpened) => {
                Connection::Confirming {
                    reply: "HTTP/1.1 200 Connection Established\r\n\r\n".as_bytes_vec(),
                    leftover,
                }
            },
            (Connection::OpeningTunnel { target, .. }, Event::TunnelRefused) => {
                let reason = ssh::tunnel_failure(target.host.as_str(), target.port);
                Connection::Refusing { reply: http::bad_gateway(reason.as_str()) }
            },
            (Connection::Confirming { leftover, .. }, Event::Done) => {
                if leftover.len() == 0 {
                    Connection::Relaying
                } else {
                    Connection::Forwarding { leftover }
                }
            },
            (Connection::Confirming { .. }, Event::Broken(e)) => Connection::Failed(e),
            (Connection::Forwarding { .. }, Event::Done) => Connection::Relaying,
            (Connection::Forwarding { .. }, Event::Broken(e)) => Connection::Failed(e),
            (Connection::Relaying, Event::Done) => Connection::Finished,
            (Connection::Relaying, Event::Broken(e)) => Connection::Failed(e),
            (c, _) => c,
        }
    }
}

/// The events of a client whose bytes come in these chunks.
pub open spec fn reads(chunks: Seq<Seq<u8>>) -> Seq<EventView> {
    chunks.map_values(|chunk: Seq<u8>| EventView::Read(chunk))
}

/// Chunks as reads give them before the end of the stream: none is empty.
pub open spec fn none_empty(chunks: Seq<Seq<u8>>) -> bool {
    forall|i: int| 0 <= i < chunks.len() ==> #[trigger] chunks[i].len() > 0
}

proof fn lemma_one_more_read(chunks: Seq<Seq<u8>>)
    requires
        chunks.len() > 0,
        none_empty(chunks),
    ensures
        none_empty(chunks.drop_last()),
        chunks.last().len() > 0,
        reads(chunks).drop_last() == reads(chunks.drop_last()),
        reads(chunks).last() == EventView::Read(chunks.last()),
        chunks.flatten() == chunks.drop_last().flatten() + chunks.last(),
{
    assert forall|i: int| 0 <= i < chunks.drop_last().len() implies #[trigger] chunks.drop_last()[i].len()
        > 0 by {
        assert(chunks[i].len() > 0);
    }
    assert(chunks[chunks.len() - 1].len() > 0);
    assert(reads(chunks).drop_last() =~= reads(chunks.drop_last()));
    assert(chunks =~= chunks.drop_last().push(chunks.last()));
    chunks.drop_last().lemma_flatten_push(chunks.last());
}

proof fn lemma_reading_holds_all(chunks: Seq<Seq<u8>>)
    requires
        none_empty(chunks),
    ensures
        run(fresh(), reads(chunks)) matches ConnectionView::Reading { buf } ==> buf
            == chunks.flatten(),
    decreases chunks.len(),
{
    if chunks.len() == 0 {
        assert(chunks.flatten() =~= Seq::<u8>::empty());
    } else {
        lemma_one_more_read(chunks);
        lemma_reading_holds_all(chunks.drop_last());
        if let ConnectionView::Reading { buf } = run(fresh(), reads(chunks.drop_last())) {
            http::law_request_errors((buf + chunks.last()).take(
                http::header_end(buf + chunks.last())->0,
            ));
        }
    }
}

/// No byte of the client is lost or read twice. When its request is complete,
/// what has been read is the headers, up to the first empty line, followed by
/// the bytes kept for the tunnel, and the target is the one that those headers
/// name.
pub proof fn law_no_byte_lost(chunks: Seq<Seq<u8>>)
    requires
        none_empty(chunks),
        chunks.len() > 0,
        run(fresh(), reads(chunks.drop_last())) is Reading,
        run(fresh(), reads(chunks)) is CheckingSession,
    ensures
        ({
            let stream = chunks.flatten();
            &&& http::header_end(stream) matches Some(end)
            &&& run(fresh(), reads(chunks)) matches ConnectionView::CheckingSession {
                target,
                leftover,
            }
            &&& stream == stream.take(end) + leftover
            &&& http::connect_request(stream.take(end)) == Ok::<
                http::ConnectTargetView,
                http::ParseErrorView,
            >(target)
        }),
{
    let stream = chunks.flatten();
    lemma_one_more_read(chunks);
    lemma_reading_holds_all(chunks.drop_last());
    text::lemma_first_occurrence(stream, http::blank_line());
    let end = http::header_end(stream)->0;
    assert(stream =~= stream.take(end) + stream.skip(end));
}

/// It does not matter how the bytes of a client are cut into reads, as long as
/// no more than the limit comes in: the same headers lead to the same target
/// or the same refusal, and the bytes kept for the tunnel are those that came
/// behind the headers, up to the end of the read that completed them.
pub proof fn law_reads_may_be_cut_anywhere(chunks: Seq<Seq<u8>>)
    requires
        none_empty(chunks),
        chunks.flatten().len() <= http::MAX_HEADER_BYTES,
    ensures
        ({
            let stream = chunks.flatten();
            let c = run(fresh(), reads(chunks));
            match http::header_end(stream) {
                None => c == (ConnectionView::Reading { buf: stream }),
                Some(end) => match http::connect_request(stream.take(end)) {
                    Ok(wanted) => {
                        &&& c matches ConnectionView::CheckingSession { target, leftover }
                        &&& target == wanted
                        &&& leftover.is_prefix_of(stream.skip(end))
                        &&& http::header_end(chunks.drop_last().flatten()) is None ==> leftover
                            == stream.skip(end)
                    },
                    Err(e) => c == refused(e),
                },
            }
        }),
    decreases chunks.len(),
{
    let stream = chunks.flatten();
    text::lemma_first_occurrence(stream, http::blank_line());
    if chunks.len() == 0 {
        assert(stream =~= Seq::<u8>::empty());
    } else {
        lemma_one_more_read(chunks);
        let before = chunks.drop_last().flatten();
        law_reads_may_be_cut_anywhere(chunks.drop_last());
        text::lemma_first_occurrence(before, http::blank_line());
        if let Some(end) = http::header_end(before) {
            http::law_header_end_stable(before, chunks.last());
            assert(stream.take(end) =~= before.take(end));
            assert(stream.skip(end) =~= before.skip(end) + chunks.last());
            http::law_request_errors(before.take(end));
        }
    }
}

/// What is buffered while a request is read stays within the limit, and never
/// holds a whole request.
pub proof fn law_buffer_bounded(events: Seq<EventView>)
    ensures
        run(fresh(), events) matches ConnectionView::Reading { buf } ==> buf.len()
            <= http::MAX_HEADER_BYTES && http::header_end(buf) is None,
    decreases events.len(),
{
    if events.len() == 0 {
        text::lemma_first_occurrence(Seq::<u8>::empty(), http::blank_line());
    } else {
        law_buffer_bounded(events.drop_last());
        if let (ConnectionView::Reading { buf }, EventView::Read(chunk)) = (
            run(fresh(), events.drop_last()),
            events.last(),
        ) {
            http::law_request_errors((buf + chunk).take(http::header_end(buf + chunk)->0));
        }
    }
}

/// A request that is refused is answered with the reply for its fault, and the
/// connection then ends, whether or not the client took the reply.
pub proof fn law_refusal_is_answered(buf: Seq<u8>, chunk: Seq<u8>, broken: std::io::Error)
    requires
        chunk.len() > 0,
        http::request_in(buf + chunk) is Err,
    ensures
        ({
            let e = http::request_in(buf + chunk)->Err_0;
            let c = next(ConnectionView::Reading { buf }, EventView::Read(chunk));
            &&& http::refusal_text(e) matches Some(text)
            &&& c == (ConnectionView::Refusing { reply: vstd::utf8::encode_utf8(text) })
            &&& next(c, EventView::Done) == ConnectionView::Finished
            &&& next(c, EventView::Broken(broken)) == ConnectionView::Finished
        }),
{
    http::law_request_errors((buf + chunk).take(http::header_end(buf + chunk)->0));
}

/// Once the request is read, the session open and the tunnel there, the client
/// is told so, the bytes that it sent behind its headers go into the tunnel,
/// all of them and before anything else, and then both sides are copied.
pub proof fn law_tunnel_is_served(target: http::ConnectTargetView, leftover: Seq<u8>)
    ensures
        ({
            let read = ConnectionView::CheckingSession { target, leftover };
            let open = next(read, EventView::Session { closed: false });
            let told = next(open, EventView::TunnelOpened);
            let sent = next(told, EventView::Done);
            &&& open == (ConnectionView::OpeningTunnel { target, leftover })
            &&& told == (ConnectionView::Confirming {
                reply: vstd::utf8::encode_utf8(http::established_text()),
                leftover,
            })
            &&& leftover.len() == 0 ==> sent == ConnectionView::Relaying
            &&& leftover.len() > 0 ==> {
                &&& sent == (ConnectionView::Forwarding { leftover })
                &&& next(sent, EventView::Done) == ConnectionView::Relaying
            }
            &&& next(ConnectionView::Relaying, EventView::Done) == ConnectionView::Finished
        }),
{
}

/// A request that cannot be served is answered with the reason: the session is
/// closed, or the server did not open the tunnel.
pub proof fn law_unserved_is_answered(target: http::ConnectTargetView, leftover: Seq<u8>)
    ensures
        next(
            ConnectionView::CheckingSession { target, leftover },
            EventView::Session { closed: true },
        ) == (ConnectionView::Refusing {
            reply: vstd::utf8::encode_utf8(http::gateway_text("SSH session closed"@)),
        }),
        next(ConnectionView::OpeningTunnel { target, leftover }, EventView::TunnelRefused) == (
        ConnectionView::Refusing {
            reply: vstd::utf8::encode_utf8(
                http::gateway_text(ssh::tunnel_failure_text(target.host, target.port)),
            ),
        }),
{
}

/// Everything that is taken from a client before its connection is relayed: the
/// bytes of every read that a connection waited for.
pub open spec fn taken(events: Seq<EventView>) -> Seq<u8>
    decreases events.len(),
{
    if events.len() == 0 {
        Seq::empty()
    } else {
        match (run(fresh(), events.drop_last()), events.last()) {
            (ConnectionView::Reading { .. }, EventView::Read(chunk)) => taken(events.drop_last())
                + chunk,
            _ => taken(events.drop_last()),
        }
    }
}

/// The target of the whole `CONNECT` request that `stream` begins with, if it
/// does.
pub open spec fn asked_target(stream: Seq<u8>) -> Option<http::ConnectTargetView> {
    match http::header_end(stream) {
        Some(end) => match http::connect_request(stream.take(end)) {
            Ok(target) => Some(target),
            Err(_) => None,
        },
        None => None,
    }
}

/// What stands behind the headers of `stream`.
pub open spec fn behind_headers(stream: Seq<u8>) -> Seq<u8> {
    match http::header_end(stream) {
        Some(end) => stream.skip(end),
        None => Seq::empty(),
    }
}

/// Whether a connection has come as far as the bytes that were taken from its
/// client entitle it to, and keeps exactly those that it still owes.
pub open spec fn earned(c: ConnectionView, stream: Seq<u8>) -> bool {
    match c {
        ConnectionView::Reading { buf } => buf == stream,
        ConnectionView::CheckingSession { target, leftover } => {
            &&& asked_target(stream) == Some(target)
            &&& leftover == behind_headers(stream)
        },
        ConnectionView::OpeningTunnel { target, leftover } => {
            &&& asked_target(stream) == Some(target)
            &&& leftover == behind_headers(stream)
        },
        ConnectionView::Confirming { leftover, .. } => {
            &&& asked_target(stream) is Some
            &&& leftover == behind_headers(stream)
        },
        ConnectionView::Forwarding { leftover } => {
            &&& asked_target(stream) is Some
            &&& leftover == behind_headers(stream)
        },
        ConnectionView::Relaying => asked_target(stream) is Some,
        _ => true,
    }
}

/// Whether the request was read and is not refused, so far.
pub open spec fn past_reading(c: ConnectionView) -> bool {
    c is CheckingSession || past_session_check(c)
}

/// Whether a tunnel is being opened or in use.
pub open spec fn past_session_check(c: ConnectionView) -> bool {
    c is OpeningTunnel || in_use(c)
}

/// Whether a tunnel is in use.
pub open spec fn in_use(c: ConnectionView) -> bool {
    c is Confirming || c is Forwarding || c is Relaying
}

proof fn lemma_examined_earned(stream: Seq<u8>)
    ensures
        earned(examined(stream), stream),
        past_reading(examined(stream)) ==> stream.len() <= http::MAX_HEADER_BYTES,
{
    text::lemma_first_occurrence(stream, http::blank_line());
    if let Some(end) = http::header_end(stream) {
        http::law_request_errors(stream.take(end));
    }
}

proof fn lemma_seen(events: Seq<EventView>, event: EventView)
    requires
        events.len() > 0,
        events.last() == event || events.drop_last().contains(event),
    ensures
        events.contains(event),
{
    if events.last() == event {
        assert(events[events.len() - 1] == event);
    } else {
        let i = choose|i: int| 0 <= i < events.drop_last().len() && events.drop_last()[i] == event;
        assert(events[i] == event);
    }
}

/// A tunnel is opened only to the target of a whole `CONNECT` request that the
/// client itself sent, and only after the session was found open; it is used
/// only after it was opened. The bytes kept for it are exactly those that were
/// taken from the client behind its headers.
pub proof fn law_tunnel_needs_connect_and_session(events: Seq<EventView>)
    ensures
        earned(run(fresh(), events), taken(events)),
        past_session_check(run(fresh(), events)) ==> events.contains(
            EventView::Session { closed: false },
        ),
        in_use(run(fresh(), events)) ==> events.contains(EventView::TunnelOpened),
    decreases events.len(),
{
    if events.len() > 0 {
        let before = run(fresh(), events.drop_last());
        let after = run(fresh(), events);
        law_tunnel_needs_connect_and_session(events.drop_last());
        if let (ConnectionView::Reading { buf }, EventView::Read(chunk)) = (before, events.last()) {
            lemma_examined_earned(buf + chunk);
        }
        if past_session_check(after) {
            lemma_seen(events, EventView::Session { closed: false });
        }
        if in_use(after) {
            lemma_seen(events, EventView::TunnelOpened);
        }
    }
}

/// Whether no read gives more than `READ_SIZE` bytes.
pub open spec fn small_reads(events: Seq<EventView>) -> bool {
    forall|i: int|
        0 <= i < events.len() ==> (#[trigger] events[i] matches EventView::Read(chunk)
            ==> chunk.len() <= READ_SIZE)
}

proof fn lemma_headers_end_in_last_read(buf: Seq<u8>, chunk: Seq<u8>)
    requires
        http::header_end(buf) is None,
        http::header_end(buf + chunk) is Some,
    ensures
        buf.len() < http::header_end(buf + chunk)->0 <= buf.len() + chunk.len(),
{
    let end = http::header_end(buf + chunk)->0;
    text::lemma_first_occurrence(buf, http::blank_line());
    text::lemma_first_occurrence(buf + chunk, http::blank_line());
    if end <= buf.len() {
        assert((buf + chunk).subrange(end - 4, end) =~= buf.subrange(end - 4, end));
        assert(text::occurs_at(buf, http::blank_line(), end - 4));
    }
}

/// If no read gives more than `READ_SIZE` bytes, no more than the limit and one
/// read are ever taken while a request is sought. A request that is found lies
/// within the limit, and fewer bytes than one read holds are kept behind it.
pub proof fn law_reading_is_bounded(events: Seq<EventView>)
    requires
        small_reads(events),
    ensures
        taken(events).len() <= http::MAX_HEADER_BYTES + READ_SIZE,
        past_reading(run(fresh(), events)) ==> {
            &&& taken(events).len() <= http::MAX_HEADER_BYTES
            &&& behind_headers(taken(events)).len() < READ_SIZE
        },
        match run(fresh(), events) {
            ConnectionView::CheckingSession { leftover, .. } => leftover.len() < READ_SIZE,
            ConnectionView::OpeningTunnel { leftover, .. } => leftover.len() < READ_SIZE,
            ConnectionView::Confirming { leftover, .. } => leftover.len() < READ_SIZE,
            ConnectionView::Forwarding { leftover } => leftover.len() < READ_SIZE,
            _ => true,
        },
    decreases events.len(),
{
    law_tunnel_needs_connect_and_session(events);
    if events.len() > 0 {
        let before = events.drop_last();
        assert forall|i: int| 0 <= i < before.len() implies (
        #[trigger] before[i] matches EventView::Read(chunk) ==> chunk.len() <= READ_SIZE) by {
            assert(before[i] == events[i]);
        }
        law_reading_is_bounded(before);
        law_buffer_bounded(before);
        law_tunnel_needs_connect_and_session(before);
        assert(events[events.len() - 1] == events.last());
        if let (ConnectionView::Reading { buf }, EventView::Read(chunk)) = (
            run(fresh(), before),
            events.last(),
        ) {
            lemma_examined_earned(buf + chunk);
            if http::header_end(buf + chunk) is Some {
                lemma_headers_end_in_last_read(buf, chunk);
            }
        }
    }
}

/// Whether a connection is sending a status line.
pub open spec fn answering(c: ConnectionView) -> bool {
    c is Refusing || c is Confirming
}

/// How often a series of events brings a connection to ask for a tunnel.
pub open spec fn tunnels_asked(events: Seq<EventView>) -> nat
    decreases events.len(),
{
    if events.len() == 0 {
        0
    } else {
        let before = run(fresh(), events.drop_last());
        let after = run(fresh(), events);
        tunnels_asked(events.drop_last()) + (if after is OpeningTunnel && after != before {
            1nat
        } else {
            0
        })
    }
}

/// How often a series of events brings a connection to send a status line.
pub open spec fn replies_begun(events: Seq<EventView>) -> nat
    decreases events.len(),
{
    if events.len() == 0 {
        0
    } else {
        let before = run(fresh(), events.drop_last());
        let after = run(fresh(), events);
        replies_begun(events.drop_last()) + (if answering(after) && after != before {
            1nat
        } else {
            0
        })
    }
}

/// A client is answered at most once, and a tunnel is asked for at most once
/// on its behalf. A connection that was served or refused was answered exactly
/// once, and one whose tunnel is in use asked for exactly one.
pub proof fn law_answered_once(events: Seq<EventView>)
    ensures
        tunnels_asked(events) <= 1,
        replies_begun(events) <= 1,
        match run(fresh(), events) {
            ConnectionView::Reading { .. } | ConnectionView::CheckingSession { .. } => {
                tunnels_asked(events) == 0 && replies_begun(events) == 0
            },
            ConnectionView::OpeningTunnel { .. } => {
                tunnels_asked(events) == 1 && replies_begun(events) == 0
            },
            ConnectionView::Confirming { .. }
            | ConnectionView::Forwarding { .. }
            | ConnectionView::Relaying => {
                tunnels_asked(events) == 1 && replies_begun(events) == 1
            },
            ConnectionView::Refusing { .. } | ConnectionView::Finished => replies_begun(events)
                == 1,
            ConnectionView::Failed(_) => true,
        },
    decreases events.len(),
{
    if events.len() > 0 {
        let before = run(fresh(), events.drop_last());
        law_answered_once(events.drop_last());
        if let (ConnectionView::Reading { buf }, EventView::Read(chunk)) = (before, events.last()) {
            if let Some(end) = http::header_end(buf + chunk) {
                http::law_request_errors((buf + chunk).take(end));
            }
        }
    }
}

/// A connection that has ended stays so.
pub proof fn law_end_is_final(c: ConnectionView, events: Seq<EventView>)
    requires
        c is Finished || c is Failed,
    ensures
        run(c, events) == c,
    decreases events.len(),
{
    if events.len() > 0 {
        law_end_is_final(c, events.drop_last());
    }
}

/// More than the limit before the request is complete is answered with a
/// refusal that says so.
pub proof fn law_too_much_is_refused(buf: Seq<u8>, chunk: Seq<u8>)
    requires
        chunk.len() > 0,
        buf.len() + chunk.len() > http::MAX_HEADER_BYTES,
    ensures
        next(ConnectionView::Reading { buf }, EventView::Read(chunk)) == (ConnectionView::Refusing {
            reply: vstd::utf8::encode_utf8(
                "HTTP/1.1 431 Request Header Fields Too Large\r\nConnection: close\r\n\r\n"@,
            ),
        }),
{
}

/// A client that asks for `target` with `CONNECT` gets a connection to it under
/// way at the read that completes its request, however its bytes are cut into
/// reads and whatever its headers, and every byte that came behind them is kept
/// for the tunnel.
pub proof fn law_client_is_heard(
    method: Seq<char>,
    target: Seq<char>,
    version: Seq<char>,
    tail: Seq<u8>,
    chunks: Seq<Seq<u8>>,
)
    requires
        text::same_ignoring_case(method, "CONNECT"@),
        http::authority(target) is Some,
        !target.contains(' '),
        http::one_line(target),
        http::one_line(version),
        none_empty(chunks),
        chunks.len() > 0,
        chunks.flatten() == vstd::utf8::encode_utf8(
            method + seq![' '] + (target + seq![' '] + version),
        ) + http::crlf() + tail,
        chunks.flatten().len() <= http::MAX_HEADER_BYTES,
        http::header_end(chunks.flatten()) is Some,
        http::header_end(chunks.drop_last().flatten()) is None,
    ensures
        run(fresh(), reads(chunks)) == (ConnectionView::CheckingSession {
            target: http::authority(target)->0,
            leftover: behind_headers(chunks.flatten()),
        }),
{
    let stream = chunks.flatten();
    let end = http::header_end(stream)->0;
    http::law_connect_request(method, target, version, tail);
    http::lemma_headers_hold_the_line(stream);
    text::lemma_first_occurrence(stream, http::blank_line());
    assert(stream =~= stream.take(end) + stream.skip(end));
    http::law_only_the_request_line(stream.take(end), stream.skip(end));
    law_reads_may_be_cut_anywhere(chunks);
}

/// What a connection says is what stands in it, byte for byte.
pub proof fn law_connection_view(c: Connection)
    ensures
        match c {
            Connection::Reading { buf } => c@ == (ConnectionView::Reading { buf: buf@ }),
            Connection::Refusing { reply } => c@ == (ConnectionView::Refusing { reply: reply@ }),
            Connection::CheckingSession { target, leftover } => c@ == (
            ConnectionView::CheckingSession { target: target@, leftover: leftover@ }),
            Connection::OpeningTunnel { target, leftover } => c@ == (
            ConnectionView::OpeningTunnel { target: target@, leftover: leftover@ }),
            Connection::Confirming { reply, leftover } => c@ == (ConnectionView::Confirming {
                reply: reply@,
                leftover: leftover@,
            }),
            Connection::Forwarding { leftover } => c@ == (ConnectionView::Forwarding {
                leftover: leftover@,
            }),
            Connection::Relaying => c@ == ConnectionView::Relaying,
            Connection::Finished => c@ == ConnectionView::Finished,
            Connection::Failed(e) => c@ == ConnectionView::Failed(e),
        },
{
}

/// What an event says is what stands in it, byte for byte.
pub proof fn law_event_view(event: Event)
    ensures
        match event {
            Event::Read(chunk) => event@ == EventView::Read(chunk@),
            Event::Session { closed } => event@ == (EventView::Session { closed }),
            Event::TunnelOpened => event@ == EventView::TunnelOpened,
            Event::TunnelRefused => event@ == EventView::TunnelRefused,
            Event::Done => event@ == EventView::Done,
            Event::Broken(e) => event@ == EventView::Broken(e),
        },
{
}

/// A connection starts with nothing read. What a read gives is looked at
/// together with all that was read before it: the connection reads on, or knows
/// its target and keeps what stands behind the headers, or refuses.
pub proof fn law_reading(buf: Seq<u8>, chunk: Seq<u8>)
    requires
        chunk.len() > 0,
    ensures
        READ_SIZE == 1024,
        fresh() == (ConnectionView::Reading { buf: Seq::empty() }),
        ({
            let c = next(ConnectionView::Reading { buf }, EventView::Read(chunk));
            match http::request_in(buf + chunk) {
                Ok(None) => c == (ConnectionView::Reading { buf: buf + chunk }),
                Ok(Some((target, leftover))) => c == (ConnectionView::CheckingSession {
                    target,
                    leftover,
                }),
                Err(e) => {
                    &&& http::refusal_text(e) matches Some(text)
                    &&& c == (ConnectionView::Refusing { reply: vstd::utf8::encode_utf8(text) })
                },
            }
        }),
{
    if let Some(end) = http::header_end(buf + chunk) {
        http::law_request_errors((buf + chunk).take(end));
    }
}

/// A client that closes its side before its request is complete is told so.
pub proof fn law_closed_early(buf: Seq<u8>)
    ensures
        next(ConnectionView::Reading { buf }, EventView::Read(Seq::empty())) == (
        ConnectionView::Refusing {
            reply: vstd::utf8::encode_utf8(
                "HTTP/1.1 400 Bad Request\r\nConnection: close\r\nContent-Length: "@
                    + text::decimal(
                    vstd::utf8::encode_utf8("connection closed before request"@).len(),
                ) + "\r\n\r\n"@ + "connection closed before request"@,
            ),
        }),
{
}

/// A connection that breaks ends with what broke it. One that is only sending
/// its refusal just ends.
pub proof fn law_broken_connection_ends(
    broken: std::io::Error,
    bytes: Seq<u8>,
    reply: Seq<u8>,
)
    ensures
        next(ConnectionView::Reading { buf: bytes }, EventView::Broken(broken))
            == ConnectionView::Failed(broken),
        next(ConnectionView::Confirming { reply, leftover: bytes }, EventView::Broken(broken))
            == ConnectionView::Failed(broken),
        next(ConnectionView::Forwarding { leftover: bytes }, EventView::Broken(broken))
            == ConnectionView::Failed(broken),
        next(ConnectionView::Relaying, EventView::Broken(broken)) == ConnectionView::Failed(broken),
        next(ConnectionView::Refusing { reply }, EventView::Broken(broken))
            == ConnectionView::Finished,
        next(ConnectionView::Refusing { reply }, EventView::Done) == ConnectionView::Finished,
        next(ConnectionView::Relaying, EventView::Done) == ConnectionView::Finished,
{
}

/// Every request that was read leads on as the session and the server say: to
/// the tunnel and the words that announce it, with the bytes behind the headers
/// first into the tunnel, or to the words that say why there is none.
pub proof fn law_request_is_followed(
    target: http::ConnectTargetView,
    leftover: Seq<u8>,
    reply: Seq<u8>,
)
    ensures
        next(
            ConnectionView::CheckingSession { target, leftover },
            EventView::Session { closed: false },
        ) == (ConnectionView::OpeningTunnel { target, leftover }),
        next(
            ConnectionView::CheckingSession { target, leftover },
            EventView::Session { closed: true },
        ) == (ConnectionView::Refusing {
            reply: vstd::utf8::encode_utf8(
                "HTTP/1.1 502 Bad Gateway\r\nConnection: close\r\n\r\n"@ + "SSH session closed"@,
            ),
        }),
        next(ConnectionView::OpeningTunnel { target, leftover }, EventView::TunnelOpened) == (
        ConnectionView::Confirming {
            reply: vstd::utf8::encode_utf8("HTTP/1.1 200 Connection Established\r\n\r\n"@),
            leftover,
        }),
        next(ConnectionView::OpeningTunnel { target, leftover }, EventView::TunnelRefused) == (
        ConnectionView::Refusing {
            reply: vstd::utf8::encode_utf8(
                "HTTP/1.1 502 Bad Gateway\r\nConnection: close\r\n\r\n"@ + (
                "SSH direct-tcpip to "@ + (target.host + ":"@ + text::decimal(target.port as nat))
                    + " failed"@),
            ),
        }),
        next(ConnectionView::Confirming { reply, leftover }, EventView::Done) == (
        if leftover.len() > 0 {
            ConnectionView::Forwarding { leftover }
        } else {
            ConnectionView::Relaying
        }),
        next(ConnectionView::Forwarding { leftover }, EventView::Done) == ConnectionView::Relaying,
{
}

/// An event that is no answer to what a connection waits for changes nothing.
pub proof fn law_only_answers_count(c: ConnectionView, event: EventView)
    requires
        match c {
            ConnectionView::Reading { .. } => !(event is Read) && !(event is Broken),
            ConnectionView::CheckingSession { .. } => !(event is Session),
            ConnectionView::OpeningTunnel { .. } => {
                !(event is TunnelOpened) && !(event is TunnelRefused)
            },
            ConnectionView::Refusing { .. }
            | ConnectionView::Confirming { .. }
            | ConnectionView::Forwarding { .. }
            | ConnectionView::Relaying => !(event is Done) && !(event is Broken),
            ConnectionView::Finished | ConnectionView::Failed(_) => true,
        },
    ensures
        next(c, event) == c,
{
}

/// A series of events is taken in one by one, in order.
pub proof fn law_run(c: ConnectionView, events: Seq<EventView>, event: EventView)
    ensures
        run(c, Seq::empty()) == c,
        run(c, events.push(event)) == next(run(c, events), event),
{
    assert(events.push(event).drop_last() =~= events);
}

} // verus!
