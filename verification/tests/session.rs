use bytes::{Bytes, BytesMut};
use sockudo_ws::error::{IoError, IoErrorKind};
use sockudo_ws::framing::{FrameReader, FrameWriter};
use sockudo_ws::handshake::{build_request, client_step, generate_key, server_step};
use sockudo_ws::heartbeat::Deadline;
use sockudo_ws::protocol::Protocol;
use sockudo_ws::session::{
    Action, AfterFinish, CompioWebSocketStreamBuilder, ReadEvent, DEFAULT_HIGH_WATER_MARK,
    DEFAULT_LOW_WATER_MARK,
};
use sockudo_ws::{CompressedProtocol, Config, DeflateConfig, Error, Message, Role, Session};

const SECOND: u64 = 1_000_000_000;

/// What a caller of a session is told.
#[derive(Debug)]
enum Told {
    End,
    Message(Message),
    Failed(Error),
    Waiting(Action),
}

/// A session with a transport made of byte queues.
struct Endpoint<C> {
    session: Session<C>,
    now: u64,
    nonce: u64,
    incoming: Vec<u8>,
    eof: bool,
    sent: Vec<u8>,
    send_half_ended: bool,
}

impl<C: FrameReader + FrameWriter> Endpoint<C> {
    fn new(session: Session<C>) -> Self {
        Endpoint {
            session,
            now: 0,
            nonce: 1,
            incoming: Vec::new(),
            eof: false,
            sent: Vec::new(),
            send_half_ended: false,
        }
    }

    fn write_out(&mut self) {
        let mut out = self.session.take_output();
        self.sent.extend_from_slice(&out);
        out.clear();
        self.session.put_output(out);
    }

    fn next(&mut self) -> Told {
        loop {
            assert!(self.session.can_go_on());
            self.nonce += 1;
            let mut action = self.session.next_step(self.now, self.nonce);
            loop {
                action = match action {
                    Action::End => return Told::End,
                    Action::Deliver(msg) => return Told::Message(msg),
                    Action::Fail(e) => return Told::Failed(e),
                    Action::Flush { next, .. } => {
                        self.write_out();
                        self.session.flushed(next, Ok(()), self.now)
                    }
                    Action::Finish { after, .. } => {
                        self.write_out();
                        self.send_half_ended = true;
                        self.session.finished(after, true)
                    }
                    Action::Shutdown { .. } => {
                        self.send_half_ended = true;
                        self.session.shut_down(true)
                    }
                    Action::Again => break,
                    read => {
                        if self.incoming.is_empty() && !self.eof {
                            return Told::Waiting(read);
                        }
                        let mut input = self.session.take_input();
                        input.extend_from_slice(&self.incoming);
                        let n = self.incoming.len();
                        self.incoming.clear();
                        self.session.put_input(input);
                        self.session
                            .read_done(ReadEvent::Done(Ok(n)), self.now, self.nonce)
                    }
                };
            }
        }
    }

    fn message(&mut self) -> Message {
        match self.next() {
            Told::Message(msg) => msg,
            other => panic!("expected a message, got {other:?}"),
        }
    }

    fn send(&mut self, msg: Message) -> Result<(), Error> {
        assert!(self.session.can_send(msg.as_bytes().len()));
        self.session.start_send(&msg, self.now)?;
        self.write_out();
        self.session.sent(Ok(()))
    }
}

fn pass<A: FrameReader + FrameWriter, B: FrameReader + FrameWriter>(
    a: &mut Endpoint<A>,
    b: &mut Endpoint<B>,
) {
    b.incoming.append(&mut a.sent);
    a.incoming.append(&mut b.sent);
}

fn endpoint(role: Role, config: Config) -> Endpoint<Protocol> {
    Endpoint::new(Session::from_raw_with_leftover(role, config, None))
}

fn quiet() -> Config {
    Config::builder().auto_ping(false).idle_timeout(0).build()
}

#[test]
fn handshake_and_echo_round_trip() {
    let key = generate_key();
    let request = build_request("example.com", "/chat", &key, Some("chat, superchat"), None);
    let answer = server_step(request.len(), &request, None, None)
        .unwrap()
        .unwrap();
    assert_eq!(answer.result.path, "/chat");
    assert_eq!(answer.result.protocol.as_deref(), Some("chat"));
    let result = client_step(
        answer.response.len(),
        &answer.response,
        &key,
        "/chat",
        Some("chat, superchat"),
    )
    .unwrap()
    .unwrap();
    assert_eq!(result.protocol.as_deref(), Some("chat"));

    let mut server = Endpoint::new(Session::from_raw_with_leftover(
        Role::Server,
        Config::default(),
        answer.result.leftover,
    ));
    let mut client = Endpoint::new(Session::from_raw_with_leftover(
        Role::Client,
        Config::default(),
        result.leftover,
    ));
    client.send(Message::text("hello")).unwrap();
    pass(&mut client, &mut server);
    let msg = server.message();
    assert_eq!(msg.as_text(), Some("hello"));
    server.send(msg).unwrap();
    pass(&mut client, &mut server);
    assert_eq!(client.message().as_text(), Some("hello"));
}

#[test]
fn leftover_bytes_are_read_first() {
    let leftover = Bytes::from_static(&[0x82, 0x80, 0, 0, 0, 0]);
    let mut server = Endpoint::new(Session::from_raw_with_leftover(
        Role::Server,
        quiet(),
        Some(leftover),
    ));
    assert_eq!(server.session.read_buffer_len(), 6);
    assert!(server.message().is_binary());
}

#[test]
fn pings_are_answered_and_delivered() {
    let mut server = endpoint(Role::Server, quiet());
    let mut client = endpoint(Role::Client, quiet());
    client.send(Message::ping("pin")).unwrap();
    pass(&mut client, &mut server);
    assert!(matches!(server.message(), Message::Ping(p) if p == b"pin"[..]));
    pass(&mut client, &mut server);
    assert!(matches!(client.message(), Message::Pong(p) if p == b"pin"[..]));
}

#[test]
fn closing_handshake_ends_the_session() {
    let mut server = endpoint(Role::Server, quiet());
    let mut client = endpoint(Role::Client, quiet());
    assert!(matches!(
        client.session.start_close(1000, "done", 0),
        Some(Ok(Some(at))) if at == 5 * SECOND
    ));
    client.write_out();
    client.session.sent(Ok(())).unwrap();
    assert_eq!(client.session.ends_with_close(), None);
    assert!(client.session.start_close(1000, "again", 0).is_none());
    assert!(matches!(
        client.session.start_send(&Message::text("late"), 0),
        Err(Error::ConnectionClosed)
    ));
    pass(&mut client, &mut server);
    assert!(matches!(
        server.message(),
        Message::Close(Some(r)) if r.code == 1000 && r.reason == "done"
    ));
    assert!(server.send_half_ended);
    assert!(server.session.is_closed());
    assert!(matches!(server.next(), Told::End));
    pass(&mut client, &mut server);
    assert!(client.message().is_close());
    assert!(matches!(client.next(), Told::End));
}

#[test]
fn silent_peer_fails_the_close_once() {
    let mut client = endpoint(Role::Client, quiet());
    client.session.start_close(1000, "", 0);
    client.write_out();
    client.session.sent(Ok(())).unwrap();
    assert!(matches!(
        client.next(),
        Told::Waiting(Action::ReadBefore { until }) if until == 5 * SECOND
    ));
    let action = client
        .session
        .read_done(ReadEvent::TimedOut, 5 * SECOND, 1);
    assert!(matches!(action, Action::Fail(Error::ConnectionClosed)));
    assert!(matches!(client.next(), Told::End));
}

#[test]
fn idle_timeout_closes_the_connection() {
    let config = Config::builder().auto_ping(false).idle_timeout(3).build();
    let mut server = endpoint(Role::Server, config);
    assert!(matches!(
        server.next(),
        Told::Waiting(Action::ReadUntil { deadline: Deadline::Idle(3000), .. })
    ));
    server.now = 3 * SECOND;
    // Unread input does not postpone the deadline.
    server.incoming = vec![0x81, 0x80, 0, 0, 0, 0];
    assert!(matches!(server.next(), Told::Failed(Error::IdleTimeout)));
    assert_eq!(&server.sent[..4], &[0x88, 25, 0x03, 0xe9]);
    assert_eq!(&server.sent[4..], b"Connection idle timeout");
    assert!(matches!(server.next(), Told::End));
}

#[test]
fn missing_pong_closes_the_connection() {
    let config = Config::builder()
        .ping_interval(1)
        .pong_timeout(2)
        .idle_timeout(0)
        .pong_timeout_close(4201, "no pong")
        .build();
    let mut server = endpoint(Role::Server, config);
    server.now = SECOND;
    assert!(matches!(
        server.next(),
        Told::Waiting(Action::ReadUntil { deadline: Deadline::Pong(3000), .. })
    ));
    assert_eq!(server.sent[0], 0x89);
    assert_eq!(server.sent.len(), 10);
    server.sent.clear();
    server.now = 3 * SECOND;
    assert!(matches!(server.next(), Told::Failed(Error::HeartbeatTimeout)));
    assert_eq!(&server.sent[..], b"\x88\x09\x10\x69no pong");
    assert!(server.send_half_ended);
}

#[test]
fn matching_pong_keeps_the_connection() {
    let config = Config::builder()
        .ping_interval(1)
        .pong_timeout(2)
        .idle_timeout(0)
        .build();
    let mut server = endpoint(Role::Server, config);
    let mut client = endpoint(Role::Client, quiet());
    server.now = SECOND;
    assert!(matches!(server.next(), Told::Waiting(_)));
    pass(&mut server, &mut client);
    assert!(client.message().is_ping());
    pass(&mut server, &mut client);
    assert!(server.message().is_pong());
    server.now = 4 * SECOND;
    assert!(matches!(server.next(), Told::Waiting(_)));
}

#[test]
fn accepted_messages_come_before_the_error() {
    let mut client = endpoint(Role::Client, quiet());
    client.incoming = vec![0x81, 0x01, b'a', 0x83, 0x00];
    assert_eq!(client.message().as_text(), Some("a"));
    assert!(client.session.start_send(&Message::text("x"), 0).is_err());
    assert!(matches!(client.next(), Told::Failed(Error::InvalidFrame(_))));
    assert!(matches!(client.next(), Told::End));
}

#[test]
fn end_and_failure_of_input_end_the_session() {
    let mut client = endpoint(Role::Client, quiet());
    client.eof = true;
    assert!(matches!(client.next(), Told::End));
    assert!(client.session.is_closed());

    let mut client = endpoint(Role::Client, quiet());
    assert!(matches!(client.next(), Told::Waiting(Action::Read)));
    let failure = Error::from(IoError {
        kind: IoErrorKind::ConnectionReset,
        message: "reset".to_string(),
    });
    let action = client
        .session
        .read_done(ReadEvent::Done(Err(failure)), 0, 1);
    assert!(matches!(action, Action::Fail(Error::ConnectionReset)));
}

#[test]
fn failed_flush_ends_the_session() {
    let mut client = endpoint(Role::Client, quiet());
    assert!(matches!(client.session.start_flush(), Ok(None)));
    client.session.start_send(&Message::text("x"), 0).unwrap();
    assert!(client.session.sent(Err(Error::ConnectionReset)).is_err());
    assert!(client.session.is_closed());
    assert!(matches!(
        client.session.start_flush(),
        Err(Error::ConnectionClosed)
    ));
}

#[test]
fn multiplexed_transports_end_the_send_half_with_the_close() {
    let session = Session::from_raw_with_leftover(Role::Client, quiet(), None);
    let mut client = Endpoint::new(session.with_immediate_write_shutdown());
    client.session.start_close(1000, "", 0);
    client.write_out();
    client.session.sent(Ok(())).unwrap();
    assert_eq!(client.session.ends_with_close(), Some(5 * SECOND));
    assert!(client.session.close_finished(Some(Ok(()))).is_ok());
    // A Ping that crosses the Close is not answered any more.
    client.sent.clear();
    client.incoming = vec![0x89, 0x00];
    assert!(client.message().is_ping());
    assert!(client.sent.is_empty());

    let session = Session::from_raw_with_leftover(Role::Client, quiet(), None);
    let mut client = Endpoint::new(session.with_immediate_write_shutdown());
    client.session.start_close(1000, "", 0);
    assert!(matches!(
        client.session.close_finished(None),
        Err(Error::ConnectionClosed)
    ));
}

#[test]
fn compressed_sessions_talk() {
    let config = DeflateConfig::default();
    let mut server: Endpoint<CompressedProtocol> = Endpoint::new(Session::compressed(
        Role::Server,
        quiet(),
        config.clone(),
        None,
    ));
    let mut client: Endpoint<CompressedProtocol> = Endpoint::new(Session::compressed(
        Role::Client,
        quiet(),
        config,
        None,
    ));
    let text = "compressed ".repeat(30);
    client.send(Message::text(text.as_str())).unwrap();
    assert!(client.sent.len() < text.len());
    pass(&mut client, &mut server);
    let msg = server.message();
    assert_eq!(msg.as_text(), Some(text.as_str()));
    server.send(msg).unwrap();
    pass(&mut client, &mut server);
    assert_eq!(client.message().as_text(), Some(text.as_str()));
    assert!(!client.session.is_stream_closed());
}

#[test]
fn compressed_sessions_keep_the_limits_for_frames_and_messages() {
    let config = Config::builder()
        .auto_ping(false)
        .idle_timeout(0)
        .max_frame_size(20)
        .max_message_size(10)
        .build();
    let server = || -> Endpoint<CompressedProtocol> {
        Endpoint::new(Session::compressed(
            Role::Server,
            config.clone(),
            DeflateConfig::default(),
            None,
        ))
    };
    let mut frame = vec![0x82u8, 0x80 | 21, 0, 0, 0, 0];
    frame.extend_from_slice(&[b'x'; 21]);
    let mut one = server();
    one.incoming = frame;
    assert!(matches!(one.next(), Told::Failed(Error::FrameTooLarge)));
    let mut frame = vec![0x82u8, 0x80 | 11, 0, 0, 0, 0];
    frame.extend_from_slice(&[b'x'; 11]);
    let mut two = server();
    two.incoming = frame;
    assert!(matches!(two.next(), Told::Failed(Error::MessageTooLarge)));
}

#[test]
fn overfull_output_ends_the_session() {
    let config = Config::builder()
        .auto_ping(false)
        .idle_timeout(0)
        .max_backpressure(20)
        .build();
    let mut session = Session::from_raw_with_leftover(Role::Server, config, None);
    session.start_send(&Message::text("12345678"), 0).unwrap();
    session.start_send(&Message::text("12345678"), 0).unwrap();
    assert_eq!(session.write_buffer_len(), 20);
    assert!(matches!(
        session.start_send(&Message::text(""), 0),
        Err(Error::BufferFull)
    ));
    assert!(session.is_closed());
    assert_eq!(session.write_buffer_len(), 0);
    assert!(matches!(
        session.start_send(&Message::text(""), 0),
        Err(Error::ConnectionClosed)
    ));
}

#[test]
fn water_marks_and_builder() {
    let builder = CompioWebSocketStreamBuilder::new()
        .role(Role::Client)
        .max_message_size(1000)
        .max_frame_size(500)
        .write_buffer_size(64)
        .high_water_mark(10)
        .low_water_mark(2);
    assert!(builder.can_build());
    let mut session = builder.build();
    assert_eq!(session.high_water_mark(), 10);
    assert_eq!(session.low_water_mark(), 2);
    assert!(session.is_write_buffer_low());
    session
        .start_send(&Message::binary(vec![0u8; 20]), 0)
        .unwrap();
    assert_eq!(session.write_buffer_len(), 26);
    assert!(session.is_backpressured());
    session.set_high_water_mark(100);
    session.set_low_water_mark(50);
    assert!(!session.is_backpressured());

    let session = CompioWebSocketStreamBuilder::default().build();
    assert_eq!(session.high_water_mark(), DEFAULT_HIGH_WATER_MARK);
    assert_eq!(session.low_water_mark(), DEFAULT_LOW_WATER_MARK);
    assert!(
        !CompioWebSocketStreamBuilder::new()
            .write_buffer_size(usize::MAX)
            .can_build()
    );
}

#[test]
fn close_still_goes_out_where_finishing_fails() {
    let mut server = endpoint(Role::Server, quiet());
    let input = BytesMut::from(&[0x88u8, 0x80, 0, 0, 0, 0][..]);
    server.session.put_input(input);
    match server.session.next_step(0, 1) {
        Action::Finish { after, until } => {
            assert_eq!(until, 5 * SECOND);
            assert!(matches!(after, AfterFinish::Deliver(Message::Close(None))));
            let action = server.session.finished(after, false);
            assert!(matches!(action, Action::Deliver(Message::Close(None))));
        }
        other => panic!("unexpected {other:?}"),
    }
}
