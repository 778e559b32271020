use bytes::Bytes;
use sockudo_ws::driver::{AfterWrite, ApplicationRequest, DriverAction};
use sockudo_ws::halves::{
    AfterRequest, ControlRequest, ReaderAction, SplitReadEvent, SplitShared, SplitStatus,
    TerminalCause,
};
use sockudo_ws::protocol::Protocol;
use sockudo_ws::{Config, Error, Message, Role, Session, SplitReader, WriterDriver};

const SECOND: u64 = 1_000_000_000;

fn quiet() -> Config {
    Config::builder().auto_ping(false).idle_timeout(0).build()
}

fn halves(
    role: Role,
    config: Config,
) -> (SplitReader<Protocol>, WriterDriver<Protocol>, SplitShared) {
    Session::from_raw_with_leftover(role, config, None).split()
}

fn feed(reader: &mut SplitReader<Protocol>, bytes: &[u8], shared: &mut SplitShared) {
    let mut input = reader.take_input();
    input.extend_from_slice(bytes);
    reader.put_input(input);
    let action = reader.read_done(SplitReadEvent::Read(Ok(bytes.len())), shared);
    assert!(matches!(action, ReaderAction::Again));
}

fn step(reader: &mut SplitReader<Protocol>, shared: &mut SplitShared) -> ReaderAction {
    loop {
        assert!(reader.can_go_on());
        match reader.next_step(shared, 0) {
            ReaderAction::Again => {}
            action => return action,
        }
    }
}

#[test]
fn split_round_trip() {
    let (mut reader, mut driver, mut shared) = halves(Role::Server, quiet());
    assert!(matches!(step(&mut reader, &mut shared), ReaderAction::Read));
    feed(&mut reader, b"\x82\x87\0\0\0\0payload", &mut shared);
    let msg = match step(&mut reader, &mut shared) {
        ReaderAction::Deliver(msg) => msg,
        other => panic!("unexpected {other:?}"),
    };
    assert_eq!(msg.as_bytes(), b"payload");
    assert!(WriterDriver::<Protocol>::can_write(msg.as_bytes().len()));
    let action = driver.on_application(&ApplicationRequest::Send(msg), &mut shared, 0);
    assert!(matches!(
        action,
        DriverAction::Write(AfterWrite::Application)
    ));
    assert_eq!(&driver.take_output()[..], b"\x82\x07payload");
    assert!(matches!(
        driver.written(AfterWrite::Application, Ok(()), 0),
        DriverAction::Complete
    ));
    assert!(matches!(
        driver.on_application(&ApplicationRequest::Flush, &mut shared, 0),
        DriverAction::Write(AfterWrite::Application)
    ));
    assert!(!reader.is_closed(&shared));
}

#[test]
fn driver_answers_pings_without_the_application() {
    let (mut reader, mut driver, mut shared) = halves(Role::Server, quiet());
    feed(&mut reader, b"\x89\x83\0\0\0\0pin", &mut shared);
    let (request, after) = match step(&mut reader, &mut shared) {
        ReaderAction::Request(request, after) => (request, after),
        other => panic!("unexpected {other:?}"),
    };
    assert!(matches!(&request, ControlRequest::PeerPing(p, _) if p == &b"pin"[..]));
    assert!(matches!(
        reader.requested(after, true, &mut shared),
        ReaderAction::Deliver(Message::Ping(p)) if p == b"pin"[..]
    ));
    assert!(matches!(
        driver.on_control(request, 0),
        DriverAction::Write(AfterWrite::Control)
    ));
    assert_eq!(&driver.take_output()[..], b"\x8a\x03pin");
    assert!(matches!(
        driver.written(AfterWrite::Control, Ok(()), 0),
        DriverAction::Again
    ));
}

#[test]
fn peer_close_ends_both_halves() {
    let (mut reader, mut driver, mut shared) = halves(Role::Server, quiet());
    feed(&mut reader, b"\x88\x80\0\0\0\0", &mut shared);
    let (request, after) = match step(&mut reader, &mut shared) {
        ReaderAction::Request(request, after) => (request, after),
        other => panic!("unexpected {other:?}"),
    };
    assert!(matches!(request, ControlRequest::PeerClose));
    assert!(matches!(
        reader.requested(after, true, &mut shared),
        ReaderAction::Deliver(Message::Close(None))
    ));
    assert!(!shared.is_open());
    assert!(matches!(
        driver.on_control(request, 0),
        DriverAction::LastWrite(budget, TerminalCause::ConnectionClosed) if budget == 5 * SECOND
    ));
    assert_eq!(&driver.take_output()[..], &[0x88, 0x00]);
    assert!(matches!(step(&mut reader, &mut shared), ReaderAction::Read));
    let ended = SplitReadEvent::Terminal(Some(TerminalCause::ConnectionClosed));
    assert!(matches!(
        reader.read_done(ended, &mut shared),
        ReaderAction::Again
    ));
    assert!(matches!(step(&mut reader, &mut shared), ReaderAction::End));
}

#[test]
fn frames_beyond_the_backpressure_limit_end_the_writer() {
    let config = Config::builder()
        .auto_ping(false)
        .idle_timeout(0)
        .max_backpressure(6)
        .build();
    let (_, mut driver, mut shared) = halves(Role::Server, config);
    let fits = ApplicationRequest::Send(Message::text("1234"));
    assert!(matches!(
        driver.on_application(&fits, &mut shared, 0),
        DriverAction::Write(AfterWrite::Application)
    ));
    let _ = driver.take_output();
    let exceeds = ApplicationRequest::Send(Message::text("12345"));
    assert!(matches!(
        driver.on_application(&exceeds, &mut shared, 0),
        DriverAction::Failed(TerminalCause::ConnectionClosed, Error::BufferFull)
    ));
    assert!(driver.take_output().is_empty());
}

#[test]
fn nothing_is_sent_after_a_close() {
    let (_, mut driver, mut shared) = halves(Role::Server, quiet());
    let close = ApplicationRequest::Send(Message::Close(None));
    assert!(matches!(
        driver.on_application(&close, &mut shared, 0),
        DriverAction::Write(AfterWrite::Application)
    ));
    assert_eq!(shared.status, SplitStatus::Closing);
    let late = ApplicationRequest::Send(Message::text("late"));
    assert!(matches!(
        driver.on_application(&late, &mut shared, 0),
        DriverAction::Refuse(Error::ConnectionClosed)
    ));
    // The peer has until the closing budget is over.
    assert!(matches!(
        driver.poll(&shared, 0, 1),
        DriverAction::Wait(Some(at)) if at == 5 * SECOND
    ));
    assert!(matches!(
        driver.poll(&shared, 5 * SECOND, 1),
        DriverAction::Stop(TerminalCause::ConnectionClosed)
    ));
}

#[test]
fn driver_pings_and_gives_up_without_a_pong() {
    let config = Config::builder()
        .ping_interval(1)
        .pong_timeout(2)
        .idle_timeout(0)
        .build();
    let (_, mut driver, shared) = halves(Role::Server, config);
    assert!(matches!(
        driver.poll(&shared, 0, 7),
        DriverAction::Wait(Some(SECOND))
    ));
    assert!(matches!(
        driver.poll(&shared, SECOND, 7),
        DriverAction::Write(AfterWrite::Ping)
    ));
    assert_eq!(&driver.take_output()[..], &[0x89, 8, 0, 0, 0, 0, 0, 0, 0, 7]);
    let wait = driver.writing(&shared);
    assert!(wait.reads_control);
    assert!(matches!(
        driver.written(AfterWrite::Ping, Ok(()), SECOND),
        DriverAction::Again
    ));
    assert!(matches!(
        driver.poll(&shared, 3 * SECOND, 8),
        DriverAction::LastWrite(_, TerminalCause::HeartbeatTimeout)
    ));
    assert_eq!(driver.take_output()[0], 0x88);
}

#[test]
fn pong_reaches_the_driver() {
    let config = Config::builder()
        .ping_interval(1)
        .pong_timeout(2)
        .idle_timeout(0)
        .build();
    let (_, mut driver, shared) = halves(Role::Server, config);
    assert!(matches!(
        driver.poll(&shared, SECOND, 7),
        DriverAction::Write(AfterWrite::Ping)
    ));
    driver.take_output();
    driver.written(AfterWrite::Ping, Ok(()), SECOND);
    let pong = ControlRequest::Pong(Bytes::from_static(&[0, 0, 0, 0, 0, 0, 0, 7]), 2 * SECOND);
    assert!(matches!(driver.on_control(pong, 2 * SECOND), DriverAction::Again));
    assert!(matches!(
        driver.poll(&shared, 2 * SECOND, 8),
        DriverAction::Wait(Some(at)) if at == 3 * SECOND
    ));
}

#[test]
fn close_during_a_write_waits_for_the_frame() {
    let (_, mut driver, mut shared) = halves(Role::Server, quiet());
    driver.on_application(
        &ApplicationRequest::Send(Message::text("x")),
        &mut shared,
        0,
    );
    assert!(driver.write_control(Some(ControlRequest::PeerClose), 0).is_ok());
    let wait = driver.writing(&shared);
    assert!(!wait.reads_control);
    assert_eq!(wait.until, Some(5 * SECOND));
    assert!(matches!(
        driver.take_deferred(),
        Some(ControlRequest::PeerClose)
    ));
    assert!(driver.write_timer(&shared, 6 * SECOND).is_err());
}

#[test]
fn read_error_stops_the_writer() {
    let (mut reader, mut driver, mut shared) = halves(Role::Client, quiet());
    feed(&mut reader, &[0x83, 0x00], &mut shared);
    let (request, after) = match step(&mut reader, &mut shared) {
        ReaderAction::Request(request, after) => (request, after),
        other => panic!("unexpected {other:?}"),
    };
    assert!(matches!(request, ControlRequest::ReadError));
    assert!(matches!(&after, AfterRequest::Fail(Error::InvalidFrame(_))));
    assert!(matches!(
        reader.requested(after, true, &mut shared),
        ReaderAction::Fail(Error::InvalidFrame(_))
    ));
    assert!(matches!(
        driver.on_control(request, 0),
        DriverAction::Stop(TerminalCause::ConnectionClosed)
    ));
    assert!(matches!(
        driver.on_cancel(),
        DriverAction::Stop(TerminalCause::ConnectionClosed)
    ));
}

#[test]
fn reader_learns_why_the_writer_ended() {
    let (mut reader, _, mut shared) = halves(Role::Client, quiet());
    let action = reader.read_done(
        SplitReadEvent::Terminal(Some(TerminalCause::IdleTimeout)),
        &mut shared,
    );
    assert!(matches!(action, ReaderAction::Again));
    assert!(matches!(
        step(&mut reader, &mut shared),
        ReaderAction::Fail(Error::IdleTimeout)
    ));
    assert!(reader.is_closed(&shared));
    assert!(matches!(step(&mut reader, &mut shared), ReaderAction::End));
}

#[test]
fn first_end_is_final() {
    let mut shared = SplitShared::new(false, true);
    assert!(shared.is_open());
    shared.note_inbound(5 * SECOND);
    shared.note_inbound(2 * SECOND);
    assert_eq!(shared.last_inbound_ms, 5000);
    shared.begin_closing();
    shared.terminate(TerminalCause::HeartbeatTimeout);
    shared.terminate(TerminalCause::ConnectionClosed);
    assert!(matches!(shared.current_error(), Error::HeartbeatTimeout));
    assert!(matches!(
        TerminalCause::from_error(&Error::IdleTimeout).error(),
        Error::IdleTimeout
    ));
    assert!(matches!(
        TerminalCause::from_error(&Error::WouldBlock).error(),
        Error::ConnectionClosed
    ));
    assert!(!SplitShared::new(true, false).is_open());
}

#[test]
fn compressed_halves_split_too() {
    let session = Session::compressed(
        Role::Server,
        quiet(),
        sockudo_ws::DeflateConfig::default(),
        None,
    );
    let (mut reader, mut driver, mut shared) = session.split();
    let text = "compressed ".repeat(30);
    let action = driver.on_application(
        &ApplicationRequest::Send(Message::text(text.as_str())),
        &mut shared,
        0,
    );
    assert!(matches!(action, DriverAction::Write(AfterWrite::Application)));
    let out = driver.take_output();
    assert_eq!(out[0], 0xc1);
    assert!(out.len() < text.len());
    assert!(matches!(
        reader.next_step(&mut shared, 0),
        ReaderAction::Read
    ));
}
