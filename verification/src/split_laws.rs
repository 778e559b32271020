//! What the two halves of a split connection promise each other, in terms of
//! their own fields.
use crate::driver;
use crate::driver::{AfterWrite, DriverAction, DriverView};
use crate::error::{Error, Result};
use crate::frame;
use crate::frame::OpCode;
use crate::framing;
use crate::framing::{FrameReader, FrameWriter};
use crate::halves;
use crate::halves::{
    AfterRequestView, ControlView, ReaderActionView, ReaderView, SplitReadEvent, SplitShared,
    TerminalCause,
};
use crate::heartbeat;
use crate::heartbeat::Deadline;
use crate::octets;
use crate::protocol;
use crate::protocol::MessageView;
use crate::session_laws;
use vstd::prelude::*;

verus! {

// ---------------------------------------------------------------------------
// What both halves know
// ---------------------------------------------------------------------------

/// What ended a connection: an overdue Pong and too long a silence are told
/// apart, and all else is its end.
pub proof fn law_causes_and_errors(e: Error, cause: TerminalCause)
    ensures
        e is HeartbeatTimeout ==> halves::cause_of(e) is HeartbeatTimeout,
        e is IdleTimeout ==> halves::cause_of(e) is IdleTimeout,
        !(e is HeartbeatTimeout) && !(e is IdleTimeout) ==> halves::cause_of(e) is ConnectionClosed,
        halves::cause_of(halves::error_of(cause)) == cause,
        cause is ConnectionClosed ==> halves::error_of(cause) is ConnectionClosed,
{
}

/// The state that both halves share moves from open over closing to closed, and
/// the first cause of the end is kept.
pub proof fn law_shared_state_moves_on(s: SplitShared, cause: TerminalCause, now: u64)
    ensures
        s.status is Open ==> halves::closing(s).status is Closing,
        !(s.status is Open) ==> halves::closing(s) == s,
        halves::closing(s).terminal == s.terminal,
        halves::closing(s).last_inbound_ms == s.last_inbound_ms,
        s.status is Closed ==> halves::terminated(s, cause) == s,
        !(s.status is Closed) ==> halves::terminated(s, cause).status is Closed
            && halves::terminated(s, cause).terminal == Some(cause),
        s.terminal is None ==> halves::writer_error(s) is ConnectionClosed,
        s.terminal == Some(TerminalCause::HeartbeatTimeout) ==> halves::writer_error(
            s,
        ) is HeartbeatTimeout,
        s.terminal == Some(TerminalCause::IdleTimeout) ==> halves::writer_error(s) is IdleTimeout,
        s.terminal == Some(TerminalCause::ConnectionClosed) ==> halves::writer_error(
            s,
        ) is ConnectionClosed,
        s.tracks_inbound_activity ==> halves::noted(s, now).last_inbound_ms == if s.last_inbound_ms
            >= now / 1_000_000 {
            s.last_inbound_ms
        } else {
            now / 1_000_000
        },
        !s.tracks_inbound_activity ==> halves::noted(s, now) == s,
        halves::noted(s, now).status == s.status,
        halves::noted(s, now).terminal == s.terminal,
{
}

/// What the halves begin with.
pub proof fn law_split_begins(closed: bool, tracks: bool)
    ensures
        ({
            let s = halves::new_shared(closed, tracks);
            &&& closed ==> s.status is Closed && s.terminal == Some(TerminalCause::ConnectionClosed)
            &&& !closed ==> s.status is Open && s.terminal is None
            &&& s.last_inbound_ms == 0
            &&& s.tracks_inbound_activity == tracks
        }),
{
}

// ---------------------------------------------------------------------------
// The reader
// ---------------------------------------------------------------------------

/// Messages that were accepted are taken up in order: the writer learns of
/// control frames before they are handed on, with their payload and the time;
/// data is handed on at once and counts as activity; behind a Close nothing is
/// received.
pub proof fn law_reader_takes_up_messages<C: FrameReader>(
    a: ReaderView<C>,
    shared: SplitShared,
    now: u64,
    b: ReaderView<C>,
    shared_after: SplitShared,
    action: ReaderActionView,
)
    requires
        !a.terminal_reported,
        a.error is Some || !(shared.status is Closed),
        a.pending.len() > 0,
        halves::reader_stepped(a, shared, now, b, shared_after, action),
    ensures
        a.pending[0] matches MessageView::Ping(payload) ==> action == ReaderActionView::Request(
            ControlView::PeerPing(payload, now),
            AfterRequestView::Deliver(a.pending[0]),
        ) && shared_after == shared,
        a.pending[0] matches MessageView::Pong(payload) ==> action == ReaderActionView::Request(
            ControlView::Pong(payload, now),
            AfterRequestView::Deliver(a.pending[0]),
        ) && shared_after == shared,
        a.pending[0] is Close ==> {
            &&& action == ReaderActionView::Request(
                ControlView::PeerClose,
                AfterRequestView::Deliver(a.pending[0]),
            )
            &&& b.pending.len() == 0
            &&& b.error is None
            &&& b.read.len() == 0
            &&& !(shared_after.status is Open)
        },
        a.pending[0] is Text || a.pending[0] is Binary ==> {
            &&& action == ReaderActionView::Deliver(a.pending[0])
            &&& shared_after.status == shared.status
            &&& shared.tracks_inbound_activity ==> shared_after.last_inbound_ms >= now / 1_000_000
        },
        !(a.pending[0] is Close) ==> b.pending == a.pending.drop_first() && b.error == a.error
            && b.read == a.read,
        b.codec == a.codec,
        !b.terminal_reported,
{
}

/// The end is told once: as the error where the heartbeat gave the peer up, and
/// as the end of the stream where the connection was closed.
pub proof fn law_reader_tells_the_end_once<C: FrameReader>(
    a: ReaderView<C>,
    shared: SplitShared,
    now: u64,
    b: ReaderView<C>,
    shared_after: SplitShared,
    action: ReaderActionView,
)
    requires
        halves::reader_stepped(a, shared, now, b, shared_after, action),
    ensures
        a.terminal_reported ==> action is End && b == a && shared_after == shared,
        !a.terminal_reported && a.error is None && shared.status is Closed ==> {
            &&& b.terminal_reported
            &&& shared_after == shared
            &&& shared.terminal == Some(TerminalCause::HeartbeatTimeout) ==> action
                == ReaderActionView::Fail(Error::HeartbeatTimeout)
            &&& shared.terminal == Some(TerminalCause::IdleTimeout) ==> action
                == ReaderActionView::Fail(Error::IdleTimeout)
            &&& shared.terminal == Some(TerminalCause::ConnectionClosed) || shared.terminal is None
                ==> action is End
        },
        !a.terminal_reported && a.error is Some && a.pending.len() == 0 ==> {
            &&& action == ReaderActionView::Request(
                ControlView::ReadError,
                AfterRequestView::Fail(a.error->0),
            )
            &&& b.error is None
        },
{
}

/// What the reader does with input that has arrived, where nothing comes before
/// it: its messages are kept in order and the first is taken up, an error keeps
/// the application from sending more, and with no message it reads on.
pub proof fn law_reader_takes_input<C: FrameReader>(
    a: ReaderView<C>,
    shared: SplitShared,
    now: u64,
    b: ReaderView<C>,
    shared_after: SplitShared,
    action: ReaderActionView,
) -> (taken: (C, Seq<u8>, Seq<MessageView>, bool, Result<()>))
    requires
        !a.terminal_reported,
        a.error is None,
        !(shared.status is Closed),
        a.pending.len() == 0,
        a.read.len() > 0,
        halves::reader_stepped(a, shared, now, b, shared_after, action),
    ensures
        a.codec.has_read(a.read, taken.0, taken.1, taken.2, taken.3, taken.4),
        ({
            let messages = taken.2;
            &&& messages.len() == 0 && taken.4 is Ok ==> {
                &&& action is Read
                &&& b.codec == taken.0
                &&& b.read == taken.1
                &&& b.error is None
                &&& shared_after.status == shared.status
            }
            &&& messages.len() == 0 ==> (taken.4 matches Err(e) ==> action
                == ReaderActionView::Request(ControlView::ReadError, AfterRequestView::Fail(e))
                && !(shared_after.status is Open))
            &&& messages.len() > 0 && !(messages[0] is Close) ==> {
                &&& b.pending == messages.drop_first()
                &&& b.codec == taken.0
                &&& b.read == taken.1
                &&& taken.4 is Ok ==> b.error is None
                &&& taken.4 matches Err(e) ==> b.error == Some(e)
            }
            &&& messages.len() > 0 && (messages[0] is Text || messages[0] is Binary) ==> action
                == ReaderActionView::Deliver(messages[0])
            &&& messages.len() > 0 ==> (messages[0] matches MessageView::Ping(payload) ==> action
                == ReaderActionView::Request(
                ControlView::PeerPing(payload, now),
                AfterRequestView::Deliver(messages[0]),
            ))
            &&& messages.len() > 0 && messages[0] is Close ==> action == ReaderActionView::Request(
                ControlView::PeerClose,
                AfterRequestView::Deliver(messages[0]),
            )
        }),
{
    let (mid, shared_mid, r) = choose|mid: ReaderView<C>, shared_mid: SplitShared, r: Result<()>|
     #[trigger]
        halves::reader_parsed(a, shared, now, mid, shared_mid, r) && (b, shared_after, action)
            == halves::reader_delivers(mid, shared_mid, now);
    let fragment = choose|fragment: bool| #[trigger]
        a.codec.has_read(a.read, mid.codec, mid.read, mid.pending, fragment, r) && mid == (
        ReaderView {
            codec: mid.codec,
            read: mid.read,
            pending: mid.pending,
            error: match r {
                Ok(_) => a.error,
                Err(e) => Some(e),
            },
            ..a
        }) && shared_mid == match r {
            Ok(_) => if fragment {
                halves::noted(shared, now)
            } else {
                shared
            },
            Err(_) => halves::closing(shared),
        };
    (mid.codec, mid.read, mid.pending, fragment, r)
}

/// What becomes of a request to the writer: a message is handed on once the
/// writer has it, and where the writer is gone the connection has ended; an
/// error is reported either way, and is the last thing that is.
pub proof fn law_reader_requests<C>(
    a: ReaderView<C>,
    shared: SplitShared,
    after: AfterRequestView,
    taken: bool,
)
    ensures
        ({
            let (b, s, action) = halves::reader_requested(a, shared, after, taken);
            &&& after matches AfterRequestView::Deliver(msg) ==> {
                &&& taken ==> action == ReaderActionView::Deliver(msg) && s == shared && b == a
                &&& !taken ==> action is Again && s.status is Closed && b == a
            }
            &&& after matches AfterRequestView::Fail(e) ==> action == ReaderActionView::Fail(e)
                && s.status is Closed && b.terminal_reported
            &&& after is Again ==> action is Again && s.status is Closed && b == a
        }),
{
}

/// What becomes of a read: its end is made known to the writer, its error is
/// reported and ends the connection, and bytes are looked at. A writer that has
/// ended tells why.
pub proof fn law_reader_reads<C>(a: ReaderView<C>, shared: SplitShared, event: SplitReadEvent)
    requires
        !(shared.status is Closed),
    ensures
        ({
            let (b, s, action) = halves::reader_read(a, shared, event);
            &&& b == a
            &&& event matches SplitReadEvent::Read(Ok(n)) ==> {
                &&& n == 0 ==> action == ReaderActionView::Request(
                    ControlView::Eof,
                    AfterRequestView::Again,
                )
                &&& n > 0 ==> action is Again
                &&& s == shared
            }
            &&& event matches SplitReadEvent::Read(Err(e)) ==> action == ReaderActionView::Fail(e)
                && s.status is Closed
            &&& event matches SplitReadEvent::Terminal(cause) ==> action is Again
                && s.status is Closed && s.terminal == Some(
                if cause is Some {
                    cause->0
                } else {
                    TerminalCause::ConnectionClosed
                },
            )
        }),
{
}

// ---------------------------------------------------------------------------
// The writer
// ---------------------------------------------------------------------------

/// Until when a driver that begins to close now, or has begun to, may take.
pub open spec fn closing_until<E>(a: DriverView<E>, until: u64, now: u64) -> bool {
    match a.closing_deadline {
        Some(at) => until == at,
        None => until == session_laws::deadline_after(now, a.config.close_timeout),
    }
}

proof fn lemma_frame(role: protocol::Role, msg: MessageView, out: Seq<u8>)
    requires
        framing::appended(role, msg, Seq::empty(), out),
    ensures
        session_laws::frame_appended(
            role,
            protocol::message_opcode(msg),
            protocol::message_payload(msg),
            Seq::empty(),
            out,
        ),
{
    let key = choose|key: Option<Seq<u8>>| #[trigger]
        protocol::key_for(role, key) && out == Seq::<u8>::empty() + protocol::message_bytes(
            msg,
            key,
        );
    assert(out == Seq::<u8>::empty() + frame::frame_bytes(
        protocol::message_opcode(msg),
        protocol::message_payload(msg),
        true,
        key,
        false,
    ));
}

/// A Ping that the reader saw is answered with a Pong of the same payload,
/// whatever the configuration is and whether or not the application has sent a
/// Close, and counts as a sign of life when it was seen.
pub proof fn law_writer_answers_pings<E: FrameWriter>(
    a: DriverView<E>,
    payload: Seq<u8>,
    at: u64,
    now: u64,
    b: DriverView<E>,
    action: DriverAction,
)
    requires
        driver::on_control_spec(a, ControlView::PeerPing(payload, at), now, b, action),
    ensures
        session_laws::frame_appended(
            a.encoder.endpoint(),
            OpCode::Pong,
            payload,
            Seq::empty(),
            b.write,
        ),
        action == DriverAction::Write(AfterWrite::Control),
        !a.heartbeat.stopped ==> b.heartbeat.last_inbound >= at / 1_000_000,
        b.heartbeat.outstanding == a.heartbeat.outstanding,
        b.encoder == a.encoder,
        b.closing_deadline == a.closing_deadline,
        b.local_close_sent == a.local_close_sent,
{
    lemma_frame(a.encoder.endpoint(), MessageView::Pong(payload), b.write);
}

/// A Pong that the reader saw is made known to the heartbeat with the time when
/// it was seen; nothing is written.
pub proof fn law_writer_takes_pongs<E: FrameWriter>(
    a: DriverView<E>,
    payload: Seq<u8>,
    at: u64,
    now: u64,
    b: DriverView<E>,
    action: DriverAction,
)
    requires
        driver::on_control_spec(a, ControlView::Pong(payload, at), now, b, action),
    ensures
        action is Again,
        b.write == a.write,
        b.encoder == a.encoder,
        b.heartbeat == heartbeat::heard(
            a.heartbeat,
            (at / 1_000_000) as u64,
            Some(payload),
        ),
{
}

/// The peer's Close ends the writer: where the application has sent none, the
/// answer with the reason that the handler repeats is the last that is written,
/// within the time for closing.
pub proof fn law_writer_answers_close<E: FrameWriter>(
    a: DriverView<E>,
    now: u64,
    b: DriverView<E>,
    action: DriverAction,
)
    requires
        driver::on_control_spec(a, ControlView::PeerClose, now, b, action),
    ensures
        b.heartbeat.stopped,
        b.closing_deadline is Some,
        closing_until(a, b.closing_deadline->0, now),
        a.local_close_sent ==> action == DriverAction::Stop(TerminalCause::ConnectionClosed)
            && b.write == a.write,
        !a.local_close_sent ==> {
            &&& session_laws::frame_appended(
                a.encoder.endpoint(),
                OpCode::Close,
                frame::close_payload(a.encoder.close_reason()),
                Seq::empty(),
                b.write,
            )
            &&& action matches DriverAction::LastWrite(left, cause) && cause is ConnectionClosed
                && left == if b.closing_deadline->0 > now {
                b.closing_deadline->0 - now
            } else {
                0
            }
        },
{
    if !a.local_close_sent {
        lemma_frame(
            a.encoder.endpoint(),
            MessageView::Close(a.encoder.close_reason()),
            b.write,
        );
    }
}

/// A failed or ended input ends the writer.
pub proof fn law_writer_ends_with_input<E: FrameWriter>(
    a: DriverView<E>,
    request: ControlView,
    now: u64,
    b: DriverView<E>,
    action: DriverAction,
)
    requires
        request is ReadError || request is Eof,
        driver::on_control_spec(a, request, now, b, action),
    ensures
        action == DriverAction::Stop(TerminalCause::ConnectionClosed),
        b.heartbeat.stopped,
        b.write == a.write,
{
}

/// What a deadline makes the writer do: a Ping that is due is written with the
/// nonce; an overdue Pong and too long a silence are written to the peer as a
/// Close, for which there is the time for closing, and end the writer with
/// their cause. A time for closing that is over ends it at once.
pub proof fn law_writer_keeps_deadlines<E: FrameWriter>(
    a: DriverView<E>,
    shared: SplitShared,
    at: Deadline,
    now: u64,
    nonce: u64,
    b: DriverView<E>,
    action: DriverAction,
)
    requires
        shared.last_inbound_ms <= a.last_synced,
        driver::on_timer_spec(a, shared, now, nonce, b, action),
        heartbeat::deadline_of(a.heartbeat) == Some(at),
    ensures
        a.closing_deadline is Some && now >= a.closing_deadline->0 ==> action == DriverAction::Stop(
            TerminalCause::ConnectionClosed,
        ) && b == a,
        !(a.closing_deadline is Some && now >= a.closing_deadline->0) ==> {
            &&& at.time() > now / 1_000_000 ==> action is Again && b == a
            &&& at.time() <= now / 1_000_000 && at is Ping ==> {
                let payload = octets::be_bytes(nonce as nat, 8);
                &&& action == DriverAction::Write(AfterWrite::Ping)
                &&& session_laws::frame_appended(
                    a.encoder.endpoint(),
                    OpCode::Ping,
                    payload,
                    Seq::empty(),
                    b.write,
                )
                &&& b.heartbeat.outstanding is Some && b.heartbeat.outstanding->0.payload == payload
            }
            &&& at.time() <= now / 1_000_000 && at is Idle ==> {
                &&& action == DriverAction::LastWrite(
                    (a.config.close_timeout * 1_000_000_000) as u64,
                    TerminalCause::IdleTimeout,
                )
                &&& session_laws::frame_appended(
                    a.encoder.endpoint(),
                    OpCode::Close,
                    frame::close_payload(Some((1001u16, "Connection idle timeout"@))),
                    Seq::empty(),
                    b.write,
                )
            }
            &&& at.time() <= now / 1_000_000 && at is Pong ==> {
                &&& action == DriverAction::LastWrite(
                    (a.config.close_timeout * 1_000_000_000) as u64,
                    TerminalCause::HeartbeatTimeout,
                )
                &&& session_laws::frame_appended(
                    a.encoder.endpoint(),
                    OpCode::Close,
                    frame::close_payload(
                        Some(
                            (
                                a.config.pong_timeout_close_code,
                                heartbeat::bounded(a.config.pong_timeout_close_reason@, 123),
                            ),
                        ),
                    ),
                    Seq::empty(),
                    b.write,
                )
            }
        },
{
    if !(a.closing_deadline is Some && now >= a.closing_deadline->0) && at.time() <= now
        / 1_000_000 {
        if at is Ping {
            let payload = octets::be_bytes(nonce as nat, 8);
            lemma_frame(a.encoder.endpoint(), MessageView::Ping(payload), b.write);
        } else {
            lemma_frame(
                a.encoder.endpoint(),
                crate::session::timeout_close(a.config, at),
                b.write,
            );
        }
    }
}

/// What the writer waits for: a closed connection ends it, a deadline that has
/// come is dealt with, and else it waits until the earlier of the next deadline
/// and the end of the time for closing, or without a limit where there is
/// neither.
pub proof fn law_writer_waits<E: FrameWriter>(
    a: DriverView<E>,
    shared: SplitShared,
    now: u64,
    nonce: u64,
    b: DriverView<E>,
    action: DriverAction,
)
    requires
        shared.last_inbound_ms <= a.last_synced,
        driver::polled(a, shared, now, nonce, b, action),
    ensures
        shared.status is Closed ==> action == DriverAction::Stop(TerminalCause::ConnectionClosed)
            && b == a,
        !(shared.status is Closed) ==> {
            let beat = heartbeat::deadline_of(a.heartbeat);
            let beat_due = beat is Some && beat->0.time() <= now / 1_000_000;
            let over = a.closing_deadline is Some && a.closing_deadline->0 <= now;
            &&& over ==> action == DriverAction::Stop(TerminalCause::ConnectionClosed)
            &&& beat_due && !over ==> action is Write || action is LastWrite
            &&& !beat_due && !over ==> b == a && (action matches DriverAction::Wait(until) && {
                &&& until is None <==> beat is None && a.closing_deadline is None
                &&& until matches Some(t) ==> {
                    &&& a.closing_deadline matches Some(at) ==> t <= at
                    &&& beat matches Some(d) ==> t <= d.time() * 1_000_000
                    &&& (a.closing_deadline == Some(t) || (beat is Some && (t == beat->0.time()
                        * 1_000_000 || t == u64::MAX)))
                }
            })
        },
{
}

/// What the reader saw moves the heartbeat on before a deadline is looked at.
pub proof fn law_writer_learns_of_activity<E>(a: DriverView<E>, shared: SplitShared)
    ensures
        shared.last_inbound_ms <= a.last_synced ==> driver::synced(a, shared) == a,
        shared.last_inbound_ms > a.last_synced ==> driver::synced(a, shared).last_synced
            == shared.last_inbound_ms && (!a.heartbeat.stopped ==> driver::synced(
            a,
            shared,
        ).heartbeat.last_inbound >= shared.last_inbound_ms) && driver::synced(
            a,
            shared,
        ).heartbeat.outstanding == a.heartbeat.outstanding,
        driver::synced(a, shared).write == a.write,
        driver::synced(a, shared).closing_deadline == a.closing_deadline,
{
}

/// A message of the application is written while the connection is open, and
/// refused once it is not. A Close begins the closing: none can follow, the
/// heartbeat ends, and the time for closing runs from now.
pub proof fn law_writer_sends<E: FrameWriter>(
    a: DriverView<E>,
    shared: SplitShared,
    msg: MessageView,
    now: u64,
    b: DriverView<E>,
    shared_after: SplitShared,
    action: DriverAction,
) -> (written: (Seq<u8>, Result<()>))
    requires
        driver::on_send_spec(a, shared, msg, now, b, shared_after, action),
    ensures
        !(shared.status is Open) ==> action == DriverAction::Refuse(Error::ConnectionClosed) && b
            == a && shared_after == shared,
        shared.status is Open ==> {
            let (out, r) = written;
            &&& a.encoder.has_written(msg, Seq::empty(), b.encoder, out, r)
            &&& r is Ok && out.len() <= a.config.max_backpressure ==> action == DriverAction::Write(
                AfterWrite::Application,
            ) && b.write == out
            &&& r is Ok && out.len() > a.config.max_backpressure ==> action
                == DriverAction::Failed(TerminalCause::ConnectionClosed, Error::BufferFull)
                && b.write.len() == 0
            &&& r matches Err(e) ==> action == DriverAction::Failed(halves::cause_of(e), e)
            &&& msg is Close ==> {
                &&& shared_after.status is Closing
                &&& b.local_close_sent
                &&& b.heartbeat.stopped
                &&& b.closing_deadline is Some
                &&& closing_until(a, b.closing_deadline->0, now)
            }
            &&& !(msg is Close) ==> {
                &&& shared_after == shared
                &&& b.local_close_sent == a.local_close_sent
                &&& b.heartbeat == a.heartbeat
                &&& b.closing_deadline == a.closing_deadline
            }
        },
{
    if shared.status is Open {
        let c = if msg is Close {
            DriverView { local_close_sent: true, ..driver::closing_from(a, now) }
        } else {
            a
        };
        choose|out: Seq<u8>, r: Result<()>| #[trigger]
            a.encoder.has_written(msg, Seq::empty(), b.encoder, out, r) && (b, action)
                == driver::queued(DriverView { encoder: b.encoder, ..c }, out, r)
    } else {
        (Seq::empty(), Ok(()))
    }
}

/// What follows a frame that was written: the application is told of its own,
/// and after a Ping the wait for its Pong begins. One that could not be written
/// ends the writer, and fails the application's request where it was one.
pub proof fn law_written_frames<E>(a: DriverView<E>, after: AfterWrite, r: Result<()>, now: u64)
    ensures
        ({
            let (b, action) = driver::written_spec(a, after, r, now);
            &&& r is Ok && after is Control ==> action is Again && b == a
            &&& r is Ok && after is Application ==> action is Complete && b == a
            &&& r is Ok && after is Ping ==> action is Again && b.heartbeat == heartbeat::flushed(
                a.heartbeat,
                (now / 1_000_000) as u64,
            )
            &&& r matches Err(e) ==> {
                &&& after is Application ==> action == DriverAction::Failed(
                    halves::cause_of(e),
                    e,
                )
                &&& !(after is Application) ==> action == DriverAction::Stop(halves::cause_of(e))
            }
        }),
{
}

/// What the reader asks for while a frame is being written waits until the
/// frame is complete: the latest Ping, or a Close or a read error, which begin
/// the closing and keep further requests back. The end of the input abandons
/// the write.
pub proof fn law_requests_wait_for_the_frame<E>(
    a: DriverView<E>,
    request: Option<ControlView>,
    now: u64,
)
    ensures
        ({
            let (b, r) = driver::write_control_spec(a, request, now);
            &&& b.write == a.write
            &&& b.encoder == a.encoder
            &&& b.config == a.config
            &&& b.local_close_sent == a.local_close_sent
            &&& b.last_synced == a.last_synced
            &&& request matches Some(ControlView::PeerPing(payload, at)) ==> {
                &&& r is Ok
                &&& b.deferred == request
                &&& b.closing_deadline == a.closing_deadline
                &&& b.heartbeat == heartbeat::heard(
                    a.heartbeat,
                    (at / 1_000_000) as u64,
                    None,
                )
            }
            &&& request matches Some(ControlView::Pong(payload, at)) ==> r is Ok && b.deferred
                == a.deferred && b.heartbeat == heartbeat::heard(
                a.heartbeat,
                (at / 1_000_000) as u64,
                Some(payload),
            )
            &&& request == Some(ControlView::PeerClose) || request == Some(ControlView::ReadError)
                ==> {
                &&& r is Ok
                &&& b.deferred == request
                &&& b.heartbeat.stopped
                &&& b.closing_deadline is Some
                &&& closing_until(a, b.closing_deadline->0, now)
                &&& !driver::write_wait(b).reads_control
            }
            &&& request is None || request == Some(ControlView::Eof) ==> r == Err::<(), Error>(
                Error::ConnectionClosed,
            ) && b == a
        }),
        a.deferred is None || a.deferred->0 is PeerPing ==> driver::write_wait(a).reads_control,
{
}

/// A write is abandoned where the time for closing is over, and where a Pong is
/// overdue or the peer is silent for too long, with the error of that. A Ping
/// that is due waits.
pub proof fn law_writes_are_abandoned<E>(a: DriverView<E>, shared: SplitShared, now: u64)
    requires
        shared.last_inbound_ms <= a.last_synced,
    ensures
        ({
            let (b, r) = driver::write_timer_spec(a, shared, now);
            let limit = heartbeat::timeout_of(a.heartbeat);
            let over = a.closing_deadline is Some && now >= a.closing_deadline->0;
            &&& b == a
            &&& over ==> r == Err::<(), Error>(Error::ConnectionClosed)
            &&& !over && limit is Some && limit->0.time() <= now / 1_000_000 ==> {
                &&& limit->0 is Pong ==> r == Err::<(), Error>(Error::HeartbeatTimeout)
                &&& limit->0 is Idle ==> r == Err::<(), Error>(Error::IdleTimeout)
            }
            &&& !over && (limit is None || limit->0.time() > now / 1_000_000) ==> r is Ok
        }),
{
}

/// A write learns of what the reader has heard meanwhile, and is judged by that.
pub proof fn law_writes_learn_of_activity<E>(a: DriverView<E>, shared: SplitShared, now: u64)
    requires
        shared.last_inbound_ms > a.last_synced,
        a.closing_deadline is Some ==> now < a.closing_deadline->0,
    ensures
        ({
            let (b, r) = driver::write_timer_spec(a, shared, now);
            &&& b.last_synced == shared.last_inbound_ms
            &&& b.heartbeat == heartbeat::heard(a.heartbeat, shared.last_inbound_ms, None)
            &&& b.write == a.write
            &&& b.encoder == a.encoder
            &&& b.deferred == a.deferred
            &&& b.closing_deadline == a.closing_deadline
            &&& r == driver::write_timer_spec(b, shared, now).1
        }),
{
}

} // verus!
