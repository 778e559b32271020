//! What a connection promises, whatever its transport does.
use crate::error::{Error, Result};
use crate::frame;
use crate::frame::OpCode;
use crate::framing;
use crate::framing::{FrameReader, FrameWriter};
use crate::heartbeat;
use crate::heartbeat::Deadline;
use crate::octets;
use crate::protocol;
use crate::protocol::{MessageView, Protocol, Role};
use crate::session;
use crate::session::{ActionView, AfterFinishView, AfterFlushView, ReadEvent, SessionView};
use vstd::prelude::*;

verus! {

/// The message that an action hands on, at once or once it is answered.
pub open spec fn message_in(action: ActionView) -> Option<MessageView> {
    match action {
        ActionView::Deliver(msg) => Some(msg),
        ActionView::Flush { next: AfterFlushView::Deliver(msg), .. } => Some(msg),
        ActionView::Finish { after: AfterFinishView::Deliver(msg), .. } => Some(msg),
        _ => None,
    }
}

/// Whether an action reads from the transport.
pub open spec fn reads(action: ActionView) -> bool {
    action is Read || action is ReadBefore || action is ReadUntil
}

/// Accepted messages are handed on in order, and before an error behind them.
pub proof fn law_accepted_messages_come_first<C: FrameReader + FrameWriter>(
    a: SessionView<C>,
    now: u64,
    nonce: u64,
    b: SessionView<C>,
    action: ActionView,
)
    requires
        !(a.state is Closed),
        a.pending.len() > 0,
        session::next_stepped(a, now, nonce, b, action),
    ensures
        message_in(action) == Some(a.pending[0]),
        !(a.pending[0] is Close) ==> b.pending == a.pending.drop_first() && b.error == a.error,
{
}

/// An error in the input is reported once all messages before it were handed
/// on, and ends the stream.
pub proof fn law_input_error_ends_stream<C: FrameReader + FrameWriter>(
    a: SessionView<C>,
    now: u64,
    nonce: u64,
    b: SessionView<C>,
    action: ActionView,
)
    requires
        !(a.state is Closed),
        a.pending.len() == 0,
        a.error is Some,
        session::next_stepped(a, now, nonce, b, action),
    ensures
        action == ActionView::Fail(a.error->0),
        b.state is Closed,
{
}

/// A deadline that has come wins over input that was not looked at: none of it
/// is accepted.
pub proof fn law_deadline_wins_over_unread_input<C: FrameReader + FrameWriter>(
    a: SessionView<C>,
    now: u64,
    nonce: u64,
    b: SessionView<C>,
    action: ActionView,
)
    requires
        !(a.state is Closed),
        a.pending.len() == 0,
        a.error is None,
        session::deadline_due(a, now),
        session::next_stepped(a, now, nonce, b, action),
    ensures
        b.read == a.read,
        b.pending.len() == 0,
        message_in(action) is None,
{
}

/// A stream that has ended stays so.
pub proof fn law_ended_stream_stays_ended<C: FrameReader + FrameWriter>(
    a: SessionView<C>,
    now: u64,
    nonce: u64,
    b: SessionView<C>,
    action: ActionView,
)
    requires
        a.state is Closed,
        session::next_stepped(a, now, nonce, b, action),
    ensures
        action is End,
        b == a,
{
}

/// The peer's Close is the last message: it is handed on, answered unless a
/// Close was sent before, and nothing is received behind it.
pub proof fn law_close_is_the_last_message<C: FrameReader + FrameWriter>(
    a: SessionView<C>,
    now: u64,
    nonce: u64,
    b: SessionView<C>,
    action: ActionView,
)
    requires
        !(a.state is Closed),
        a.pending.len() > 0,
        a.pending[0] is Close,
        session::next_stepped(a, now, nonce, b, action),
    ensures
        message_in(action) == Some(a.pending[0]),
        b.state is Closed,
        b.pending.len() == 0,
        b.error is None,
        heartbeat::deadline_of(b.heartbeat) is None,
        a.state is Open || a.state is ReadErrorPending ==> framing::appended(
            a.codec.endpoint(),
            MessageView::Close(a.codec.close_reason()),
            a.write,
            b.write,
        ),
        a.state is CloseSent ==> b.write == a.write,
{
}

/// A Ping is answered with a Pong that carries the same payload before it is
/// handed on, unless a Close came with it, the send half has ended or the time
/// for closing is over.
pub proof fn law_ping_is_answered<C: FrameReader + FrameWriter>(
    a: SessionView<C>,
    payload: Seq<u8>,
    now: u64,
    nonce: u64,
    b: SessionView<C>,
    action: ActionView,
)
    requires
        !(a.state is Closed),
        a.pending.len() > 0,
        a.pending[0] == MessageView::Ping(payload),
        session::next_stepped(a, now, nonce, b, action),
    ensures
        session::answers_ping(a, now) ==> framing::appended(
            a.codec.endpoint(),
            MessageView::Pong(payload),
            a.write,
            b.write,
        ) && action is Flush,
        !session::answers_ping(a, now) ==> b.write == a.write && action is Deliver,
        message_in(action) == Some(MessageView::Ping(payload)),
{
}

/// Once the time for closing is over there is one more read and no further one:
/// the read is noted when it is asked for, and with the note the stream fails.
pub proof fn law_one_read_after_closing_time<C: FrameReader + FrameWriter>(
    a: SessionView<C>,
    now: u64,
    nonce: u64,
    b: SessionView<C>,
    action: ActionView,
)
    requires
        session::over(a.closing_deadline, now),
        session::next_stepped(a, now, nonce, b, action),
    ensures
        a.post_expiry_read ==> !reads(action),
        reads(action) ==> b.post_expiry_read && b.closing_deadline == a.closing_deadline,
{
}

/// An overdue Pong and too long a silence end the connection: a Close is
/// written, the send half is ended within the time for closing, and then the
/// error is reported and the stream has ended.
pub proof fn law_timeout_ends_connection<C: FrameReader + FrameWriter>(
    a: SessionView<C>,
    now: u64,
    nonce: u64,
    b: SessionView<C>,
    action: ActionView,
    complete: bool,
)
    requires
        !(a.state is Closed),
        a.pending.len() == 0,
        a.error is None,
        session::deadline_due(a, now),
        !(heartbeat::deadline_of(a.heartbeat)->0 is Ping),
        session::next_stepped(a, now, nonce, b, action),
    ensures
        ({
            let deadline = heartbeat::deadline_of(a.heartbeat)->0;
            let error = session::timeout_error(deadline);
            &&& framing::appended(
                a.codec.endpoint(),
                session::timeout_close(a.config, deadline),
                a.write,
                b.write,
            )
            &&& action == (ActionView::Finish {
                until: session::closing_budget(a, now),
                after: AfterFinishView::Fail(error),
            })
            &&& session::send_half_ended(b, AfterFinishView::Fail(error), complete).0.state is Closed
            &&& session::send_half_ended(b, AfterFinishView::Fail(error), complete).1
                == ActionView::Fail(error)
        }),
{
}

/// The time for closing is set once: what is received, sent or timed out later
/// does not extend it.
pub proof fn law_closing_time_is_set_once<C: FrameReader + FrameWriter>(
    a: SessionView<C>,
    now: u64,
    nonce: u64,
    b: SessionView<C>,
    action: ActionView,
)
    requires
        a.closing_deadline is Some,
        session::next_stepped(a, now, nonce, b, action),
    ensures
        b.closing_deadline == a.closing_deadline,
{
}

/// Once closing has begun or the input has failed, nothing more can be sent.
pub proof fn law_nothing_is_sent_after_close<C: FrameWriter>(
    a: SessionView<C>,
    msg: MessageView,
    now: u64,
    b: SessionView<C>,
    r: Result<Option<u64>>,
)
    requires
        session::sending(a, msg, now, b, r),
    ensures
        !(a.state is Open) ==> r == Err::<Option<u64>, Error>(Error::ConnectionClosed) && b == a,
        a.state is Open && msg is Close ==> !(b.state is Open) && b.closing_deadline is Some
            && heartbeat::deadline_of(b.heartbeat) is None,
{
}

/// No more output waits behind a message than the configuration allows. A
/// message that would make it more ends the connection.
pub proof fn law_backpressure_is_bounded<C: FrameWriter>(
    a: SessionView<C>,
    msg: MessageView,
    now: u64,
    b: SessionView<C>,
    r: Result<Option<u64>>,
)
    requires
        a.state is Open,
        session::sending(a, msg, now, b, r),
    ensures
        r is Ok ==> b.write.len() <= a.config.max_backpressure,
{
}

/// On a plain connection a message ends it exactly where its frame would make
/// more output wait than the configuration allows.
pub proof fn law_overfull_connection_ends(
    a: SessionView<Protocol>,
    msg: MessageView,
    now: u64,
    b: SessionView<Protocol>,
    r: Result<Option<u64>>,
)
    requires
        a.state is Open,
        session::sending(a, msg, now, b, r),
    ensures
        ({
            let len = a.write.len() + frame::frame_len(
                protocol::message_payload(msg).len(),
                a.codec@.role is Client,
            );
            &&& len > a.config.max_backpressure ==> r == Err::<Option<u64>, Error>(
                Error::BufferFull,
            ) && b.state is Closed && b.write.len() == 0
            &&& len <= a.config.max_backpressure ==> r is Ok && b.write.len() == len
        }),
{
    let (out, result) = choose|out: Seq<u8>, result: Result<()>| #[trigger]
        a.codec.has_written(msg, a.write, b.codec, out, result) && (b, r) == session::queued(
            SessionView { codec: b.codec, ..session::about_to_send(a, msg, now) },
            out,
            result,
        );
    let key = choose|key: Option<Seq<u8>>| #[trigger]
        protocol::key_for(a.codec@.role, key) && out == a.write + protocol::message_bytes(
            msg,
            key,
        );
    frame::lemma_frame_bytes_len(
        protocol::message_opcode(msg),
        protocol::message_payload(msg),
        true,
        key,
        false,
    );
}

/// A silent peer is given up once: the error is reported, and then the stream
/// has ended.
pub proof fn law_silent_peer_fails_once<C: FrameReader + FrameWriter>(
    a: SessionView<C>,
    now: u64,
    nonce: u64,
    b: SessionView<C>,
    action: ActionView,
)
    requires
        !(a.state is Closed),
        a.pending.len() == 0,
        a.error is None,
        a.read.len() == 0,
        a.heartbeat.stopped,
        session::over(a.closing_deadline, now),
        a.post_expiry_read,
        session::next_stepped(a, now, nonce, b, action),
    ensures
        b.state is Closed,
        action == ActionView::Fail(Error::ConnectionClosed) || action is Shutdown,
{
}

/// A read that ends with nothing is the end of the stream, and one that fails
/// reports its error; either way nothing is received any more.
pub proof fn law_end_of_input_ends_stream<C: FrameWriter>(
    a: SessionView<C>,
    n: Result<usize>,
    now: u64,
    nonce: u64,
    b: SessionView<C>,
    action: ActionView,
)
    requires
        session::read_ended(a, ReadEvent::Done(n), now, nonce, b, action),
    ensures
        n == Ok::<usize, Error>(0) ==> action is End && b.state is Closed,
        n matches Err(e) ==> action == ActionView::Fail(e) && b.state is Closed,
        n matches Ok(k) && k > 0 ==> action is Again && b == a,
{
}

// ---------------------------------------------------------------------------
// What is written and asked for, in terms of the connection's own fields
// ---------------------------------------------------------------------------

/// Whether a single frame was appended to the output: masked with some key of
/// four bytes by a client, and not masked by a server.
pub open spec fn frame_appended(
    role: Role,
    opcode: OpCode,
    payload: Seq<u8>,
    before: Seq<u8>,
    after: Seq<u8>,
) -> bool {
    exists|key: Option<Seq<u8>>|
        {
            &&& role is Client <==> key is Some
            &&& key is Some ==> key->0.len() == 4
            &&& after == before + #[trigger] frame::frame_bytes(opcode, payload, true, key, false)
        }
}

proof fn lemma_appended(role: Role, msg: MessageView, before: Seq<u8>, after: Seq<u8>)
    requires
        framing::appended(role, msg, before, after),
    ensures
        frame_appended(
            role,
            protocol::message_opcode(msg),
            protocol::message_payload(msg),
            before,
            after,
        ),
{
    let key = choose|key: Option<Seq<u8>>| #[trigger]
        protocol::key_for(role, key) && after == before + protocol::message_bytes(msg, key);
    assert(after == before + frame::frame_bytes(
        protocol::message_opcode(msg),
        protocol::message_payload(msg),
        true,
        key,
        false,
    ));
}

/// The nanoseconds of some seconds after a time, as far as time is counted.
pub open spec fn deadline_after(now: u64, seconds: u32) -> int {
    if now + seconds * 1_000_000_000 > u64::MAX {
        u64::MAX as int
    } else {
        now + seconds * 1_000_000_000
    }
}

/// Until when a connection that begins to close now, or has begun to, may take.
pub open spec fn closing_until<C>(a: SessionView<C>, until: u64, now: u64) -> bool {
    match a.closing_deadline {
        Some(at) => until == at,
        None => until == deadline_after(now, a.config.close_timeout),
    }
}

/// Whatever the configuration is, a Ping is answered with a Pong of the same
/// payload, which is to leave before the Ping is handed on: as long as the send
/// half has not ended, no Close was accepted with the Ping, and the time for
/// closing, where there is one, is not over. Otherwise nothing is written.
pub proof fn law_open_connection_answers_pings<C: FrameReader + FrameWriter>(
    a: SessionView<C>,
    payload: Seq<u8>,
    now: u64,
    nonce: u64,
    b: SessionView<C>,
    action: ActionView,
)
    requires
        !(a.state is Closed),
        a.pending.len() > 0,
        a.pending[0] == MessageView::Ping(payload),
        session::next_stepped(a, now, nonce, b, action),
    ensures
        !a.shutdown_complete && !a.batch_has_close && a.closing_deadline is None ==> {
            &&& frame_appended(a.codec.endpoint(), OpCode::Pong, payload, a.write, b.write)
            &&& action == (ActionView::Flush {
                within: None,
                next: AfterFlushView::Deliver(MessageView::Ping(payload)),
            })
        },
        !a.shutdown_complete && !a.batch_has_close && a.closing_deadline is Some && now
            < a.closing_deadline->0 ==> {
            &&& frame_appended(a.codec.endpoint(), OpCode::Pong, payload, a.write, b.write)
            &&& action == (ActionView::Flush {
                within: a.closing_deadline,
                next: AfterFlushView::Deliver(MessageView::Ping(payload)),
            })
        },
        a.shutdown_complete || a.batch_has_close || (a.closing_deadline is Some && now
            >= a.closing_deadline->0) ==> {
            &&& b.write == a.write
            &&& action == ActionView::Deliver(MessageView::Ping(payload))
        },
        b.pending == a.pending.drop_first(),
        b.state == a.state,
        b.codec == a.codec,
        b.read == a.read,
        b.error == a.error,
        b.closing_deadline == a.closing_deadline,
        b.config == a.config,
{
    if framing::appended(a.codec.endpoint(), MessageView::Pong(payload), a.write, b.write) {
        lemma_appended(a.codec.endpoint(), MessageView::Pong(payload), a.write, b.write);
    }
}

/// Messages other than Ping and Close are handed on at once, and nothing is
/// written for them.
pub proof fn law_data_is_handed_on<C: FrameReader + FrameWriter>(
    a: SessionView<C>,
    now: u64,
    nonce: u64,
    b: SessionView<C>,
    action: ActionView,
)
    requires
        !(a.state is Closed),
        a.pending.len() > 0,
        !(a.pending[0] is Ping),
        !(a.pending[0] is Close),
        session::next_stepped(a, now, nonce, b, action),
    ensures
        action == ActionView::Deliver(a.pending[0]),
        b.write == a.write,
        b.pending == a.pending.drop_first(),
        b.state == a.state,
        b.codec == a.codec,
        b.read == a.read,
        b.error == a.error,
        b.closing_deadline == a.closing_deadline,
{
}

/// Every message counts as a sign of life, and the Pong with the payload of a
/// Ping that has left and is not overdue ends the wait for it.
pub proof fn law_messages_are_signs_of_life<C: FrameReader + FrameWriter>(
    a: SessionView<C>,
    now: u64,
    nonce: u64,
    b: SessionView<C>,
    action: ActionView,
)
    requires
        !(a.state is Closed),
        a.pending.len() > 0,
        !(a.pending[0] is Close),
        !a.heartbeat.stopped,
        session::next_stepped(a, now, nonce, b, action),
    ensures
        b.heartbeat.last_inbound >= now / 1_000_000,
        b.heartbeat.last_inbound >= a.heartbeat.last_inbound,
        b.heartbeat.last_inbound == now / 1_000_000 || b.heartbeat.last_inbound
            == a.heartbeat.last_inbound,
        !(a.pending[0] is Pong) ==> b.heartbeat.outstanding == a.heartbeat.outstanding,
        a.heartbeat.outstanding is Some && a.heartbeat.outstanding->0.flushed && a.pending[0]
            == MessageView::Pong(a.heartbeat.outstanding->0.payload)
            && a.heartbeat.outstanding->0.deadline is None ==> b.heartbeat.outstanding is None,
        a.heartbeat.outstanding is Some && a.heartbeat.outstanding->0.flushed && a.pending[0]
            == MessageView::Pong(a.heartbeat.outstanding->0.payload)
            && a.heartbeat.outstanding->0.deadline is Some && now / 1_000_000
            < a.heartbeat.outstanding->0.deadline->0 ==> b.heartbeat.outstanding is None,
{
}

/// The answer to a Close: where none was sent before, a Close frame with the
/// reason that the handler repeats. The send half is to end in the time that
/// the configuration gives, or in what is left of it, before the Close is
/// handed on, unless it has ended already.
pub proof fn law_close_is_answered<C: FrameReader + FrameWriter>(
    a: SessionView<C>,
    reason: Option<(u16, Seq<char>)>,
    now: u64,
    nonce: u64,
    b: SessionView<C>,
    action: ActionView,
)
    requires
        !(a.state is Closed),
        a.pending.len() > 0,
        a.pending[0] == MessageView::Close(reason),
        session::next_stepped(a, now, nonce, b, action),
    ensures
        a.state is Open || a.state is ReadErrorPending ==> frame_appended(
            a.codec.endpoint(),
            OpCode::Close,
            frame::close_payload(a.codec.close_reason()),
            a.write,
            b.write,
        ),
        a.state is CloseSent ==> b.write == a.write && b.codec == a.codec,
        b.state is Closed,
        b.read.len() == 0,
        b.pending.len() == 0,
        b.error is None,
        b.heartbeat.stopped,
        b.closing_deadline is Some,
        closing_until(a, b.closing_deadline->0, now),
        a.shutdown_complete ==> action == ActionView::Deliver(MessageView::Close(reason)),
        !a.shutdown_complete ==> action == (ActionView::Finish {
            until: b.closing_deadline->0,
            after: AfterFinishView::Deliver(MessageView::Close(reason)),
        }),
{
    let msg = MessageView::Close(a.codec.close_reason());
    if a.state is Open || a.state is ReadErrorPending {
        lemma_appended(a.codec.endpoint(), msg, a.write, b.write);
    }
}

/// What is done with input that has arrived, where no message, error or
/// deadline comes before it: its messages are kept in order, the first is taken
/// up at once, and an error behind them is kept for later. A Ping among them is
/// answered unless some Close is among them too.
pub proof fn law_input_is_taken_up<C: FrameReader + FrameWriter>(
    a: SessionView<C>,
    now: u64,
    nonce: u64,
    b: SessionView<C>,
    action: ActionView,
) -> (taken: (C, Seq<u8>, Seq<MessageView>, bool, Result<()>))
    requires
        !(a.state is Closed),
        a.pending.len() == 0,
        a.error is None,
        a.read.len() > 0,
        heartbeat::deadline_of(a.heartbeat) matches Some(at) ==> at.time() > now / 1_000_000,
        session::next_stepped(a, now, nonce, b, action),
    ensures
        a.codec.has_read(a.read, taken.0, taken.1, taken.2, taken.3, taken.4),
        ({
            let messages = taken.2;
            &&& messages.len() > 0 ==> {
                &&& message_in(action) == Some(messages[0])
                &&& b.batch_has_close <==> exists|i: int|
                    0 <= i < messages.len() && #[trigger] messages[i] is Close
                &&& !(messages[0] is Close) ==> {
                    &&& b.codec == taken.0
                    &&& b.read == taken.1
                    &&& b.pending == messages.drop_first()
                    &&& taken.4 is Ok ==> b.error is None && b.state == a.state
                    &&& taken.4 matches Err(e) ==> b.error == Some(e) && !(b.state is Open)
                        && !(b.state is Closed)
                }
                &&& messages[0] matches MessageView::Ping(payload) ==> !a.shutdown_complete
                    && a.closing_deadline is None && (forall|i: int|
                    0 <= i < messages.len() ==> !(#[trigger] messages[i] is Close)) ==> {
                    &&& frame_appended(
                        taken.0.endpoint(),
                        OpCode::Pong,
                        payload,
                        a.write,
                        b.write,
                    )
                    &&& action == (ActionView::Flush {
                        within: None,
                        next: AfterFlushView::Deliver(MessageView::Ping(payload)),
                    })
                }
            }
            &&& messages.len() == 0 ==> {
                &&& b.write == a.write
                &&& taken.4 matches Err(e) ==> action == ActionView::Fail(e) && b.state is Closed
                &&& taken.4 is Ok ==> b.codec == taken.0 && b.read == taken.1 && message_in(
                    action,
                ) is None && b.pending.len() == 0
                &&& taken.4 is Ok && a.closing_deadline is None ==> b.state == a.state && (
                action is Read || action is ReadUntil)
            }
        }),
{
    let (mid, r) = choose|mid: SessionView<C>, r: Result<bool>| #[trigger]
        session::parsed(a, now, mid, r) && session::after_parsing(mid, r, now, b, action);
    let (fragment, result) = choose|fragment: bool, result: Result<()>| #[trigger]
        a.codec.has_read(a.read, mid.codec, mid.read, mid.pending, fragment, result) && r == (
        match result {
            Ok(_) => Ok::<bool, Error>(mid.pending.len() > 0),
            Err(e) => Err(e),
        }) && mid == (SessionView {
            codec: mid.codec,
            read: mid.read,
            pending: mid.pending,
            batch_has_close: session::holds_close(mid.pending),
            heartbeat: if fragment && heartbeat::tracks_activity(a.heartbeat) {
                heartbeat::heard(a.heartbeat, session::millis(now), None)
            } else {
                a.heartbeat
            },
            ..a
        });
    let messages = mid.pending;
    if messages.len() > 0 {
        if let MessageView::Ping(payload) = messages[0] {
            let pong = MessageView::Pong(payload);
            if framing::appended(mid.codec.endpoint(), pong, a.write, b.write) {
                lemma_appended(mid.codec.endpoint(), pong, a.write, b.write);
            }
        }
    }
    (mid.codec, mid.read, messages, fragment, result)
}

/// An overdue Pong ends the connection with the code and the reason that the
/// configuration gives, and silence with 1001: a Close frame says so, the send
/// half is to end in the time for closing, and the error tells which it was.
pub proof fn law_timeouts_tell_why<C: FrameReader + FrameWriter>(
    a: SessionView<C>,
    at: Deadline,
    now: u64,
    nonce: u64,
    b: SessionView<C>,
    action: ActionView,
)
    requires
        !(a.state is Closed),
        a.pending.len() == 0,
        a.error is None,
        heartbeat::deadline_of(a.heartbeat) == Some(at),
        at.time() <= now / 1_000_000,
        session::next_stepped(a, now, nonce, b, action),
    ensures
        at is Idle ==> frame_appended(
            a.codec.endpoint(),
            OpCode::Close,
            frame::close_payload(Some((1001u16, "Connection idle timeout"@))),
            a.write,
            b.write,
        ) && action is Finish && action->after == AfterFinishView::Fail(Error::IdleTimeout),
        at is Pong ==> frame_appended(
            a.codec.endpoint(),
            OpCode::Close,
            frame::close_payload(
                Some(
                    (
                        a.config.pong_timeout_close_code,
                        heartbeat::bounded(a.config.pong_timeout_close_reason@, 123),
                    ),
                ),
            ),
            a.write,
            b.write,
        ) && action is Finish && action->after == AfterFinishView::Fail(Error::HeartbeatTimeout),
        !(at is Ping) ==> {
            &&& closing_until(a, action->Finish_until, now)
            &&& b.closing_deadline == Some(action->Finish_until)
            &&& b.state is CloseSent
            &&& b.heartbeat.stopped
        },
        at is Ping ==> {
            let payload = octets::be_bytes(nonce as nat, 8);
            &&& frame_appended(a.codec.endpoint(), OpCode::Ping, payload, a.write, b.write)
            &&& action == (ActionView::Flush {
                within: a.closing_deadline,
                next: AfterFlushView::Ping(None),
            })
            &&& b.heartbeat.outstanding is Some
            &&& b.heartbeat.outstanding->0.payload == payload
            &&& b.heartbeat.outstanding->0.deadline is None
            &&& !b.heartbeat.outstanding->0.flushed
            &&& !b.heartbeat.outstanding->0.acknowledged
            &&& b.state == a.state
        },
        b.read == a.read,
{
    if at is Ping {
        let payload = octets::be_bytes(nonce as nat, 8);
        lemma_appended(a.codec.endpoint(), MessageView::Ping(payload), a.write, b.write);
    } else {
        lemma_appended(
            a.codec.endpoint(),
            session::timeout_close(a.config, at),
            a.write,
            b.write,
        );
    }
}

/// With nothing to take up, more input is read: without a limit where nothing
/// falls due, and until the next deadline where something does. While closing,
/// it is read until the time for closing is over, once more after that, and
/// then the connection is given up.
pub proof fn law_idle_connection_reads<C: FrameReader + FrameWriter>(
    a: SessionView<C>,
    now: u64,
    nonce: u64,
    b: SessionView<C>,
    action: ActionView,
)
    requires
        !(a.state is Closed),
        a.pending.len() == 0,
        a.error is None,
        a.read.len() == 0,
        heartbeat::deadline_of(a.heartbeat) matches Some(at) ==> at.time() > now / 1_000_000,
        session::next_stepped(a, now, nonce, b, action),
    ensures
        b.write == a.write,
        b.codec == a.codec,
        a.closing_deadline is None && heartbeat::deadline_of(a.heartbeat) is None ==> action
            == ActionView::Read && b == a,
        a.closing_deadline is None ==> (heartbeat::deadline_of(a.heartbeat) matches Some(at) ==> {
            &&& action is ReadUntil
            &&& action->ReadUntil_deadline == at
            &&& heartbeat::timeout_of(a.heartbeat) is Some ==> action->hard
                == heartbeat::timeout_of(a.heartbeat)
            &&& heartbeat::timeout_of(a.heartbeat) is None && a.config.pong_timeout == 0
                ==> action->hard is None
            &&& heartbeat::timeout_of(a.heartbeat) is None && a.config.pong_timeout != 0 && at.time()
                + a.config.pong_timeout * 1000 <= u64::MAX ==> action->hard == Some(
                Deadline::Pong((at.time() + a.config.pong_timeout * 1000) as u64),
            )
            &&& b == a
        }),
        a.closing_deadline matches Some(until) ==> {
            &&& now < until || !a.post_expiry_read ==> {
                &&& action == ActionView::ReadBefore { until }
                &&& b.state == a.state
                &&& now >= until ==> b.post_expiry_read
                &&& now < until ==> b.post_expiry_read == a.post_expiry_read
            }
            &&& now >= until && a.post_expiry_read ==> {
                &&& b.state is Closed
                &&& a.shutdown_complete || a.write.len() > 0 ==> action == ActionView::Fail(
                    Error::ConnectionClosed,
                )
                &&& !a.shutdown_complete && a.write.len() == 0 ==> action == ActionView::Shutdown {
                    until,
                }
            }
        },
{
    let (mid, r) = choose|mid: SessionView<C>, r: Result<bool>| #[trigger]
        session::parsed(a, now, mid, r) && session::after_parsing(mid, r, now, b, action);
    assert(mid == a);
}

/// What becomes of output: where it could not leave, the stream fails. Once an
/// answer has left, the message that it answers is handed on; once a Ping has
/// left, its Pong is overdue after the time that it may take.
pub proof fn law_flushed_output<C>(
    a: SessionView<C>,
    next: AfterFlushView,
    r: Result<()>,
    now: u64,
)
    ensures
        ({
            let (b, action) = session::output_left(a, next, r, now);
            &&& r matches Err(e) ==> b.state is Closed && action == ActionView::Fail(e)
            &&& r is Ok ==> (next matches AfterFlushView::Deliver(msg) ==> b == a && action
                == ActionView::Deliver(msg))
            &&& r is Ok ==> (next matches AfterFlushView::Ping(read) ==> {
                &&& read is None ==> action is Again
                &&& read matches Some(Err(e)) ==> action == ActionView::Fail(e)
                &&& read == Some(Ok::<usize, Error>(0)) ==> action is End
                &&& read is None && a.heartbeat.outstanding is Some
                    && !a.heartbeat.outstanding->0.flushed ==> {
                    &&& a.heartbeat.outstanding->0.acknowledged ==> b.heartbeat.outstanding is None
                    &&& !a.heartbeat.outstanding->0.acknowledged && a.heartbeat.pong_timeout == 0
                        ==> b.heartbeat.outstanding->0.deadline is None
                        && b.heartbeat.outstanding->0.flushed
                    &&& !a.heartbeat.outstanding->0.acknowledged && a.heartbeat.pong_timeout != 0
                        && now / 1_000_000 + a.heartbeat.pong_timeout <= u64::MAX
                        ==> b.heartbeat.outstanding is Some
                        && b.heartbeat.outstanding->0.deadline == Some(
                        (now / 1_000_000 + a.heartbeat.pong_timeout) as u64,
                    ) && b.heartbeat.outstanding->0.flushed
                }
            })
        }),
{
}

/// What a connection has written once a message was accepted for sending, and
/// how closing begins with a Close that is sent: no second one can be, the
/// heartbeat ends, and the time for closing runs from now.
pub proof fn law_sent_messages_are_queued<C: FrameWriter>(
    a: SessionView<C>,
    msg: MessageView,
    now: u64,
    b: SessionView<C>,
    r: Result<Option<u64>>,
)
    requires
        session::sending(a, msg, now, b, r),
    ensures
        a.state is Open && r is Ok ==> a.codec.has_written(
            msg,
            a.write,
            b.codec,
            b.write,
            Ok::<(), Error>(()),
        ),
        a.state is Open && !(msg is Close) && r is Ok ==> b.state is Open && r == Ok::<
            Option<u64>,
            Error,
        >(a.closing_deadline) && b.closing_deadline == a.closing_deadline && b.heartbeat
            == a.heartbeat,
        a.state is Open && msg is Close && r is Ok ==> {
            &&& b.state is CloseSent
            &&& b.heartbeat.stopped
            &&& b.closing_deadline is Some
            &&& closing_until(a, b.closing_deadline->0, now)
            &&& r == Ok::<Option<u64>, Error>(b.closing_deadline)
        },
        b.pending == a.pending,
        b.read == a.read,
        b.error == a.error,
{
    if a.state is Open && r is Ok {
        let (out, result) = choose|out: Seq<u8>, result: Result<()>| #[trigger]
            a.codec.has_written(msg, a.write, b.codec, out, result) && (b, r) == session::queued(
                SessionView { codec: b.codec, ..session::about_to_send(a, msg, now) },
                out,
                result,
            );
        assert(result->Ok_0 == ());
        assert(result == Ok::<(), Error>(()));
    }
}

} // verus!
