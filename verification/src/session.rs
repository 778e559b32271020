//! The decisions of a WebSocket connection, apart from its input and output.
//!
//! A [`Session`] owns the protocol handler, the buffers and the heartbeat of a
//! connection. [`Session::next_step`] says what is to be done to receive the
//! next message: an [`Action`] that the caller performs on the transport. The
//! caller reports what came of it and gets the next action, until a message, an
//! error or the end of the stream is to be handed on.
//!
//! Times are nanoseconds since the connection was made.
use crate::buffer;
use crate::buffer::BufferView;
use crate::compressed_protocol;
use crate::compressed_protocol::PackedView;
use crate::config;
use crate::config::Config;
use crate::deflate::DeflateConfig;
use crate::driver;
use crate::driver::WriterDriver;
use crate::error::{CloseReason, Error, Result};
use crate::framing;
use crate::framing::{FrameReader, FrameWriter, CONTROL_ROOM, MAX_CONTROL_PAYLOAD};
use crate::halves;
use crate::halves::{ReaderView, SplitReader, SplitShared};
use crate::heartbeat;
use crate::heartbeat::{bounded_close_reason, Deadline, Heartbeat, HeartbeatView};
use crate::heartbeat::MAX_REASON_BYTES;
use crate::octets;
use crate::protocol;
use crate::protocol::{CompressedProtocol, CompressedReaderProtocol, CompressedWriterProtocol};
use crate::protocol::{Message, MessageView, Protocol, ProtocolView, Role};
use bytes::{Bytes, BytesMut};
use vstd::prelude::*;
use vstd::utf8::*;

verus! {

/// Buffered output above which a writer should pause, unless set otherwise.
pub const DEFAULT_HIGH_WATER_MARK: usize = 65536;

/// Buffered output below which a writer may go on, unless set otherwise.
pub const DEFAULT_LOW_WATER_MARK: usize = 16384;

/// Where a connection stands.
#[derive(Debug, Clone, Copy, PartialEq, Eq, Structural)]
pub enum StreamState {
    /// Messages can be sent and received
    Open,
    /// A read error is known, but accepted messages still need to be delivered.
    ReadErrorPending,
    /// A Close frame was sent
    CloseSent,
    /// Nothing can be sent or received any more
    Closed,
}

/// What is to follow once the output has left.
#[derive(Debug)]
pub enum AfterFlush {
    /// Hand on the message that was answered
    Deliver(Message),
    /// The output was a Ping; what a read gave that ended before it is still due
    Ping(Option<Result<usize>>),
}

/// What is to follow once the output has left and the send half has ended, or
/// the time for it is over.
#[derive(Debug)]
pub enum AfterFinish {
    /// Hand on the peer's Close
    Deliver(Message),
    /// Report why the connection was given up
    Fail(Error),
}

/// What the caller has to do.
#[derive(Debug)]
pub enum Action {
    /// Tell that the stream has ended
    End,
    /// Hand on a message
    Deliver(Message),
    /// Report an error
    Fail(Error),
    /// Write the output and flush, until this time at most; then call
    /// [`Session::flushed`]
    Flush {
        /// When to give up, if ever
        within: Option<u64>,
        /// What is to follow
        next: AfterFlush,
    },
    /// Write the output, flush and end the send half, until this time at most;
    /// then call [`Session::finished`]
    Finish {
        /// When to give up
        until: u64,
        /// What is to follow
        after: AfterFinish,
    },
    /// End the send half, until this time at most; then call
    /// [`Session::shut_down`]
    Shutdown {
        /// When to give up
        until: u64,
    },
    /// Read more input; then call [`Session::read_done`]
    Read,
    /// Read more input, until this time at most; then call [`Session::read_done`]
    ReadBefore {
        /// When to give up
        until: u64,
    },
    /// Read more input until a deadline, and where that is a Ping wait for the
    /// read to end, until the hard deadline at most; then call
    /// [`Session::read_done`]
    ReadUntil {
        /// When to stop reading
        deadline: Deadline,
        /// When to give up altogether
        hard: Option<Deadline>,
    },
    /// Call [`Session::next_step`] again
    Again,
}

/// What came of a read.
#[derive(Debug)]
pub enum ReadEvent {
    /// It ended, with this many bytes or an error
    Done(Result<usize>),
    /// The time for it was over
    TimedOut,
    /// This deadline fell due, after the read ended so if it did end
    Deadline(Deadline, Option<Result<usize>>),
}

/// [`AfterFlush`] as a mathematical value.
pub enum AfterFlushView {
    Deliver(MessageView),
    Ping(Option<Result<usize>>),
}

/// [`AfterFinish`] as a mathematical value.
pub enum AfterFinishView {
    Deliver(MessageView),
    Fail(Error),
}

/// [`Action`] as a mathematical value.
pub enum ActionView {
    End,
    Deliver(MessageView),
    Fail(Error),
    Flush { within: Option<u64>, next: AfterFlushView },
    Finish { until: u64, after: AfterFinishView },
    Shutdown { until: u64 },
    Read,
    ReadBefore { until: u64 },
    ReadUntil { deadline: Deadline, hard: Option<Deadline> },
    Again,
}

impl AfterFlush {
    /// The value.
    pub open spec fn view(&self) -> AfterFlushView {
        match self {
            AfterFlush::Deliver(msg) => AfterFlushView::Deliver(msg@),
            AfterFlush::Ping(read) => AfterFlushView::Ping(*read),
        }
    }
}

impl AfterFinish {
    /// The value.
    pub open spec fn view(&self) -> AfterFinishView {
        match self {
            AfterFinish::Deliver(msg) => AfterFinishView::Deliver(msg@),
            AfterFinish::Fail(e) => AfterFinishView::Fail(*e),
        }
    }
}

impl Action {
    /// The value.
    pub open spec fn view(&self) -> ActionView {
        match self {
            Action::End => ActionView::End,
            Action::Deliver(msg) => ActionView::Deliver(msg@),
            Action::Fail(e) => ActionView::Fail(*e),
            Action::Flush { within, next } => ActionView::Flush { within: *within, next: next@ },
            Action::Finish { until, after } => ActionView::Finish { until: *until, after: after@ },
            Action::Shutdown { until } => ActionView::Shutdown { until: *until },
            Action::Read => ActionView::Read,
            Action::ReadBefore { until } => ActionView::ReadBefore { until: *until },
            Action::ReadUntil { deadline, hard } => ActionView::ReadUntil {
                deadline: *deadline,
                hard: *hard,
            },
            Action::Again => ActionView::Again,
        }
    }
}

/// The milliseconds of a time.
pub open spec fn millis(now: u64) -> u64 {
    now / 1_000_000
}

/// The time some seconds later, as far as time is counted.
pub open spec fn seconds_later(now: u64, seconds: u32) -> u64 {
    heartbeat::later(now, (seconds * 1_000_000_000) as u64)
}

/// The state of a connection as a mathematical value.
#[verifier::reject_recursive_types(C)]
#[verifier::ext_equal]
pub struct SessionView<C> {
    /// The protocol handler
    pub codec: C,
    /// Input that is not part of a complete frame
    pub read: Seq<u8>,
    /// Output that has not left
    pub write: Seq<u8>,
    /// Where the connection stands
    pub state: StreamState,
    /// When the time for closing is over, once closing has begun
    pub closing_deadline: Option<u64>,
    /// Whether a read was begun after that time
    pub post_expiry_read: bool,
    /// Whether the messages that were read last hold a Close
    pub batch_has_close: bool,
    /// Whether the send half ends with the Close
    pub immediate_shutdown: bool,
    /// Whether the send half has ended
    pub shutdown_complete: bool,
    /// Messages that were accepted and not delivered, in order
    pub pending: Seq<MessageView>,
    /// What was wrong behind them
    pub error: Option<Error>,
    /// The heartbeat
    pub heartbeat: HeartbeatView,
    /// The configuration
    pub config: Config,
    /// Output above which a writer should pause
    pub high_water_mark: usize,
    /// Output below which a writer may go on
    pub low_water_mark: usize,
}

/// Whether a time for closing is over.
pub open spec fn over(deadline: Option<u64>, now: u64) -> bool {
    deadline matches Some(at) && now >= at
}

/// When the time for closing is over, where closing begins now or has begun before.
pub open spec fn closing_budget<C>(s: SessionView<C>, now: u64) -> u64 {
    match s.closing_deadline {
        Some(at) => at,
        None => seconds_later(now, s.config.close_timeout),
    }
}

/// The connection once closing has begun.
pub open spec fn closing_from<C>(s: SessionView<C>, now: u64) -> SessionView<C> {
    SessionView {
        heartbeat: heartbeat::stopped(s.heartbeat),
        closing_deadline: Some(closing_budget(s, now)),
        ..s
    }
}

/// The connection once it has ended.
pub open spec fn ended<C>(s: SessionView<C>) -> SessionView<C> {
    SessionView {
        heartbeat: heartbeat::stopped(s.heartbeat),
        state: StreamState::Closed,
        ..s
    }
}

/// What a Pong carries.
pub open spec fn pong_of(msg: MessageView) -> Option<Seq<u8>> {
    match msg {
        MessageView::Pong(payload) => Some(payload),
        _ => None,
    }
}

/// Whether a Ping is still answered: the send half has not ended, no Close was
/// accepted with it, and the time for closing is not over.
pub open spec fn answers_ping<C>(s: SessionView<C>, now: u64) -> bool {
    !s.shutdown_complete && !s.batch_has_close && !over(s.closing_deadline, now)
}

/// What becomes of an accepted message.
///
/// A Ping is answered before it is handed on. A Close ends the connection: what
/// else was received is dropped, the Close is answered unless one was sent
/// before, and the send half is ended before the Close is handed on.
pub open spec fn incoming<C: FrameWriter>(
    a: SessionView<C>,
    msg: MessageView,
    now: u64,
    b: SessionView<C>,
    action: ActionView,
) -> bool {
    let h = SessionView {
        heartbeat: heartbeat::heard(a.heartbeat, millis(now), pong_of(msg)),
        ..a
    };
    match msg {
        MessageView::Ping(payload) => if answers_ping(h, now) {
            &&& b == (SessionView { write: b.write, ..h })
            &&& framing::appended(
                h.codec.endpoint(),
                MessageView::Pong(payload),
                h.write,
                b.write,
            )
            &&& action == (ActionView::Flush {
                within: h.closing_deadline,
                next: AfterFlushView::Deliver(msg),
            })
        } else {
            b == h && action == ActionView::Deliver(msg)
        },
        MessageView::Close(_) => {
            let c = SessionView {
                pending: Seq::empty(),
                error: None,
                read: Seq::empty(),
                state: StreamState::Closed,
                ..closing_from(h, now)
            };
            &&& b == (SessionView { codec: b.codec, write: b.write, ..c })
            &&& if h.state is Open || h.state is ReadErrorPending {
                &&& h.codec.has_answered_close(b.codec)
                &&& framing::appended(
                    h.codec.endpoint(),
                    MessageView::Close(h.codec.close_reason()),
                    h.write,
                    b.write,
                )
            } else {
                b.codec == h.codec && b.write == h.write
            }
            &&& action == if h.shutdown_complete {
                ActionView::Deliver(msg)
            } else {
                ActionView::Finish {
                    until: closing_budget(h, now),
                    after: AfterFinishView::Deliver(msg),
                }
            }
        },
        _ => b == h && action == ActionView::Deliver(msg),
    }
}

/// What becomes of a read that has ended so, if it has ended.
pub open spec fn resumed<C>(a: SessionView<C>, read: Option<Result<usize>>) -> (
    SessionView<C>,
    ActionView,
) {
    match read {
        None => (a, ActionView::Again),
        Some(Ok(n)) => if n == 0 {
            (ended(a), ActionView::End)
        } else {
            (a, ActionView::Again)
        },
        Some(Err(e)) => (ended(a), ActionView::Fail(e)),
    }
}

/// The Close that tells the peer why the connection is given up.
pub open spec fn timeout_close(config: Config, deadline: Deadline) -> MessageView {
    match deadline {
        Deadline::Pong(_) => MessageView::Close(
            Some(
                (
                    config.pong_timeout_close_code,
                    heartbeat::bounded(
                        config.pong_timeout_close_reason@,
                        MAX_REASON_BYTES as nat,
                    ),
                ),
            ),
        ),
        _ => MessageView::Close(Some((CloseReason::GOING_AWAY, "Connection idle timeout"@))),
    }
}

/// Why the connection is given up.
pub open spec fn timeout_error(deadline: Deadline) -> Error {
    match deadline {
        Deadline::Pong(_) => Error::HeartbeatTimeout,
        _ => Error::IdleTimeout,
    }
}

/// What becomes of a deadline, where a read that it interrupted ended so.
///
/// A Ping that is due is sent. An overdue Pong or too long a silence ends the
/// connection with a Close.
pub open spec fn deadline_handled<C: FrameWriter>(
    a: SessionView<C>,
    deadline: Deadline,
    read: Option<Result<usize>>,
    now: u64,
    nonce: u64,
    b: SessionView<C>,
    action: ActionView,
) -> bool {
    if deadline.time() > millis(now) {
        (b, action) == resumed(a, read)
    } else if deadline is Ping {
        let payload = octets::be_bytes(nonce as nat, 8);
        if heartbeat::is_ping_due(a.heartbeat, millis(now)) {
            &&& b == (SessionView {
                heartbeat: heartbeat::pinged(a.heartbeat, payload),
                codec: b.codec,
                write: b.write,
                ..a
            })
            &&& a.codec.has_written(
                MessageView::Ping(payload),
                a.write,
                b.codec,
                b.write,
                Ok(()),
            )
            &&& framing::appended(
                a.codec.endpoint(),
                MessageView::Ping(payload),
                a.write,
                b.write,
            )
            &&& action == (ActionView::Flush {
                within: a.closing_deadline,
                next: AfterFlushView::Ping(read),
            })
        } else {
            (b, action) == resumed(a, read)
        }
    } else {
        let close = timeout_close(a.config, deadline);
        &&& b == (SessionView {
            state: StreamState::CloseSent,
            codec: b.codec,
            write: b.write,
            ..closing_from(a, now)
        })
        &&& a.codec.has_written(close, a.write, b.codec, b.write, Ok(()))
        &&& framing::appended(a.codec.endpoint(), close, a.write, b.write)
        &&& action == (ActionView::Finish {
            until: closing_budget(a, now),
            after: AfterFinishView::Fail(timeout_error(deadline)),
        })
    }
}

/// Whether a message is a Close.
pub open spec fn holds_close(messages: Seq<MessageView>) -> bool {
    exists|i: int| 0 <= i < messages.len() && #[trigger] messages[i] is Close
}

/// What becomes of the input that has arrived: whether messages were accepted,
/// or what is wrong with it.
pub open spec fn parsed<C: FrameReader>(
    a: SessionView<C>,
    now: u64,
    b: SessionView<C>,
    r: Result<bool>,
) -> bool {
    if a.read.len() == 0 {
        b == a && r == Ok::<bool, Error>(false)
    } else {
        exists|fragment: bool, result: Result<()>|
            {
                &&& #[trigger] a.codec.has_read(
                    a.read,
                    b.codec,
                    b.read,
                    b.pending,
                    fragment,
                    result,
                )
                &&& r == match result {
                    Ok(_) => Ok::<bool, Error>(b.pending.len() > 0),
                    Err(e) => Err(e),
                }
                &&& b == (SessionView {
                    codec: b.codec,
                    read: b.read,
                    pending: b.pending,
                    batch_has_close: holds_close(b.pending),
                    heartbeat: if fragment && heartbeat::tracks_activity(a.heartbeat) {
                        heartbeat::heard(a.heartbeat, millis(now), None)
                    } else {
                        a.heartbeat
                    },
                    ..a
                })
            }
    }
}

/// How long a read may hold up a Ping: until the next hard deadline, or where
/// there is none for as long as a Pong may take.
pub open spec fn hard_deadline(h: HeartbeatView, config: Config, deadline: Deadline) -> Option<
    Deadline,
> {
    match heartbeat::timeout_of(h) {
        Some(at) => Some(at),
        None => if config.pong_timeout != 0 {
            Some(
                Deadline::Pong(
                    heartbeat::later(deadline.time(), (config.pong_timeout * 1000) as u64),
                ),
            )
        } else {
            None
        },
    }
}

/// How more input is read. Once the time for closing is over there is one more
/// read, and then the connection is given up.
pub open spec fn reading<C>(a: SessionView<C>, now: u64) -> (SessionView<C>, ActionView) {
    match a.closing_deadline {
        Some(until) => if now >= until && a.post_expiry_read {
            (
                SessionView { state: StreamState::Closed, ..a },
                if !a.shutdown_complete && a.write.len() == 0 {
                    ActionView::Shutdown { until }
                } else {
                    ActionView::Fail(Error::ConnectionClosed)
                },
            )
        } else {
            (
                SessionView { post_expiry_read: a.post_expiry_read || now >= until, ..a },
                ActionView::ReadBefore { until },
            )
        },
        None => match heartbeat::deadline_of(a.heartbeat) {
            Some(deadline) => (
                a,
                ActionView::ReadUntil {
                    deadline,
                    hard: hard_deadline(a.heartbeat, a.config, deadline),
                },
            ),
            None => (a, ActionView::Read),
        },
    }
}

/// The connection without the message that is delivered next.
pub open spec fn popped<C>(s: SessionView<C>) -> SessionView<C> {
    SessionView { pending: s.pending.drop_first(), ..s }
}

/// Whether a deadline of the heartbeat has come.
pub open spec fn deadline_due<C>(s: SessionView<C>, now: u64) -> bool {
    heartbeat::deadline_of(s.heartbeat) matches Some(deadline) && deadline.time() <= millis(now)
}

/// The connection once it is known that the input is wrong.
pub open spec fn read_failed<C>(s: SessionView<C>, e: Error) -> SessionView<C> {
    SessionView {
        error: Some(e),
        state: if s.state is Open {
            StreamState::ReadErrorPending
        } else {
            s.state
        },
        ..s
    }
}

/// What is done once the input was looked at.
pub open spec fn after_parsing<C: FrameWriter>(
    mid: SessionView<C>,
    r: Result<bool>,
    now: u64,
    b: SessionView<C>,
    action: ActionView,
) -> bool {
    match r {
        Ok(true) => incoming(popped(mid), mid.pending[0], now, b, action),
        Ok(false) => (b, action) == reading(mid, now),
        Err(e) => if mid.pending.len() > 0 {
            incoming(popped(read_failed(mid, e)), mid.pending[0], now, b, action)
        } else {
            b == ended(mid) && action == ActionView::Fail(e)
        },
    }
}

/// What is done to receive the next message.
///
/// Accepted messages come first, then the error behind them. A deadline that
/// has come wins over input that was not looked at yet.
pub open spec fn next_stepped<C: FrameReader + FrameWriter>(
    a: SessionView<C>,
    now: u64,
    nonce: u64,
    b: SessionView<C>,
    action: ActionView,
) -> bool {
    if a.state is Closed {
        b == a && action == ActionView::End
    } else if a.pending.len() > 0 {
        incoming(popped(a), a.pending[0], now, b, action)
    } else if a.error is Some {
        b == ended(SessionView { error: None, ..a }) && action == ActionView::Fail(a.error->0)
    } else if deadline_due(a, now) {
        deadline_handled(
            a,
            heartbeat::deadline_of(a.heartbeat)->0,
            None,
            now,
            nonce,
            b,
            action,
        )
    } else {
        exists|mid: SessionView<C>, r: Result<bool>| #[trigger]
            parsed(a, now, mid, r) && after_parsing(mid, r, now, b, action)
    }
}

/// The decisions of a WebSocket connection.
#[verifier::reject_recursive_types(C)]
pub struct Session<C> {
    codec: C,
    read_buf: BytesMut,
    write_buf: BytesMut,
    state: StreamState,
    closing_deadline: Option<u64>,
    post_expiry_read_attempted: bool,
    // Cached once per parsed batch, including prefixes before parse errors.
    batch_has_close: bool,
    immediate_write_shutdown: bool,
    write_shutdown_complete: bool,
    config: Config,
    // Popped from the back, so kept in reverse order.
    pending_messages: Vec<Message>,
    // Deliver accepted messages before a later parse failure.
    pending_parse_error: Option<Error>,
    heartbeat: Heartbeat,
    high_water_mark: usize,
    low_water_mark: usize,
}

fn now_millis(now: u64) -> (r: u64)
    ensures
        r == millis(now),
{
    now / 1_000_000
}

fn add_seconds(now: u64, seconds: u32) -> (r: u64)
    ensures
        r == seconds_later(now, seconds),
{
    now.saturating_add((seconds as u64) * 1_000_000_000)
}

fn is_over(deadline: Option<u64>, now: u64) -> (r: bool)
    ensures
        r == over(deadline, now),
{
    match deadline {
        Some(at) => now >= at,
        None => false,
    }
}

/// The messages in reverse order.
pub(crate) fn reversed(messages: Vec<Message>) -> (r: Vec<Message>)
    ensures
        r@ == messages@.reverse(),
{
    let mut from = messages;
    let mut to: Vec<Message> = Vec::new();
    while from.len() > 0
        invariant
            to@ + from@.reverse() == messages@.reverse(),
        decreases from@.len(),
    {
        let ghost before = from@;
        let ghost done = to@;
        if let Some(msg) = from.pop() {
            to.push(msg);
        }
        proof {
            assert(before.reverse() =~= seq![before.last()] + from@.reverse());
            assert(to@ + from@.reverse() =~= done + before.reverse());
        }
    }
    assert(to@ + from@.reverse() =~= to@);
    to
}

fn any_close(messages: &Vec<Message>) -> (r: bool)
    ensures
        r == holds_close(protocol::message_views(messages@)),
{
    let ghost views = protocol::message_views(messages@);
    let mut i: usize = 0;
    while i < messages.len()
        invariant
            i <= messages@.len(),
            views == protocol::message_views(messages@),
            forall|j: int| 0 <= j < i ==> !(#[trigger] views[j] is Close),
        decreases messages@.len() - i,
    {
        if messages[i].is_close() {
            assert(views[i as int] is Close);
            return true;
        }
        assert(!(views[i as int] is Close));
        i = i + 1;
    }
    false
}

/// The bytes of a Pong that a message is.
fn pong_payload(msg: &Message) -> (r: Option<&Bytes>)
    ensures
        heartbeat::payload_of(r) == pong_of(msg@),
{
    match msg {
        Message::Pong(payload) => Some(payload),
        _ => None,
    }
}

/// A control frame fits in the room that is kept for one.
proof fn lemma_control_fits(buffered: nat, payload: nat)
    requires
        framing::control_room(buffered),
        payload <= MAX_CONTROL_PAYLOAD,
    ensures
        framing::room_behind(buffered, payload),
{
}

/// The payload of a Close with a reason.
proof fn lemma_close_len(code: u16, text: Seq<char>)
    ensures
        protocol::message_payload(MessageView::Close(Some((code, text)))).len() == 2
            + encode_utf8(text).len(),
{
    octets::lemma_be_bytes_len(code as nat, 2);
}

impl<C> Session<C> {
    /// The state as a mathematical value.
    pub closed spec fn view(&self) -> SessionView<C> {
        SessionView {
            codec: self.codec,
            read: self.read_buf@,
            write: self.write_buf@,
            state: self.state,
            closing_deadline: self.closing_deadline,
            post_expiry_read: self.post_expiry_read_attempted,
            batch_has_close: self.batch_has_close,
            immediate_shutdown: self.immediate_write_shutdown,
            shutdown_complete: self.write_shutdown_complete,
            pending: protocol::message_views(self.pending_messages@.reverse()),
            error: self.pending_parse_error,
            heartbeat: self.heartbeat@,
            config: self.config,
            high_water_mark: self.high_water_mark,
            low_water_mark: self.low_water_mark,
        }
    }
}

/// The state of a connection that begins now.
pub open spec fn begun<C>(codec: C, config: Config, leftover: Seq<u8>) -> SessionView<C> {
    SessionView {
        codec,
        read: leftover,
        write: Seq::empty(),
        state: StreamState::Open,
        closing_deadline: None,
        post_expiry_read: false,
        batch_has_close: false,
        immediate_shutdown: false,
        shutdown_complete: false,
        pending: Seq::empty(),
        error: None,
        heartbeat: heartbeat::begun(config, 0),
        config,
        high_water_mark: DEFAULT_HIGH_WATER_MARK,
        low_water_mark: DEFAULT_LOW_WATER_MARK,
    }
}

/// The bytes that are left over, if any.
pub open spec fn leftover_bytes(leftover: Option<Bytes>) -> Seq<u8> {
    match leftover {
        Some(bytes) => bytes@,
        None => Seq::empty(),
    }
}

impl<C: FrameReader + FrameWriter> Session<C> {
    /// The parts agree with each other.
    pub open spec fn wf(&self) -> bool {
        &&& self@.codec.valid()
        &&& framing::all_fit(self@.pending)
    }

    /// Whether there is memory for the input, and for a control frame behind
    /// the output.
    pub open spec fn has_room(&self) -> bool {
        &&& self@.codec.takes(self@.read.len())
        &&& framing::control_room(self@.write.len())
    }

    /// Make the session of a connection, with bytes already read after the
    /// handshake
    pub fn new(codec: C, config: Config, leftover: Option<Bytes>) -> (r: Self)
        requires
            codec.valid(),
            buffer::allocatable(config.write_buffer_size as nat),
            buffer::allocatable(leftover_bytes(leftover).len()),
        ensures
            r.wf(),
            r@ == begun(codec, config, leftover_bytes(leftover)),
    {
        let mut read_buf = BytesMut::with_capacity(crate::RECV_BUFFER_SIZE);
        if let Some(bytes) = &leftover {
            read_buf.extend_from_slice(bytes);
        }
        proof {
            assert(read_buf@ =~= leftover_bytes(leftover));
        }
        let heartbeat = Heartbeat::new(&config, 0);
        let r = Session {
            codec,
            read_buf,
            write_buf: BytesMut::with_capacity(config.write_buffer_size),
            state: StreamState::Open,
            closing_deadline: None,
            post_expiry_read_attempted: false,
            batch_has_close: false,
            immediate_write_shutdown: false,
            write_shutdown_complete: false,
            config,
            pending_messages: Vec::new(),
            pending_parse_error: None,
            heartbeat,
            high_water_mark: DEFAULT_HIGH_WATER_MARK,
            low_water_mark: DEFAULT_LOW_WATER_MARK,
        };
        proof {
            assert(r@.pending =~= Seq::<MessageView>::empty());
        }
        r
    }

    /// Check if there is memory to go on
    pub fn can_go_on(&self) -> (r: bool)
        ensures
            r == self.has_room(),
    {
        let limit: usize = isize::MAX as usize;
        self.codec.can_take(self.read_buf.len()) && self.write_buf.len() <= limit - CONTROL_ROOM
    }

    fn begin_closing(&mut self, now: u64) -> (r: u64)
        ensures
            r == closing_budget(old(self)@, now),
            final(self)@ == closing_from(old(self)@, now),
    {
        self.heartbeat.stop();
        let until: u64 = match self.closing_deadline {
            Some(at) => at,
            None => add_seconds(now, self.config.close_timeout),
        };
        self.closing_deadline = Some(until);
        until
    }

    fn end(&mut self)
        ensures
            final(self)@ == ended(old(self)@),
    {
        self.heartbeat.stop();
        self.state = StreamState::Closed;
    }

    fn next_pending_message(&mut self) -> (r: Option<Message>)
        ensures
            old(self)@.pending.len() == 0 ==> r is None && final(self)@ == old(self)@,
            old(self)@.pending.len() > 0 ==> r is Some && r->0@ == old(self)@.pending[0]
                && final(self)@ == popped(old(self)@),
    {
        let ghost all = self.pending_messages@;
        let r = self.pending_messages.pop();
        proof {
            if all.len() > 0 {
                assert(protocol::message_views(self.pending_messages@.reverse())
                    =~= protocol::message_views(all.reverse()).drop_first());
            } else {
                assert(self.pending_messages@ =~= all);
            }
        }
        r
    }

    /// What becomes of an accepted message.
    fn handle_incoming_message(&mut self, msg: Message, now: u64) -> (r: Action)
        requires
            old(self).wf(),
            framing::fits_control(msg@),
            framing::control_room(old(self)@.write.len()),
        ensures
            final(self).wf(),
            incoming(old(self)@, msg@, now, final(self)@, r@),
    {
        self.heartbeat.on_inbound(now_millis(now), pong_payload(&msg));
        let ghost h = self@;
        match &msg {
            Message::Ping(payload) => {
                // A stream whose send half has ended forbids a Pong, but the read
                // half must continue through a crossing Ping to the peer's Close.
                // Once Close is accepted, RFC 6455 section 5.5.2 permits skipping
                // Pong. Do not let that write hide the queued Close, or start a
                // new control write after the closing budget has expired.
                if !self.write_shutdown_complete && !self.batch_has_close && !is_over(
                    self.closing_deadline,
                    now,
                ) {
                    proof {
                        lemma_control_fits(self@.write.len(), payload@.len());
                    }
                    self.codec.write_pong(payload, &mut self.write_buf);
                    return Action::Flush {
                        within: self.closing_deadline,
                        next: AfterFlush::Deliver(msg),
                    };
                }
            },
            Message::Close(_) => {
                let until = self.begin_closing(now);
                self.pending_messages.clear();
                self.pending_parse_error = None;
                self.read_buf.clear();
                if self.state == StreamState::Open || self.state == StreamState::ReadErrorPending {
                    proof {
                        lemma_control_fits(self@.write.len(), MAX_CONTROL_PAYLOAD as nat);
                    }
                    self.codec.answer_close(&mut self.write_buf);
                }
                // Publish the terminal state before cleanup begins, so that an
                // abandoned cleanup cannot resume a partially written frame.
                self.state = StreamState::Closed;
                assert(self@.pending =~= Seq::<MessageView>::empty());
                if !self.write_shutdown_complete {
                    return Action::Finish { until, after: AfterFinish::Deliver(msg) };
                }
            },
            _ => {},
        }
        Action::Deliver(msg)
    }

    /// What becomes of a read that has ended so, if it has ended.
    fn resume(&mut self, read: Option<Result<usize>>) -> (r: Action)
        ensures
            (final(self)@, r@) == resumed(old(self)@, read),
    {
        match read {
            None => Action::Again,
            Some(Ok(n)) => if n == 0 {
                self.end();
                Action::End
            } else {
                Action::Again
            },
            Some(Err(e)) => {
                self.end();
                Action::Fail(e)
            },
        }
    }

    /// Ends the connection with a Close.
    fn give_up(&mut self, close: Message, error: Error, now: u64) -> (r: Action)
        requires
            old(self).wf(),
            framing::control_room(old(self)@.write.len()),
            close@ is Close,
            framing::fits_control(close@),
        ensures
            final(self).wf(),
            final(self)@ == (SessionView {
                state: StreamState::CloseSent,
                codec: final(self)@.codec,
                write: final(self)@.write,
                ..closing_from(old(self)@, now)
            }),
            old(self)@.codec.has_written(
                close@,
                old(self)@.write,
                final(self)@.codec,
                final(self)@.write,
                Ok(()),
            ),
            framing::appended(
                old(self)@.codec.endpoint(),
                close@,
                old(self)@.write,
                final(self)@.write,
            ),
            r@ == (ActionView::Finish {
                until: closing_budget(old(self)@, now),
                after: AfterFinishView::Fail(error),
            }),
    {
        let until = self.begin_closing(now);
        self.state = StreamState::CloseSent;
        proof {
            lemma_control_fits(self@.write.len(), protocol::message_payload(close@).len());
        }
        let written = self.codec.write_message(&close, &mut self.write_buf);
        assert(written == Ok::<(), Error>(()));
        Action::Finish { until, after: AfterFinish::Fail(error) }
    }

    /// What becomes of a deadline.
    fn handle_deadline(
        &mut self,
        deadline: Deadline,
        read: Option<Result<usize>>,
        now: u64,
        nonce: u64,
    ) -> (r: Action)
        requires
            old(self).wf(),
            framing::control_room(old(self)@.write.len()),
        ensures
            final(self).wf(),
            deadline_handled(old(self)@, deadline, read, now, nonce, final(self)@, r@),
    {
        let now_ms: u64 = now_millis(now);
        if deadline.at() > now_ms {
            return self.resume(read);
        }
        match deadline {
            Deadline::Ping(_) => match self.heartbeat.ping_due(now_ms, nonce) {
                Some(payload) => {
                    let ping = Message::Ping(payload);
                    proof {
                        octets::lemma_be_bytes_len(nonce as nat, 8);
                        lemma_control_fits(
                            self@.write.len(),
                            protocol::message_payload(ping@).len(),
                        );
                    }
                    let written = self.codec.write_message(&ping, &mut self.write_buf);
                    assert(written == Ok::<(), Error>(()));
                    Action::Flush { within: self.closing_deadline, next: AfterFlush::Ping(read) }
                },
                None => self.resume(read),
            },
            Deadline::Pong(_) => {
                let reason = bounded_close_reason(self.config.pong_timeout_close_reason.as_str());
                let code: u16 = self.config.pong_timeout_close_code;
                proof {
                    heartbeat::law_bounded_reason_fits(
                        self.config.pong_timeout_close_reason@,
                        MAX_REASON_BYTES as nat,
                    );
                    lemma_close_len(code, reason@);
                }
                self.give_up(
                    Message::Close(Some(CloseReason { code, reason })),
                    Error::HeartbeatTimeout,
                    now,
                )
            },
            Deadline::Idle(_) => {
                let reason = "Connection idle timeout".to_owned();
                let code: u16 = CloseReason::GOING_AWAY;
                proof {
                    reveal_strlit("Connection idle timeout");
                    assert(is_ascii_chars(reason@));
                    is_ascii_chars_encode_utf8(reason@);
                    lemma_close_len(code, reason@);
                }
                self.give_up(
                    Message::Close(Some(CloseReason { code, reason })),
                    Error::IdleTimeout,
                    now,
                )
            },
        }
    }

    /// What becomes of the input that has arrived.
    fn process_read_buf(&mut self, now: u64) -> (r: Result<bool>)
        requires
            old(self).wf(),
            old(self)@.codec.takes(old(self)@.read.len()),
            old(self)@.pending.len() == 0,
        ensures
            final(self).wf(),
            parsed(old(self)@, now, final(self)@, r),
            final(self)@.write == old(self)@.write,
    {
        if self.read_buf.is_empty() {
            return Ok(false);
        }
        let mut accepted_fragment: bool = false;
        let mut messages: Vec<Message> = Vec::new();
        let result = self.codec.read_frames(
            &mut self.read_buf,
            &mut messages,
            &mut accepted_fragment,
        );
        if accepted_fragment && self.heartbeat.tracks_inbound_activity() {
            self.heartbeat.on_inbound(now_millis(now), None);
        }
        // Refresh even on error: the accepted prefix may already contain Close.
        self.batch_has_close = any_close(&messages);
        let ghost given = messages@;
        self.pending_messages = reversed(messages);
        proof {
            assert(self.pending_messages@.reverse() =~= given);
            assert(self@.pending == protocol::message_views(given));
            assert(old(self)@.codec.has_read(
                old(self)@.read,
                self@.codec,
                self@.read,
                self@.pending,
                accepted_fragment,
                result,
            ));
        }
        match result {
            Ok(()) => Ok(self.pending_messages.len() > 0),
            Err(e) => Err(e),
        }
    }

    /// How more input is read.
    fn read_action(&mut self, now: u64) -> (r: Action)
        ensures
            (final(self)@, r@) == reading(old(self)@, now),
    {
        if let Some(until) = self.closing_deadline {
            // Accepted messages are drained before enforcing the new-I/O budget.
            // Every budget gets one nonwaiting post-expiry read, not one per call.
            if now >= until {
                if self.post_expiry_read_attempted {
                    self.state = StreamState::Closed;
                    if !self.write_shutdown_complete && self.write_buf.is_empty() {
                        return Action::Shutdown { until };
                    }
                    return Action::Fail(Error::ConnectionClosed);
                }
                self.post_expiry_read_attempted = true;
            }
            return Action::ReadBefore { until };
        }
        match self.heartbeat.next_deadline() {
            Some(deadline) => {
                let hard = match self.heartbeat.next_timeout() {
                    Some(at) => Some(at),
                    // With no hard timeout, the scheduled deadline is Ping.
                    // Bound buffer recovery from that due time, not read start.
                    None => if self.config.pong_timeout != 0 {
                        Some(
                            Deadline::Pong(
                                deadline.at().saturating_add(
                                    (self.config.pong_timeout as u64) * 1000,
                                ),
                            ),
                        )
                    } else {
                        None
                    },
                };
                Action::ReadUntil { deadline, hard }
            },
            None => Action::Read,
        }
    }

    /// Say what is to be done to receive the next message
    ///
    /// `nonce` tells the Ping that may be sent from others.
    pub fn next_step(&mut self, now: u64, nonce: u64) -> (r: Action)
        requires
            old(self).wf(),
            old(self).has_room(),
        ensures
            final(self).wf(),
            next_stepped(old(self)@, now, nonce, final(self)@, r@),
    {
        if self.state == StreamState::Closed {
            return Action::End;
        }
        if let Some(msg) = self.next_pending_message() {
            return self.handle_incoming_message(msg, now);
        }
        let error = self.pending_parse_error.take();
        if let Some(e) = error {
            self.end();
            return Action::Fail(e);
        }
        // Buffered bytes have not been accepted yet, so an expired deadline
        // must win before parsing can turn them into application messages.

        if let Some(deadline) = self.heartbeat.next_deadline() {
            if deadline.at() <= now_millis(now) {
                return self.handle_deadline(deadline, None, now, nonce);
            }
        }
        let parsed_input = self.process_read_buf(now);
        let ghost mid = self@;
        assert(parsed(old(self)@, now, mid, parsed_input));
        match parsed_input {
            Ok(false) => self.read_action(now),
            Ok(true) => {
                if let Some(msg) = self.next_pending_message() {
                    return self.handle_incoming_message(msg, now);
                }
                Action::Again
            },
            Err(e) => {
                if self.pending_messages.len() == 0 {
                    self.end();
                    return Action::Fail(e);
                }
                self.pending_parse_error = Some(e);
                if self.state == StreamState::Open {
                    self.state = StreamState::ReadErrorPending;
                }
                assert(self@ == read_failed(mid, e));
                if let Some(msg) = self.next_pending_message() {
                    return self.handle_incoming_message(msg, now);
                }
                Action::Again
            },
        }
    }
}

// ---------------------------------------------------------------------------
// What came of an action
// ---------------------------------------------------------------------------

/// What becomes of a read.
pub open spec fn read_ended<C: FrameWriter>(
    a: SessionView<C>,
    event: ReadEvent,
    now: u64,
    nonce: u64,
    b: SessionView<C>,
    action: ActionView,
) -> bool {
    match event {
        ReadEvent::Done(r) => (b, action) == resumed(a, Some(r)),
        // The cancelled owned read must never be resumed or re-parsed.
        ReadEvent::TimedOut => b == (SessionView { state: StreamState::Closed, ..a }) && action
            == ActionView::Fail(Error::ConnectionClosed),
        ReadEvent::Deadline(deadline, r) => deadline_handled(
            a,
            deadline,
            r,
            now,
            nonce,
            b,
            action,
        ),
    }
}

/// What becomes of output that has left, or could not.
pub open spec fn output_left<C>(
    a: SessionView<C>,
    next: AfterFlushView,
    r: Result<()>,
    now: u64,
) -> (SessionView<C>, ActionView) {
    match r {
        Err(e) => (ended(a), ActionView::Fail(e)),
        Ok(_) => match next {
            AfterFlushView::Deliver(msg) => (a, ActionView::Deliver(msg)),
            AfterFlushView::Ping(read) => resumed(
                SessionView {
                    heartbeat: heartbeat::flushed(a.heartbeat, millis(now)),
                    ..a
                },
                read,
            ),
        },
    }
}

/// What becomes of a connection whose send half has ended, or did not in time.
pub open spec fn send_half_ended<C>(a: SessionView<C>, after: AfterFinishView, complete: bool) -> (
    SessionView<C>,
    ActionView,
) {
    (
        SessionView { shutdown_complete: complete, state: StreamState::Closed, ..a },
        match after {
            AfterFinishView::Deliver(msg) => ActionView::Deliver(msg),
            AfterFinishView::Fail(e) => ActionView::Fail(e),
        },
    )
}

impl<C: FrameReader + FrameWriter> Session<C> {
    /// Report what came of a read
    ///
    /// The input was given back with [`Session::put_input`] before, unless it is lost.
    pub fn read_done(&mut self, event: ReadEvent, now: u64, nonce: u64) -> (r: Action)
        requires
            old(self).wf(),
            framing::control_room(old(self)@.write.len()),
        ensures
            final(self).wf(),
            read_ended(old(self)@, event, now, nonce, final(self)@, r@),
    {
        match event {
            ReadEvent::Done(r) => self.resume(Some(r)),
            ReadEvent::TimedOut => {
                self.state = StreamState::Closed;
                Action::Fail(Error::ConnectionClosed)
            },
            ReadEvent::Deadline(deadline, r) => self.handle_deadline(deadline, r, now, nonce),
        }
    }

    /// Report what came of a flush
    pub fn flushed(&mut self, next: AfterFlush, r: Result<()>, now: u64) -> (action: Action)
        requires
            old(self).wf(),
        ensures
            final(self).wf(),
            (final(self)@, action@) == output_left(old(self)@, next@, r, now),
    {
        if let Err(e) = r {
            self.end();
            return Action::Fail(e);
        }
        match next {
            AfterFlush::Deliver(msg) => Action::Deliver(msg),
            AfterFlush::Ping(read) => {
                self.heartbeat.ping_flushed(now_millis(now));
                self.resume(read)
            },
        }
    }

    /// Report whether the output has left and the send half has ended in time
    pub fn finished(&mut self, after: AfterFinish, complete: bool) -> (action: Action)
        requires
            old(self).wf(),
        ensures
            final(self).wf(),
            (final(self)@, action@) == send_half_ended(old(self)@, after@, complete),
    {
        self.write_shutdown_complete = complete;
        self.state = StreamState::Closed;
        match after {
            AfterFinish::Deliver(msg) => Action::Deliver(msg),
            AfterFinish::Fail(e) => Action::Fail(e),
        }
    }

    /// Report whether the send half has ended in time
    pub fn shut_down(&mut self, complete: bool) -> (action: Action)
        requires
            old(self).wf(),
        ensures
            final(self).wf(),
            final(self)@ == (SessionView { shutdown_complete: complete, ..old(self)@ }),
            action@ == ActionView::Fail(Error::ConnectionClosed),
    {
        self.write_shutdown_complete = complete;
        Action::Fail(Error::ConnectionClosed)
    }

    /// Take the input out, to append to it
    pub fn take_input(&mut self) -> (r: BytesMut)
        requires
            old(self).wf(),
        ensures
            final(self).wf(),
            r@ == old(self)@.read,
            final(self)@ == (SessionView { read: Seq::empty(), ..old(self)@ }),
    {
        self.read_buf.split()
    }

    /// Give the input back
    pub fn put_input(&mut self, buf: BytesMut)
        requires
            old(self).wf(),
        ensures
            final(self).wf(),
            final(self)@ == (SessionView { read: buf@, ..old(self)@ }),
    {
        self.read_buf = buf;
    }

    /// Take the output out, to write it
    pub fn take_output(&mut self) -> (r: BytesMut)
        requires
            old(self).wf(),
        ensures
            final(self).wf(),
            r@ == old(self)@.write,
            final(self)@ == (SessionView { write: Seq::empty(), ..old(self)@ }),
    {
        self.write_buf.split()
    }

    /// Give output back that could not be written
    pub fn put_output(&mut self, buf: BytesMut)
        requires
            old(self).wf(),
        ensures
            final(self).wf(),
            final(self)@ == (SessionView { write: buf@, ..old(self)@ }),
    {
        self.write_buf = buf;
    }
}

// ---------------------------------------------------------------------------
// Sending
// ---------------------------------------------------------------------------

/// The connection when a message is about to be written: a Close begins the
/// closing.
pub open spec fn about_to_send<C>(a: SessionView<C>, msg: MessageView, now: u64) -> SessionView<C> {
    if msg is Close {
        SessionView { state: StreamState::CloseSent, ..closing_from(a, now) }
    } else {
        a
    }
}

/// What becomes of a connection once a message was written: `out` is the output
/// then. Output beyond what may wait is dropped, and ends the connection.
pub open spec fn queued<C>(c: SessionView<C>, out: Seq<u8>, result: Result<()>) -> (
    SessionView<C>,
    Result<Option<u64>>,
) {
    match result {
        Ok(_) => if out.len() > c.config.max_backpressure {
            (ended(SessionView { write: Seq::empty(), ..c }), Err(Error::BufferFull))
        } else {
            (SessionView { write: out, ..c }, Ok(c.closing_deadline))
        },
        Err(e) => (SessionView { write: out, ..c }, Err(e)),
    }
}

/// What becomes of a message that is to be sent: it is written to the output,
/// which then has to leave before the given time.
pub open spec fn sending<C: FrameWriter>(
    a: SessionView<C>,
    msg: MessageView,
    now: u64,
    b: SessionView<C>,
    r: Result<Option<u64>>,
) -> bool {
    if !(a.state is Open) {
        b == a && r == Err::<Option<u64>, Error>(Error::ConnectionClosed)
    } else {
        let c = about_to_send(a, msg, now);
        exists|out: Seq<u8>, result: Result<()>|
            {
                &&& #[trigger] a.codec.has_written(msg, a.write, b.codec, out, result)
                &&& (b, r) == queued(SessionView { codec: b.codec, ..c }, out, result)
            }
    }
}

/// What becomes of a connection whose send half was to end with the Close.
pub open spec fn ended_with_close<C>(a: SessionView<C>, r: Option<Result<()>>) -> (
    SessionView<C>,
    Result<()>,
) {
    match r {
        Some(Ok(_)) => (SessionView { shutdown_complete: true, ..a }, Ok(())),
        Some(Err(e)) => (SessionView { state: StreamState::Closed, ..a }, Err(e)),
        None => (
            SessionView { state: StreamState::Closed, ..a },
            Err(Error::ConnectionClosed),
        ),
    }
}

impl<C: FrameReader + FrameWriter> Session<C> {
    /// Whether there is memory to write a message behind the output.
    pub open spec fn room_to_send(&self, msg: MessageView) -> bool {
        framing::room_behind(self@.write.len(), protocol::message_payload(msg).len())
    }

    /// Check if there is memory to write a payload of `len` bytes behind the output
    pub fn can_send(&self, len: usize) -> (r: bool)
        ensures
            r ==> framing::room_behind(self@.write.len(), len as nat),
            !r ==> self@.write.len() + len + 64 > isize::MAX,
    {
        let limit: usize = isize::MAX as usize - 64;
        self.write_buf.len() <= limit && len <= limit - self.write_buf.len()
    }

    /// Send a WebSocket message: write it to the output, which the caller then
    /// flushes, before the time that is returned at most, and reports with
    /// [`Session::sent`]
    ///
    /// Where more output would wait than `max_backpressure` allows, the
    /// connection ends instead.
    pub fn start_send(&mut self, msg: &Message, now: u64) -> (r: Result<Option<u64>>)
        requires
            old(self).wf(),
            old(self).room_to_send(msg@),
        ensures
            final(self).wf(),
            sending(old(self)@, msg@, now, final(self)@, r),
    {
        if self.state != StreamState::Open {
            return Err(Error::ConnectionClosed);
        }
        if msg.is_close() {
            self.state = StreamState::CloseSent;
            self.begin_closing(now);
        }
        let result = self.codec.write_message(msg, &mut self.write_buf);
        assert(old(self)@.codec.has_written(
            msg@,
            old(self)@.write,
            self@.codec,
            self@.write,
            result,
        ));
        let ghost out = self@.write;
        let ghost c = about_to_send(old(self)@, msg@, now);
        assert(self@ == (SessionView { codec: self@.codec, write: out, ..c }));
        match result {
            Ok(()) => {
                if self.write_buf.len() > self.config.max_backpressure {
                    self.write_buf.clear();
                    self.end();
                    return Err(Error::BufferFull);
                }
                Ok(self.closing_deadline)
            },
            Err(e) => Err(e),
        }
    }

    /// Report what came of a flush that the application asked for, or that a
    /// message it sent needs
    pub fn sent(&mut self, r: Result<()>) -> (result: Result<()>)
        requires
            old(self).wf(),
        ensures
            final(self).wf(),
            result == r,
            final(self)@ == if r is Err {
                ended(old(self)@)
            } else {
                old(self)@
            },
    {
        if r.is_err() {
            self.end();
        }
        r
    }

    /// Flush pending writes: before the time that is returned at most, and
    /// reported with [`Session::sent`]
    pub fn start_flush(&self) -> (r: Result<Option<u64>>)
        ensures
            r == if self@.state is Closed {
                Err::<Option<u64>, Error>(Error::ConnectionClosed)
            } else {
                Ok(self@.closing_deadline)
            },
    {
        if self.state == StreamState::Closed {
            return Err(Error::ConnectionClosed);
        }
        Ok(self.closing_deadline)
    }

    /// Send a close frame, unless the connection is closing already: as
    /// [`Session::start_send`], or nothing
    pub fn start_close(&mut self, code: u16, reason: &str, now: u64) -> (r: Option<
        Result<Option<u64>>,
    >)
        requires
            old(self).wf(),
            old(self).room_to_send(MessageView::Close(Some((code, reason@)))),
        ensures
            final(self).wf(),
            !(old(self)@.state is Open) ==> r is None && final(self)@ == old(self)@,
            old(self)@.state is Open ==> r is Some && sending(
                old(self)@,
                MessageView::Close(Some((code, reason@))),
                now,
                final(self)@,
                r->0,
            ),
    {
        if self.state != StreamState::Open {
            return None;
        }
        let close = Message::Close(Some(CloseReason { code, reason: reason.to_owned() }));
        Some(self.start_send(&close, now))
    }

    /// When the send half has to end once the Close has left, if it ends with it
    pub fn ends_with_close(&self) -> (r: Option<u64>)
        ensures
            r == if self@.immediate_shutdown {
                self@.closing_deadline
            } else {
                None
            },
    {
        if self.immediate_write_shutdown {
            self.closing_deadline
        } else {
            None
        }
    }

    /// Report what came of ending the send half with the Close; nothing where
    /// the time was over
    pub fn close_finished(&mut self, r: Option<Result<()>>) -> (result: Result<()>)
        requires
            old(self).wf(),
        ensures
            final(self).wf(),
            (final(self)@, result) == ended_with_close(old(self)@, r),
    {
        match r {
            Some(Ok(())) => {
                self.write_shutdown_complete = true;
                Ok(())
            },
            Some(Err(e)) => {
                self.state = StreamState::Closed;
                Err(e)
            },
            None => {
                self.state = StreamState::Closed;
                Err(Error::ConnectionClosed)
            },
        }
    }

    /// End the transport send half immediately after an explicit WebSocket Close.
    ///
    /// Use this for HTTP/2 and HTTP/3, whose queued Close frame requires an
    /// explicit send-side shutdown before the stream is released. TCP and TLS
    /// streams should keep the default and wait for the peer Close.
    pub fn with_immediate_write_shutdown(self) -> (r: Self)
        requires
            self.wf(),
        ensures
            r.wf(),
            r@ == (SessionView { immediate_shutdown: true, ..self@ }),
    {
        Session { immediate_write_shutdown: true, ..self }
    }

    /// Check whether the WebSocket is closed.
    pub fn is_closed(&self) -> (r: bool)
        ensures
            r == (self@.state is Closed),
    {
        self.state == StreamState::Closed
    }

    /// Check whether the write buffer is above the high water mark.
    pub fn is_backpressured(&self) -> (r: bool)
        ensures
            r == (self@.write.len() > self@.high_water_mark),
    {
        self.write_buf.len() > self.high_water_mark
    }

    /// Check whether the write buffer is below the low water mark.
    pub fn is_write_buffer_low(&self) -> (r: bool)
        ensures
            r == (self@.write.len() <= self@.low_water_mark),
    {
        self.write_buf.len() <= self.low_water_mark
    }

    /// Get the pending write buffer length.
    pub fn write_buffer_len(&self) -> (r: usize)
        ensures
            r == self@.write.len(),
    {
        self.write_buf.len()
    }

    /// Get the pending read buffer length.
    pub fn read_buffer_len(&self) -> (r: usize)
        ensures
            r == self@.read.len(),
    {
        self.read_buf.len()
    }

    /// Set the high water mark for backpressure.
    pub fn set_high_water_mark(&mut self, size: usize)
        requires
            old(self).wf(),
        ensures
            final(self).wf(),
            final(self)@ == (SessionView { high_water_mark: size, ..old(self)@ }),
    {
        self.high_water_mark = size;
    }

    /// Set the low water mark for backpressure.
    pub fn set_low_water_mark(&mut self, size: usize)
        requires
            old(self).wf(),
        ensures
            final(self).wf(),
            final(self)@ == (SessionView { low_water_mark: size, ..old(self)@ }),
    {
        self.low_water_mark = size;
    }

    /// Get the high water mark for backpressure.
    pub fn high_water_mark(&self) -> (r: usize)
        ensures
            r == self@.high_water_mark,
    {
        self.high_water_mark
    }

    /// Get the low water mark for backpressure.
    pub fn low_water_mark(&self) -> (r: usize)
        ensures
            r == self@.low_water_mark,
    {
        self.low_water_mark
    }
}

// ---------------------------------------------------------------------------
// Plain and compressed connections
// ---------------------------------------------------------------------------

/// What both halves know of a connection that is split: it counts as closed
/// once a Close was sent, and as closing where the input has failed. A known
/// parse error must not reopen application writes.
pub open spec fn shared_of<C>(s: SessionView<C>) -> SplitShared {
    let shared = halves::new_shared(
        !(s.state is Open || s.state is ReadErrorPending),
        heartbeat::tracks_activity(s.heartbeat),
    );
    if s.error is Some {
        halves::closing(shared)
    } else {
        shared
    }
}

impl<C: FrameReader + FrameWriter> Session<C> {
    fn shared_state(&self) -> (r: SplitShared)
        ensures
            r == shared_of(self@),
    {
        let mut shared = SplitShared::new(
            self.state != StreamState::Open && self.state != StreamState::ReadErrorPending,
            self.heartbeat.tracks_inbound_activity(),
        );
        if self.pending_parse_error.is_some() {
            shared.begin_closing();
        }
        shared
    }
}

impl Session<Protocol> {
    /// Make the session of a connection with bytes already read after the handshake
    pub fn from_raw_with_leftover(role: Role, config: Config, leftover: Option<Bytes>) -> (r: Self)
        requires
            buffer::allocatable(config.write_buffer_size as nat),
            buffer::allocatable(leftover_bytes(leftover).len()),
        ensures
            r.wf(),
            r@ == begun(r@.codec, config, leftover_bytes(leftover)),
            r@.codec@ == protocol::new_view(role, config.max_message_size as nat),
            r@.codec.frames().at_start(),
            r@.codec.frames().limits() == (config.max_frame_size as nat, role is Server, false),
    {
        let codec = Protocol::new(role, config.max_frame_size, config.max_message_size);
        Session::new(codec, config, leftover)
    }

    /// Split the connection into independent halves
    ///
    /// Buffered output is not transferred. Receive progress, including partial
    /// UTF-8 validation, belongs to the reader.
    pub fn split(self) -> (r: (SplitReader<Protocol>, WriterDriver<Protocol>, SplitShared))
        requires
            self.wf(),
            buffer::allocatable(self@.config.write_buffer_size as nat),
        ensures
            r.0.wf(),
            r.0@ == (ReaderView {
                codec: r.0@.codec,
                read: self@.read,
                pending: self@.pending,
                error: self@.error,
                terminal_reported: false,
            }),
            r.0@.codec@ == (ProtocolView {
                max_message_size: self@.config.max_message_size as nat,
                ..self@.codec@
            }),
            r.0@.codec.frames() == self@.codec.frames(),
            r.1.wf(),
            r.1@ == driver::new_driver(r.1@.encoder, self@.config),
            r.1@.encoder@ == protocol::new_view(
                self@.codec@.role,
                self@.config.max_message_size as nat,
            ),
            r.1@.encoder.frames().at_start(),
            r.1@.encoder.frames().limits() == (
                self@.config.max_frame_size as nat,
                self@.codec@.role is Server,
                false,
            ),
            r.2 == shared_of(self@),
    {
        let shared = self.shared_state();
        let (reader, writer) = self.codec.split(
            self.config.max_frame_size,
            self.config.max_message_size,
        );
        (
            SplitReader::from_parts(
                reader,
                self.read_buf,
                self.pending_messages,
                self.pending_parse_error,
            ),
            WriterDriver::new(writer, self.config),
            shared,
        )
    }
}

impl Session<CompressedProtocol> {
    /// Make the session of a compressed connection with bytes already read
    /// after the handshake
    pub fn compressed(
        role: Role,
        config: Config,
        deflate_config: DeflateConfig,
        leftover: Option<Bytes>,
    ) -> (r: Self)
        requires
            deflate_config.compression_level <= 9,
            buffer::allocatable(config.write_buffer_size as nat),
            buffer::allocatable(leftover_bytes(leftover).len()),
        ensures
            r.wf(),
            r@ == begun(r@.codec, config, leftover_bytes(leftover)),
            r@.codec@ == compressed_protocol::new_handler(
                role,
                config.max_message_size as nat,
                deflate_config,
            ),
            r@.codec.encoder() == compressed_protocol::own_encoder(role, deflate_config),
            r@.codec.receiver().frames().at_start(),
            r@.codec.receiver().frames().limits() == (
                config.max_frame_size as nat,
                role is Server,
                true,
            ),
    {
        let codec = match role {
            Role::Server => CompressedProtocol::server(
                config.max_frame_size,
                config.max_message_size,
                deflate_config,
            ),
            Role::Client => CompressedProtocol::client(
                config.max_frame_size,
                config.max_message_size,
                deflate_config,
            ),
        };
        Session::new(codec, config, leftover)
    }

    /// Check whether the compressed stream is closed, by itself or by the
    /// closing handshake.
    pub fn is_stream_closed(&self) -> (r: bool)
        requires
            self.wf(),
        ensures
            r == (self@.state is Closed || self@.codec.state() is Closed),
    {
        self.state == StreamState::Closed || self.codec.is_closed()
    }

    /// Split the compressed connection into independent halves
    pub fn split(self) -> (r: (
        SplitReader<CompressedReaderProtocol>,
        WriterDriver<CompressedWriterProtocol>,
        SplitShared,
    ))
        requires
            self.wf(),
            buffer::allocatable(self@.config.write_buffer_size as nat),
        ensures
            r.0.wf(),
            r.0@ == (ReaderView {
                codec: r.0@.codec,
                read: self@.read,
                pending: self@.pending,
                error: self@.error,
                terminal_reported: false,
            }),
            r.0@.codec@ == (PackedView {
                closing: None,
                max_message_size: self@.config.max_message_size as nat,
                ..self@.codec@
            }),
            r.0@.codec.frames() == self@.codec.receiver().frames(),
            r.1.wf(),
            r.1@ == driver::new_driver(r.1@.encoder, self@.config),
            r.1@.encoder.role() == self@.codec@.role,
            r.1@.encoder@ == self@.codec.encoder(),
            r.2 == shared_of(self@),
    {
        let shared = self.shared_state();
        let (reader, writer) = self.codec.split(self.config.max_message_size);
        (
            SplitReader::from_parts(
                reader,
                self.read_buf,
                self.pending_messages,
                self.pending_parse_error,
            ),
            WriterDriver::new(writer, self.config),
            shared,
        )
    }
}

/// Builder for WebSocket sessions.
pub struct CompioWebSocketStreamBuilder {
    config: Config,
    role: Role,
    high_water_mark: usize,
    low_water_mark: usize,
}

/// What a builder has been told, as a mathematical value.
pub struct BuilderView {
    /// The configuration
    pub config: Config,
    /// The endpoint role
    pub role: Role,
    /// Output above which a writer should pause
    pub high_water_mark: usize,
    /// Output below which a writer may go on
    pub low_water_mark: usize,
}

impl CompioWebSocketStreamBuilder {
    /// What the builder has been told.
    pub closed spec fn view(&self) -> BuilderView {
        BuilderView {
            config: self.config,
            role: self.role,
            high_water_mark: self.high_water_mark,
            low_water_mark: self.low_water_mark,
        }
    }

    /// Create a new stream builder.
    pub fn new() -> (r: Self)
        ensures
            config::is_default(r@.config),
            r@.role is Server,
            r@.high_water_mark == DEFAULT_HIGH_WATER_MARK,
            r@.low_water_mark == DEFAULT_LOW_WATER_MARK,
    {
        CompioWebSocketStreamBuilder {
            config: Config::default(),
            role: Role::Server,
            high_water_mark: DEFAULT_HIGH_WATER_MARK,
            low_water_mark: DEFAULT_LOW_WATER_MARK,
        }
    }

    /// Set the endpoint role.
    pub fn role(self, role: Role) -> (r: Self)
        ensures
            r@ == (BuilderView { role, ..self@ }),
    {
        CompioWebSocketStreamBuilder { role, ..self }
    }

    /// Set the maximum message size.
    pub fn max_message_size(self, size: usize) -> (r: Self)
        ensures
            r@ == (BuilderView {
                config: Config { max_message_size: size, ..self@.config },
                ..self@
            }),
    {
        let mut builder = self;
        builder.config.max_message_size = size;
        builder
    }

    /// Set the maximum frame size.
    pub fn max_frame_size(self, size: usize) -> (r: Self)
        ensures
            r@ == (BuilderView {
                config: Config { max_frame_size: size, ..self@.config },
                ..self@
            }),
    {
        let mut builder = self;
        builder.config.max_frame_size = size;
        builder
    }

    /// Set the write buffer size.
    pub fn write_buffer_size(self, size: usize) -> (r: Self)
        ensures
            r@ == (BuilderView {
                config: Config { write_buffer_size: size, ..self@.config },
                ..self@
            }),
    {
        let mut builder = self;
        builder.config.write_buffer_size = size;
        builder
    }

    /// Set the high water mark.
    pub fn high_water_mark(self, size: usize) -> (r: Self)
        ensures
            r@ == (BuilderView { high_water_mark: size, ..self@ }),
    {
        CompioWebSocketStreamBuilder { high_water_mark: size, ..self }
    }

    /// Set the low water mark.
    pub fn low_water_mark(self, size: usize) -> (r: Self)
        ensures
            r@ == (BuilderView { low_water_mark: size, ..self@ }),
    {
        CompioWebSocketStreamBuilder { low_water_mark: size, ..self }
    }

    /// Check if a write buffer of the size that was set can be made
    pub fn can_build(&self) -> (r: bool)
        ensures
            r == buffer::allocatable(self@.config.write_buffer_size as nat),
    {
        self.config.write_buffer_size <= isize::MAX as usize
    }

    /// Build the session of a connection.
    pub fn build(self) -> (r: Session<Protocol>)
        requires
            buffer::allocatable(self@.config.write_buffer_size as nat),
        ensures
            r.wf(),
            r@ == (SessionView {
                high_water_mark: self@.high_water_mark,
                low_water_mark: self@.low_water_mark,
                ..begun(r@.codec, self@.config, Seq::empty())
            }),
            r@.codec@ == protocol::new_view(self@.role, self@.config.max_message_size as nat),
            r@.codec.frames().at_start(),
            r@.codec.frames().limits() == (
                self@.config.max_frame_size as nat,
                self@.role is Server,
                false,
            ),
    {
        let mut session = Session::from_raw_with_leftover(self.role, self.config, None);
        session.high_water_mark = self.high_water_mark;
        session.low_water_mark = self.low_water_mark;
        session
    }
}

impl Default for CompioWebSocketStreamBuilder {
    fn default() -> (r: Self)
        ensures
            config::is_default(r@.config),
            r@.role is Server,
            r@.high_water_mark == DEFAULT_HIGH_WATER_MARK,
            r@.low_water_mark == DEFAULT_LOW_WATER_MARK,
    {
        Self::new()
    }
}

} // verus!
