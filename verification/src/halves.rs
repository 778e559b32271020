//! The decisions of a WebSocket connection whose halves are used apart.
//!
//! A [`SplitReader`] receives messages; a [`WriterDriver`] owns the sending
//! half, sends what the application and the reader ask for, and keeps the
//! heartbeat. Both know the [`SplitShared`] state. As for [`crate::session`],
//! the caller performs what they decide and reports what came of it.
//!
//! Times are nanoseconds since the connection was split.
use crate::buffer;
use crate::buffer::BufferView;
use crate::error::{Error, Result};
use crate::framing;
use crate::framing::FrameReader;
use crate::protocol;
use crate::protocol::{Message, MessageView};
use crate::session;
use crate::session::reversed;
use bytes::{Bytes, BytesMut};
use vstd::prelude::*;
use vstd::utf8::*;

verus! {

// ---------------------------------------------------------------------------
// What both halves know
// ---------------------------------------------------------------------------

/// Where a split connection stands.
#[derive(Debug, Clone, Copy, PartialEq, Eq, Structural)]
pub enum SplitStatus {
    /// Messages can be sent and received
    Open,
    /// The application can send nothing more
    Closing,
    /// Both halves are done
    Closed,
}

/// Why a split connection has ended.
#[derive(Debug, Clone, Copy, PartialEq, Eq, Structural)]
pub enum TerminalCause {
    /// It was closed
    ConnectionClosed,
    /// A Pong was overdue
    HeartbeatTimeout,
    /// The peer was silent for too long
    IdleTimeout,
}

/// The cause that an error stands for.
pub open spec fn cause_of(e: Error) -> TerminalCause {
    if e is HeartbeatTimeout {
        TerminalCause::HeartbeatTimeout
    } else if e is IdleTimeout {
        TerminalCause::IdleTimeout
    } else {
        TerminalCause::ConnectionClosed
    }
}

/// The error that a cause stands for.
pub open spec fn error_of(cause: TerminalCause) -> Error {
    match cause {
        TerminalCause::ConnectionClosed => Error::ConnectionClosed,
        TerminalCause::HeartbeatTimeout => Error::HeartbeatTimeout,
        TerminalCause::IdleTimeout => Error::IdleTimeout,
    }
}

impl TerminalCause {
    /// The cause that an error stands for
    pub fn from_error(error: &Error) -> (r: Self)
        ensures
            r == cause_of(*error),
    {
        match error {
            Error::HeartbeatTimeout => TerminalCause::HeartbeatTimeout,
            Error::IdleTimeout => TerminalCause::IdleTimeout,
            _ => TerminalCause::ConnectionClosed,
        }
    }

    /// The error that the cause stands for
    pub fn error(self) -> (r: Error)
        ensures
            r == error_of(self),
    {
        match self {
            TerminalCause::ConnectionClosed => Error::ConnectionClosed,
            TerminalCause::HeartbeatTimeout => Error::HeartbeatTimeout,
            TerminalCause::IdleTimeout => Error::IdleTimeout,
        }
    }
}

/// What both halves of a split connection know.
#[derive(Debug, Clone, Copy, PartialEq, Eq, Structural)]
pub struct SplitShared {
    /// Where the connection stands
    pub status: SplitStatus,
    /// Why it has ended, once it has
    pub terminal: Option<TerminalCause>,
    /// When the reader last saw a data frame, in milliseconds
    pub last_inbound_ms: u64,
    /// Whether that matters
    pub tracks_inbound_activity: bool,
}

/// The state of a connection that was split, closed already or not.
pub open spec fn new_shared(closed: bool, tracks: bool) -> SplitShared {
    SplitShared {
        status: if closed {
            SplitStatus::Closed
        } else {
            SplitStatus::Open
        },
        terminal: if closed {
            Some(TerminalCause::ConnectionClosed)
        } else {
            None
        },
        last_inbound_ms: 0,
        tracks_inbound_activity: tracks,
    }
}

/// The state once a data frame was seen.
pub open spec fn noted(s: SplitShared, now: u64) -> SplitShared {
    if s.tracks_inbound_activity && s.last_inbound_ms < session::millis(now) {
        SplitShared { last_inbound_ms: session::millis(now), ..s }
    } else {
        s
    }
}

/// The state once closing has begun.
pub open spec fn closing(s: SplitShared) -> SplitShared {
    if s.status is Open {
        SplitShared { status: SplitStatus::Closing, ..s }
    } else {
        s
    }
}

/// The state once the connection has ended: the first cause counts.
pub open spec fn terminated(s: SplitShared, cause: TerminalCause) -> SplitShared {
    if s.status is Closed {
        s
    } else {
        SplitShared { status: SplitStatus::Closed, terminal: Some(cause), ..s }
    }
}

/// The error that a writer gets once the connection is not open.
pub open spec fn writer_error(s: SplitShared) -> Error {
    match s.terminal {
        Some(cause) => error_of(cause),
        None => Error::ConnectionClosed,
    }
}

impl SplitShared {
    /// The state of a connection that was split
    pub fn new(closed: bool, tracks_inbound_activity: bool) -> (r: Self)
        ensures
            r == new_shared(closed, tracks_inbound_activity),
    {
        SplitShared {
            status: if closed {
                SplitStatus::Closed
            } else {
                SplitStatus::Open
            },
            terminal: if closed {
                Some(TerminalCause::ConnectionClosed)
            } else {
                None
            },
            last_inbound_ms: 0,
            tracks_inbound_activity,
        }
    }

    /// A data frame was seen
    pub fn note_inbound(&mut self, now: u64)
        ensures
            *final(self) == noted(*old(self), now),
    {
        if !self.tracks_inbound_activity {
            return;
        }
        let now_ms: u64 = now / 1_000_000;
        if self.last_inbound_ms < now_ms {
            self.last_inbound_ms = now_ms;
        }
    }

    /// Check if messages can be sent
    pub fn is_open(&self) -> (r: bool)
        ensures
            r == (self.status is Open),
    {
        self.status == SplitStatus::Open
    }

    /// Closing begins
    pub fn begin_closing(&mut self)
        ensures
            *final(self) == closing(*old(self)),
    {
        if self.is_open() {
            self.status = SplitStatus::Closing;
        }
    }

    /// The connection has ended
    pub fn terminate(&mut self, cause: TerminalCause)
        ensures
            *final(self) == terminated(*old(self), cause),
    {
        if self.status != SplitStatus::Closed {
            self.status = SplitStatus::Closed;
            self.terminal = Some(cause);
        }
    }

    /// The error that a writer gets once the connection is not open
    pub fn current_error(&self) -> (r: Error)
        ensures
            r == writer_error(*self),
    {
        match self.terminal {
            Some(cause) => cause.error(),
            None => Error::ConnectionClosed,
        }
    }
}

/// Once a connection has ended it stays so, for the same cause.
pub proof fn law_end_is_final(s: SplitShared, first: TerminalCause, later: TerminalCause)
    requires
        !(s.status is Closed),
    ensures
        terminated(s, first).status is Closed,
        writer_error(terminated(s, first)) == error_of(first),
        terminated(terminated(s, first), later) == terminated(s, first),
        closing(terminated(s, first)) == terminated(s, first),
{
}

/// What the reader saw last never moves back.
pub proof fn law_activity_never_moves_back(s: SplitShared, now: u64)
    ensures
        noted(s, now).last_inbound_ms >= s.last_inbound_ms,
        s.tracks_inbound_activity ==> noted(s, now).last_inbound_ms >= session::millis(now),
{
}

/// What a timeout means survives the way to the writer and back; every other
/// error is a closed connection there.
pub proof fn law_timeouts_survive_as_causes(e: Error, cause: TerminalCause)
    ensures
        cause_of(error_of(cause)) == cause,
        e is HeartbeatTimeout || e is IdleTimeout ==> error_of(cause_of(e)) == e,
        !(e is HeartbeatTimeout || e is IdleTimeout) ==> error_of(cause_of(e)) is ConnectionClosed,
{
}

/// What the reader asks of the writer.
#[derive(Debug)]
pub enum ControlRequest {
    /// A Pong was received, at this time
    Pong(Bytes, u64),
    /// A Ping was received, at this time: answer it
    PeerPing(Bytes, u64),
    /// A Close was received: answer it
    PeerClose,
    /// Stop the writer after earlier automatic control responses are flushed.
    ReadError,
    /// The input has ended
    Eof,
}

/// [`ControlRequest`] as a mathematical value.
pub enum ControlView {
    Pong(Seq<u8>, u64),
    PeerPing(Seq<u8>, u64),
    PeerClose,
    ReadError,
    Eof,
}

impl ControlRequest {
    /// The value.
    pub open spec fn view(&self) -> ControlView {
        match self {
            ControlRequest::Pong(payload, at) => ControlView::Pong(payload@, *at),
            ControlRequest::PeerPing(payload, at) => ControlView::PeerPing(payload@, *at),
            ControlRequest::PeerClose => ControlView::PeerClose,
            ControlRequest::ReadError => ControlView::ReadError,
            ControlRequest::Eof => ControlView::Eof,
        }
    }
}

// ---------------------------------------------------------------------------
// The reader
// ---------------------------------------------------------------------------

/// What is to follow once the writer has the request, or cannot take it.
#[derive(Debug)]
pub enum AfterRequest {
    /// Hand on the message, if the writer has the request
    Deliver(Message),
    /// Report the error
    Fail(Error),
    /// Go on
    Again,
}

/// What the caller of a reader has to do.
#[derive(Debug)]
pub enum ReaderAction {
    /// Tell that the stream has ended
    End,
    /// Hand on a message
    Deliver(Message),
    /// Report an error
    Fail(Error),
    /// Send a request to the writer; then call [`SplitReader::requested`]
    Request(ControlRequest, AfterRequest),
    /// Read more input, or learn that the writer has ended; then call
    /// [`SplitReader::read_done`]
    Read,
    /// Call [`SplitReader::next_step`] again
    Again,
}

/// [`AfterRequest`] as a mathematical value.
pub enum AfterRequestView {
    Deliver(MessageView),
    Fail(Error),
    Again,
}

/// [`ReaderAction`] as a mathematical value.
pub enum ReaderActionView {
    End,
    Deliver(MessageView),
    Fail(Error),
    Request(ControlView, AfterRequestView),
    Read,
    Again,
}

impl AfterRequest {
    /// The value.
    pub open spec fn view(&self) -> AfterRequestView {
        match self {
            AfterRequest::Deliver(msg) => AfterRequestView::Deliver(msg@),
            AfterRequest::Fail(e) => AfterRequestView::Fail(*e),
            AfterRequest::Again => AfterRequestView::Again,
        }
    }
}

impl ReaderAction {
    /// The value.
    pub open spec fn view(&self) -> ReaderActionView {
        match self {
            ReaderAction::End => ReaderActionView::End,
            ReaderAction::Deliver(msg) => ReaderActionView::Deliver(msg@),
            ReaderAction::Fail(e) => ReaderActionView::Fail(*e),
            ReaderAction::Request(request, after) => ReaderActionView::Request(request@, after@),
            ReaderAction::Read => ReaderActionView::Read,
            ReaderAction::Again => ReaderActionView::Again,
        }
    }
}

/// What came of a read.
#[derive(Debug)]
pub enum SplitReadEvent {
    /// It ended, with this many bytes or an error
    Read(Result<usize>),
    /// The writer has ended, for this cause if it said so
    Terminal(Option<TerminalCause>),
}

/// The state of a reader as a mathematical value.
#[verifier::reject_recursive_types(C)]
#[verifier::ext_equal]
pub struct ReaderView<C> {
    /// The protocol handler
    pub codec: C,
    /// Input that is not part of a complete frame
    pub read: Seq<u8>,
    /// Messages that were accepted and not delivered, in order
    pub pending: Seq<MessageView>,
    /// What was wrong behind them
    pub error: Option<Error>,
    /// Whether the end was told
    pub terminal_reported: bool,
}

/// What becomes of an accepted message.
///
/// Control frames are made known to the writer before they are handed on; a
/// data frame only counts as activity. Behind a Close nothing is received.
pub open spec fn reader_incoming<C>(
    a: ReaderView<C>,
    shared: SplitShared,
    msg: MessageView,
    now: u64,
) -> (ReaderView<C>, SplitShared, ReaderActionView) {
    let after = AfterRequestView::Deliver(msg);
    match msg {
        MessageView::Ping(payload) => (
            a,
            shared,
            ReaderActionView::Request(ControlView::PeerPing(payload, now), after),
        ),
        MessageView::Pong(payload) => (
            a,
            shared,
            ReaderActionView::Request(ControlView::Pong(payload, now), after),
        ),
        MessageView::Close(_) => (
            ReaderView { pending: Seq::empty(), error: None, read: Seq::empty(), ..a },
            closing(shared),
            ReaderActionView::Request(ControlView::PeerClose, after),
        ),
        _ => (a, noted(shared, now), ReaderActionView::Deliver(msg)),
    }
}

/// The reader without the message that is delivered next.
pub open spec fn reader_popped<C>(a: ReaderView<C>) -> ReaderView<C> {
    ReaderView { pending: a.pending.drop_first(), ..a }
}

/// What the reader tells of the end.
pub open spec fn reader_end(shared: SplitShared) -> ReaderActionView {
    match shared.terminal {
        Some(TerminalCause::HeartbeatTimeout) => ReaderActionView::Fail(Error::HeartbeatTimeout),
        Some(TerminalCause::IdleTimeout) => ReaderActionView::Fail(Error::IdleTimeout),
        _ => ReaderActionView::End,
    }
}

/// What becomes of the input that has arrived: what is wrong with it, if anything.
pub open spec fn reader_parsed<C: FrameReader>(
    a: ReaderView<C>,
    shared: SplitShared,
    now: u64,
    b: ReaderView<C>,
    shared_after: SplitShared,
    r: Result<()>,
) -> bool {
    if a.read.len() == 0 {
        b == a && shared_after == shared && r == Ok::<(), Error>(())
    } else {
        exists|fragment: bool|
            {
                &&& #[trigger] a.codec.has_read(
                    a.read,
                    b.codec,
                    b.read,
                    b.pending,
                    fragment,
                    r,
                )
                &&& b == (ReaderView {
                    codec: b.codec,
                    read: b.read,
                    pending: b.pending,
                    error: match r {
                        Ok(_) => a.error,
                        Err(e) => Some(e),
                    },
                    ..a
                })
                &&& shared_after == match r {
                    Ok(_) => if fragment {
                        noted(shared, now)
                    } else {
                        shared
                    },
                    Err(_) => closing(shared),
                }
            }
    }
}

/// What is done once accepted messages and errors were looked at.
pub open spec fn reader_delivers<C>(a: ReaderView<C>, shared: SplitShared, now: u64) -> (
    ReaderView<C>,
    SplitShared,
    ReaderActionView,
) {
    if a.pending.len() > 0 {
        reader_incoming(reader_popped(a), shared, a.pending[0], now)
    } else if a.error is Some {
        (
            ReaderView { error: None, ..a },
            shared,
            ReaderActionView::Request(
                ControlView::ReadError,
                AfterRequestView::Fail(a.error->0),
            ),
        )
    } else {
        (a, shared, ReaderActionView::Read)
    }
}

/// What is done to receive the next message.
pub open spec fn reader_stepped<C: FrameReader>(
    a: ReaderView<C>,
    shared: SplitShared,
    now: u64,
    b: ReaderView<C>,
    shared_after: SplitShared,
    action: ReaderActionView,
) -> bool {
    if a.terminal_reported {
        b == a && shared_after == shared && action == ReaderActionView::End
    } else if a.error is None && shared.status is Closed {
        &&& b == (ReaderView { terminal_reported: true, ..a })
        &&& shared_after == shared
        &&& action == reader_end(shared)
    } else if a.pending.len() > 0 || a.error is Some {
        (b, shared_after, action) == reader_delivers(a, shared, now)
    } else {
        exists|mid: ReaderView<C>, shared_mid: SplitShared, r: Result<()>| #[trigger]
            reader_parsed(a, shared, now, mid, shared_mid, r) && (b, shared_after, action)
                == reader_delivers(mid, shared_mid, now)
    }
}

/// What becomes of a request that the writer has, or cannot take.
pub open spec fn reader_requested<C>(
    a: ReaderView<C>,
    shared: SplitShared,
    after: AfterRequestView,
    taken: bool,
) -> (ReaderView<C>, SplitShared, ReaderActionView) {
    let over = terminated(shared, TerminalCause::ConnectionClosed);
    match after {
        AfterRequestView::Deliver(msg) => if taken {
            (a, shared, ReaderActionView::Deliver(msg))
        } else {
            (a, over, ReaderActionView::Again)
        },
        AfterRequestView::Fail(e) => (
            ReaderView { terminal_reported: true, ..a },
            over,
            ReaderActionView::Fail(e),
        ),
        AfterRequestView::Again => (a, over, ReaderActionView::Again),
    }
}

/// What becomes of a read.
pub open spec fn reader_read<C>(a: ReaderView<C>, shared: SplitShared, event: SplitReadEvent) -> (
    ReaderView<C>,
    SplitShared,
    ReaderActionView,
) {
    match event {
        SplitReadEvent::Read(Ok(n)) => if n == 0 {
            (a, shared, ReaderActionView::Request(ControlView::Eof, AfterRequestView::Again))
        } else {
            (a, shared, ReaderActionView::Again)
        },
        SplitReadEvent::Read(Err(e)) => (
            a,
            terminated(shared, TerminalCause::ConnectionClosed),
            ReaderActionView::Fail(e),
        ),
        SplitReadEvent::Terminal(cause) => (
            a,
            terminated(
                shared,
                match cause {
                    Some(c) => c,
                    None => TerminalCause::ConnectionClosed,
                },
            ),
            ReaderActionView::Again,
        ),
    }
}

/// Read half of a split WebSocket connection.
#[verifier::reject_recursive_types(C)]
pub struct SplitReader<C> {
    codec: C,
    read_buf: BytesMut,
    // Popped from the back, so kept in reverse order.
    pending_messages: Vec<Message>,
    // Deliver accepted messages before a later parse failure.
    pending_parse_error: Option<Error>,
    terminal_reported: bool,
}

impl<C> SplitReader<C> {
    /// The state as a mathematical value.
    pub closed spec fn view(&self) -> ReaderView<C> {
        ReaderView {
            codec: self.codec,
            read: self.read_buf@,
            pending: protocol::message_views(self.pending_messages@.reverse()),
            error: self.pending_parse_error,
            terminal_reported: self.terminal_reported,
        }
    }

    /// The read half of a connection, where `pending` holds the messages that
    /// were accepted and not delivered, the last one first
    pub(crate) fn from_parts(
        codec: C,
        read_buf: BytesMut,
        pending: Vec<Message>,
        error: Option<Error>,
    ) -> (r: Self)
        ensures
            r@ == (ReaderView {
                codec,
                read: read_buf@,
                pending: protocol::message_views(pending@.reverse()),
                error,
                terminal_reported: false,
            }),
    {
        SplitReader {
            codec,
            read_buf,
            pending_messages: pending,
            pending_parse_error: error,
            terminal_reported: false,
        }
    }
}

impl<C: FrameReader> SplitReader<C> {
    /// The parts agree with each other.
    pub open spec fn wf(&self) -> bool {
        self@.codec.valid()
    }

    /// Whether there is memory for the input.
    pub open spec fn has_room(&self) -> bool {
        self@.codec.takes(self@.read.len())
    }

    /// Check if there is memory to go on
    pub fn can_go_on(&self) -> (r: bool)
        ensures
            r == self.has_room(),
    {
        self.codec.can_take(self.read_buf.len())
    }

    /// Take the input out, to append to it
    pub fn take_input(&mut self) -> (r: BytesMut)
        requires
            old(self).wf(),
        ensures
            final(self).wf(),
            r@ == old(self)@.read,
            final(self)@ == (ReaderView { read: Seq::empty(), ..old(self)@ }),
    {
        self.read_buf.split()
    }

    /// Give the input back
    pub fn put_input(&mut self, buf: BytesMut)
        requires
            old(self).wf(),
        ensures
            final(self).wf(),
            final(self)@ == (ReaderView { read: buf@, ..old(self)@ }),
    {
        self.read_buf = buf;
    }

    /// What becomes of an accepted message.
    fn handle_message(&mut self, msg: Message, shared: &mut SplitShared, now: u64) -> (r:
        ReaderAction)
        requires
            old(self).wf(),
        ensures
            final(self).wf(),
            (final(self)@, *final(shared), r@) == reader_incoming(
                old(self)@,
                *old(shared),
                msg@,
                now,
            ),
    {
        let request = match &msg {
            Message::Ping(data) => ControlRequest::PeerPing(data.clone(), now),
            Message::Pong(data) => ControlRequest::Pong(data.clone(), now),
            Message::Close(_) => {
                shared.begin_closing();
                self.pending_messages.clear();
                self.pending_parse_error = None;
                self.read_buf.clear();
                assert(self@.pending =~= Seq::<MessageView>::empty());
                ControlRequest::PeerClose
            },
            _ => {
                // Data frames only refresh the inactivity clock; no channel
                // round trip per message.
                shared.note_inbound(now);
                return ReaderAction::Deliver(msg);
            },
        };
        ReaderAction::Request(request, AfterRequest::Deliver(msg))
    }

    fn deliver(&mut self, shared: &mut SplitShared, now: u64) -> (r: ReaderAction)
        requires
            old(self).wf(),
        ensures
            final(self).wf(),
            (final(self)@, *final(shared), r@) == reader_delivers(old(self)@, *old(shared), now),
    {
        let ghost all = self.pending_messages@;
        let next = self.pending_messages.pop();
        proof {
            if all.len() > 0 {
                assert(protocol::message_views(self.pending_messages@.reverse())
                    =~= protocol::message_views(all.reverse()).drop_first());
            } else {
                assert(self.pending_messages@ =~= all);
            }
        }
        if let Some(msg) = next {
            return self.handle_message(msg, shared, now);
        }
        match self.pending_parse_error.take() {
            Some(e) => ReaderAction::Request(ControlRequest::ReadError, AfterRequest::Fail(e)),
            None => ReaderAction::Read,
        }
    }

    /// What becomes of the input that has arrived.
    fn process_read_buf(&mut self, shared: &mut SplitShared, now: u64) -> (r: Ghost<Result<()>>)
        requires
            old(self).wf(),
            old(self).has_room(),
            old(self)@.pending.len() == 0,
            old(self)@.error is None,
        ensures
            final(self).wf(),
            reader_parsed(old(self)@, *old(shared), now, final(self)@, *final(shared), r@),
    {
        if self.read_buf.is_empty() {
            return Ghost(Ok(()));
        }
        let mut accepted_fragment: bool = false;
        let mut messages: Vec<Message> = Vec::new();
        let result = self.codec.read_frames(
            &mut self.read_buf,
            &mut messages,
            &mut accepted_fragment,
        );
        let ghost given = messages@;
        self.pending_messages = reversed(messages);
        let ghost outcome = result;
        match result {
            Ok(()) => {
                if accepted_fragment {
                    shared.note_inbound(now);
                }
            },
            Err(e) => {
                self.pending_parse_error = Some(e);
                shared.begin_closing();
            },
        }
        proof {
            assert(self.pending_messages@.reverse() =~= given);
            assert(self@.pending == protocol::message_views(given));
            assert(old(self)@.codec.has_read(
                old(self)@.read,
                self@.codec,
                self@.read,
                self@.pending,
                accepted_fragment,
                outcome,
            ));
        }
        Ghost(outcome)
    }

    /// Say what is to be done to receive the next message, including Ping and
    /// Pong control frames
    pub fn next_step(&mut self, shared: &mut SplitShared, now: u64) -> (r: ReaderAction)
        requires
            old(self).wf(),
            old(self).has_room(),
        ensures
            final(self).wf(),
            reader_stepped(old(self)@, *old(shared), now, final(self)@, *final(shared), r@),
    {
        if self.terminal_reported {
            return ReaderAction::End;
        }
        if self.pending_parse_error.is_none() && shared.status == SplitStatus::Closed {
            self.terminal_reported = true;
            return match shared.terminal {
                Some(TerminalCause::HeartbeatTimeout) => ReaderAction::Fail(
                    Error::HeartbeatTimeout,
                ),
                Some(TerminalCause::IdleTimeout) => ReaderAction::Fail(Error::IdleTimeout),
                _ => ReaderAction::End,
            };
        }
        if self.pending_messages.len() == 0 && self.pending_parse_error.is_none() {
            let parsed = self.process_read_buf(shared, now);
            assert(reader_parsed(old(self)@, *old(shared), now, self@, *shared, parsed@));
        }
        self.deliver(shared, now)
    }

    /// Report whether the writer has taken a request
    pub fn requested(
        &mut self,
        after: AfterRequest,
        taken: bool,
        shared: &mut SplitShared,
    ) -> (r: ReaderAction)
        requires
            old(self).wf(),
        ensures
            final(self).wf(),
            (final(self)@, *final(shared), r@) == reader_requested(
                old(self)@,
                *old(shared),
                after@,
                taken,
            ),
    {
        match after {
            AfterRequest::Deliver(msg) => {
                if taken {
                    return ReaderAction::Deliver(msg);
                }
                shared.terminate(TerminalCause::ConnectionClosed);
                ReaderAction::Again
            },
            AfterRequest::Fail(e) => {
                shared.terminate(TerminalCause::ConnectionClosed);
                self.terminal_reported = true;
                ReaderAction::Fail(e)
            },
            AfterRequest::Again => {
                shared.terminate(TerminalCause::ConnectionClosed);
                ReaderAction::Again
            },
        }
    }

    /// Report what came of a read
    pub fn read_done(&mut self, event: SplitReadEvent, shared: &mut SplitShared) -> (r:
        ReaderAction)
        requires
            old(self).wf(),
        ensures
            final(self).wf(),
            (final(self)@, *final(shared), r@) == reader_read(old(self)@, *old(shared), event),
    {
        match event {
            SplitReadEvent::Read(Ok(n)) => if n == 0 {
                ReaderAction::Request(ControlRequest::Eof, AfterRequest::Again)
            } else {
                ReaderAction::Again
            },
            SplitReadEvent::Read(Err(e)) => {
                shared.terminate(TerminalCause::ConnectionClosed);
                ReaderAction::Fail(e)
            },
            SplitReadEvent::Terminal(cause) => {
                match cause {
                    Some(c) => shared.terminate(c),
                    None => shared.terminate(TerminalCause::ConnectionClosed),
                }
                ReaderAction::Again
            },
        }
    }

    /// Check whether the connection is closing or closed.
    pub fn is_closed(&self, shared: &SplitShared) -> (r: bool)
        ensures
            r == (self@.terminal_reported || (self@.error is None && !(shared.status is Open))),
    {
        self.terminal_reported || (self.pending_parse_error.is_none() && !shared.is_open())
    }
}

} // verus!
