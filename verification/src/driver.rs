//! The decisions of the task that owns the sending half of a split connection.
//!
//! [`WriterDriver::poll`] says what to wait for or to do. What wakes the task
//! is reported with [`WriterDriver::on_control`], [`WriterDriver::on_application`],
//! [`WriterDriver::on_timer`] or, where a channel has closed,
//! [`WriterDriver::on_cancel`]. While a frame is being written,
//! [`WriterDriver::writing`] says what to wait for beside it; the write itself
//! is never restarted, since that would repeat bytes of the frame.
use crate::buffer;
use crate::buffer::BufferView;
use crate::config::Config;
use crate::error::{CloseReason, Error, Result};
use crate::framing;
use crate::framing::{FrameWriter, MAX_CONTROL_PAYLOAD};
use crate::heartbeat;
use crate::heartbeat::{bounded_close_reason, Deadline, Heartbeat, HeartbeatView};
use crate::heartbeat::MAX_REASON_BYTES;
use crate::octets;
use crate::protocol;
use crate::protocol::{Message, MessageView};
use crate::session;
use crate::halves;
use crate::halves::{ControlRequest, ControlView, SplitShared, SplitStatus, TerminalCause};
use bytes::BytesMut;
use vstd::prelude::*;
use vstd::utf8::*;

verus! {

/// What the application asks of the writer.
#[derive(Debug)]
pub enum ApplicationRequest {
    /// Send a message
    Send(Message),
    /// Flush what was sent
    Flush,
}

/// What is to follow once a frame was written.
#[derive(Debug, Clone, Copy, PartialEq, Eq, Structural)]
pub enum AfterWrite {
    /// Nothing: it was an automatic answer
    Control,
    /// Tell the application
    Application,
    /// Begin to wait for the Pong
    Ping,
}

/// What the task has to do.
#[derive(Debug)]
pub enum DriverAction {
    /// End, for this cause
    Stop(TerminalCause),
    /// End, for this cause; the application's request failed with this error
    Failed(TerminalCause, Error),
    /// Write the output, for this many nanoseconds at most, and end, for this cause
    LastWrite(u64, TerminalCause),
    /// Write the output and flush, as [`WriterDriver::writing`] says; then call
    /// [`WriterDriver::written`]
    Write(AfterWrite),
    /// Tell the application that its request is done
    Complete,
    /// Refuse the application's request with this error
    Refuse(Error),
    /// Wait for a request, until this time at most
    Wait(Option<u64>),
    /// Call [`WriterDriver::poll`] again
    Again,
}

/// What to wait for beside a write.
#[derive(Debug, Clone, Copy, PartialEq, Eq, Structural)]
pub struct WriteWait {
    /// When to call [`WriterDriver::write_timer`], if ever
    pub until: Option<u64>,
    /// Whether to take requests of the reader and call [`WriterDriver::write_control`]
    pub reads_control: bool,
}

/// The state of a driver as a mathematical value.
#[verifier::reject_recursive_types(E)]
#[verifier::ext_equal]
pub struct DriverView<E> {
    /// The protocol handler
    pub encoder: E,
    /// The heartbeat
    pub heartbeat: HeartbeatView,
    /// When the time for closing is over, once closing has begun
    pub closing_deadline: Option<u64>,
    /// Whether the application has sent a Close
    pub local_close_sent: bool,
    /// Output that has not left
    pub write: Seq<u8>,
    /// When the peer was heard last, as far as the heartbeat was told
    pub last_synced: u64,
    /// A request that has to wait until the current frame is complete
    pub deferred: Option<ControlView>,
    /// The configuration
    pub config: Config,
}

/// The driver once the heartbeat was told what the reader saw.
pub open spec fn synced<E>(a: DriverView<E>, shared: SplitShared) -> DriverView<E> {
    if shared.last_inbound_ms > a.last_synced {
        DriverView {
            last_synced: shared.last_inbound_ms,
            heartbeat: heartbeat::heard(a.heartbeat, shared.last_inbound_ms, None),
            ..a
        }
    } else {
        a
    }
}

/// When the time for closing is over, where closing begins now or has begun before.
pub open spec fn closing_budget<E>(a: DriverView<E>, now: u64) -> u64 {
    match a.closing_deadline {
        Some(at) => at,
        None => session::seconds_later(now, a.config.close_timeout),
    }
}

/// The driver once closing has begun.
pub open spec fn closing_from<E>(a: DriverView<E>, now: u64) -> DriverView<E> {
    DriverView {
        heartbeat: heartbeat::stopped(a.heartbeat),
        closing_deadline: Some(closing_budget(a, now)),
        ..a
    }
}

/// A time in milliseconds, as far as time is counted in nanoseconds.
pub open spec fn millis_to_time(ms: u64) -> u64 {
    if ms * 1_000_000 > u64::MAX {
        u64::MAX
    } else {
        (ms * 1_000_000) as u64
    }
}

/// The earlier of a deadline of the heartbeat and the end of the time for closing.
pub open spec fn timer_deadline(beat: Option<Deadline>, closing: Option<u64>) -> Option<u64> {
    match (beat, closing) {
        (Some(deadline), Some(at)) => if millis_to_time(deadline.time()) <= at {
            Some(millis_to_time(deadline.time()))
        } else {
            Some(at)
        },
        (Some(deadline), None) => Some(millis_to_time(deadline.time())),
        (None, closing) => closing,
    }
}

/// Whether a deadline has come.
pub open spec fn timer_due<E>(a: DriverView<E>, now: u64) -> bool {
    ||| (heartbeat::deadline_of(a.heartbeat) matches Some(deadline) && deadline.time()
        <= session::millis(now))
    ||| session::over(a.closing_deadline, now)
}

/// What becomes of a deadline that has come, or was thought to have.
///
/// A Ping that is due is sent. An overdue Pong or too long a silence ends the
/// connection with a Close, for which there is the time for closing.
pub open spec fn on_timer_spec<E: FrameWriter>(
    a: DriverView<E>,
    shared: SplitShared,
    now: u64,
    nonce: u64,
    b: DriverView<E>,
    action: DriverAction,
) -> bool {
    let s = synced(a, shared);
    let due = heartbeat::deadline_of(s.heartbeat);
    if session::over(a.closing_deadline, now) {
        b == a && action == DriverAction::Stop(TerminalCause::ConnectionClosed)
    } else if due is None || due->0.time() > session::millis(now) {
        b == s && action == DriverAction::Again
    } else if due->0 is Ping {
        let payload = octets::be_bytes(nonce as nat, 8);
        &&& b == (DriverView {
            heartbeat: heartbeat::pinged(s.heartbeat, payload),
            encoder: b.encoder,
            write: b.write,
            ..s
        })
        &&& writes_one(s.encoder, MessageView::Ping(payload), b.encoder, b.write)
        &&& action == DriverAction::Write(AfterWrite::Ping)
    } else {
        &&& b == (DriverView { encoder: b.encoder, write: b.write, ..s })
        &&& writes_one(
            s.encoder,
            session::timeout_close(a.config, due->0),
            b.encoder,
            b.write,
        )
        &&& action == DriverAction::LastWrite(
            (a.config.close_timeout * 1_000_000_000) as u64,
            halves::cause_of(session::timeout_error(due->0)),
        )
    }
}

/// Whether the output is one message that is not compressed.
pub open spec fn writes_one<E: FrameWriter>(
    before: E,
    msg: MessageView,
    after: E,
    out: Seq<u8>,
) -> bool {
    &&& before.has_written(msg, Seq::empty(), after, out, Ok(()))
    &&& framing::appended(before.endpoint(), msg, Seq::empty(), out)
}

/// What is done next.
pub open spec fn polled<E: FrameWriter>(
    a: DriverView<E>,
    shared: SplitShared,
    now: u64,
    nonce: u64,
    b: DriverView<E>,
    action: DriverAction,
) -> bool {
    let s = synced(a, shared);
    if shared.status is Closed {
        b == a && action == DriverAction::Stop(TerminalCause::ConnectionClosed)
    } else if timer_due(s, now) {
        on_timer_spec(s, shared, now, nonce, b, action)
    } else {
        b == s && action == DriverAction::Wait(
            timer_deadline(heartbeat::deadline_of(s.heartbeat), s.closing_deadline),
        )
    }
}

/// The time from now to then.
pub open spec fn time_left(until: u64, now: u64) -> u64 {
    if until > now {
        (until - now) as u64
    } else {
        0
    }
}

/// What becomes of a request of the reader.
///
/// A Ping is answered. A Close is answered unless the application has sent one,
/// and then the writer ends.
pub open spec fn on_control_spec<E: FrameWriter>(
    a: DriverView<E>,
    request: ControlView,
    now: u64,
    b: DriverView<E>,
    action: DriverAction,
) -> bool {
    match request {
        ControlView::Pong(payload, at) => {
            &&& b == (DriverView {
                heartbeat: heartbeat::heard(a.heartbeat, session::millis(at), Some(payload)),
                ..a
            })
            &&& action == DriverAction::Again
        },
        ControlView::PeerPing(payload, at) => {
            &&& b == (DriverView {
                heartbeat: heartbeat::heard(a.heartbeat, session::millis(at), None),
                write: b.write,
                ..a
            })
            &&& framing::appended(
                a.encoder.endpoint(),
                MessageView::Pong(payload),
                Seq::empty(),
                b.write,
            )
            &&& action == DriverAction::Write(AfterWrite::Control)
        },
        ControlView::PeerClose => if a.local_close_sent {
            b == closing_from(a, now) && action == DriverAction::Stop(
                TerminalCause::ConnectionClosed,
            )
        } else {
            &&& b == (DriverView { encoder: b.encoder, write: b.write, ..closing_from(a, now) })
            &&& a.encoder.has_answered_close(b.encoder)
            &&& framing::appended(
                a.encoder.endpoint(),
                MessageView::Close(a.encoder.close_reason()),
                Seq::empty(),
                b.write,
            )
            &&& action == DriverAction::LastWrite(
                time_left(closing_budget(a, now), now),
                TerminalCause::ConnectionClosed,
            )
        },
        ControlView::ReadError | ControlView::Eof => {
            &&& b == (DriverView { heartbeat: heartbeat::stopped(a.heartbeat), ..a })
            &&& action == DriverAction::Stop(TerminalCause::ConnectionClosed)
        },
    }
}

/// What becomes of a frame of the application: `out` is the frame. One that is
/// longer than what may wait is dropped, and ends the connection.
pub open spec fn queued<E>(c: DriverView<E>, out: Seq<u8>, r: Result<()>) -> (
    DriverView<E>,
    DriverAction,
) {
    match r {
        Ok(_) => if out.len() > c.config.max_backpressure {
            (
                DriverView { write: Seq::empty(), ..c },
                DriverAction::Failed(halves::cause_of(Error::BufferFull), Error::BufferFull),
            )
        } else {
            (DriverView { write: out, ..c }, DriverAction::Write(AfterWrite::Application))
        },
        Err(e) => (
            DriverView { write: out, ..c },
            DriverAction::Failed(halves::cause_of(e), e),
        ),
    }
}

/// What becomes of a message that the application sends: nothing more once the
/// connection is not open; a Close begins the closing.
pub open spec fn on_send_spec<E: FrameWriter>(
    a: DriverView<E>,
    shared: SplitShared,
    msg: MessageView,
    now: u64,
    b: DriverView<E>,
    shared_after: SplitShared,
    action: DriverAction,
) -> bool {
    if !(shared.status is Open) {
        b == a && shared_after == shared && action == DriverAction::Refuse(
            Error::ConnectionClosed,
        )
    } else {
        let c = if msg is Close {
            DriverView { local_close_sent: true, ..closing_from(a, now) }
        } else {
            a
        };
        &&& shared_after == if msg is Close {
            halves::closing(shared)
        } else {
            shared
        }
        &&& exists|out: Seq<u8>, r: Result<()>|
            {
                &&& #[trigger] a.encoder.has_written(msg, Seq::empty(), b.encoder, out, r)
                &&& (b, action) == queued(DriverView { encoder: b.encoder, ..c }, out, r)
            }
    }
}

/// What becomes of a frame that was written, or could not be.
pub open spec fn written_spec<E>(
    a: DriverView<E>,
    after: AfterWrite,
    r: Result<()>,
    now: u64,
) -> (DriverView<E>, DriverAction) {
    match (after, r) {
        (AfterWrite::Control, Ok(_)) => (a, DriverAction::Again),
        (AfterWrite::Application, Ok(_)) => (a, DriverAction::Complete),
        (AfterWrite::Ping, Ok(_)) => (
            DriverView {
                heartbeat: heartbeat::flushed(a.heartbeat, session::millis(now)),
                ..a
            },
            DriverAction::Again,
        ),
        (AfterWrite::Application, Err(e)) => (a, DriverAction::Failed(halves::cause_of(e), e)),
        (_, Err(e)) => (a, DriverAction::Stop(halves::cause_of(e))),
    }
}

/// What becomes of a request of the reader while a frame is being written; an
/// error abandons the write.
///
/// Only the latest Ping is answered, and it and a Close wait until the frame is
/// complete.
pub open spec fn write_control_spec<E>(
    a: DriverView<E>,
    request: Option<ControlView>,
    now: u64,
) -> (DriverView<E>, Result<()>) {
    match request {
        Some(ControlView::Pong(payload, at)) => (
            DriverView {
                heartbeat: heartbeat::heard(a.heartbeat, session::millis(at), Some(payload)),
                ..a
            },
            Ok(()),
        ),
        Some(ControlView::PeerPing(payload, at)) => (
            DriverView {
                heartbeat: heartbeat::heard(a.heartbeat, session::millis(at), None),
                deferred: request,
                ..a
            },
            Ok(()),
        ),
        Some(ControlView::PeerClose) | Some(ControlView::ReadError) => (
            DriverView { deferred: request, ..closing_from(a, now) },
            Ok(()),
        ),
        Some(ControlView::Eof) | None => (a, Err(Error::ConnectionClosed)),
    }
}

/// What becomes of a deadline while a frame is being written; an error
/// abandons the write.
pub open spec fn write_timer_spec<E>(a: DriverView<E>, shared: SplitShared, now: u64) -> (
    DriverView<E>,
    Result<()>,
) {
    let s = synced(a, shared);
    if session::over(a.closing_deadline, now) {
        (a, Err(Error::ConnectionClosed))
    } else {
        (
            s,
            match heartbeat::timeout_of(s.heartbeat) {
                Some(deadline) => if deadline.time() <= session::millis(now) {
                    Err(session::timeout_error(deadline))
                } else {
                    Ok(())
                },
                None => Ok(()),
            },
        )
    }
}

/// What to wait for beside a write. Once a Close or a read error waits, no
/// further request of the reader is taken.
pub open spec fn write_wait<E>(a: DriverView<E>) -> WriteWait {
    WriteWait {
        until: timer_deadline(heartbeat::timeout_of(a.heartbeat), a.closing_deadline),
        reads_control: !(a.deferred matches Some(ControlView::PeerClose) || a.deferred matches Some(
            ControlView::ReadError,
        )),
    }
}

/// The state of a driver of a connection that was just split.
pub open spec fn new_driver<E>(encoder: E, config: Config) -> DriverView<E> {
    DriverView {
        encoder,
        heartbeat: heartbeat::begun(config, 0),
        closing_deadline: None,
        local_close_sent: false,
        write: Seq::empty(),
        last_synced: 0,
        deferred: None,
        config,
    }
}

/// The sending half of a split WebSocket connection.
#[verifier::reject_recursive_types(E)]
pub struct WriterDriver<E> {
    encoder: E,
    heartbeat: Heartbeat,
    // One budget covers finishing an in-progress frame and a peer Close response.
    closing_deadline: Option<u64>,
    local_close_sent: bool,
    write_buf: BytesMut,
    last_synced_inbound_ms: u64,
    deferred_control: Option<ControlRequest>,
    config: Config,
}

impl<E> WriterDriver<E> {
    /// The state as a mathematical value.
    pub closed spec fn view(&self) -> DriverView<E> {
        DriverView {
            encoder: self.encoder,
            heartbeat: self.heartbeat@,
            closing_deadline: self.closing_deadline,
            local_close_sent: self.local_close_sent,
            write: self.write_buf@,
            last_synced: self.last_synced_inbound_ms,
            deferred: match self.deferred_control {
                Some(request) => Some(request@),
                None => None,
            },
            config: self.config,
        }
    }
}

/// How long a payload the answer to a request needs.
pub open spec fn answer_len(request: ControlView) -> nat {
    match request {
        ControlView::PeerPing(payload, _) => payload.len(),
        _ => 0,
    }
}

/// The view of a request that may be missing.
pub open spec fn request_view(request: Option<ControlRequest>) -> Option<ControlView> {
    match request {
        Some(r) => Some(r@),
        None => None,
    }
}

fn time_of_millis(ms: u64) -> (r: u64)
    ensures
        r == millis_to_time(ms),
{
    match ms.checked_mul(1_000_000) {
        Some(at) => at,
        None => u64::MAX,
    }
}

fn earlier(beat: Option<Deadline>, closing: Option<u64>) -> (r: Option<u64>)
    ensures
        r == timer_deadline(beat, closing),
{
    match (beat, closing) {
        (Some(deadline), Some(at)) => {
            let beat_at: u64 = time_of_millis(deadline.at());
            if beat_at <= at {
                Some(beat_at)
            } else {
                Some(at)
            }
        },
        (Some(deadline), None) => Some(time_of_millis(deadline.at())),
        (None, closing) => closing,
    }
}

fn is_over(deadline: Option<u64>, now: u64) -> (r: bool)
    ensures
        r == session::over(deadline, now),
{
    match deadline {
        Some(at) => now >= at,
        None => false,
    }
}

proof fn lemma_small_room(payload: nat)
    requires
        payload <= MAX_CONTROL_PAYLOAD,
    ensures
        framing::room_behind(0, payload),
{
}

impl<E: FrameWriter> WriterDriver<E> {
    /// The parts agree with each other.
    pub open spec fn wf(&self) -> bool {
        self@.encoder.valid()
    }

    /// The driver of a connection that was just split
    pub fn new(encoder: E, config: Config) -> (r: Self)
        requires
            encoder.valid(),
            buffer::allocatable(config.write_buffer_size as nat),
        ensures
            r.wf(),
            r@ == new_driver(encoder, config),
    {
        let heartbeat = Heartbeat::new(&config, 0);
        WriterDriver {
            encoder,
            heartbeat,
            closing_deadline: None,
            local_close_sent: false,
            write_buf: BytesMut::with_capacity(config.write_buffer_size),
            last_synced_inbound_ms: 0,
            deferred_control: None,
            config,
        }
    }

    /// Check if there is memory to write a payload of `len` bytes
    pub fn can_write(len: usize) -> (r: bool)
        ensures
            r ==> framing::room_behind(0, len as nat),
            !r ==> len + 64 > isize::MAX,
    {
        len <= isize::MAX as usize - 64
    }

    /// Take the output out, to write it
    pub fn take_output(&mut self) -> (r: BytesMut)
        requires
            old(self).wf(),
        ensures
            final(self).wf(),
            r@ == old(self)@.write,
            final(self)@ == (DriverView { write: Seq::empty(), ..old(self)@ }),
    {
        self.write_buf.split()
    }

    /// Take the request that had to wait
    pub fn take_deferred(&mut self) -> (r: Option<ControlRequest>)
        requires
            old(self).wf(),
        ensures
            final(self).wf(),
            request_view(r) == old(self)@.deferred,
            final(self)@ == (DriverView { deferred: None, ..old(self)@ }),
    {
        self.deferred_control.take()
    }

    /// Pick up data-frame activity published by the reader without a channel.
    fn sync(&mut self, shared: &SplitShared)
        ensures
            final(self)@ == synced(old(self)@, *shared),
    {
        let observed_inbound: u64 = shared.last_inbound_ms;
        if observed_inbound > self.last_synced_inbound_ms {
            self.last_synced_inbound_ms = observed_inbound;
            self.heartbeat.on_inbound(observed_inbound, None);
        }
    }

    fn begin_closing(&mut self, now: u64) -> (r: u64)
        ensures
            r == closing_budget(old(self)@, now),
            final(self)@ == closing_from(old(self)@, now),
    {
        self.heartbeat.stop();
        let until: u64 = match self.closing_deadline {
            Some(at) => at,
            None => now.saturating_add((self.config.close_timeout as u64) * 1_000_000_000),
        };
        self.closing_deadline = Some(until);
        until
    }

    /// Writes one control message as the whole output.
    fn write_only(&mut self, msg: Message)
        requires
            old(self).wf(),
            framing::fits_control(msg@),
            msg@ is Ping || msg@ is Close,
        ensures
            final(self).wf(),
            final(self)@ == (DriverView {
                encoder: final(self)@.encoder,
                write: final(self)@.write,
                ..old(self)@
            }),
            writes_one(
                old(self)@.encoder,
                msg@,
                final(self)@.encoder,
                final(self)@.write,
            ),
    {
        proof {
            lemma_small_room(protocol::message_payload(msg@).len());
        }
        self.write_buf.clear();
        let written = self.encoder.write_message(&msg, &mut self.write_buf);
        assert(written == Ok::<(), Error>(()));
    }

    /// A deadline has come, or was thought to have
    ///
    /// `nonce` tells the Ping that may be sent from others.
    pub fn on_timer(&mut self, shared: &SplitShared, now: u64, nonce: u64) -> (r: DriverAction)
        requires
            old(self).wf(),
        ensures
            final(self).wf(),
            on_timer_spec(old(self)@, *shared, now, nonce, final(self)@, r),
    {
        if is_over(self.closing_deadline, now) {
            return DriverAction::Stop(TerminalCause::ConnectionClosed);
        }
        // The reader can publish activity while the old timer is asleep.

        self.sync(shared);
        let now_ms: u64 = now / 1_000_000;
        let budget: u64 = (self.config.close_timeout as u64) * 1_000_000_000;
        let deadline = match self.heartbeat.next_deadline() {
            Some(deadline) => deadline,
            None => {
                return DriverAction::Again;
            },
        };
        if deadline.at() > now_ms {
            return DriverAction::Again;
        }
        match deadline {
            Deadline::Ping(_) => {
                if let Some(payload) = self.heartbeat.ping_due(now_ms, nonce) {
                    proof {
                        octets::lemma_be_bytes_len(nonce as nat, 8);
                    }
                    self.write_only(Message::Ping(payload));
                }
                DriverAction::Write(AfterWrite::Ping)
            },
            Deadline::Pong(_) => {
                let reason = bounded_close_reason(self.config.pong_timeout_close_reason.as_str());
                let code: u16 = self.config.pong_timeout_close_code;
                proof {
                    heartbeat::law_bounded_reason_fits(
                        self.config.pong_timeout_close_reason@,
                        MAX_REASON_BYTES as nat,
                    );
                    octets::lemma_be_bytes_len(code as nat, 2);
                }
                self.write_only(Message::Close(Some(CloseReason { code, reason })));
                DriverAction::LastWrite(budget, TerminalCause::HeartbeatTimeout)
            },
            Deadline::Idle(_) => {
                let reason = "Connection idle timeout".to_owned();
                let code: u16 = CloseReason::GOING_AWAY;
                proof {
                    reveal_strlit("Connection idle timeout");
                    assert(is_ascii_chars(reason@));
                    is_ascii_chars_encode_utf8(reason@);
                    octets::lemma_be_bytes_len(code as nat, 2);
                }
                self.write_only(Message::Close(Some(CloseReason { code, reason })));
                DriverAction::LastWrite(budget, TerminalCause::IdleTimeout)
            },
        }
    }

    /// Say what to wait for or to do
    pub fn poll(&mut self, shared: &SplitShared, now: u64, nonce: u64) -> (r: DriverAction)
        requires
            old(self).wf(),
        ensures
            final(self).wf(),
            polled(old(self)@, *shared, now, nonce, final(self)@, r),
    {
        if shared.status == SplitStatus::Closed {
            return DriverAction::Stop(TerminalCause::ConnectionClosed);
        }
        self.sync(shared);
        let beat = self.heartbeat.next_deadline();
        let beat_due = match beat {
            Some(deadline) => deadline.at() <= now / 1_000_000,
            None => false,
        };
        if beat_due || is_over(self.closing_deadline, now) {
            return self.on_timer(shared, now, nonce);
        }
        DriverAction::Wait(earlier(beat, self.closing_deadline))
    }

    /// A handle or a channel was dropped
    pub fn on_cancel(&self) -> (r: DriverAction)
        ensures
            r == DriverAction::Stop(TerminalCause::ConnectionClosed),
    {
        DriverAction::Stop(TerminalCause::ConnectionClosed)
    }

    /// The reader asks for something
    pub fn on_control(&mut self, request: ControlRequest, now: u64) -> (r: DriverAction)
        requires
            old(self).wf(),
            framing::room_behind(0, answer_len(request@)),
        ensures
            final(self).wf(),
            on_control_spec(old(self)@, request@, now, final(self)@, r),
    {
        match request {
            ControlRequest::Pong(payload, received_at) => {
                self.heartbeat.on_inbound(received_at / 1_000_000, Some(&payload));
                DriverAction::Again
            },
            ControlRequest::PeerPing(payload, received_at) => {
                self.heartbeat.on_inbound(received_at / 1_000_000, None);
                self.write_buf.clear();
                self.encoder.write_pong(&payload, &mut self.write_buf);
                DriverAction::Write(AfterWrite::Control)
            },
            ControlRequest::PeerClose => {
                let until = self.begin_closing(now);
                if self.local_close_sent {
                    return DriverAction::Stop(TerminalCause::ConnectionClosed);
                }
                self.write_buf.clear();
                proof {
                    lemma_small_room(MAX_CONTROL_PAYLOAD as nat);
                }
                self.encoder.answer_close(&mut self.write_buf);
                let left: u64 = if until > now {
                    until - now
                } else {
                    0
                };
                DriverAction::LastWrite(left, TerminalCause::ConnectionClosed)
            },
            ControlRequest::ReadError | ControlRequest::Eof => {
                self.heartbeat.stop();
                DriverAction::Stop(TerminalCause::ConnectionClosed)
            },
        }
    }

    /// The application asks for something
    pub fn on_application(
        &mut self,
        request: &ApplicationRequest,
        shared: &mut SplitShared,
        now: u64,
    ) -> (r: DriverAction)
        requires
            old(self).wf(),
            request matches ApplicationRequest::Send(msg) ==> framing::room_behind(
                0,
                protocol::message_payload(msg@).len(),
            ),
        ensures
            final(self).wf(),
            match request {
                ApplicationRequest::Send(msg) => on_send_spec(
                    old(self)@,
                    *old(shared),
                    msg@,
                    now,
                    final(self)@,
                    *final(shared),
                    r,
                ),
                ApplicationRequest::Flush => {
                    &&& final(self)@ == (DriverView { write: Seq::empty(), ..old(self)@ })
                    &&& *final(shared) == *old(shared)
                    &&& r == DriverAction::Write(AfterWrite::Application)
                },
            },
    {
        match request {
            ApplicationRequest::Send(message) => {
                if !shared.is_open() {
                    return DriverAction::Refuse(Error::ConnectionClosed);
                }
                if message.is_close() {
                    shared.begin_closing();
                    self.local_close_sent = true;
                    self.begin_closing(now);
                }
                self.write_buf.clear();
                let result = self.encoder.write_message(message, &mut self.write_buf);
                assert(old(self)@.encoder.has_written(
                    message@,
                    Seq::empty(),
                    self@.encoder,
                    self@.write,
                    result,
                ));
                match result {
                    Ok(()) => {
                        if self.write_buf.len() > self.config.max_backpressure {
                            self.write_buf.clear();
                            return DriverAction::Failed(
                                TerminalCause::from_error(&Error::BufferFull),
                                Error::BufferFull,
                            );
                        }
                        DriverAction::Write(AfterWrite::Application)
                    },
                    Err(e) => DriverAction::Failed(TerminalCause::from_error(&e), e),
                }
            },
            ApplicationRequest::Flush => {
                self.write_buf.clear();
                DriverAction::Write(AfterWrite::Application)
            },
        }
    }

    /// Report what came of a write
    pub fn written(&mut self, after: AfterWrite, r: Result<()>, now: u64) -> (action: DriverAction)
        requires
            old(self).wf(),
        ensures
            final(self).wf(),
            (final(self)@, action) == written_spec(old(self)@, after, r, now),
    {
        match r {
            Ok(()) => match after {
                AfterWrite::Control => DriverAction::Again,
                AfterWrite::Application => DriverAction::Complete,
                AfterWrite::Ping => {
                    self.heartbeat.ping_flushed(now / 1_000_000);
                    DriverAction::Again
                },
            },
            Err(e) => {
                let cause = TerminalCause::from_error(&e);
                match after {
                    AfterWrite::Application => DriverAction::Failed(cause, e),
                    _ => DriverAction::Stop(cause),
                }
            },
        }
    }

    /// Say what to wait for beside a write
    pub fn writing(&mut self, shared: &SplitShared) -> (r: WriteWait)
        requires
            old(self).wf(),
        ensures
            final(self).wf(),
            final(self)@ == synced(old(self)@, *shared),
            r == write_wait(final(self)@),
    {
        self.sync(shared);
        let reads_control = match &self.deferred_control {
            Some(ControlRequest::PeerClose) | Some(ControlRequest::ReadError) => false,
            _ => true,
        };
        WriteWait {
            until: earlier(self.heartbeat.next_timeout(), self.closing_deadline),
            reads_control,
        }
    }

    /// The reader asks for something while a frame is being written, or its
    /// channel has closed; an error abandons the write
    pub fn write_control(&mut self, request: Option<ControlRequest>, now: u64) -> (r: Result<()>)
        requires
            old(self).wf(),
        ensures
            final(self).wf(),
            (final(self)@, r) == write_control_spec(old(self)@, request_view(request), now),
    {
        match request {
            Some(ControlRequest::Pong(payload, received_at)) => {
                self.heartbeat.on_inbound(received_at / 1_000_000, Some(&payload));
                Ok(())
            },
            Some(ControlRequest::PeerPing(payload, received_at)) => {
                self.heartbeat.on_inbound(received_at / 1_000_000, None);
                // RFC 6455 permits replying only to the latest queued Ping.
                // Defer it until the current frame is complete.
                self.deferred_control = Some(ControlRequest::PeerPing(payload, received_at));
                Ok(())
            },
            Some(ControlRequest::PeerClose) => {
                self.begin_closing(now);
                self.deferred_control = Some(ControlRequest::PeerClose);
                Ok(())
            },
            Some(ControlRequest::ReadError) => {
                self.begin_closing(now);
                self.deferred_control = Some(ControlRequest::ReadError);
                Ok(())
            },
            Some(ControlRequest::Eof) | None => Err(Error::ConnectionClosed),
        }
    }

    /// A deadline has come while a frame is being written, or was thought to
    /// have; an error abandons the write
    pub fn write_timer(&mut self, shared: &SplitShared, now: u64) -> (r: Result<()>)
        requires
            old(self).wf(),
        ensures
            final(self).wf(),
            (final(self)@, r) == write_timer_spec(old(self)@, *shared, now),
    {
        if is_over(self.closing_deadline, now) {
            return Err(Error::ConnectionClosed);
        }
        self.sync(shared);
        let now_ms: u64 = now / 1_000_000;
        match self.heartbeat.next_timeout() {
            Some(Deadline::Pong(at)) if at <= now_ms => Err(Error::HeartbeatTimeout),
            Some(Deadline::Idle(at)) if at <= now_ms => Err(Error::IdleTimeout),
            _ => Ok(()),
        }
    }
}

// ---------------------------------------------------------------------------
// What the writer promises
// ---------------------------------------------------------------------------

/// A driver ends as soon as the connection has.
pub proof fn law_driver_ends_with_connection<E: FrameWriter>(
    a: DriverView<E>,
    shared: SplitShared,
    now: u64,
    nonce: u64,
    b: DriverView<E>,
    action: DriverAction,
)
    requires
        shared.status is Closed,
        polled(a, shared, now, nonce, b, action),
    ensures
        action == DriverAction::Stop(TerminalCause::ConnectionClosed),
{
}

/// A Ping of the peer is answered with its payload, without the application.
pub proof fn law_peer_ping_is_answered<E: FrameWriter>(
    a: DriverView<E>,
    payload: Seq<u8>,
    at: u64,
    now: u64,
    b: DriverView<E>,
    action: DriverAction,
)
    requires
        on_control_spec(a, ControlView::PeerPing(payload, at), now, b, action),
    ensures
        framing::appended(
            a.encoder.endpoint(),
            MessageView::Pong(payload),
            Seq::empty(),
            b.write,
        ),
        action == DriverAction::Write(AfterWrite::Control),
{
}

/// The peer's Close is answered exactly if the application has sent none, and
/// ends the writer either way.
pub proof fn law_peer_close_ends_writer<E: FrameWriter>(
    a: DriverView<E>,
    now: u64,
    b: DriverView<E>,
    action: DriverAction,
)
    requires
        on_control_spec(a, ControlView::PeerClose, now, b, action),
    ensures
        a.local_close_sent ==> action == DriverAction::Stop(TerminalCause::ConnectionClosed),
        !a.local_close_sent ==> action is LastWrite && framing::appended(
            a.encoder.endpoint(),
            MessageView::Close(a.encoder.close_reason()),
            Seq::empty(),
            b.write,
        ),
        heartbeat::deadline_of(b.heartbeat) is None,
{
}

/// A deadline that has come while a frame is being written is not lost: the
/// write is abandoned with the error of the deadline.
pub proof fn law_deadline_interrupts_write<E>(a: DriverView<E>, shared: SplitShared, now: u64)
    requires
        !session::over(a.closing_deadline, now),
        heartbeat::timeout_of(synced(a, shared).heartbeat) matches Some(deadline)
            && deadline.time() <= session::millis(now),
    ensures
        write_timer_spec(a, shared, now).1 == Err::<(), Error>(
            session::timeout_error(heartbeat::timeout_of(synced(a, shared).heartbeat)->0),
        ),
{
}

/// A Close of the peer that comes while a frame is being written is kept, and
/// bounds the write by the time for closing; nothing of the reader is taken
/// before it is dealt with.
pub proof fn law_close_waits_for_frame<E>(a: DriverView<E>, now: u64)
    ensures
        ({
            let (b, r) = write_control_spec(a, Some(ControlView::PeerClose), now);
            &&& r is Ok
            &&& b.deferred == Some(ControlView::PeerClose)
            &&& b.closing_deadline == Some(closing_budget(a, now))
            &&& !write_wait(b).reads_control
            &&& write_wait(b).until == Some(closing_budget(a, now))
        }),
{
}

/// Once the application has sent a Close, or the connection is closing for
/// another reason, it can send nothing more.
pub proof fn law_nothing_is_sent_after_close<E: FrameWriter>(
    a: DriverView<E>,
    shared: SplitShared,
    msg: MessageView,
    now: u64,
    b: DriverView<E>,
    shared_after: SplitShared,
    action: DriverAction,
)
    requires
        on_send_spec(a, shared, msg, now, b, shared_after, action),
    ensures
        !(shared.status is Open) ==> action == DriverAction::Refuse(Error::ConnectionClosed)
            && b.write == a.write,
        msg is Close ==> !(shared_after.status is Open),
{
}

/// No frame of the application is written that is longer than what may wait.
pub proof fn law_backpressure_is_bounded<E: FrameWriter>(
    a: DriverView<E>,
    shared: SplitShared,
    msg: MessageView,
    now: u64,
    b: DriverView<E>,
    shared_after: SplitShared,
    action: DriverAction,
)
    requires
        on_send_spec(a, shared, msg, now, b, shared_after, action),
    ensures
        action is Write ==> b.write.len() <= a.config.max_backpressure,
{
}

/// The writer never waits longer than until its next deadline, and a deadline
/// that has come is dealt with before any request.
pub proof fn law_wait_ends_at_next_deadline<E: FrameWriter>(
    a: DriverView<E>,
    shared: SplitShared,
    now: u64,
    nonce: u64,
    b: DriverView<E>,
    until: Option<u64>,
)
    requires
        polled(a, shared, now, nonce, b, DriverAction::Wait(until)),
    ensures
        !timer_due(b, now),
        b.closing_deadline matches Some(at) ==> until matches Some(t) && t <= at,
        heartbeat::deadline_of(b.heartbeat) matches Some(deadline) ==> until matches Some(t) && t
            <= millis_to_time(deadline.time()),
{
}

} // verus!
