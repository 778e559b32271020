//! Native WebSocket heartbeat state, independent of any runtime.
//!
//! Times are milliseconds of one clock that never runs back; the caller reads
//! the clock and draws the nonces that tell one Ping from another.
use crate::buffer::BufferView;
use crate::config::Config;
use crate::octets;
use crate::octets::u64_to_be;
use crate::strings;
use bytes::Bytes;
use vstd::prelude::*;
use vstd::string::StringSliceAdditionalSpecFns;
use vstd::utf8::*;

verus! {

/// What the heartbeat waits for, and until when.
#[derive(Debug, Clone, Copy, PartialEq, Eq, Structural)]
pub enum Deadline {
    /// The Pong that answers the outstanding Ping is overdue
    Pong(u64),
    /// The peer has been silent for too long
    Idle(u64),
    /// A Ping is due
    Ping(u64),
}

impl Deadline {
    /// The time of the deadline.
    pub open spec fn time(self) -> u64 {
        match self {
            Deadline::Pong(at) => at,
            Deadline::Idle(at) => at,
            Deadline::Ping(at) => at,
        }
    }

    /// When it falls due.
    pub fn at(self) -> (r: u64)
        ensures
            r == self.time(),
    {
        match self {
            Deadline::Pong(at) => at,
            Deadline::Idle(at) => at,
            Deadline::Ping(at) => at,
        }
    }
}

/// A Ping that has not been answered.
#[derive(Debug)]
struct OutstandingPing {
    payload: Bytes,
    deadline_ms: Option<u64>,
    flushed: bool,
    // An acknowledgement can arrive after the write but before flush completes.
    acknowledged: bool,
}

/// A Ping that has not been answered, as a mathematical value.
#[verifier::ext_equal]
pub struct PingView {
    /// What the Ping carries
    pub payload: Seq<u8>,
    /// When its Pong is overdue, if it ever is
    pub deadline: Option<u64>,
    /// Whether it has left
    pub flushed: bool,
    /// Whether its Pong came before it was known to have left
    pub acknowledged: bool,
}

impl OutstandingPing {
    spec fn view(&self) -> PingView {
        PingView {
            payload: self.payload@,
            deadline: self.deadline_ms,
            flushed: self.flushed,
            acknowledged: self.acknowledged,
        }
    }
}

/// Heartbeat state of one connection.
#[derive(Debug)]
pub struct Heartbeat {
    auto_ping: bool,
    ping_interval_ms: u64,
    idle_timeout_ms: u64,
    pong_timeout_ms: u64,
    last_inbound_ms: u64,
    outstanding: Option<OutstandingPing>,
    stopped: bool,
}

/// Heartbeat state as a mathematical value.
#[verifier::ext_equal]
pub struct HeartbeatView {
    /// Whether Pings are sent at all
    pub auto_ping: bool,
    /// Silence before a Ping
    pub ping_interval: u64,
    /// Silence before the connection is given up, 0 for never
    pub idle_timeout: u64,
    /// Time that a Pong may take, 0 for any
    pub pong_timeout: u64,
    /// When the peer was last heard
    pub last_inbound: u64,
    /// The Ping that has not been answered
    pub outstanding: Option<PingView>,
    /// Whether the heartbeat has ended
    pub stopped: bool,
}

/// The time a while later, as far as time is counted.
pub open spec fn later(at: u64, while_ms: u64) -> u64 {
    if at + while_ms > u64::MAX {
        u64::MAX
    } else {
        (at + while_ms) as u64
    }
}

/// The heartbeat of a connection that begins now.
pub open spec fn begun(config: Config, now: u64) -> HeartbeatView {
    HeartbeatView {
        auto_ping: config.auto_ping && config.ping_interval != 0,
        ping_interval: (config.ping_interval * 1000) as u64,
        idle_timeout: (config.idle_timeout * 1000) as u64,
        pong_timeout: (config.pong_timeout * 1000) as u64,
        last_inbound: now,
        outstanding: None,
        stopped: false,
    }
}

/// When the Pong is overdue, if it ever is.
pub open spec fn pong_deadline(h: HeartbeatView) -> Option<u64> {
    match h.outstanding {
        Some(ping) => ping.deadline,
        None => None,
    }
}

/// When the peer has been silent for too long, if it ever has.
pub open spec fn idle_deadline(h: HeartbeatView) -> Option<u64> {
    if h.idle_timeout != 0 {
        Some(later(h.last_inbound, h.idle_timeout))
    } else {
        None
    }
}

/// When the next Ping is due, if any is: none while one is outstanding.
pub open spec fn ping_deadline(h: HeartbeatView) -> Option<u64> {
    if h.auto_ping && h.outstanding is None {
        Some(later(h.last_inbound, h.ping_interval))
    } else {
        None
    }
}

/// The earliest of the deadlines that end the connection. The Pong wins a tie.
pub open spec fn timeout_of(h: HeartbeatView) -> Option<Deadline> {
    if h.stopped {
        None
    } else {
        match (pong_deadline(h), idle_deadline(h)) {
            (Some(pong), Some(idle)) => if idle < pong {
                Some(Deadline::Idle(idle))
            } else {
                Some(Deadline::Pong(pong))
            },
            (Some(pong), None) => Some(Deadline::Pong(pong)),
            (None, Some(idle)) => Some(Deadline::Idle(idle)),
            (None, None) => None,
        }
    }
}

/// What falls due next: the earliest of all the deadlines. One that ends the
/// connection wins a tie with the next Ping.
pub open spec fn deadline_of(h: HeartbeatView) -> Option<Deadline> {
    if h.stopped {
        None
    } else {
        match (timeout_of(h), ping_deadline(h)) {
            (Some(timeout), Some(ping)) => if timeout.time() <= ping {
                Some(timeout)
            } else {
                Some(Deadline::Ping(ping))
            },
            (Some(timeout), None) => Some(timeout),
            (None, Some(ping)) => Some(Deadline::Ping(ping)),
            (None, None) => None,
        }
    }
}

/// What falls due next while a Pong is waited for until then: silence, if that
/// is sooner.
pub open spec fn pong_or_silence(pong: u64, idle: Option<u64>) -> Deadline {
    match idle {
        Some(idle) if idle < pong => Deadline::Idle(idle),
        _ => Deadline::Pong(pong),
    }
}

/// Whether some deadline depends on when the peer was last heard.
pub open spec fn tracks_activity(h: HeartbeatView) -> bool {
    h.auto_ping || h.idle_timeout != 0
}

/// The heartbeat after it has ended.
pub open spec fn stopped(h: HeartbeatView) -> HeartbeatView {
    HeartbeatView { stopped: true, outstanding: None, ..h }
}

/// Whether a Ping is due by now.
pub open spec fn is_ping_due(h: HeartbeatView, now: u64) -> bool {
    deadline_of(h) matches Some(Deadline::Ping(at)) && at <= now
}

/// The heartbeat after a Ping with this payload was handed out.
pub open spec fn pinged(h: HeartbeatView, payload: Seq<u8>) -> HeartbeatView {
    HeartbeatView {
        outstanding: Some(
            PingView { payload, deadline: None, flushed: false, acknowledged: false },
        ),
        ..h
    }
}

/// The heartbeat after what was written has left. The wait for the Pong begins
/// here, unless the Pong is there already.
pub open spec fn flushed(h: HeartbeatView, now: u64) -> HeartbeatView {
    match h.outstanding {
        Some(ping) => if ping.flushed {
            h
        } else if ping.acknowledged {
            HeartbeatView { outstanding: None, ..h }
        } else {
            HeartbeatView {
                outstanding: Some(
                    PingView {
                        flushed: true,
                        deadline: if h.pong_timeout != 0 {
                            Some(later(now, h.pong_timeout))
                        } else {
                            None
                        },
                        ..ping
                    },
                ),
                ..h
            }
        },
        None => h,
    }
}

/// Whether a frame carries the Pong that is waited for.
pub open spec fn carries_pong(h: HeartbeatView, pong: Option<Seq<u8>>) -> bool {
    h.outstanding is Some && pong == Some(h.outstanding->0.payload)
}

/// Whether a frame answers the outstanding Ping: its Pong, after the Ping has
/// left and before the Pong is overdue.
pub open spec fn answers(h: HeartbeatView, now: u64, pong: Option<Seq<u8>>) -> bool {
    &&& !h.stopped
    &&& carries_pong(h, pong)
    &&& h.outstanding->0.flushed
    &&& h.outstanding->0.deadline matches Some(deadline) ==> now < deadline
}

/// The heartbeat after a frame was heard.
pub open spec fn heard(h: HeartbeatView, now: u64, pong: Option<Seq<u8>>) -> HeartbeatView {
    if h.stopped {
        h
    } else {
        HeartbeatView {
            last_inbound: if h.last_inbound < now {
                now
            } else {
                h.last_inbound
            },
            outstanding: if answers(h, now, pong) {
                None
            } else if carries_pong(h, pong) && !h.outstanding->0.flushed {
                Some(PingView { acknowledged: true, ..h.outstanding->0 })
            } else {
                h.outstanding
            },
            ..h
        }
    }
}

fn seconds_ms(seconds: u32) -> (r: u64)
    ensures
        r == seconds * 1000,
{
    (seconds as u64) * 1000
}

fn max(a: u64, b: u64) -> (r: u64)
    ensures
        r == (if a < b {
            b
        } else {
            a
        }),
{
    if a < b {
        b
    } else {
        a
    }
}

fn equal_bytes(a: &[u8], b: &[u8]) -> (r: bool)
    ensures
        r == (a@ == b@),
{
    if a.len() != b.len() {
        return false;
    }
    let mut i: usize = 0;
    while i < a.len()
        invariant
            i <= a@.len() == b@.len(),
            a@.take(i as int) == b@.take(i as int),
        decreases a@.len() - i,
    {
        if a[i] != b[i] {
            return false;
        }
        i = i + 1;
        assert(a@.take(i as int) =~= a@.take(i - 1).push(a@[i - 1]));
        assert(b@.take(i as int) =~= b@.take(i - 1).push(b@[i - 1]));
    }
    assert(a@.take(i as int) =~= a@);
    assert(b@.take(i as int) =~= b@);
    true
}

/// The bytes of an optional payload.
pub open spec fn payload_of(pong: Option<&Bytes>) -> Option<Seq<u8>> {
    match pong {
        Some(payload) => Some(payload@),
        None => None,
    }
}

impl Heartbeat {
    /// The state as a mathematical value.
    pub closed spec fn view(&self) -> HeartbeatView {
        HeartbeatView {
            auto_ping: self.auto_ping,
            ping_interval: self.ping_interval_ms,
            idle_timeout: self.idle_timeout_ms,
            pong_timeout: self.pong_timeout_ms,
            last_inbound: self.last_inbound_ms,
            outstanding: match self.outstanding {
                Some(ping) => Some(ping@),
                None => None,
            },
            stopped: self.stopped,
        }
    }

    /// The heartbeat of a connection that begins now
    pub fn new(config: &Config, now_ms: u64) -> (r: Self)
        ensures
            r@ == begun(*config, now_ms),
    {
        Heartbeat {
            auto_ping: config.auto_ping && config.ping_interval != 0,
            ping_interval_ms: seconds_ms(config.ping_interval),
            idle_timeout_ms: seconds_ms(config.idle_timeout),
            pong_timeout_ms: seconds_ms(config.pong_timeout),
            last_inbound_ms: now_ms,
            outstanding: None,
            stopped: false,
        }
    }

    fn pong_at(&self) -> (r: Option<u64>)
        ensures
            r == pong_deadline(self@),
    {
        match &self.outstanding {
            Some(ping) => ping.deadline_ms,
            None => None,
        }
    }

    fn idle_at(&self) -> (r: Option<u64>)
        ensures
            r == idle_deadline(self@),
    {
        if self.idle_timeout_ms != 0 {
            Some(self.last_inbound_ms.saturating_add(self.idle_timeout_ms))
        } else {
            None
        }
    }

    fn ping_at(&self) -> (r: Option<u64>)
        ensures
            r == ping_deadline(self@),
    {
        if self.auto_ping && self.outstanding.is_none() {
            Some(self.last_inbound_ms.saturating_add(self.ping_interval_ms))
        } else {
            None
        }
    }

    /// What falls due next
    pub fn next_deadline(&self) -> (r: Option<Deadline>)
        ensures
            r == deadline_of(self@),
    {
        if self.stopped {
            return None;
        }
        match (self.next_timeout(), self.ping_at()) {
            (Some(timeout), Some(ping)) => if timeout.at() <= ping {
                Some(timeout)
            } else {
                Some(Deadline::Ping(ping))
            },
            (Some(timeout), None) => Some(timeout),
            (None, Some(ping)) => Some(Deadline::Ping(ping)),
            (None, None) => None,
        }
    }

    /// Earliest hard timeout, excluding the next automatic Ping.
    pub fn next_timeout(&self) -> (r: Option<Deadline>)
        ensures
            r == timeout_of(self@),
    {
        if self.stopped {
            return None;
        }
        // A Pong timeout deliberately wins ties with the hard idle timeout.
        match (self.pong_at(), self.idle_at()) {
            (Some(pong), Some(idle)) => if idle < pong {
                Some(Deadline::Idle(idle))
            } else {
                Some(Deadline::Pong(pong))
            },
            (Some(pong), None) => Some(Deadline::Pong(pong)),
            (None, Some(idle)) => Some(Deadline::Idle(idle)),
            (None, None) => None,
        }
    }

    /// The payload of the Ping that is due, which carries `nonce`
    pub fn ping_due(&mut self, now_ms: u64, nonce: u64) -> (r: Option<Bytes>)
        ensures
            is_ping_due(old(self)@, now_ms) ==> r is Some && r->0@ == octets::be_bytes(
                nonce as nat,
                8,
            ) && final(self)@ == pinged(old(self)@, r->0@),
            !is_ping_due(old(self)@, now_ms) ==> r is None && final(self)@ == old(self)@,
    {
        match self.next_deadline() {
            Some(Deadline::Ping(at)) => if at > now_ms {
                return None;
            },
            _ => {
                return None;
            },
        }
        let nonce_bytes = u64_to_be(nonce);
        let payload = Bytes::copy_from_slice(&nonce_bytes);
        self.outstanding = Some(
            OutstandingPing {
                payload: payload.clone(),
                deadline_ms: None,
                flushed: false,
                acknowledged: false,
            },
        );
        Some(payload)
    }

    /// What was written has left
    pub fn ping_flushed(&mut self, now_ms: u64)
        ensures
            final(self)@ == flushed(old(self)@, now_ms),
    {
        let pong_timeout_ms: u64 = self.pong_timeout_ms;
        let mut answered: bool = false;
        if let Some(ping) = &mut self.outstanding {
            if !ping.flushed {
                if ping.acknowledged {
                    answered = true;
                } else {
                    ping.flushed = true;
                    ping.deadline_ms =
                    if pong_timeout_ms != 0 {
                        Some(now_ms.saturating_add(pong_timeout_ms))
                    } else {
                        None
                    };
                }
            }
        }
        if answered {
            self.outstanding = None;
        }
    }

    /// Record a decoded inbound frame.
    ///
    /// Every valid inbound frame resets inactivity. Only the exact Pong for the
    /// currently outstanding, successfully flushed Ping clears its deadline.
    /// An earlier matching Pong is retained until that Ping finishes flushing.
    pub fn on_inbound(&mut self, now_ms: u64, pong: Option<&Bytes>) -> (r: bool)
        ensures
            r == answers(old(self)@, now_ms, payload_of(pong)),
            final(self)@ == heard(old(self)@, now_ms, payload_of(pong)),
    {
        if self.stopped {
            return false;
        }
        // Shared data activity and queued control frames can arrive out of order.
        self.last_inbound_ms = max(self.last_inbound_ms, now_ms);
        let mut matched: bool = false;
        if let Some(ping) = &mut self.outstanding {
            let matching_payload = match pong {
                Some(payload) => equal_bytes(payload, &ping.payload),
                None => false,
            };
            if matching_payload && !ping.flushed {
                ping.acknowledged = true;
            }
            let in_time = match ping.deadline_ms {
                Some(deadline) => now_ms < deadline,
                None => true,
            };
            matched = matching_payload && ping.flushed && in_time;
        }
        if matched {
            self.outstanding = None;
        }
        matched
    }

    /// Check if it matters when the peer is heard
    pub fn tracks_inbound_activity(&self) -> (r: bool)
        ensures
            r == tracks_activity(self@),
    {
        self.auto_ping || self.idle_timeout_ms != 0
    }

    /// End the heartbeat
    pub fn stop(&mut self)
        ensures
            final(self)@ == stopped(old(self)@),
    {
        self.stopped = true;
        self.outstanding = None;
    }

    /// Whether a Ping has not been answered
    pub fn has_outstanding_ping(&self) -> (r: bool)
        ensures
            r == (self@.outstanding is Some),
    {
        self.outstanding.is_some()
    }
}

/// The longest reason that a Close frame can carry, in bytes.
pub const MAX_REASON_BYTES: usize = 123;

/// A text without as many of its last characters as it takes to encode it in
/// `max` bytes.
pub open spec fn bounded(text: Seq<char>, max: nat) -> Seq<char>
    decreases text.len(),
{
    if encode_utf8(text).len() <= max || text.len() == 0 {
        text
    } else {
        bounded(text.drop_last(), max)
    }
}

/// The part of a text up to where it no longer fits is what is left of it.
proof fn lemma_bounded(text: Seq<char>, n: int, max: nat)
    requires
        0 <= n <= text.len(),
        encode_utf8(text.take(n)).len() <= max,
        n < text.len() ==> encode_utf8(text.take(n + 1)).len() > max,
    ensures
        bounded(text, max) == text.take(n),
    decreases text.len(),
{
    if n == text.len() {
        assert(text.take(n) =~= text);
    } else {
        assert(text =~= text.take(n + 1) + text.skip(n + 1));
        strings::lemma_encode_concat(text.take(n + 1), text.skip(n + 1));
        let shorter = text.drop_last();
        assert(shorter.take(n) =~= text.take(n));
        if n < shorter.len() {
            assert(shorter.take(n + 1) =~= text.take(n + 1));
        }
        lemma_bounded(shorter, n, max);
    }
}

/// The encoding of a text has a boundary behind each of its characters.
proof fn lemma_boundary_behind(text: Seq<char>, n: int)
    requires
        0 <= n <= text.len(),
    ensures
        is_char_boundary(encode_utf8(text), encode_utf8(text.take(n)).len() as int),
        encode_utf8(text.take(n)).len() <= encode_utf8(text).len(),
{
    let front = text.take(n);
    let rest = text.skip(n);
    assert(text =~= front + rest);
    strings::lemma_encode_concat(front, rest);
    encode_utf8_valid_utf8(text);
    encode_utf8_valid_utf8(rest);
    let at = encode_utf8(front).len() as int;
    is_char_boundary_start_end_of_seq(encode_utf8(text));
    if at < encode_utf8(text).len() {
        is_char_boundary_start_end_of_seq(encode_utf8(rest));
        is_char_boundary_iff_not_is_continuation_byte(encode_utf8(rest), 0);
        is_char_boundary_iff_not_is_continuation_byte(encode_utf8(text), at);
        assert(encode_utf8(text)[at] == encode_utf8(rest)[0]);
    }
}

proof fn lemma_cut(text: Seq<char>, head: Seq<char>, end: int, max: nat)
    requires
        0 <= end <= max < encode_utf8(text).len(),
        is_char_boundary(encode_utf8(text), end),
        forall|i: int| end < i <= max ==> !is_char_boundary(encode_utf8(text), i),
        encode_utf8(head) == encode_utf8(text).subrange(0, end),
    ensures
        head == bounded(text, max),
{
    encode_utf8_valid_utf8(text);
    decode_utf8_split(encode_utf8(text), end);
    encode_utf8_decode_utf8(text);
    encode_utf8_decode_utf8(head);
    let n = head.len() as int;
    assert(text.take(n) =~= head);
    assert(n < text.len()) by {
        if n >= text.len() {
            assert(text =~= head);
        }
    }
    let longer = text.take(n + 1);
    lemma_boundary_behind(text, n + 1);
    assert(longer =~= head + seq![text[n]]);
    strings::lemma_encode_concat(head, seq![text[n]]);
    assert(encode_utf8(seq![text[n]]).len() > 0);
    lemma_bounded(text, n, max);
}

/// A Close reason cut to what a Close frame can carry, between characters
pub fn bounded_close_reason(reason: &str) -> (r: String)
    ensures
        r@ == bounded(reason@, MAX_REASON_BYTES as nat),
{
    if reason.as_bytes().len() <= MAX_REASON_BYTES {
        return reason.to_owned();
    }
    let mut end: usize = MAX_REASON_BYTES;
    proof {
        encode_utf8_valid_utf8(reason@);
        is_char_boundary_start_end_of_seq(reason.spec_bytes());
    }
    while !reason.is_char_boundary(end)
        invariant
            end <= MAX_REASON_BYTES,
            is_char_boundary(reason.spec_bytes(), 0),
            forall|i: int|
                end < i <= MAX_REASON_BYTES ==> !is_char_boundary(reason.spec_bytes(), i),
        decreases end,
    {
        end = end - 1;
    }
    let (head, _rest) = reason.split_at(end);
    proof {
        lemma_cut(reason@, head@, end as int, MAX_REASON_BYTES as nat);
    }
    head.to_owned()
}

/// A bounded reason fits, and is the start of the whole reason.
pub proof fn law_bounded_reason_fits(text: Seq<char>, max: nat)
    ensures
        encode_utf8(bounded(text, max)).len() <= max,
        bounded(text, max) == text.take(bounded(text, max).len() as int),
        bounded(text, max).len() <= text.len(),
        encode_utf8(text).len() <= max ==> bounded(text, max) == text,
    decreases text.len(),
{
    if encode_utf8(text).len() <= max || text.len() == 0 {
        assert(text.take(text.len() as int) =~= text);
    } else {
        law_bounded_reason_fits(text.drop_last(), max);
        let shorter = text.drop_last();
        let n = bounded(text, max).len() as int;
        assert(shorter.take(n) =~= text.take(n));
    }
}

/// The Pong of the outstanding Ping ends the wait for it, if it comes after
/// the Ping has left and in time. The next deadline is then counted from when
/// the peer was last heard.
pub proof fn law_matching_pong_ends_wait(h: HeartbeatView, now: u64)
    requires
        !h.stopped,
        h.outstanding is Some,
        h.outstanding->0.flushed,
        h.outstanding->0.deadline matches Some(deadline) ==> now < deadline,
    ensures
        answers(h, now, Some(h.outstanding->0.payload)),
        heard(h, now, Some(h.outstanding->0.payload)).outstanding is None,
        !(deadline_of(heard(h, now, Some(h.outstanding->0.payload))) matches Some(Deadline::Pong(_))),
{
}

/// Other frames put off silence but not the Pong that is waited for.
pub proof fn law_traffic_keeps_pong_deadline(h: HeartbeatView, now: u64, pong: Option<Seq<u8>>)
    requires
        !carries_pong(h, pong),
    ensures
        !answers(h, now, pong),
        heard(h, now, pong).outstanding == h.outstanding,
        pong_deadline(heard(h, now, pong)) == pong_deadline(h),
        !h.stopped && pong_deadline(h) is Some ==> deadline_of(heard(h, now, pong)) == Some(
            pong_or_silence(pong_deadline(h)->0, idle_deadline(heard(h, now, pong))),
        ),
        !h.stopped ==> heard(h, now, pong).last_inbound >= now,
{
}

/// A Pong that comes before its Ping is known to have left is kept: once the
/// Ping has left, nothing is waited for.
pub proof fn law_early_pong_is_kept(h: HeartbeatView, heard_at: u64, flushed_at: u64)
    requires
        !h.stopped,
        h.outstanding is Some,
        !h.outstanding->0.flushed,
    ensures
        !answers(h, heard_at, Some(h.outstanding->0.payload)),
        flushed(
            heard(h, heard_at, Some(h.outstanding->0.payload)),
            flushed_at,
        ).outstanding is None,
{
}

/// A Pong that is overdue does not end the wait.
pub proof fn law_late_pong_does_not_match(h: HeartbeatView, now: u64, pong: Option<Seq<u8>>)
    requires
        pong_deadline(h) matches Some(deadline) && deadline <= now,
    ensures
        !answers(h, now, pong),
        heard(h, now, pong).outstanding is Some,
        pong_deadline(heard(h, now, pong)) == pong_deadline(h),
{
}

/// Inactivity never moves backwards, in whatever order frames are heard.
pub proof fn law_inactivity_never_moves_back(h: HeartbeatView, now: u64, pong: Option<Seq<u8>>)
    ensures
        heard(h, now, pong).last_inbound >= h.last_inbound,
{
}

/// At most one Ping is outstanding, however late it gets.
pub proof fn law_one_ping_at_a_time(h: HeartbeatView, now: u64)
    requires
        h.outstanding is Some,
    ensures
        !is_ping_due(h, now),
{
}

/// The wait for a Pong begins when its Ping has left, and where there is no
/// time limit there is no deadline, but still no second Ping.
pub proof fn law_wait_begins_at_flush(h: HeartbeatView, sent: u64, payload: Seq<u8>, now: u64)
    requires
        is_ping_due(h, sent),
    ensures
        pong_deadline(pinged(h, payload)) is None,
        h.pong_timeout != 0 ==> pong_deadline(flushed(pinged(h, payload), now)) == Some(
            later(now, h.pong_timeout),
        ),
        h.pong_timeout != 0 ==> deadline_of(flushed(pinged(h, payload), now)) == Some(
            pong_or_silence(later(now, h.pong_timeout), idle_deadline(h)),
        ),
        h.pong_timeout == 0 ==> pong_deadline(flushed(pinged(h, payload), now)) is None && flushed(
            pinged(h, payload),
            now,
        ).outstanding is Some,
{
}

/// A Ping that is due is no hard timeout; whatever else falls due next is one,
/// and the sooner of Pong and silence comes first. The Pong wins a tie.
pub proof fn law_timeouts_leave_out_pings(h: HeartbeatView)
    ensures
        !(timeout_of(h) matches Some(Deadline::Ping(_))),
        !(deadline_of(h) matches Some(Deadline::Ping(_))) ==> timeout_of(h) == deadline_of(h),
        !h.stopped && pong_deadline(h) is Some ==> timeout_of(h) == Some(
            pong_or_silence(pong_deadline(h)->0, idle_deadline(h)),
        ) && deadline_of(h) == timeout_of(h),
        deadline_of(h) is None ==> timeout_of(h) is None,
{
}

/// A heartbeat that has ended asks for nothing and hears nothing.
pub proof fn law_stopped_heartbeat_is_silent(h: HeartbeatView, now: u64, pong: Option<Seq<u8>>)
    requires
        h.stopped,
    ensures
        deadline_of(h) is None,
        timeout_of(h) is None,
        !is_ping_due(h, now),
        !answers(h, now, pong),
        heard(h, now, pong) == h,
{
}

} // verus!
