//! When the heartbeat asks for something, and for what, in plain terms.
use crate::config::Config;
use crate::heartbeat;
use crate::heartbeat::{Deadline, HeartbeatView};
use vstd::prelude::*;
use vstd::utf8::*;

verus! {

/// A time some milliseconds after another, or the last one that is counted.
pub open spec fn plus(at: u64, ms: u64) -> int {
    if at + ms <= u64::MAX {
        at + ms
    } else {
        u64::MAX as int
    }
}

/// Whether this is a deadline that is waited for: the Pong of a Ping that has
/// left, silence for as long as the peer may be silent, or the time for the
/// next Ping where none is outstanding.
pub open spec fn waited_for(h: HeartbeatView, d: Deadline) -> bool {
    match d {
        Deadline::Pong(at) => h.outstanding is Some && h.outstanding->0.deadline == Some(at),
        Deadline::Idle(at) => h.idle_timeout != 0 && at == plus(h.last_inbound, h.idle_timeout),
        Deadline::Ping(at) => h.auto_ping && h.outstanding is None && at == plus(
            h.last_inbound,
            h.ping_interval,
        ),
    }
}

/// What falls due next is the earliest of all that is waited for. Where two
/// fall together, one that ends the connection comes before a Ping, and the
/// Pong before silence. A heartbeat that has ended waits for nothing.
pub proof fn law_earliest_deadline_is_next(h: HeartbeatView)
    ensures
        h.stopped ==> heartbeat::deadline_of(h) is None && heartbeat::timeout_of(h) is None,
        !h.stopped && heartbeat::deadline_of(h) is None ==> forall|d: Deadline|
            !#[trigger] waited_for(h, d),
        heartbeat::deadline_of(h) matches Some(next) ==> {
            &&& waited_for(h, next)
            &&& forall|d: Deadline| #[trigger] waited_for(h, d) ==> next.time() <= d.time()
            &&& forall|d: Deadline| #[trigger]
                waited_for(h, d) && d.time() == next.time() && next is Ping ==> d is Ping
            &&& forall|d: Deadline| #[trigger]
                waited_for(h, d) && d.time() == next.time() && next is Idle ==> !(d is Pong)
        },
        !h.stopped && heartbeat::timeout_of(h) is None ==> forall|d: Deadline| #[trigger]
            waited_for(h, d) ==> d is Ping,
        heartbeat::timeout_of(h) matches Some(next) ==> {
            &&& waited_for(h, next)
            &&& !(next is Ping)
            &&& forall|d: Deadline| #[trigger]
                waited_for(h, d) && !(d is Ping) ==> next.time() <= d.time()
        },
{
    if h.outstanding is Some && h.outstanding->0.deadline is Some {
        assert(waited_for(h, Deadline::Pong(h.outstanding->0.deadline->0)));
    }
    if h.idle_timeout != 0 {
        assert(waited_for(h, Deadline::Idle(heartbeat::later(h.last_inbound, h.idle_timeout))));
    }
    if h.auto_ping && h.outstanding is None {
        assert(waited_for(h, Deadline::Ping(heartbeat::later(h.last_inbound, h.ping_interval))));
    }
}

/// A Ping is due exactly where it is what falls due next, and its time has come.
pub proof fn law_pings_fall_due(h: HeartbeatView, now: u64)
    ensures
        heartbeat::is_ping_due(h, now) <==> heartbeat::deadline_of(h) is Some
            && heartbeat::deadline_of(h)->0 is Ping && heartbeat::deadline_of(h)->0.time() <= now,
        heartbeat::is_ping_due(h, now) ==> h.auto_ping && !h.stopped && h.outstanding is None
            && plus(h.last_inbound, h.ping_interval) <= now,
{
}

/// A heartbeat begins with the times of the configuration, which are in
/// seconds; without an interval there are no Pings.
pub proof fn law_heartbeat_begins(config: Config, now: u64)
    ensures
        ({
            let h = heartbeat::begun(config, now);
            &&& h.auto_ping <==> config.auto_ping && config.ping_interval > 0
            &&& h.ping_interval == config.ping_interval * 1000
            &&& h.idle_timeout == config.idle_timeout * 1000
            &&& h.pong_timeout == config.pong_timeout * 1000
            &&& h.last_inbound == now
            &&& h.outstanding is None
            &&& !h.stopped
        }),
{
}

/// What is heard moves on the time of the last sign of life and nothing else,
/// but for the Pong that is waited for: one that has the payload of the Ping
/// ends the wait where the Ping has left and the Pong is in time, and is
/// remembered where the Ping has not left.
pub proof fn law_what_is_heard(h: HeartbeatView, now: u64, pong: Option<Seq<u8>>)
    requires
        !h.stopped,
    ensures
        ({
            let after = heartbeat::heard(h, now, pong);
            &&& after.last_inbound == if h.last_inbound >= now {
                h.last_inbound
            } else {
                now
            }
            &&& after.auto_ping == h.auto_ping
            &&& after.ping_interval == h.ping_interval
            &&& after.idle_timeout == h.idle_timeout
            &&& after.pong_timeout == h.pong_timeout
            &&& !after.stopped
            &&& h.outstanding is None ==> after.outstanding is None
            &&& h.outstanding matches Some(ping) ==> {
                let matching = pong == Some(ping.payload);
                &&& !matching ==> after.outstanding == h.outstanding
                &&& matching && !ping.flushed ==> after.outstanding is Some
                    && after.outstanding->0.acknowledged && !after.outstanding->0.flushed
                    && after.outstanding->0.payload == ping.payload
                &&& matching && ping.flushed && (ping.deadline is None || now < ping.deadline->0)
                    ==> after.outstanding is None
                &&& matching && ping.flushed && ping.deadline is Some && now >= ping.deadline->0
                    ==> after.outstanding == h.outstanding
            }
        }),
{
}

/// Once a Ping has left, its Pong is overdue after the time that it may take,
/// counted from then; a Pong that is there already ends the wait.
pub proof fn law_wait_for_pong(h: HeartbeatView, now: u64)
    ensures
        h.outstanding is None ==> heartbeat::flushed(h, now) == h,
        h.outstanding matches Some(ping) ==> {
            let after = heartbeat::flushed(h, now);
            &&& ping.flushed ==> after == h
            &&& !ping.flushed && ping.acknowledged ==> after.outstanding is None
            &&& !ping.flushed && !ping.acknowledged ==> after.outstanding is Some && {
                let waiting = after.outstanding->0;
                &&& waiting.flushed
                &&& waiting.payload == ping.payload
                &&& h.pong_timeout == 0 ==> waiting.deadline is None
                &&& h.pong_timeout != 0 ==> waiting.deadline is Some && waiting.deadline->0 == plus(
                    now,
                    h.pong_timeout,
                )
            }
            &&& after.last_inbound == h.last_inbound
            &&& after.stopped == h.stopped
        },
{
}

/// A Ping that was handed out is outstanding until its Pong comes: it has not
/// left, and nothing is overdue yet.
pub proof fn law_pings_are_outstanding(h: HeartbeatView, payload: Seq<u8>)
    ensures
        ({
            let after = heartbeat::pinged(h, payload);
            &&& after.outstanding is Some
            &&& after.outstanding->0.payload == payload
            &&& after.outstanding->0.deadline is None
            &&& !after.outstanding->0.flushed
            &&& !after.outstanding->0.acknowledged
            &&& after.last_inbound == h.last_inbound
            &&& after.stopped == h.stopped
        }),
        heartbeat::stopped(h).stopped,
        heartbeat::stopped(h).outstanding is None,
{
}

/// A reason is cut only where it does not fit, behind a whole character, and no
/// further than needed.
pub proof fn law_reasons_are_cut_as_little_as_possible(text: Seq<char>, max: nat, n: int)
    requires
        0 <= n <= text.len(),
        encode_utf8(text.take(n)).len() <= max,
    ensures
        heartbeat::bounded(text, max).len() >= n,
        encode_utf8(heartbeat::bounded(text, max)).len() <= max,
        heartbeat::bounded(text, max) == text.take(heartbeat::bounded(text, max).len() as int),
    decreases text.len(),
{
    heartbeat::law_bounded_reason_fits(text, max);
    if !(encode_utf8(text).len() <= max || text.len() == 0) {
        let shorter = text.drop_last();
        if n == text.len() {
            assert(text.take(n) =~= text);
        } else {
            assert(shorter.take(n) =~= text.take(n));
            law_reasons_are_cut_as_little_as_possible(shorter, max, n);
        }
    }
}

/// When the peer was last heard matters where Pings are sent or silence counts.
pub proof fn law_activity_matters(h: HeartbeatView)
    ensures
        heartbeat::tracks_activity(h) <==> h.auto_ping || h.idle_timeout > 0,
{
}

} // verus!
