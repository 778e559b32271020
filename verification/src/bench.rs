//! What the benchmark utility decides and counts
//!
//! A benchmark opens a connection, sends the same binary message over and over
//! and counts what comes back.
use crate::buffer::BufferView;
use crate::error::{Error, Result};
use crate::handshake;
use crate::handshake::{parse_response, validate_accept_key, HandshakeResponse};
use crate::protocol;
use crate::protocol::{Message, MessageView};
use crate::text;
use crate::text::parse_number;
use bytes::BytesMut;
use vstd::prelude::*;

verus! {

/// Messages written at once
pub const BATCH_SIZE: usize = 1000;

/// What a benchmark is asked to do.
#[derive(Debug)]
pub struct BenchPlan {
    /// The server
    pub host: String,
    /// Bytes in each message
    pub message_size: usize,
    /// Messages on each connection
    pub message_count: usize,
    /// Connections at once
    pub connections: usize,
}

/// The number that an argument stands for, or a default.
pub open spec fn number_or(args: Seq<Seq<char>>, at: int, default: usize) -> nat {
    if at < args.len() {
        match text::number(args[at], usize::MAX as nat) {
            Some(n) => n,
            None => default as nat,
        }
    } else {
        default as nat
    }
}

fn read_number(args: &Vec<String>, at: usize, default: usize) -> (r: usize)
    ensures
        r == number_or(handshake::string_views(args@), at as int, default),
{
    if at < args.len() {
        assert(handshake::string_views(args@)[at as int] == args@[at as int]@);
        match parse_number(args[at].as_str(), usize::MAX as u64) {
            Some(n) => n as usize,
            None => default,
        }
    } else {
        default
    }
}

impl BenchPlan {
    /// Read the arguments of a program, whose first is its name
    pub fn from_args(args: &Vec<String>) -> (r: Self)
        ensures
            r.host@ == (if args@.len() > 1 {
                args@[1]@
            } else {
                "127.0.0.1:9001"@
            }),
            r.message_size == number_or(handshake::string_views(args@), 2, 128),
            r.message_count == number_or(handshake::string_views(args@), 3, 100_000),
            r.connections == number_or(handshake::string_views(args@), 4, 1),
    {
        let host = if args.len() > 1 {
            args[1].as_str().to_owned()
        } else {
            "127.0.0.1:9001".to_owned()
        };
        BenchPlan {
            host,
            message_size: read_number(args, 2, 128),
            message_count: read_number(args, 3, 100_000),
            connections: read_number(args, 4, 1),
        }
    }
}

/// How far the opening handshake has come.
#[derive(Debug)]
pub enum HandshakeProgress {
    /// The answer is not complete
    NeedMore,
    /// The server has accepted; the answer takes this many bytes
    Accepted(usize),
    /// The accept key does not fit
    InvalidAcceptKey,
    /// The answer is no WebSocket upgrade
    Failed(Error),
}

/// How far the handshake has come, of what has been read of the answer.
pub open spec fn progress(read: Result<Option<(handshake::ResponseView, nat)>>, key: Seq<char>) -> core::result::Result<
    Option<nat>,
    Option<Error>,
> {
    match read {
        Ok(None) => Ok(None),
        Err(e) => Err(Some(e)),
        Ok(Some((response, len))) => if response.accept is Some && response.accept->0
            != handshake::accept_key(key) {
            Err(None)
        } else {
            Ok(Some(len))
        },
    }
}

/// Whether a step of the handshake is what a specification says.
pub open spec fn progresses(
    r: HandshakeProgress,
    want: core::result::Result<Option<nat>, Option<Error>>,
) -> bool {
    match want {
        Ok(None) => r is NeedMore,
        Ok(Some(len)) => r matches HandshakeProgress::Accepted(n) && n == len,
        Err(None) => r is InvalidAcceptKey,
        Err(Some(e)) => r == HandshakeProgress::Failed(e),
    }
}

/// What has been read of an answer, as mathematical values.
pub open spec fn read_view(read: Result<Option<(HandshakeResponse, usize)>>) -> Result<
    Option<(handshake::ResponseView, nat)>,
> {
    match read {
        Ok(Some((response, len))) => Ok(Some((response@, len as nat))),
        Ok(None) => Ok(None),
        Err(e) => Err(e),
    }
}

/// How far the handshake has come, of what has been read of the answer
pub fn judge_response(read: Result<Option<(HandshakeResponse, usize)>>, key: &str) -> (r:
    HandshakeProgress)
    ensures
        progresses(r, progress(read_view(read), key@)),
{
    match read {
        Ok(Some((response, consumed))) => {
            if let Some(accept) = response.accept {
                if !validate_accept_key(key, accept) {
                    return HandshakeProgress::InvalidAcceptKey;
                }
            }
            HandshakeProgress::Accepted(consumed)
        },
        Ok(None) => HandshakeProgress::NeedMore,
        Err(e) => HandshakeProgress::Failed(e),
    }
}

/// How far the handshake has come, of the bytes received so far
pub fn check_upgrade(buf: &[u8], key: &str) -> (r: HandshakeProgress)
    ensures
        progresses(r, progress(handshake::read_response(buf@), key@)),
        r matches HandshakeProgress::Accepted(n) ==> n <= buf@.len(),
{
    judge_response(parse_response(buf), key)
}

/// The payload of the messages: the numbers from 0 to 255 over and over.
pub fn test_data(size: usize) -> (r: Vec<u8>)
    ensures
        r@ == Seq::new(size as nat, |i: int| (i % 256) as u8),
{
    let mut r: Vec<u8> = Vec::new();
    let mut i: usize = 0;
    while i < size
        invariant
            i <= size,
            r@ == Seq::new(i as nat, |k: int| (k % 256) as u8),
        decreases size - i,
    {
        r.push((i % 256) as u8);
        i = i + 1;
        assert(r@ =~= Seq::new(i as nat, |k: int| (k % 256) as u8));
    }
    r
}

/// Messages in the next batch
pub fn batch_len(message_count: usize, sent: usize) -> (r: usize)
    requires
        sent <= message_count,
    ensures
        r == (if message_count - sent <= BATCH_SIZE {
            message_count - sent
        } else {
            BATCH_SIZE as int
        }),
{
    if message_count - sent <= BATCH_SIZE {
        message_count - sent
    } else {
        BATCH_SIZE
    }
}

/// Some bytes, a number of times over.
pub open spec fn repeated(s: Seq<u8>, n: nat) -> Seq<u8>
    decreases n,
{
    if n == 0 {
        Seq::empty()
    } else {
        repeated(s, (n - 1) as nat) + s
    }
}

/// Appends a batch of an encoded message
pub fn push_batch(encoded: &[u8], n: usize, out: &mut BytesMut)
    requires
        old(out)@.len() + n * encoded@.len() <= isize::MAX,
    ensures
        final(out)@ == old(out)@ + repeated(encoded@, n as nat),
{
    let ghost before = out@;
    let mut i: usize = 0;
    assert(before + repeated(encoded@, 0) =~= before);
    while i < n
        invariant
            i <= n,
            out@ == before + repeated(encoded@, i as nat),
            out@.len() == before.len() + i * encoded@.len(),
            before.len() + n * encoded@.len() <= isize::MAX,
        decreases n - i,
    {
        assert((i + 1) * encoded@.len() == i * encoded@.len() + encoded@.len()
            && (i + 1) * encoded@.len() <= n * encoded@.len()) by (nonlinear_arith)
            requires
                i < n,
        ;
        out.extend_from_slice(encoded);
        i = i + 1;
        assert(out@ =~= before + repeated(encoded@, i as nat));
    }
}

/// What a benchmark has counted.
#[derive(Debug, Clone, Copy, PartialEq, Eq, Structural)]
pub struct BenchStats {
    /// Data messages received
    pub messages: usize,
    /// Bytes in those messages
    pub bytes: usize,
}

/// The data messages that come before a Close, and the bytes in them.
pub open spec fn counted(messages: Seq<MessageView>) -> (nat, nat)
    decreases messages.len(),
{
    if messages.len() == 0 || messages[0] is Close {
        (0, 0)
    } else {
        let (n, bytes) = counted(messages.drop_first());
        if messages[0] is Text || messages[0] is Binary {
            (n + 1, bytes + protocol::message_data(messages[0]).len())
        } else {
            (n, bytes)
        }
    }
}

/// Whether counts are `n` and `bytes` more than before, or none if they are
/// too large.
pub open spec fn adds(a: BenchStats, n: nat, bytes: nat, r: Option<BenchStats>) -> bool {
    match r {
        Some(b) => b.messages == a.messages + n && b.bytes == a.bytes + bytes,
        None => a.messages + n > usize::MAX || a.bytes + bytes > usize::MAX,
    }
}

impl BenchStats {
    /// Nothing counted yet
    pub fn new() -> (r: Self)
        ensures
            r == (BenchStats { messages: 0, bytes: 0 }),
    {
        BenchStats { messages: 0, bytes: 0 }
    }

    /// Check if all messages have come back
    pub fn is_done(&self, message_count: usize) -> (r: bool)
        ensures
            r == (self.messages >= message_count),
    {
        self.messages >= message_count
    }

    /// The counts of two connections together, unless they are too large
    pub fn plus(&self, other: &BenchStats) -> (r: Option<Self>)
        ensures
            adds(*self, other.messages as nat, other.bytes as nat, r),
    {
        match (self.messages.checked_add(other.messages), self.bytes.checked_add(other.bytes)) {
            (Some(messages), Some(bytes)) => Some(BenchStats { messages, bytes }),
            _ => None,
        }
    }

    /// Count received messages, up to a Close among them, unless the counts
    /// become too large
    pub fn tally(&self, messages: &Vec<Message>) -> (r: Option<Self>)
        ensures
            adds(
                *self,
                counted(protocol::message_views(messages@)).0,
                counted(protocol::message_views(messages@)).1,
                r,
            ),
    {
        let ghost all = protocol::message_views(messages@);
        let mut stats = *self;
        let mut i: usize = 0;
        assert(all.skip(0) =~= all);
        while i < messages.len()
            invariant
                i <= messages@.len(),
                all == protocol::message_views(messages@),
                stats.messages + counted(all.skip(i as int)).0 == self.messages + counted(all).0,
                stats.bytes + counted(all.skip(i as int)).1 == self.bytes + counted(all).1,
            decreases messages@.len() - i,
        {
            let ghost rest = all.skip(i as int);
            assert(rest[0] == messages@[i as int]@);
            assert(rest.drop_first() =~= all.skip(i + 1));
            let one = match &messages[i] {
                Message::Binary(data) => BenchStats { messages: 1, bytes: data.len() },
                Message::Text(text) => BenchStats { messages: 1, bytes: text.len() },
                Message::Close(_) => {
                    return Some(stats);
                },
                _ => BenchStats { messages: 0, bytes: 0 },
            };
            stats = match stats.plus(&one) {
                Some(stats) => stats,
                None => {
                    return None;
                },
            };
            i = i + 1;
        }
        Some(stats)
    }
}

/// Messages that follow a Close are not counted.
pub proof fn law_close_ends_the_count(before: Seq<MessageView>, after: Seq<MessageView>)
    requires
        before.len() > 0,
        before.last() is Close,
    ensures
        counted(before + after) == counted(before),
    decreases before.len(),
{
    if before[0] is Close {
        assert((before + after)[0] == before[0]);
    } else {
        assert((before + after).drop_first() =~= before.drop_first() + after);
        assert(before.drop_first().last() == before.last());
        law_close_ends_the_count(before.drop_first(), after);
    }
}

} // verus!
