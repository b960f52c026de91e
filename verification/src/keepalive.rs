//! Keepalive state: a monotonically counted ping with a server-adjustable
//! interval.
//!
//! The iteration counter increases by one before each ping is sent; the
//! interval changes only when an acknowledgement arrives for an iteration
//! newer than the last acknowledged one, which protects the state against
//! reordered or replayed acknowledgements.

use crate::codec::dec_digits;
use crate::codec::u64_to_dec;
use crate::messages::SocketMessage;
use vstd::prelude::*;

verus! {

/// The interval, in seconds, between pings until the server adjusts it.
pub const DEFAULT_PING_INTERVAL_SECS: u64 = 30;

/// Keepalive state.
#[derive(Clone, Copy, Debug)]
pub struct Ping {
    /// Seconds to sleep before the next ping.
    pub interval_secs: u64,
    /// How many pings have been sent.
    pub iteration: u64,
    /// The last iteration a pong was accepted for.
    pub acknowledged: u64,
}

impl Ping {
    /// The state never acknowledges an iteration that was not yet sent.
    pub open spec fn wf(self) -> bool {
        self.acknowledged <= self.iteration
    }
}

impl Default for Ping {
    /// The state before any ping was sent.
    fn default() -> (r: Ping)
        ensures
            r.interval_secs == DEFAULT_PING_INTERVAL_SECS,
            r.iteration == 0,
            r.acknowledged == 0,
            r.wf(),
    {
        Ping { interval_secs: DEFAULT_PING_INTERVAL_SECS, iteration: 0, acknowledged: 0 }
    }
}

/// How an acknowledgement for iteration `it` with gap `gap_secs` changes
/// the keepalive state: a stale or replayed iteration changes nothing; a
/// newer one moves the acknowledged mark and adopts the gap as interval.
pub open spec fn pong_update(p: Ping, it: u64, gap_secs: u64) -> Ping {
    if it > p.acknowledged {
        Ping { interval_secs: gap_secs, iteration: p.iteration, acknowledged: it }
    } else {
        p
    }
}

impl Ping {
    /// Steps to the next iteration and builds the ping message carrying
    /// the iteration number as its nonce.
    pub fn next_ping(&mut self) -> (msg: SocketMessage)
        requires
            old(self).iteration < u64::MAX,
        ensures
            final(self).iteration == old(self).iteration + 1,
            final(self).interval_secs == old(self).interval_secs,
            final(self).acknowledged == old(self).acknowledged,
            (msg matches SocketMessage::Ping { nonce } && nonce@ == dec_digits(
                final(self).iteration as nat,
            )),
    {
        self.iteration = self.iteration + 1;
        let nonce = u64_to_dec(self.iteration);
        SocketMessage::Ping { nonce }
    }

    /// Applies an acknowledgement for iteration `it`.
    pub fn handle_pong(&mut self, it: u64, gap_secs: u64)
        ensures
            *final(self) == pong_update(*old(self), it, gap_secs),
            it <= old(self).acknowledged ==> *final(self) == *old(self),
            it > old(self).acknowledged ==> final(self).acknowledged == it
                && final(self).interval_secs == gap_secs && final(self).iteration == old(
                self,
            ).iteration,
            old(self).wf() && it <= old(self).iteration ==> final(self).wf(),
    {
        if it > self.acknowledged {
            self.acknowledged = it;
            self.interval_secs = gap_secs;
        }
    }
}

/// A stale acknowledgement (at or below the acknowledged mark) never
/// changes the state, and a fresh one moves the mark and the interval;
/// replaying any acknowledgement a second time has no further effect.
pub proof fn lemma_pong_update_replay(p: Ping, it: u64, gap_secs: u64)
    ensures
        it <= p.acknowledged ==> pong_update(p, it, gap_secs) == p,
        it > p.acknowledged ==> pong_update(p, it, gap_secs).acknowledged == it && pong_update(
            p,
            it,
            gap_secs,
        ).interval_secs == gap_secs,
        pong_update(pong_update(p, it, gap_secs), it, gap_secs) == pong_update(p, it, gap_secs),
{
}

} // verus!
