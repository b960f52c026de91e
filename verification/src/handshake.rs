//! The authentication handshake: a locally generated nonce and a
//! single-use completion slot that fires at most once, and only for a
//! response whose nonce matches.

use vstd::prelude::*;

verus! {

/// Handshake state for one connection attempt.
#[derive(Clone, Debug)]
pub struct Handshake {
    /// The locally generated nonce the auth command was sent with.
    pub nonce: Vec<u8>,
    /// Whether the completion slot has fired.
    pub completed: bool,
}

/// Whether a response with nonce `n` fires the completion slot: only the
/// first response whose nonce matches the local one does.
pub open spec fn observe_fires(completed: bool, local: Seq<u8>, n: Seq<u8>) -> bool {
    !completed && n == local
}

impl Handshake {
    /// A fresh handshake waiting for the response to `nonce`.
    pub fn new(nonce: Vec<u8>) -> (r: Handshake)
        ensures
            r.nonce == nonce,
            !r.completed,
    {
        Handshake { nonce, completed: false }
    }

    /// Observes a `Response` nonce; returns whether the completion slot
    /// fired. A non-matching nonce has no effect, and the slot fires at
    /// most once.
    pub fn observe_response(&mut self, nonce: &Vec<u8>) -> (fired: bool)
        ensures
            fired == observe_fires(old(self).completed, old(self).nonce@, nonce@),
            final(self).nonce == old(self).nonce,
            final(self).completed == (old(self).completed || fired),
            !fired ==> *final(self) == *old(self),
            fired ==> nonce@ == old(self).nonce@ && !old(self).completed,
    {
        let fired = !self.completed && crate::codec::bytes_eq(&self.nonce, nonce);
        if fired {
            self.completed = true;
        }
        fired
    }
}

/// How many responses out of `ns`, observed in order, fire the slot.
pub open spec fn fires_count(completed: bool, local: Seq<u8>, ns: Seq<Seq<u8>>) -> nat
    decreases ns.len(),
{
    if ns.len() == 0 {
        0
    } else {
        let f = observe_fires(completed, local, ns[0]);
        (if f {
            1nat
        } else {
            0nat
        }) + fires_count(completed || f, local, ns.skip(1))
    }
}

/// Over any sequence of observed responses, the completion slot fires at
/// most once, and never once the handshake is already completed.
pub proof fn lemma_fires_at_most_once(completed: bool, local: Seq<u8>, ns: Seq<Seq<u8>>)
    ensures
        fires_count(completed, local, ns) <= 1,
        completed ==> fires_count(completed, local, ns) == 0,
    decreases ns.len(),
{
    if ns.len() > 0 {
        let f = observe_fires(completed, local, ns[0]);
        lemma_fires_at_most_once(completed || f, local, ns.skip(1));
    }
}

/// A response whose nonce differs from the local one never fires, no
/// matter the state.
pub proof fn lemma_no_fire_without_match(completed: bool, local: Seq<u8>, n: Seq<u8>)
    ensures
        n != local ==> !observe_fires(completed, local, n),
{
}

} // verus!
