//! The consumer-facing chat stream: an ordered queue of chat results and
//! a shared, monotonic cancellation flag.
//!
//! The handle models the channel between the socket reader and the
//! consumer. Items are delivered strictly in the order they were pushed;
//! closing the handle is idempotent and ends the stream: no further item
//! is delivered afterwards.

use crate::errors::StreamError;
use crate::messages::ChatMessage;
use crate::messages::ChatMessageView;
use vstd::prelude::*;

verus! {

/// Whether a task keeps running after handling one event.
#[derive(Clone, Copy, Debug, PartialEq, Eq, Structural)]
pub enum Continuation {
    Continue,
    Stop,
}

/// What one poll of the stream produced: an item, the end of the stream,
/// or nothing yet (the consumer would wait).
#[derive(Clone, Debug)]
pub enum PollNext {
    Ready(Option<Result<ChatMessage, StreamError>>),
    Pending,
}

/// A stream of chat messages, as handed to the consumer.
#[derive(Debug)]
pub struct ChatMessageStream {
    /// The shared cancellation flag: set once, never cleared.
    pub cancelled: bool,
    /// Whether the producing side is done: no further items will arrive.
    pub closed: bool,
    /// Items delivered but not yet consumed, oldest first.
    pub pending: Vec<Result<ChatMessage, StreamError>>,
}

/// The mathematical value of one queued item.
pub open spec fn item_view(r: Result<ChatMessage, StreamError>) -> Result<
    ChatMessageView,
    StreamError,
> {
    match r {
        Result::Ok(c) => Result::Ok(c@),
        Result::Err(e) => Result::Err(e),
    }
}

/// The mathematical value of a stream handle.
pub struct StreamView {
    pub cancelled: bool,
    pub closed: bool,
    pub pending: Seq<Result<ChatMessageView, StreamError>>,
}

impl View for ChatMessageStream {
    type V = StreamView;

    open spec fn view(&self) -> StreamView {
        StreamView {
            cancelled: self.cancelled,
            closed: self.closed,
            pending: self.pending@.map_values(|r| item_view(r)),
        }
    }
}

/// A sequence of chat items as successfully delivered results.
pub open spec fn ok_items(cs: Seq<ChatMessageView>) -> Seq<Result<ChatMessageView, StreamError>> {
    cs.map_values(|c: ChatMessageView| Result::<ChatMessageView, StreamError>::Ok(c))
}

/// How closing changes a stream: it only sets the cancellation flag.
pub open spec fn close_spec(s: StreamView) -> StreamView {
    StreamView { cancelled: true, closed: s.closed, pending: s.pending }
}

/// How delivering one batch changes a stream: nothing once cancelled,
/// otherwise every item is appended in order.
pub open spec fn push_batch_spec(s: StreamView, cs: Seq<ChatMessageView>) -> StreamView {
    if s.cancelled {
        s
    } else {
        StreamView { cancelled: s.cancelled, closed: s.closed, pending: s.pending + ok_items(cs) }
    }
}

/// What one poll returns and leaves behind: the end of the stream once
/// cancelled, or once the queue is empty and closed; the oldest item when
/// one is queued; otherwise nothing yet.
pub open spec fn poll_spec(s: StreamView) -> (StreamView, PollNextView) {
    if s.cancelled {
        (s, PollNextView::End)
    } else if s.pending.len() > 0 {
        (
            StreamView { cancelled: s.cancelled, closed: s.closed, pending: s.pending.skip(1) },
            PollNextView::Item(s.pending[0]),
        )
    } else if s.closed {
        (s, PollNextView::End)
    } else {
        (s, PollNextView::Wait)
    }
}

/// The mathematical value of one poll's outcome.
pub enum PollNextView {
    Item(Result<ChatMessageView, StreamError>),
    End,
    Wait,
}

impl View for PollNext {
    type V = PollNextView;

    open spec fn view(&self) -> PollNextView {
        match self {
            PollNext::Ready(Option::Some(r)) => PollNextView::Item(item_view(*r)),
            PollNext::Ready(Option::None) => PollNextView::End,
            PollNext::Pending => PollNextView::Wait,
        }
    }
}

impl ChatMessageStream {
    /// A fresh, open, empty stream.
    pub fn new() -> (r: ChatMessageStream)
        ensures
            !r@.cancelled,
            !r@.closed,
            r@.pending == Seq::<Result<ChatMessageView, StreamError>>::empty(),
    {
        let r = ChatMessageStream { cancelled: false, closed: false, pending: Vec::new() };
        proof {
            assert(r@.pending =~= Seq::<Result<ChatMessageView, StreamError>>::empty());
        }
        r
    }

    /// Closes the stream: any further poll returns the end of the
    /// stream. Idempotent; automatically invoked when the handle is
    /// discarded.
    pub fn close(&mut self)
        ensures
            final(self)@ == close_spec(old(self)@),
    {
        self.cancelled = true;
    }

    /// Delivers one batch of chat items, in order. Reports `Stop` when
    /// the consumer is gone and forwarding should end.
    #[verifier::loop_isolation(false)]
    pub fn push_batch(&mut self, chats: Vec<ChatMessage>) -> (cont: Continuation)
        ensures
            final(self)@ == push_batch_spec(old(self)@, chats.deep_view()),
            cont == (if old(self)@.cancelled {
                Continuation::Stop
            } else {
                Continuation::Continue
            }),
    {
        if self.cancelled {
            return Continuation::Stop;
        }
        let ghost pre = self@.pending;
        let ghost all = chats.deep_view();
        let mut rest = chats;
        let n_total = rest.len();
        let mut taken: usize = 0;
        proof {
            assert(all.len() == n_total);
        }
        while rest.len() > 0
            invariant
                taken + rest@.len() == n_total,
                forall|k: int| 0 <= k < rest@.len() ==> rest@[k]@ == all[taken + k],
                self@.pending =~= pre + ok_items(all.take(taken as int)),
                self.cancelled == false,
                self@.cancelled == false,
                self@.closed == old(self)@.closed,
            decreases rest@.len(),
        {
            let ghost prev = rest@;
            let c = rest.remove(0);
            proof {
                assert(c@ == all[taken as int]);
                assert(forall|k: int|
                    0 <= k < rest@.len() ==> rest@[k] == prev[k + 1] && rest@[k]@ == all[taken + 1
                        + k]);
            }
            let ghost prev_pending = self@.pending;
            self.pending.push(Ok(c));
            taken = taken + 1;
            proof {
                assert(self@.pending =~= prev_pending.push(Result::Ok(c@)));
                assert(ok_items(all.take(taken as int)) =~= ok_items(
                    all.take(taken - 1),
                ).push(Result::Ok(all[taken - 1])));
                assert(self@.pending =~= pre + ok_items(all.take(taken as int)));
            }
        }
        proof {
            assert(all.take(taken as int) =~= all);
            assert(self@ == push_batch_spec(old(self)@, all));
        }
        Continuation::Continue
    }

    /// Delivers already-wrapped results, in order — the shape the socket
    /// reader's steps hand over. Reports `Stop` when the consumer is
    /// gone.
    #[verifier::loop_isolation(false)]
    pub fn push_items(&mut self, items: Vec<Result<ChatMessage, StreamError>>) -> (cont:
        Continuation)
        ensures
            old(self)@.cancelled ==> final(self)@ == old(self)@ && cont == Continuation::Stop,
            !old(self)@.cancelled ==> final(self)@.pending == old(self)@.pending + items@
                .map_values(|r| item_view(r)) && final(self)@.cancelled == old(self)@.cancelled
                && final(self)@.closed == old(self)@.closed && cont == Continuation::Continue,
    {
        if self.cancelled {
            return Continuation::Stop;
        }
        let ghost pre = self@.pending;
        let ghost all = items@.map_values(|r| item_view(r));
        let mut rest = items;
        let n_total = rest.len();
        let mut taken: usize = 0;
        proof {
            assert(all.len() == n_total);
        }
        while rest.len() > 0
            invariant
                taken + rest@.len() == n_total,
                forall|k: int|
                    0 <= k < rest@.len() ==> item_view(#[trigger] rest@[k]) == all[taken + k],
                self@.pending =~= pre + all.take(taken as int),
                self.cancelled == false,
                self@.cancelled == false,
                self@.closed == old(self)@.closed,
            decreases rest@.len(),
        {
            let ghost prev = rest@;
            let it = rest.remove(0);
            proof {
                assert(item_view(it) == all[taken as int]);
                assert(forall|k: int|
                    0 <= k < rest@.len() ==> rest@[k] == prev[k + 1] && item_view(
                        #[trigger] rest@[k],
                    ) == all[taken + 1 + k]);
            }
            let ghost prev_pending = self@.pending;
            self.pending.push(it);
            taken = taken + 1;
            proof {
                assert(self@.pending =~= prev_pending.push(all[taken - 1]));
                assert(self@.pending =~= pre + all.take(taken as int));
            }
        }
        proof {
            assert(all.take(taken as int) =~= all);
        }
        Continuation::Continue
    }

    /// Delivers a fatal error as the final item and ends the queue.
    pub fn push_error(&mut self, e: StreamError)
        ensures
            final(self)@.closed,
            final(self)@.cancelled == old(self)@.cancelled,
            old(self)@.cancelled ==> final(self)@.pending == old(self)@.pending,
            !old(self)@.cancelled ==> final(self)@.pending == old(self)@.pending.push(
                Result::Err(e),
            ),
    {
        if !self.cancelled {
            self.pending.push(Err(e));
            proof {
                assert(self@.pending =~= old(self)@.pending.push(
                    Result::<ChatMessageView, StreamError>::Err(e),
                ));
            }
        }
        self.closed = true;
    }

    /// Marks the producing side as done without an error.
    pub fn finish(&mut self)
        ensures
            final(self)@.closed,
            final(self)@.cancelled == old(self)@.cancelled,
            final(self)@.pending == old(self)@.pending,
    {
        self.closed = true;
    }

    /// Produces the next item, the end of the stream, or nothing yet.
    pub fn poll_next(&mut self) -> (r: PollNext)
        ensures
            (final(self)@, r@) == poll_spec(old(self)@),
    {
        if self.cancelled {
            return PollNext::Ready(None);
        }
        if self.pending.len() > 0 {
            let it = self.pending.remove(0);
            proof {
                assert(self@.pending =~= old(self)@.pending.skip(1));
                assert(item_view(it) == old(self)@.pending[0]);
            }
            return PollNext::Ready(Some(it));
        }
        if self.closed {
            return PollNext::Ready(None);
        }
        PollNext::Pending
    }
}

/// Delivering a list of batches, one after the other.
pub open spec fn deliver_batches(s: StreamView, bs: Seq<Seq<ChatMessageView>>) -> StreamView
    decreases bs.len(),
{
    if bs.len() == 0 {
        s
    } else {
        deliver_batches(push_batch_spec(s, bs[0]), bs.skip(1))
    }
}

/// All items of a list of batches, in order.
pub open spec fn flatten_batches(bs: Seq<Seq<ChatMessageView>>) -> Seq<ChatMessageView>
    decreases bs.len(),
{
    if bs.len() == 0 {
        Seq::empty()
    } else {
        bs[0] + flatten_batches(bs.skip(1))
    }
}

/// Chat items are delivered in receive order, within one batch and
/// across batches: delivering batches appends exactly their items, in
/// order, to the queue the consumer drains front to back.
pub proof fn lemma_delivery_order(s: StreamView, bs: Seq<Seq<ChatMessageView>>)
    requires
        !s.cancelled,
    ensures
        deliver_batches(s, bs).pending == s.pending + ok_items(flatten_batches(bs)),
        deliver_batches(s, bs).cancelled == s.cancelled,
        deliver_batches(s, bs).closed == s.closed,
    decreases bs.len(),
{
    if bs.len() == 0 {
        assert(flatten_batches(bs) =~= Seq::<ChatMessageView>::empty());
        assert(s.pending + ok_items(flatten_batches(bs)) =~= s.pending);
    } else {
        let s1 = push_batch_spec(s, bs[0]);
        lemma_delivery_order(s1, bs.skip(1));
        assert(ok_items(bs[0] + flatten_batches(bs.skip(1))) =~= ok_items(bs[0]) + ok_items(
            flatten_batches(bs.skip(1)),
        ));
        assert(s.pending + ok_items(flatten_batches(bs)) =~= (s.pending + ok_items(bs[0]))
            + ok_items(flatten_batches(bs.skip(1))));
    }
}

/// Closing is idempotent and final: once closed, every further close
/// leaves the stream as it is, and every poll returns the end of the
/// stream with no item delivered.
pub proof fn lemma_close_ends_stream(s: StreamView)
    ensures
        close_spec(close_spec(s)) == close_spec(s),
        poll_spec(close_spec(s)).1 is End,
        poll_spec(close_spec(s)).0 == close_spec(s),
        push_batch_spec(close_spec(s), arbitrary()) == close_spec(s),
{
}

} // verus!
