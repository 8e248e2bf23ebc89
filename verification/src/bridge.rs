//! The producer/consumer bridge between host-native asynchronous
//! primitives and the guest's pull/poll protocol.
//!
//! The guest consumes through repeated poll calls with four outcomes:
//! pending, completed, dropped, cancelled.  The bridge is an explicit
//! state machine: each step takes what one poll of the native channel
//! or future returned and decides the outcome handed to the guest.
//! Ghost state tracks every delivered item, so delivery order and
//! exactly-once delivery are part of the contracts.

use vstd::prelude::*;

verus! {

/// What one poll of a native channel returned.
pub enum ChannelPoll<T> {
    /// An item was ready.
    Item(T),
    /// No item was ready, but senders are still alive.
    Empty,
    /// The channel is closed and drained.
    Closed,
}

/// What one poll of a native single-shot future returned.
pub enum OneshotPoll<T> {
    /// The value arrived.
    Value(T),
    /// Nothing has arrived yet.
    Waiting,
    /// The sender is gone and no value will ever arrive.
    Gone,
}

/// The outcome of one guest poll of a stream.
pub enum ProduceResult<T> {
    /// Nothing yet; the guest should poll again later.
    Pending,
    /// One step completed, carrying an item if one was transferred.
    Completed(Option<T>),
    /// The native side is closed and drained; no more items will come.
    Dropped,
    /// The stream stopped because the guest asked to finish.
    Cancelled,
}

/// The outcome of one guest poll of a single-shot future.
pub enum FuturePoll<T> {
    /// Nothing yet; the guest should poll again later.
    Pending,
    /// The value, exactly once.
    Completed(T),
    /// The producer is gone without a value — an error, never a
    /// silent empty result.
    Failed,
}

/// The stream bridge that polls its channel before honouring a
/// finish request: an item that is ready is still delivered on the
/// finishing poll.
pub struct StreamProducer<T> {
    delivered: Ghost<Seq<T>>,
}

impl<T> StreamProducer<T> {
    /// Every item handed to the guest so far, in delivery order.
    pub closed spec fn delivered(self) -> Seq<T> {
        self.delivered@
    }

    /// Creates a bridge that has delivered nothing.
    pub fn new() -> (p: StreamProducer<T>)
        ensures
            p.delivered() == Seq::<T>::empty(),
    {
        StreamProducer { delivered: Ghost(Seq::empty()) }
    }

    /// One guest poll when the guest has no capacity left: completes
    /// at once with nothing transferred, whatever the channel holds.
    pub fn produce_without_capacity(&self) -> (r: ProduceResult<T>)
        ensures
            r == ProduceResult::<T>::Completed(None),
    {
        ProduceResult::Completed(None)
    }

    /// One guest poll with capacity: decides the outcome from what
    /// the native channel poll returned.
    ///
    /// An item is delivered exactly once, in arrival order; a closed
    /// channel surfaces as `Dropped`; an empty channel surfaces as
    /// `Pending`, or as `Cancelled` when the guest is finishing.
    pub fn produce(&mut self, finishing: bool, poll: ChannelPoll<T>) -> (r: ProduceResult<T>)
        ensures
            poll matches ChannelPoll::Item(v) ==> r == ProduceResult::<T>::Completed(Some(v))
                && final(self).delivered() == old(self).delivered().push(v),
            poll is Closed ==> r == ProduceResult::<T>::Dropped && final(self).delivered() == old(self).delivered(),
            poll is Empty && !finishing ==> r == ProduceResult::<T>::Pending && final(self).delivered() == old(self).delivered(),
            poll is Empty && finishing ==> r == ProduceResult::<T>::Cancelled && final(self).delivered() == old(self).delivered(),
    {
        match poll {
            ChannelPoll::Item(v) => {
                proof {
                    self.delivered@ = self.delivered@.push(v);
                }
                ProduceResult::Completed(Some(v))
            },
            ChannelPoll::Closed => ProduceResult::Dropped,
            ChannelPoll::Empty => {
                if finishing {
                    ProduceResult::Cancelled
                } else {
                    ProduceResult::Pending
                }
            },
        }
    }
}

/// The element-stream bridge used by the keyed-store row and key
/// producers.  Its decision rules are those of the poll protocol: a
/// ready item is still delivered on a finishing poll, and the stream
/// cancels only when the guest is finishing and nothing is ready —
/// no item the native side holds is ever lost.
pub struct RxStreamProducer<T> {
    delivered: Ghost<Seq<T>>,
}

impl<T> RxStreamProducer<T> {
    /// Every item handed to the guest so far, in delivery order.
    pub closed spec fn delivered(self) -> Seq<T> {
        self.delivered@
    }

    /// Creates a bridge that has delivered nothing.
    pub fn new() -> (p: RxStreamProducer<T>)
        ensures
            p.delivered() == Seq::<T>::empty(),
    {
        RxStreamProducer { delivered: Ghost(Seq::empty()) }
    }

    /// One finishing guest poll: an immediately-ready item is still
    /// delivered as completed; the stream cancels only when nothing
    /// is ready, and a closed, drained channel reports dropped.
    pub fn produce_finishing(&mut self, poll: ChannelPoll<T>) -> (r: ProduceResult<T>)
        ensures
            poll matches ChannelPoll::Item(v) ==> r == ProduceResult::<T>::Completed(Some(v))
                && final(self).delivered() == old(self).delivered().push(v),
            poll is Closed ==> r == ProduceResult::<T>::Dropped && final(self).delivered() == old(self).delivered(),
            poll is Empty ==> r == ProduceResult::<T>::Cancelled && final(self).delivered() == old(self).delivered(),
    {
        match poll {
            ChannelPoll::Item(v) => {
                proof {
                    self.delivered@ = self.delivered@.push(v);
                }
                ProduceResult::Completed(Some(v))
            },
            ChannelPoll::Closed => ProduceResult::Dropped,
            ChannelPoll::Empty => ProduceResult::Cancelled,
        }
    }

    /// One guest poll when the guest has no capacity left: completes
    /// at once with nothing transferred.
    pub fn produce_without_capacity(&self) -> (r: ProduceResult<T>)
        ensures
            r == ProduceResult::<T>::Completed(None),
    {
        ProduceResult::Completed(None)
    }

    /// One guest poll with capacity, not finishing: decides the
    /// outcome from what the native channel poll returned.
    pub fn produce(&mut self, poll: ChannelPoll<T>) -> (r: ProduceResult<T>)
        ensures
            poll matches ChannelPoll::Item(v) ==> r == ProduceResult::<T>::Completed(Some(v))
                && final(self).delivered() == old(self).delivered().push(v),
            poll is Closed ==> r == ProduceResult::<T>::Dropped && final(self).delivered() == old(self).delivered(),
            poll is Empty ==> r == ProduceResult::<T>::Pending && final(self).delivered() == old(self).delivered(),
    {
        match poll {
            ChannelPoll::Item(v) => {
                proof {
                    self.delivered@ = self.delivered@.push(v);
                }
                ProduceResult::Completed(Some(v))
            },
            ChannelPoll::Closed => ProduceResult::Dropped,
            ChannelPoll::Empty => ProduceResult::Pending,
        }
    }
}

/// The single-shot future bridge.
pub struct FutureProducer<T> {
    resolved: Ghost<Option<T>>,
}

impl<T> FutureProducer<T> {
    /// The value handed to the guest, if the future has completed.
    pub closed spec fn resolved(self) -> Option<T> {
        self.resolved@
    }

    /// Creates a bridge whose future has not completed.
    pub fn new() -> (p: FutureProducer<T>)
        ensures
            p.resolved() is None,
    {
        FutureProducer { resolved: Ghost(None) }
    }

    /// One guest poll: a resolved value completes exactly once; a
    /// dropped producer fails — it is never reported as an empty
    /// success.
    pub fn produce(&mut self, poll: OneshotPoll<T>) -> (r: FuturePoll<T>)
        ensures
            poll matches OneshotPoll::Value(v) ==> r == FuturePoll::<T>::Completed(v) && final(self).resolved() == Some(v),
            poll is Waiting ==> r == FuturePoll::<T>::Pending && final(self).resolved() == old(self).resolved(),
            poll is Gone ==> r == FuturePoll::<T>::Failed && final(self).resolved() == old(self).resolved(),
    {
        match poll {
            OneshotPoll::Value(v) => {
                proof {
                    self.resolved@ = Some(v);
                }
                FuturePoll::Completed(v)
            },
            OneshotPoll::Waiting => FuturePoll::Pending,
            OneshotPoll::Gone => FuturePoll::Failed,
        }
    }
}

/// The byte-oriented stream bridge over chunk-carrying channels: it
/// keeps a cursor into the current chunk and asks for the next native
/// chunk only once the current one is fully drained, so one native
/// chunk can satisfy many small guest reads.
pub struct ChunkfulStreamProducer {
    buffer: Vec<u8>,
    pos: usize,
    delivered: Ghost<Seq<u8>>,
}

impl ChunkfulStreamProducer {
    /// The cursor lies within the current chunk.
    pub closed spec fn well_formed(self) -> bool {
        self.pos <= self.buffer@.len()
    }

    /// Every byte handed to the guest so far, in order.
    pub closed spec fn delivered(self) -> Seq<u8> {
        self.delivered@
    }

    /// The bytes of the current chunk not yet handed out.
    pub closed spec fn buffered(self) -> Seq<u8> {
        self.buffer@.skip(self.pos as int)
    }

    /// Every byte the bridge has accepted from the native side, in
    /// order: what was delivered followed by what is still buffered.
    pub open spec fn accepted(self) -> Seq<u8> {
        self.delivered() + self.buffered()
    }

    /// Creates a bridge with nothing buffered and nothing delivered.
    pub fn new() -> (p: ChunkfulStreamProducer)
        ensures
            p.well_formed(),
            p.delivered() == Seq::<u8>::empty(),
            p.buffered() == Seq::<u8>::empty(),
    {
        let p = ChunkfulStreamProducer { buffer: Vec::new(), pos: 0, delivered: Ghost(Seq::empty()) };
        proof {
            assert(p.buffered() =~= Seq::<u8>::empty());
        }
        p
    }

    /// Whether the current chunk is drained, so the next native chunk
    /// should be requested.
    pub fn needs_chunk(&self) -> (r: bool)
        requires
            self.well_formed(),
        ensures
            r == (self.buffered().len() == 0),
    {
        self.pos == self.buffer.len()
    }

    /// Accepts the next native chunk.  Only a drained bridge accepts
    /// one, so no byte is ever skipped or reordered.
    pub fn accept_chunk(&mut self, chunk: Vec<u8>)
        requires
            old(self).well_formed(),
            old(self).buffered().len() == 0,
        ensures
            final(self).well_formed(),
            final(self).delivered() == old(self).delivered(),
            final(self).buffered() == chunk@,
    {
        self.buffer = chunk;
        self.pos = 0;
        proof {
            assert(self.buffered() =~= self.buffer@);
        }
    }

    /// Hands out up to `max` buffered bytes, advancing the cursor.
    ///
    /// The bytes handed out are exactly the next bytes of the current
    /// chunk, so over any run the delivered bytes are a prefix of the
    /// accepted bytes: every byte once, in order.
    pub fn read_bytes(&mut self, max: usize) -> (r: Vec<u8>)
        requires
            old(self).well_formed(),
        ensures
            final(self).well_formed(),
            r@.len() == vstd::math::min(max as int, old(self).buffered().len() as int),
            r@ == old(self).buffered().take(r@.len() as int),
            final(self).buffered() == old(self).buffered().skip(r@.len() as int),
            final(self).delivered() == old(self).delivered() + r@,
            final(self).accepted() == old(self).accepted(),
    {
        let available = self.buffer.len() - self.pos;
        let k: usize = if max < available {
            max
        } else {
            available
        };
        let mut out: Vec<u8> = Vec::new();
        let mut j: usize = 0;
        while j < k
            invariant
                old(self).well_formed(),
                self == old(self),
                self.buffer@.len() <= usize::MAX,
                k <= self.buffer@.len() - self.pos,
                j <= k,
                out@ =~= self.buffer@.subrange(self.pos as int, self.pos + j as int),
            decreases k - j,
        {
            out.push(self.buffer[self.pos + j]);
            j += 1;
            proof {
                assert(out@ =~= self.buffer@.subrange(self.pos as int, self.pos + j as int));
            }
        }
        self.pos = self.pos + k;
        proof {
            self.delivered@ = self.delivered@ + out@;
            assert(out@ =~= old(self).buffered().take(k as int));
            assert(self.buffered() =~= old(self).buffered().skip(k as int));
            assert(self.accepted() =~= old(self).accepted());
        }
        out
    }
}


/// Exactly-once, in-order delivery: a run of three polls that found
/// the items `a`, `b`, `c` ready delivers exactly `a`, `b`, `c`, in
/// that order, with no duplication and no loss; by the contract of
/// the produce step a subsequent poll of the closed channel reports
/// `Dropped` and delivers nothing further.
pub proof fn lemma_stream_delivers_in_order<T>(
    d0: Seq<T>,
    d1: Seq<T>,
    d2: Seq<T>,
    d3: Seq<T>,
    a: T,
    b: T,
    c: T,
)
    requires
        d1 == d0.push(a),
        d2 == d1.push(b),
        d3 == d2.push(c),
    ensures
        d3 == d0 + seq![a, b, c],
{
    assert(d3 =~= d0 + seq![a, b, c]);
}

} // verus!
