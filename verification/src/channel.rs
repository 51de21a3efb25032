//! The queue between two stages of a pipeline: first in, first out, with
//! an end for the producer and an end for the consumer. Closing an end
//! tells the other stage to stop.

use std::collections::VecDeque;
use vstd::prelude::*;

verus! {

/// What a consumer gets when it asks for the next item.
#[derive(Debug, PartialEq, Eq)]
pub enum Received<T> {
    /// The item that was sent first of those not yet received.
    Item(T),
    /// Nothing is queued, and the producer may still send.
    Empty,
    /// Nothing is queued and nothing will come.
    Closed,
}

/// Mathematical model of a channel: what is queued, which ends are open,
/// and everything that was ever sent and received, in order.
pub struct ChannelModel<T> {
    pub queue: Seq<T>,
    pub sender_open: bool,
    pub receiver_open: bool,
    pub sent: Seq<T>,
    pub delivered: Seq<T>,
}

impl<T> ChannelModel<T> {
    /// The invariant of a channel: what was received is the beginning of
    /// what was sent, in the same order; while the consumer listens, the
    /// queue holds exactly the rest.
    pub open spec fn wf(self) -> bool {
        &&& self.delivered.len() + self.queue.len() <= self.sent.len()
        &&& self.delivered + self.queue == self.sent.subrange(
            0,
            (self.delivered.len() + self.queue.len()) as int,
        )
        &&& self.receiver_open ==> self.delivered.len() + self.queue.len() == self.sent.len()
        &&& !self.receiver_open ==> self.queue.len() == 0
    }

    /// A new channel: nothing queued, both ends open.
    pub open spec fn fresh() -> ChannelModel<T> {
        ChannelModel {
            queue: Seq::empty(),
            sender_open: true,
            receiver_open: true,
            sent: Seq::empty(),
            delivered: Seq::empty(),
        }
    }

    /// True if an item sent now is taken.
    pub open spec fn accepts(self) -> bool {
        self.sender_open && self.receiver_open
    }

    /// The channel after `item` was sent and taken.
    pub open spec fn after_send(self, item: T) -> ChannelModel<T> {
        ChannelModel {
            queue: self.queue.push(item),
            sender_open: self.sender_open,
            receiver_open: self.receiver_open,
            sent: self.sent.push(item),
            delivered: self.delivered,
        }
    }

    /// True if the consumer gets an item now.
    pub open spec fn has_item(self) -> bool {
        self.receiver_open && self.queue.len() > 0
    }

    /// The channel after the consumer got the first queued item.
    pub open spec fn after_receive(self) -> ChannelModel<T> {
        ChannelModel {
            queue: self.queue.subrange(1, self.queue.len() as int),
            sender_open: self.sender_open,
            receiver_open: self.receiver_open,
            sent: self.sent,
            delivered: self.delivered.push(self.queue[0]),
        }
    }

    /// The channel after the producer left.
    pub open spec fn sender_closed(self) -> ChannelModel<T> {
        ChannelModel {
            queue: self.queue,
            sender_open: false,
            receiver_open: self.receiver_open,
            sent: self.sent,
            delivered: self.delivered,
        }
    }

    /// The channel after the consumer left: what was queued is dropped.
    pub open spec fn receiver_closed(self) -> ChannelModel<T> {
        ChannelModel {
            queue: Seq::empty(),
            sender_open: self.sender_open,
            receiver_open: false,
            sent: self.sent,
            delivered: self.delivered,
        }
    }
}

impl<T> ChannelModel<T> {
    /// The channel with every item seen through `f`.
    pub open spec fn map<U>(self, f: spec_fn(T) -> U) -> ChannelModel<U> {
        ChannelModel {
            queue: self.queue.map_values(f),
            sender_open: self.sender_open,
            receiver_open: self.receiver_open,
            sent: self.sent.map_values(f),
            delivered: self.delivered.map_values(f),
        }
    }
}

/// Seeing the items of a channel through a function keeps its invariant
/// and goes along with every operation.
pub proof fn lemma_map_channel<T, U>(m: ChannelModel<T>, f: spec_fn(T) -> U)
    requires
        m.wf(),
    ensures
        m.map(f).wf(),
        m.map(f).accepts() == m.accepts(),
        m.map(f).has_item() == m.has_item(),
        forall|item: T| #[trigger] m.after_send(item).map(f) == m.map(f).after_send(f(item)),
        m.queue.len() > 0 ==> m.after_receive().map(f) == m.map(f).after_receive(),
        m.sender_closed().map(f) == m.map(f).sender_closed(),
        m.receiver_closed().map(f) == m.map(f).receiver_closed(),
{
    let n = (m.delivered.len() + m.queue.len()) as int;
    assert(m.map(f).delivered + m.map(f).queue =~= (m.delivered + m.queue).map_values(f));
    assert(m.map(f).sent.subrange(0, n) =~= m.sent.subrange(0, n).map_values(f));
    assert forall|item: T| #[trigger]
        m.after_send(item).map(f) == m.map(f).after_send(f(item)) by {
        assert(m.queue.push(item).map_values(f) =~= m.queue.map_values(f).push(f(item)));
        assert(m.sent.push(item).map_values(f) =~= m.sent.map_values(f).push(f(item)));
    }
    if m.queue.len() > 0 {
        assert(m.queue.subrange(1, m.queue.len() as int).map_values(f) =~= m.queue.map_values(
            f,
        ).subrange(1, m.queue.len() as int));
        assert(m.delivered.push(m.queue[0]).map_values(f) =~= m.delivered.map_values(f).push(
            f(m.queue[0]),
        ));
    }
    assert(m.receiver_closed().map(f).queue =~= m.map(f).receiver_closed().queue);
}

/// A first-in-first-out queue between a producer and a consumer. The
/// queue has no bound: a consumer that falls behind lets it grow.
pub struct PipelineChannel<T> {
    queue: VecDeque<T>,
    sender_open: bool,
    receiver_open: bool,
    sent: Ghost<Seq<T>>,
    delivered: Ghost<Seq<T>>,
}

impl<T> View for PipelineChannel<T> {
    type V = ChannelModel<T>;

    closed spec fn view(&self) -> ChannelModel<T> {
        ChannelModel {
            queue: self.queue@,
            sender_open: self.sender_open,
            receiver_open: self.receiver_open,
            sent: self.sent@,
            delivered: self.delivered@,
        }
    }
}

impl<T> PipelineChannel<T> {
    /// The invariant of a channel.
    pub open spec fn wf(&self) -> bool {
        self@.wf()
    }

    /// A new channel: nothing queued, both ends open.
    pub fn new() -> (channel: PipelineChannel<T>)
        ensures
            channel.wf(),
            channel@ == ChannelModel::<T>::fresh(),
    {
        let channel = PipelineChannel {
            queue: VecDeque::new(),
            sender_open: true,
            receiver_open: true,
            sent: Ghost(Seq::empty()),
            delivered: Ghost(Seq::empty()),
        };
        assert(channel@.delivered + channel@.queue =~= channel@.sent.subrange(0, 0));
        channel
    }

    /// Number of items that are queued.
    pub fn len(&self) -> (n: usize)
        ensures
            n == self@.queue.len(),
    {
        self.queue.len()
    }

    /// True while the producer has not left.
    pub fn sender_is_open(&self) -> (open: bool)
        ensures
            open == self@.sender_open,
    {
        self.sender_open
    }

    /// True while the consumer has not left.
    pub fn receiver_is_open(&self) -> (open: bool)
        ensures
            open == self@.receiver_open,
    {
        self.receiver_open
    }

    /// Queues `item` behind everything sent before. If either end is
    /// closed the item is handed back and nothing changes.
    pub fn send(&mut self, item: T) -> (taken: Result<(), T>)
        requires
            old(self).wf(),
        ensures
            final(self).wf(),
            match taken {
                Ok(_) => old(self)@.accepts() && final(self)@ == old(self)@.after_send(item),
                Err(back) => !old(self)@.accepts() && back == item && final(self)@ == old(self)@,
            },
    {
        if !(self.sender_open && self.receiver_open) {
            return Err(item);
        }
        let ghost it = item;
        self.queue.push_back(item);
        self.sent = Ghost(self.sent@.push(it));
        proof {
            let m = self@;
            let n = m.delivered.len() + m.queue.len();
            assert(m.delivered + m.queue =~= m.sent.subrange(0, n as int)) by {
                let o = old(self)@;
                assert(o.delivered + o.queue == o.sent.subrange(0, o.sent.len() as int));
                assert(o.sent.subrange(0, o.sent.len() as int) =~= o.sent);
                assert(m.sent.subrange(0, n as int) =~= m.sent);
                assert(m.delivered + m.queue =~= (o.delivered + o.queue).push(it));
            }
        }
        Ok(())
    }

    /// Takes the item that was sent first of those not yet received.
    /// Without a queued item, tells whether one may still come.
    pub fn receive(&mut self) -> (next: Received<T>)
        requires
            old(self).wf(),
        ensures
            final(self).wf(),
            match next {
                Received::Item(item) => {
                    &&& old(self)@.has_item()
                    &&& item == old(self)@.queue[0]
                    &&& item == old(self)@.sent[old(self)@.delivered.len() as int]
                    &&& final(self)@ == old(self)@.after_receive()
                },
                Received::Empty => {
                    &&& !old(self)@.has_item()
                    &&& old(self)@.receiver_open
                    &&& old(self)@.sender_open
                    &&& final(self)@ == old(self)@
                },
                Received::Closed => {
                    &&& !old(self)@.has_item()
                    &&& !(old(self)@.receiver_open && old(self)@.sender_open)
                    &&& final(self)@ == old(self)@
                },
            },
    {
        if !self.receiver_open {
            return Received::Closed;
        }
        match self.queue.pop_front() {
            Some(item) => {
                self.delivered = Ghost(self.delivered@.push(item));
                proof {
                    let o = old(self)@;
                    let m = self@;
                    let n = o.delivered.len() + o.queue.len();
                    assert(o.sent.subrange(0, n as int)[o.delivered.len() as int] == (o.delivered
                        + o.queue)[o.delivered.len() as int]);
                    assert(m.delivered + m.queue =~= o.delivered + o.queue);
                }
                Received::Item(item)
            },
            None => {
                assert(self.queue@ =~= old(self).queue@);
                if self.sender_open {
                    Received::Empty
                } else {
                    Received::Closed
                }
            },
        }
    }

    /// The producer leaves. What is queued can still be received.
    pub fn close_sender(&mut self)
        requires
            old(self).wf(),
        ensures
            final(self).wf(),
            final(self)@ == old(self)@.sender_closed(),
    {
        self.sender_open = false;
    }

    /// The consumer leaves. What is queued is dropped, and nothing more
    /// is taken.
    pub fn close_receiver(&mut self)
        requires
            old(self).wf(),
        ensures
            final(self).wf(),
            final(self)@ == old(self)@.receiver_closed(),
    {
        self.receiver_open = false;
        self.queue.clear();
        proof {
            let o = old(self)@;
            let m = self@;
            assert(m.queue =~= Seq::<T>::empty());
            assert(m.delivered + m.queue =~= o.delivered);
            assert(o.delivered =~= (o.delivered + o.queue).subrange(0, o.delivered.len() as int));
            assert(o.sent.subrange(0, (o.delivered.len() + o.queue.len()) as int).subrange(
                0,
                o.delivered.len() as int,
            ) =~= o.sent.subrange(0, o.delivered.len() as int));
        }
    }
}

/// First in, first out: whatever the order of sends and receives, the
/// items received are the first items sent, in the order in which they
/// were sent. None is skipped and none comes twice.
pub proof fn lemma_channel_keeps_order<T>(m: ChannelModel<T>, k: int)
    requires
        m.wf(),
        0 <= k < m.delivered.len(),
    ensures
        m.delivered.len() <= m.sent.len(),
        m.delivered[k] == m.sent[k],
{
    let n = m.delivered.len() + m.queue.len();
    assert((m.delivered + m.queue)[k] == m.sent.subrange(0, n as int)[k]);
}

/// Receiving takes the oldest queued item, which is the first item sent
/// of those not yet received, and keeps the invariant.
pub proof fn lemma_receive_takes_oldest<T>(m: ChannelModel<T>)
    requires
        m.wf(),
        m.has_item(),
    ensures
        m.after_receive().wf(),
        m.after_receive().delivered == m.delivered.push(m.queue[0]),
        m.after_receive().queue.len() == m.queue.len() - 1,
        m.queue[0] == m.sent[m.delivered.len() as int],
{
    let a = m.after_receive();
    let n = m.delivered.len() + m.queue.len();
    assert(a.delivered + a.queue =~= m.delivered + m.queue);
    assert(m.sent.subrange(0, n as int)[m.delivered.len() as int] == (m.delivered
        + m.queue)[m.delivered.len() as int]);
}

/// Sending queues the item behind everything sent before, and keeps the
/// invariant.
pub proof fn lemma_send_queues_last<T>(m: ChannelModel<T>, item: T)
    requires
        m.wf(),
        m.accepts(),
    ensures
        m.after_send(item).wf(),
        m.after_send(item).sent.last() == item,
        m.after_send(item).queue.last() == item,
        m.after_send(item).delivered == m.delivered,
{
    let a = m.after_send(item);
    assert(m.sent.subrange(0, m.sent.len() as int) =~= m.sent);
    assert(a.sent.subrange(0, a.sent.len() as int) =~= a.sent);
    assert(a.delivered + a.queue =~= (m.delivered + m.queue).push(item));
}

} // verus!
