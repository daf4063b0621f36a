use vstd::prelude::*;

use crate::received_packet::{OutcomeModel, ReceivedPacket};

verus! {

/// The mathematical content of the outcome queue: the pending outcomes in
/// arrival order, and whether each side is still attached.
#[verifier::ext_equal]
pub struct QueueModel {
    pub items: Seq<OutcomeModel>,
    pub producer_live: bool,
    pub consumer_live: bool,
}

/// What one non-blocking receive yields.
#[verifier::ext_equal]
pub enum RecvModel {
    Packet(OutcomeModel),
    Empty,
    Disconnected,
}

/// What one non-blocking receive hands the consumer: the oldest pending
/// outcome, or nothing yet, or the observation that the producer side is
/// gone and nothing more will come.
#[derive(Debug, Clone)]
pub enum RecvResult {
    Packet(ReceivedPacket),
    Empty,
    Disconnected,
}

impl View for RecvResult {
    type V = RecvModel;

    open spec fn view(&self) -> RecvModel {
        match self {
            RecvResult::Packet(p) => RecvModel::Packet(p@),
            RecvResult::Empty => RecvModel::Empty,
            RecvResult::Disconnected => RecvModel::Disconnected,
        }
    }
}

/// The ordered queue carrying classified outcomes from producers to the
/// consumer. Producers only enqueue; the consumer only dequeues; outcomes
/// leave in the order they arrived, none lost and none duplicated.
pub struct OutcomeQueue {
    items: Vec<ReceivedPacket>,
    producer_live: bool,
    consumer_live: bool,
}

impl View for OutcomeQueue {
    type V = QueueModel;

    closed spec fn view(&self) -> QueueModel {
        QueueModel {
            items: Seq::new(self.items@.len(), |i: int| self.items@[i]@),
            producer_live: self.producer_live,
            consumer_live: self.consumer_live,
        }
    }
}

/// How one non-blocking receive acts on the queue: the oldest outcome leaves
/// first; an empty queue reports empty while the producer is attached and
/// disconnected once it is gone.
pub open spec fn spec_recv(q: QueueModel) -> (QueueModel, RecvModel) {
    if q.items.len() > 0 {
        (
            QueueModel { items: q.items.drop_first(), ..q },
            RecvModel::Packet(q.items[0]),
        )
    } else if q.producer_live {
        (q, RecvModel::Empty)
    } else {
        (q, RecvModel::Disconnected)
    }
}

/// Everything a drain yields, receive after receive, until the first
/// non-packet answer.
pub open spec fn drain_seq(q: QueueModel) -> Seq<RecvModel>
    decreases q.items.len(),
{
    if q.items.len() == 0 {
        seq![spec_recv(q).1]
    } else {
        seq![spec_recv(q).1] + drain_seq(spec_recv(q).0)
    }
}

impl OutcomeQueue {
    /// A fresh queue with both sides attached and nothing pending.
    pub fn new() -> (q: OutcomeQueue)
        ensures
            q@ == (QueueModel {
                items: Seq::<OutcomeModel>::empty(),
                producer_live: true,
                consumer_live: true,
            }),
    {
        let q = OutcomeQueue { items: Vec::new(), producer_live: true, consumer_live: true };
        assert(q@ =~= QueueModel {
            items: Seq::<OutcomeModel>::empty(),
            producer_live: true,
            consumer_live: true,
        });
        q
    }

    /// Enqueues one outcome. Fails, leaving the queue unchanged, exactly
    /// when the consumer side is gone.
    pub fn send(&mut self, p: ReceivedPacket) -> (ok: bool)
        ensures
            ok == old(self)@.consumer_live,
            ok ==> final(self)@ == (QueueModel { items: old(self)@.items.push(p@), ..old(self)@ }),
            !ok ==> final(self)@ == old(self)@,
    {
        if !self.consumer_live {
            assert(self@ =~= old(self)@);
            return false;
        }
        self.items.push(p);
        assert(self@ =~= QueueModel { items: old(self)@.items.push(p@), ..old(self)@ });
        true
    }

    /// One non-blocking receive, as `spec_recv` describes it: never waits,
    /// and tells the producer side's disconnection apart from emptiness.
    pub fn try_recv(&mut self) -> (r: RecvResult)
        ensures
            final(self)@ == spec_recv(old(self)@).0,
            r@ == spec_recv(old(self)@).1,
    {
        if self.items.len() > 0 {
            let p = self.items.remove(0);
            assert(self@.items =~= old(self)@.items.drop_first());
            assert(self@ =~= spec_recv(old(self)@).0);
            RecvResult::Packet(p)
        } else if self.producer_live {
            assert(self@ =~= old(self)@);
            RecvResult::Empty
        } else {
            assert(self@ =~= old(self)@);
            RecvResult::Disconnected
        }
    }

    /// The producer detaches: nothing more will be enqueued, and the
    /// consumer will observe the disconnection after draining.
    pub fn close_producer(&mut self)
        ensures
            final(self)@ == (QueueModel { producer_live: false, ..old(self)@ }),
    {
        self.producer_live = false;
        assert(self@ =~= QueueModel { producer_live: false, ..old(self)@ });
    }

    /// The consumer detaches: every later send fails.
    pub fn close_consumer(&mut self)
        ensures
            final(self)@ == (QueueModel { consumer_live: false, ..old(self)@ }),
    {
        self.consumer_live = false;
        assert(self@ =~= QueueModel { consumer_live: false, ..old(self)@ });
    }
}

/// Draining after the producer has disconnected yields every previously
/// enqueued outcome, in arrival order and exactly once, before the first
/// and only disconnection answer.
pub proof fn lemma_drain_after_disconnect(q: QueueModel)
    requires
        !q.producer_live,
    ensures
        drain_seq(q) == q.items.map_values(|o: OutcomeModel| RecvModel::Packet(o)).push(
            RecvModel::Disconnected,
        ),
    decreases q.items.len(),
{
    let mapped = q.items.map_values(|o: OutcomeModel| RecvModel::Packet(o));
    if q.items.len() == 0 {
        assert(drain_seq(q) =~= mapped.push(RecvModel::Disconnected));
    } else {
        let (q2, r) = spec_recv(q);
        lemma_drain_after_disconnect(q2);
        assert(r == RecvModel::Packet(q.items[0]));
        assert(q2.items =~= q.items.drop_first());
        assert(q2.items.map_values(|o: OutcomeModel| RecvModel::Packet(o)) =~= mapped.drop_first());
        assert(drain_seq(q) =~= mapped.push(RecvModel::Disconnected));
    }
}

} // verus!
