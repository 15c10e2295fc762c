use vstd::prelude::*;

use crate::peripheral::{IdModel, PeripheralId};
use crate::properties::{bytes_entries, copy_entries_u128, copy_entries_u16, copy_uuids};

verus! {

/// A notification about the registry; it carries an identity and a light
/// payload, and consumers query the registry for current state.
#[derive(Debug)]
pub enum CentralEvent {
    DeviceDiscovered(PeripheralId),
    DeviceUpdated(PeripheralId),
    DeviceConnected(PeripheralId),
    DeviceDisconnected(PeripheralId),
    ManufacturerDataAdvertisement(PeripheralId, Vec<(u16, Vec<u8>)>),
    ServiceDataAdvertisement(PeripheralId, Vec<(u128, Vec<u8>)>),
    ServicesAdvertisement(PeripheralId, Vec<u128>),
}

/// The mathematical content of a `CentralEvent`.
pub enum EventModel {
    DeviceDiscovered(IdModel),
    DeviceUpdated(IdModel),
    DeviceConnected(IdModel),
    DeviceDisconnected(IdModel),
    ManufacturerDataAdvertisement(IdModel, Seq<(u16, Seq<u8>)>),
    ServiceDataAdvertisement(IdModel, Seq<(u128, Seq<u8>)>),
    ServicesAdvertisement(IdModel, Seq<u128>),
}

impl CentralEvent {
    pub open spec fn view(&self) -> EventModel {
        match self {
            CentralEvent::DeviceDiscovered(id) => EventModel::DeviceDiscovered(id@),
            CentralEvent::DeviceUpdated(id) => EventModel::DeviceUpdated(id@),
            CentralEvent::DeviceConnected(id) => EventModel::DeviceConnected(id@),
            CentralEvent::DeviceDisconnected(id) => EventModel::DeviceDisconnected(id@),
            CentralEvent::ManufacturerDataAdvertisement(id, d) => EventModel::ManufacturerDataAdvertisement(
                id@,
                bytes_entries(d@),
            ),
            CentralEvent::ServiceDataAdvertisement(id, d) => EventModel::ServiceDataAdvertisement(
                id@,
                bytes_entries(d@),
            ),
            CentralEvent::ServicesAdvertisement(id, s) => EventModel::ServicesAdvertisement(id@, s@),
        }
    }
}

impl Clone for CentralEvent {
    fn clone(&self) -> (r: CentralEvent)
        ensures
            r@ == self@,
    {
        match self {
            CentralEvent::DeviceDiscovered(id) => CentralEvent::DeviceDiscovered(id.clone()),
            CentralEvent::DeviceUpdated(id) => CentralEvent::DeviceUpdated(id.clone()),
            CentralEvent::DeviceConnected(id) => CentralEvent::DeviceConnected(id.clone()),
            CentralEvent::DeviceDisconnected(id) => CentralEvent::DeviceDisconnected(id.clone()),
            CentralEvent::ManufacturerDataAdvertisement(id, d) => CentralEvent::ManufacturerDataAdvertisement(
                id.clone(),
                copy_entries_u16(d),
            ),
            CentralEvent::ServiceDataAdvertisement(id, d) => CentralEvent::ServiceDataAdvertisement(
                id.clone(),
                copy_entries_u128(d),
            ),
            CentralEvent::ServicesAdvertisement(id, s) => CentralEvent::ServicesAdvertisement(
                id.clone(),
                copy_uuids(s),
            ),
        }
    }
}

/// What a subscriber's queue holds after one event is delivered to it: the
/// event is appended, and when the queue is full its oldest event is dropped.
pub open spec fn deliver(q: Seq<EventModel>, e: EventModel, capacity: nat) -> Seq<EventModel> {
    if q.len() < capacity {
        q.push(e)
    } else {
        q.drop_first().push(e)
    }
}

/// What a subscriber's queue holds after events are delivered in order.
pub open spec fn deliver_all(q: Seq<EventModel>, es: Seq<EventModel>, capacity: nat) -> Seq<EventModel>
    decreases es.len(),
{
    if es.len() == 0 {
        q
    } else {
        deliver(deliver_all(q, es.drop_last(), capacity), es.last(), capacity)
    }
}

/// Events as plain values.
pub open spec fn events_view(q: Seq<CentralEvent>) -> Seq<EventModel> {
    q.map_values(|e: CentralEvent| e@)
}

/// A broadcast of events to independent subscribers. Each subscriber has
/// its own bounded queue; emitting never blocks and, when a queue is full,
/// drops that subscriber's oldest unread event.
#[derive(Debug)]
pub struct EventBus {
    /// One queue of unread events per subscriber, oldest first.
    pub queues: Vec<std::collections::VecDeque<CentralEvent>>,
    /// The most events a queue holds.
    pub capacity: usize,
}

impl EventBus {
    /// Each subscriber's unread events, oldest first.
    pub open spec fn view(&self) -> Seq<Seq<EventModel>> {
        Seq::new(self.queues@.len(), |i: int| events_view(self.queues@[i]@))
    }

    /// The capacity is positive and no queue exceeds it.
    pub open spec fn wf(&self) -> bool {
        &&& self.capacity > 0
        &&& forall|i: int| 0 <= i < self.queues@.len() ==> #[trigger] self.queues@[i]@.len() <= self.capacity
    }

    /// A bus with no subscribers whose queues hold up to `capacity` events.
    pub fn new(capacity: usize) -> (r: EventBus)
        requires
            capacity > 0,
        ensures
            r.wf(),
            r@.len() == 0,
            r.capacity == capacity,
    {
        EventBus { queues: Vec::new(), capacity }
    }

    /// Adds a subscriber, who sees only events emitted from now on; returns its number.
    pub fn subscribe(&mut self) -> (r: usize)
        requires
            old(self).wf(),
        ensures
            final(self).wf(),
            r == old(self)@.len(),
            final(self)@ == old(self)@.push(Seq::empty()),
            final(self).capacity == old(self).capacity,
    {
        let r = self.queues.len();
        self.queues.push(std::collections::VecDeque::new());
        assert(events_view(self.queues@[r as int]@) =~= Seq::empty());
        assert(self@ =~= old(self)@.push(Seq::empty()));
        r
    }

    /// Delivers an event to every subscriber.
    pub fn emit(&mut self, e: CentralEvent)
        requires
            old(self).wf(),
        ensures
            final(self).wf(),
            final(self).capacity == old(self).capacity,
            final(self)@.len() == old(self)@.len(),
            forall|i: int|
                0 <= i < old(self)@.len() ==> #[trigger] final(self)@[i] == deliver(
                    old(self)@[i],
                    e@,
                    old(self).capacity as nat,
                ),
    {
        let mut i: usize = 0;
        while i < self.queues.len()
            invariant
                i <= self.queues@.len(),
                self.queues@.len() == old(self).queues@.len(),
                self.capacity == old(self).capacity,
                old(self).wf(),
                self.wf(),
                forall|j: int|
                    0 <= j < i ==> #[trigger] self@[j] == deliver(
                        old(self)@[j],
                        e@,
                        self.capacity as nat,
                    ),
                forall|j: int| i <= j < self.queues@.len() ==> #[trigger] self.queues@[j] == old(self).queues@[j],
            decreases self.queues@.len() - i,
        {
            let ghost q0 = self.queues@[i as int]@;
            let ghost before = self@;
            let ghost qs0 = self.queues@;
            if self.queues[i].len() >= self.capacity {
                let _ = self.queues[i].pop_front();
            }
            self.queues[i].push_back(e.clone());
            proof {
                let q1 = self.queues@[i as int]@;
                if q0.len() < self.capacity {
                    assert(q1 =~= q0.push(q1.last()));
                    assert(events_view(q1) =~= events_view(q0).push(e@));
                } else {
                    assert(q1 =~= q0.drop_first().push(q1.last()));
                    assert(events_view(q1) =~= events_view(q0).drop_first().push(e@));
                }
                assert(old(self).queues@[i as int]@ == q0);
                assert(self.queues@.len() == qs0.len());
                assert forall|j: int| 0 <= j < self.queues@.len() && j != i implies #[trigger] self.queues@[j] == qs0[j] by {}
                assert(self@[i as int] == deliver(old(self)@[i as int], e@, self.capacity as nat));
                assert forall|j: int| 0 <= j < i implies #[trigger] self@[j] == deliver(old(self)@[j], e@, self.capacity as nat) by {
                    assert(self@[j] == before[j]);
                }
            }
            i = i + 1;
        }
    }

    /// Takes the oldest unread event of a subscriber, if any.
    pub fn next_event(&mut self, subscriber: usize) -> (r: Option<CentralEvent>)
        requires
            old(self).wf(),
            subscriber < old(self)@.len(),
        ensures
            final(self).wf(),
            final(self).capacity == old(self).capacity,
            old(self)@[subscriber as int].len() == 0 ==> r is None && final(self)@ == old(self)@,
            old(self)@[subscriber as int].len() > 0 ==> r is Some && r->Some_0@ == old(
                self,
            )@[subscriber as int][0] && final(self)@ == old(self)@.update(
                subscriber as int,
                old(self)@[subscriber as int].drop_first(),
            ),
    {
        let r = self.queues[subscriber].pop_front();
        proof {
            let q0 = old(self).queues@[subscriber as int]@;
            let q1 = self.queues@[subscriber as int]@;
            if q0.len() > 0 {
                assert(events_view(q1) =~= events_view(q0).drop_first());
                assert(self@ =~= old(self)@.update(subscriber as int, old(self)@[subscriber as int].drop_first()));
            } else {
                assert(self@ =~= old(self)@);
            }
        }
        r
    }
}

/// A subscriber whose unread backlog leaves room for a run of events
/// receives every one of them, in emission order, after its backlog.
pub proof fn lemma_deliver_all_in_order(q: Seq<EventModel>, es: Seq<EventModel>, capacity: nat)
    requires
        q.len() + es.len() <= capacity,
    ensures
        deliver_all(q, es, capacity) == q + es,
    decreases es.len(),
{
    if es.len() > 0 {
        lemma_deliver_all_in_order(q, es.drop_last(), capacity);
        assert(q + es =~= (q + es.drop_last()).push(es.last()));
    } else {
        assert(q + es =~= q);
    }
}

/// Two subscribers that both subscribed before a run of events, and whose
/// backlogs leave room for it, both receive the whole run in the same order.
pub proof fn lemma_subscribers_receive_same_events(
    q1: Seq<EventModel>,
    q2: Seq<EventModel>,
    es: Seq<EventModel>,
    capacity: nat,
)
    requires
        q1.len() + es.len() <= capacity,
        q2.len() + es.len() <= capacity,
    ensures
        deliver_all(q1, es, capacity).subrange(q1.len() as int, (q1.len() + es.len()) as int) == es,
        deliver_all(q2, es, capacity).subrange(q2.len() as int, (q2.len() + es.len()) as int) == es,
{
    lemma_deliver_all_in_order(q1, es, capacity);
    lemma_deliver_all_in_order(q2, es, capacity);
    assert((q1 + es).subrange(q1.len() as int, (q1.len() + es.len()) as int) =~= es);
    assert((q2 + es).subrange(q2.len() as int, (q2.len() + es.len()) as int) =~= es);
}

} // verus!
