use vstd::prelude::*;

use crate::error::Error;
use crate::events::{deliver, CentralEvent, EventBus, EventModel};
use crate::peripheral::{Characteristic, ConnectionState, IdModel, Peripheral, PeripheralId};
use crate::properties::{
    keeps_observed, keyed_map, lemma_keyed_push, lemma_keyed_update, lemma_merge_never_reverts, merged,
    merged_all, unique_keys, unknown_model, PeripheralProperties, PropertiesModel,
};

verus! {

/// What the registry knows of one peripheral.
pub struct RecordModel {
    pub props: PropertiesModel,
    pub state: ConnectionState,
    pub characteristics: Seq<Characteristic>,
}

/// The record of a peripheral as plain values.
pub open spec fn record_of(p: Peripheral) -> RecordModel {
    RecordModel { props: p.props(), state: p.state, characteristics: p.characteristics@ }
}

/// The registry's records paired with their identities.
pub open spec fn record_entries(s: Seq<Peripheral>) -> Seq<(IdModel, RecordModel)> {
    s.map_values(|p: Peripheral| (p.id@, record_of(p)))
}

/// No two records carry the same identity.
pub open spec fn one_record_per_identity(s: Seq<Peripheral>) -> bool {
    unique_keys(record_entries(s))
}

/// The record of a newly discovered peripheral after its first update.
pub open spec fn first_record(update: PropertiesModel) -> RecordModel {
    RecordModel {
        props: merged(unknown_model(), update),
        state: ConnectionState::Disconnected,
        characteristics: Seq::empty(),
    }
}

/// The records after an observation of `id` with `update`: a new record
/// for an unknown identity, else a merge into the existing one.
pub open spec fn observed(
    records: Map<IdModel, RecordModel>,
    id: IdModel,
    update: PropertiesModel,
) -> Map<IdModel, RecordModel> {
    if records.contains_key(id) {
        records.insert(id, RecordModel { props: merged(records[id].props, update), ..records[id] })
    } else {
        records.insert(id, first_record(update))
    }
}

/// The event that an observation of `id` emits.
pub open spec fn observed_event(records: Map<IdModel, RecordModel>, id: IdModel) -> EventModel {
    if records.contains_key(id) {
        EventModel::DeviceUpdated(id)
    } else {
        EventModel::DeviceDiscovered(id)
    }
}

/// Every subscriber's queue after one more event.
pub open spec fn delivered(queues: Seq<Seq<EventModel>>, e: EventModel, capacity: nat) -> Seq<Seq<EventModel>> {
    Seq::new(queues.len(), |i: int| deliver(queues[i], e, capacity))
}

/// The registry of peripherals of one adapter, with the broadcast of its events.
#[derive(Debug)]
pub struct AdapterManager {
    /// One record per identity.
    pub peripherals: Vec<Peripheral>,
    /// The event broadcast.
    pub events: EventBus,
}

impl AdapterManager {
    /// The records by identity.
    pub open spec fn records(&self) -> Map<IdModel, RecordModel> {
        keyed_map(record_entries(self.peripherals@))
    }

    /// Every subscriber's unread events.
    pub open spec fn queues(&self) -> Seq<Seq<EventModel>> {
        self.events@
    }

    /// At most one record per identity, each well formed, and a well-formed bus.
    pub open spec fn wf(&self) -> bool {
        &&& one_record_per_identity(self.peripherals@)
        &&& forall|i: int| 0 <= i < self.peripherals@.len() ==> (#[trigger] self.peripherals@[i]).wf()
        &&& self.events.wf()
    }

    /// An empty registry whose subscribers' queues hold up to `capacity` events.
    pub fn new(capacity: usize) -> (r: AdapterManager)
        requires
            capacity > 0,
        ensures
            r.wf(),
            r.records() == Map::<IdModel, RecordModel>::empty(),
            r.queues().len() == 0,
            r.events.capacity == capacity,
    {
        let r = AdapterManager { peripherals: Vec::new(), events: EventBus::new(capacity) };
        assert(record_entries(r.peripherals@) =~= Seq::empty());
        r
    }

    fn find(&self, id: &PeripheralId) -> (r: Option<usize>)
        ensures
            match r {
                Some(i) => i < self.peripherals@.len() && self.peripherals@[i as int].id@ == id@,
                None => forall|j: int| 0 <= j < self.peripherals@.len() ==> (#[trigger] self.peripherals@[j]).id@ != id@,
            },
    {
        let mut i: usize = 0;
        while i < self.peripherals.len()
            invariant
                i <= self.peripherals@.len(),
                forall|j: int| 0 <= j < i ==> (#[trigger] self.peripherals@[j]).id@ != id@,
            decreases self.peripherals@.len() - i,
        {
            if self.peripherals[i].id.same_as(id) {
                return Some(i);
            }
            i = i + 1;
        }
        None
    }

    /// The peripheral at `i` is the record of its identity.
    proof fn lemma_found(&self, i: int)
        requires
            self.wf(),
            0 <= i < self.peripherals@.len(),
        ensures
            self.records().contains_key(self.peripherals@[i].id@),
            self.records()[self.peripherals@[i].id@] == record_of(self.peripherals@[i]),
    {
        let s = record_entries(self.peripherals@);
        lemma_keyed_update(s, i, s[i].1);
        assert(s.update(i, (s[i].0, s[i].1)) =~= s);
    }

    /// No record for an identity that no entry carries.
    proof fn lemma_absent(&self, id: IdModel)
        requires
            forall|j: int| 0 <= j < self.peripherals@.len() ==> (#[trigger] self.peripherals@[j]).id@ != id,
        ensures
            !self.records().contains_key(id),
    {
        let s = record_entries(self.peripherals@);
        lemma_keyed_dom(s, id);
        if exists|j: int| 0 <= j < s.len() && (#[trigger] s[j]).0 == id {
            let j = choose|j: int| 0 <= j < s.len() && (#[trigger] s[j]).0 == id;
            assert(self.peripherals@[j].id@ == id);
        }
    }

    /// Records an observation of a peripheral: creates its record on first
    /// sight and emits `DeviceDiscovered`, else merges the update into the
    /// record and emits `DeviceUpdated`. Returns whether it was new.
    pub fn on_device_observed(&mut self, id: PeripheralId, update: &PeripheralProperties) -> (r: bool)
        requires
            old(self).wf(),
        ensures
            final(self).wf(),
            one_record_per_identity(final(self).peripherals@),
            r == !old(self).records().contains_key(id@),
            final(self).records() == observed(old(self).records(), id@, update@),
            final(self).queues() == delivered(
                old(self).queues(),
                observed_event(old(self).records(), id@),
                old(self).events.capacity as nat,
            ),
            final(self).events.capacity == old(self).events.capacity,
    {
        let found = self.find(&id);
        match found {
            Some(i) => {
                proof {
                    self.lemma_found(i as int);
                }
                let ghost s0 = record_entries(self.peripherals@);
                let ghost p0 = self.peripherals@[i as int];
                assert(p0.wf());
                self.peripherals[i].update_properties(update);
                proof {
                    let p1 = self.peripherals@[i as int];
                    assert(record_entries(self.peripherals@) =~= s0.update(i as int, (s0[i as int].0, record_of(p1))));
                    lemma_keyed_update(s0, i as int, record_of(p1));
                    assert(record_of(p1) == (RecordModel { props: merged(record_of(p0).props, update@), ..record_of(p0) }));
                    assert forall|j: int| 0 <= j < self.peripherals@.len() implies (#[trigger] self.peripherals@[j]).wf() by {
                        if j != i {
                            assert(self.peripherals@[j] == old(self).peripherals@[j]);
                        }
                    }
                }
                self.events.emit(CentralEvent::DeviceUpdated(id));
                assert(self.queues() =~= delivered(old(self).queues(), observed_event(old(self).records(), id@), old(self).events.capacity as nat));
                false
            },
            None => {
                proof {
                    self.lemma_absent(id@);
                }
                let ghost s0 = record_entries(self.peripherals@);
                let mut p = Peripheral::new(id.clone());
                p.update_properties(update);
                self.peripherals.push(p);
                proof {
                    let p1 = self.peripherals@.last();
                    assert(record_entries(self.peripherals@) =~= s0.push((id@, record_of(p1))));
                    lemma_keyed_push(s0, (id@, record_of(p1)));
                    assert(p1.characteristics@ =~= Seq::<Characteristic>::empty());
                    assert(record_of(p1) == first_record(update@));
                    let t = record_entries(self.peripherals@);
                    assert forall|a: int, b: int| 0 <= a < b < t.len() implies #[trigger] t[a].0 != #[trigger] t[b].0 by {
                        if b < s0.len() {
                            assert(t[a] == s0[a] && t[b] == s0[b]);
                        } else {
                            assert(old(self).peripherals@[a].id@ != id@);
                        }
                    }
                    assert forall|j: int| 0 <= j < self.peripherals@.len() implies (#[trigger] self.peripherals@[j]).wf() by {
                        if j < old(self).peripherals@.len() {
                            assert(self.peripherals@[j] == old(self).peripherals@[j]);
                        }
                    }
                }
                self.events.emit(CentralEvent::DeviceDiscovered(id));
                assert(self.queues() =~= delivered(old(self).queues(), observed_event(old(self).records(), id@), old(self).events.capacity as nat));
                true
            },
        }
    }

    /// After the peripheral at `i` changed in place, keeping its identity,
    /// the records change at that identity alone.
    proof fn lemma_changed_at(old_m: &AdapterManager, new_m: &AdapterManager, i: int)
        requires
            old_m.wf(),
            0 <= i < old_m.peripherals@.len(),
            new_m.peripherals@ == old_m.peripherals@.update(i, new_m.peripherals@[i]),
            new_m.peripherals@[i].id@ == old_m.peripherals@[i].id@,
            new_m.peripherals@[i].wf(),
            new_m.events.wf(),
        ensures
            new_m.wf(),
            new_m.records() == old_m.records().insert(old_m.peripherals@[i].id@, record_of(new_m.peripherals@[i])),
    {
        let s0 = record_entries(old_m.peripherals@);
        let p1 = new_m.peripherals@[i];
        assert(record_entries(new_m.peripherals@) =~= s0.update(i, (s0[i].0, record_of(p1))));
        lemma_keyed_update(s0, i, record_of(p1));
        assert forall|j: int| 0 <= j < new_m.peripherals@.len() implies (#[trigger] new_m.peripherals@[j]).wf() by {
            if j != i {
                assert(new_m.peripherals@[j] == old_m.peripherals@[j]);
            }
        }
    }

    /// Records a connection or disconnection reported by the backend and
    /// emits `DeviceConnected` or `DeviceDisconnected`; fails with
    /// `DeviceNotFound`, changing nothing, for an unknown identity.
    pub fn on_connection_changed(&mut self, id: &PeripheralId, connected: bool) -> (r: Result<(), Error>)
        requires
            old(self).wf(),
        ensures
            final(self).wf(),
            final(self).events.capacity == old(self).events.capacity,
            r is Ok <==> old(self).records().contains_key(id@),
            r is Err ==> r->Err_0 is DeviceNotFound && final(self).records() == old(self).records()
                && final(self).queues() == old(self).queues(),
            r is Ok ==> final(self).records() == old(self).records().insert(
                id@,
                RecordModel {
                    state: if connected {
                        ConnectionState::Connected
                    } else {
                        ConnectionState::Disconnected
                    },
                    ..old(self).records()[id@]
                },
            ) && final(self).queues() == delivered(
                old(self).queues(),
                if connected {
                    EventModel::DeviceConnected(id@)
                } else {
                    EventModel::DeviceDisconnected(id@)
                },
                old(self).events.capacity as nat,
            ),
    {
        match self.find(id) {
            None => {
                proof {
                    self.lemma_absent(id@);
                }
                Err(Error::DeviceNotFound)
            },
            Some(i) => {
                proof {
                    self.lemma_found(i as int);
                }
                let ghost m0 = *self;
                self.peripherals[i].set_connected(connected);
                proof {
                    Self::lemma_changed_at(&m0, self, i as int);
                }
                if connected {
                    self.events.emit(CentralEvent::DeviceConnected(id.clone()));
                } else {
                    self.events.emit(CentralEvent::DeviceDisconnected(id.clone()));
                }
                assert(self.queues() =~= delivered(
                    old(self).queues(),
                    if connected {
                        EventModel::DeviceConnected(id@)
                    } else {
                        EventModel::DeviceDisconnected(id@)
                    },
                    old(self).events.capacity as nat,
                ));
                Ok(())
            },
        }
    }

    /// Starts connecting `id`. Returns whether the backend must be asked to
    /// connect: not when it is already connected. Fails with
    /// `DeviceNotFound`, changing nothing, for an unknown identity.
    pub fn begin_connect(&mut self, id: &PeripheralId) -> (r: Result<bool, Error>)
        requires
            old(self).wf(),
        ensures
            final(self).wf(),
            final(self).events == old(self).events,
            r is Ok <==> old(self).records().contains_key(id@),
            r is Err ==> r->Err_0 is DeviceNotFound && final(self).records() == old(self).records(),
            r is Ok ==> r->Ok_0 == (old(self).records()[id@].state != ConnectionState::Connected)
                && final(self).records() == old(self).records().insert(
                id@,
                RecordModel {
                    state: if r->Ok_0 {
                        ConnectionState::Connecting
                    } else {
                        ConnectionState::Connected
                    },
                    ..old(self).records()[id@]
                },
            ),
    {
        match self.find(id) {
            None => {
                proof {
                    self.lemma_absent(id@);
                }
                Err(Error::DeviceNotFound)
            },
            Some(i) => {
                proof {
                    self.lemma_found(i as int);
                }
                let ghost m0 = *self;
                let needed = self.peripherals[i].begin_connect();
                proof {
                    Self::lemma_changed_at(&m0, self, i as int);
                }
                Ok(needed)
            },
        }
    }

    /// Completes connecting `id` with the backend's outcome: on success the
    /// peripheral is connected and `DeviceConnected` is emitted; on failure
    /// it is disconnected, nothing is emitted and the error is handed back.
    /// Fails with `DeviceNotFound`, changing nothing, for an unknown identity.
    pub fn finish_connect(&mut self, id: &PeripheralId, outcome: Result<(), Error>) -> (r: Result<(), Error>)
        requires
            old(self).wf(),
        ensures
            final(self).wf(),
            final(self).events.capacity == old(self).events.capacity,
            !old(self).records().contains_key(id@) ==> r is Err && r->Err_0 is DeviceNotFound
                && final(self).records() == old(self).records() && final(self).queues() == old(self).queues(),
            old(self).records().contains_key(id@) ==> r == outcome && final(self).records() == old(
                self,
            ).records().insert(
                id@,
                RecordModel {
                    state: if outcome is Ok {
                        ConnectionState::Connected
                    } else {
                        ConnectionState::Disconnected
                    },
                    ..old(self).records()[id@]
                },
            ) && final(self).queues() == if outcome is Ok {
                delivered(old(self).queues(), EventModel::DeviceConnected(id@), old(self).events.capacity as nat)
            } else {
                old(self).queues()
            },
    {
        match self.find(id) {
            None => {
                proof {
                    self.lemma_absent(id@);
                }
                Err(Error::DeviceNotFound)
            },
            Some(i) => {
                proof {
                    self.lemma_found(i as int);
                }
                let ghost m0 = *self;
                let r = self.peripherals[i].finish_connect(outcome);
                proof {
                    Self::lemma_changed_at(&m0, self, i as int);
                }
                if r.is_ok() {
                    self.events.emit(CentralEvent::DeviceConnected(id.clone()));
                    assert(self.queues() =~= delivered(
                        old(self).queues(),
                        EventModel::DeviceConnected(id@),
                        old(self).events.capacity as nat,
                    ));
                }
                r
            },
        }
    }

    /// Starts disconnecting `id`. Returns whether the backend must be asked
    /// to disconnect: not when it is already disconnected. Fails with
    /// `DeviceNotFound`, changing nothing, for an unknown identity.
    pub fn begin_disconnect(&mut self, id: &PeripheralId) -> (r: Result<bool, Error>)
        requires
            old(self).wf(),
        ensures
            final(self).wf(),
            final(self).events == old(self).events,
            r is Ok <==> old(self).records().contains_key(id@),
            r is Err ==> r->Err_0 is DeviceNotFound && final(self).records() == old(self).records(),
            r is Ok ==> r->Ok_0 == (old(self).records()[id@].state != ConnectionState::Disconnected)
                && final(self).records() == old(self).records().insert(
                id@,
                RecordModel {
                    state: if r->Ok_0 {
                        ConnectionState::Disconnecting
                    } else {
                        ConnectionState::Disconnected
                    },
                    ..old(self).records()[id@]
                },
            ),
    {
        match self.find(id) {
            None => {
                proof {
                    self.lemma_absent(id@);
                }
                Err(Error::DeviceNotFound)
            },
            Some(i) => {
                proof {
                    self.lemma_found(i as int);
                }
                let ghost m0 = *self;
                let needed = self.peripherals[i].begin_disconnect();
                proof {
                    Self::lemma_changed_at(&m0, self, i as int);
                }
                Ok(needed)
            },
        }
    }

    /// Stores the characteristics that a discovery on `id` found; fails with
    /// `DeviceNotFound`, changing nothing, for an unknown identity.
    pub fn set_characteristics(&mut self, id: &PeripheralId, characteristics: Vec<Characteristic>) -> (r: Result<(), Error>)
        requires
            old(self).wf(),
        ensures
            final(self).wf(),
            final(self).events == old(self).events,
            r is Ok <==> old(self).records().contains_key(id@),
            r is Err ==> r->Err_0 is DeviceNotFound && final(self).records() == old(self).records(),
            r is Ok ==> final(self).records() == old(self).records().insert(
                id@,
                RecordModel { characteristics: characteristics@, ..old(self).records()[id@] },
            ),
    {
        match self.find(id) {
            None => {
                proof {
                    self.lemma_absent(id@);
                }
                Err(Error::DeviceNotFound)
            },
            Some(i) => {
                proof {
                    self.lemma_found(i as int);
                }
                let ghost m0 = *self;
                self.peripherals[i].set_characteristics(characteristics);
                proof {
                    Self::lemma_changed_at(&m0, self, i as int);
                }
                Ok(())
            },
        }
    }

    /// The peripheral with identity `id`; fails with `DeviceNotFound` if none was observed.
    pub fn peripheral(&self, id: &PeripheralId) -> (r: Result<&Peripheral, Error>)
        requires
            self.wf(),
        ensures
            r is Ok <==> self.records().contains_key(id@),
            r is Err ==> r->Err_0 is DeviceNotFound,
            r is Ok ==> r->Ok_0.id@ == id@ && r->Ok_0.wf() && record_of(*r->Ok_0) == self.records()[id@],
    {
        match self.find(id) {
            None => {
                proof {
                    self.lemma_absent(id@);
                }
                Err(Error::DeviceNotFound)
            },
            Some(i) => {
                proof {
                    self.lemma_found(i as int);
                }
                Ok(&self.peripherals[i])
            },
        }
    }

    /// The identities of all peripherals, each once.
    pub fn peripherals(&self) -> (r: Vec<PeripheralId>)
        requires
            self.wf(),
        ensures
            forall|x: IdModel| self.records().contains_key(x) <==> exists|i: int| 0 <= i < r@.len() && #[trigger] r@[i]@ == x,
            forall|i: int, j: int| 0 <= i < j < r@.len() ==> #[trigger] r@[i]@ != #[trigger] r@[j]@,
    {
        let mut r: Vec<PeripheralId> = Vec::new();
        let mut i: usize = 0;
        while i < self.peripherals.len()
            invariant
                i <= self.peripherals@.len(),
                r@.len() == i,
                forall|j: int| 0 <= j < i ==> #[trigger] r@[j]@ == self.peripherals@[j].id@,
            decreases self.peripherals@.len() - i,
        {
            r.push(self.peripherals[i].id.clone());
            i = i + 1;
        }
        proof {
            let s = record_entries(self.peripherals@);
            assert forall|x: IdModel| self.records().contains_key(x) <==> exists|i: int| 0 <= i < r@.len() && #[trigger] r@[i]@ == x by {
                lemma_keyed_dom(s, x);
                if self.records().contains_key(x) {
                    let k = choose|k: int| 0 <= k < s.len() && s[k].0 == x;
                    assert(r@[k]@ == x);
                }
                if exists|i: int| 0 <= i < r@.len() && #[trigger] r@[i]@ == x {
                    let k = choose|k: int| 0 <= k < r@.len() && #[trigger] r@[k]@ == x;
                    assert(s[k].0 == x);
                }
            }
            assert forall|a: int, b: int| 0 <= a < b < r@.len() implies #[trigger] r@[a]@ != #[trigger] r@[b]@ by {
                assert(s[a].0 != s[b].0);
            }
        }
        r
    }

    /// Adds an event subscriber, who sees only events emitted from now on.
    pub fn subscribe(&mut self) -> (r: usize)
        requires
            old(self).wf(),
        ensures
            final(self).wf(),
            r == old(self).queues().len(),
            final(self).queues() == old(self).queues().push(Seq::empty()),
            final(self).records() == old(self).records(),
            final(self).events.capacity == old(self).events.capacity,
    {
        self.events.subscribe()
    }

    /// Takes the oldest unread event of a subscriber, if any.
    pub fn next_event(&mut self, subscriber: usize) -> (r: Option<CentralEvent>)
        requires
            old(self).wf(),
            subscriber < old(self).queues().len(),
        ensures
            final(self).wf(),
            final(self).records() == old(self).records(),
            final(self).events.capacity == old(self).events.capacity,
            old(self).queues()[subscriber as int].len() == 0 ==> r is None && final(self).queues() == old(self).queues(),
            old(self).queues()[subscriber as int].len() > 0 ==> r is Some && r->Some_0@ == old(
                self,
            ).queues()[subscriber as int][0] && final(self).queues() == old(self).queues().update(
                subscriber as int,
                old(self).queues()[subscriber as int].drop_first(),
            ),
    {
        self.events.next_event(subscriber)
    }
}

/// The records after a run of observations, applied in order.
pub open spec fn observed_all(
    records: Map<IdModel, RecordModel>,
    obs: Seq<(IdModel, PropertiesModel)>,
) -> Map<IdModel, RecordModel>
    decreases obs.len(),
{
    if obs.len() == 0 {
        records
    } else {
        observed(observed_all(records, obs.drop_last()), obs.last().0, obs.last().1)
    }
}

/// The event that observation `k` of a run emits.
pub open spec fn event_of(records: Map<IdModel, RecordModel>, obs: Seq<(IdModel, PropertiesModel)>, k: int) -> EventModel {
    observed_event(observed_all(records, obs.take(k)), obs[k].0)
}

/// After a run of observations an identity has a record exactly when it
/// had one before or was observed; in particular, starting from an empty
/// registry, exactly the observed identities can be looked up.
pub proof fn lemma_observed_identities(
    records: Map<IdModel, RecordModel>,
    obs: Seq<(IdModel, PropertiesModel)>,
    x: IdModel,
)
    ensures
        observed_all(records, obs).contains_key(x) <==> (records.contains_key(x) || exists|j: int|
            0 <= j < obs.len() && (#[trigger] obs[j]).0 == x),
    decreases obs.len(),
{
    if obs.len() > 0 {
        lemma_observed_identities(records, obs.drop_last(), x);
        if exists|j: int| 0 <= j < obs.drop_last().len() && (#[trigger] obs.drop_last()[j]).0 == x {
            let j = choose|j: int| 0 <= j < obs.drop_last().len() && (#[trigger] obs.drop_last()[j]).0 == x;
            assert(obs[j] == obs.drop_last()[j]);
        }
        if exists|j: int| 0 <= j < obs.len() && (#[trigger] obs[j]).0 == x {
            let j = choose|j: int| 0 <= j < obs.len() && (#[trigger] obs[j]).0 == x;
            if j < obs.len() - 1 {
                assert(obs.drop_last()[j] == obs[j]);
            }
        }
    }
}

/// An identity can be looked up after any observation of it.
pub proof fn lemma_found_after_observation(records: Map<IdModel, RecordModel>, id: IdModel, update: PropertiesModel)
    ensures
        observed(records, id, update).contains_key(id),
{
}

/// In a run of observations, observation `k` emits `DeviceDiscovered` for
/// its identity exactly when that identity had no record and was not
/// observed earlier in the run; otherwise it emits `DeviceUpdated`.
pub proof fn lemma_discovered_exactly_once(
    records: Map<IdModel, RecordModel>,
    obs: Seq<(IdModel, PropertiesModel)>,
    k: int,
)
    requires
        0 <= k < obs.len(),
    ensures
        event_of(records, obs, k) == EventModel::DeviceDiscovered(obs[k].0) || event_of(records, obs, k)
            == EventModel::DeviceUpdated(obs[k].0),
        event_of(records, obs, k) == EventModel::DeviceDiscovered(obs[k].0) <==> (!records.contains_key(obs[k].0)
            && forall|j: int| 0 <= j < k ==> (#[trigger] obs[j]).0 != obs[k].0),
{
    let x = obs[k].0;
    lemma_observed_identities(records, obs.take(k), x);
    if exists|j: int| 0 <= j < k && (#[trigger] obs[j]).0 == x {
        let j = choose|j: int| 0 <= j < k && (#[trigger] obs[j]).0 == x;
        assert(obs.take(k)[j] == obs[j]);
    }
    if exists|j: int| 0 <= j < obs.take(k).len() && (#[trigger] obs.take(k)[j]).0 == x {
        let j = choose|j: int| 0 <= j < obs.take(k).len() && (#[trigger] obs.take(k)[j]).0 == x;
        assert(obs.take(k)[j] == obs[j]);
    }
}

/// The properties of an identity before a run of observations of it: those
/// of its record, or nothing observed if it had none.
pub open spec fn props_before(records: Map<IdModel, RecordModel>, id: IdModel) -> PropertiesModel {
    if records.contains_key(id) {
        records[id].props
    } else {
        unknown_model()
    }
}

/// After a non-empty run of observations of one identity, its properties are
/// the field-wise merge of all updates in order over what it had before, and
/// no field observed before has turned back to unknown.
pub proof fn lemma_observations_merge_in_order(
    records: Map<IdModel, RecordModel>,
    id: IdModel,
    obs: Seq<(IdModel, PropertiesModel)>,
)
    requires
        obs.len() > 0,
        forall|j: int| 0 <= j < obs.len() ==> (#[trigger] obs[j]).0 == id,
    ensures
        observed_all(records, obs).contains_key(id),
        observed_all(records, obs)[id].props == merged_all(
            props_before(records, id),
            obs.map_values(|o: (IdModel, PropertiesModel)| o.1),
        ),
        keeps_observed(props_before(records, id), observed_all(records, obs)[id].props),
    decreases obs.len(),
{
    let ups = obs.map_values(|o: (IdModel, PropertiesModel)| o.1);
    let start = props_before(records, id);
    let prev = observed_all(records, obs.drop_last());
    assert(obs.last().0 == id);
    if obs.len() == 1 {
        assert(prev == records);
        assert(ups.drop_last() =~= Seq::<PropertiesModel>::empty());
    } else {
        assert forall|j: int| 0 <= j < obs.drop_last().len() implies (#[trigger] obs.drop_last()[j]).0 == id by {
            assert(obs.drop_last()[j] == obs[j]);
        }
        lemma_observations_merge_in_order(records, id, obs.drop_last());
        assert(ups.drop_last() =~= obs.drop_last().map_values(|o: (IdModel, PropertiesModel)| o.1));
    }
    assert(ups.last() == obs.last().1);
    assert(merged_all(start, ups) == merged(merged_all(start, ups.drop_last()), ups.last()));
    if obs.len() == 1 {
        assert(merged_all(start, ups.drop_last()) == start);
    }
    assert(observed_all(records, obs) == observed(prev, id, obs.last().1));
    lemma_merge_never_reverts(start, ups);
}

/// A key is in the map of a list exactly when some entry carries it.
pub proof fn lemma_keyed_dom<K, V>(s: Seq<(K, V)>, x: K)
    ensures
        keyed_map(s).contains_key(x) <==> exists|j: int| 0 <= j < s.len() && (#[trigger] s[j]).0 == x,
    decreases s.len(),
{
    if s.len() > 0 {
        lemma_keyed_dom(s.drop_last(), x);
        if exists|j: int| 0 <= j < s.drop_last().len() && (#[trigger] s.drop_last()[j]).0 == x {
            let j = choose|j: int| 0 <= j < s.drop_last().len() && (#[trigger] s.drop_last()[j]).0 == x;
            assert(s[j] == s.drop_last()[j]);
        }
        if exists|j: int| 0 <= j < s.len() && (#[trigger] s[j]).0 == x {
            let j = choose|j: int| 0 <= j < s.len() && (#[trigger] s[j]).0 == x;
            if j < s.len() - 1 {
                assert(s.drop_last()[j] == s[j]);
            }
        }
    }
}

} // verus!
