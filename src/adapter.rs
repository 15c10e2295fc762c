use vstd::prelude::*;

use crate::adapter_manager::{observed, observed_all, AdapterManager, RecordModel};
use crate::address::BDAddr;
use crate::error::Error;
use crate::peripheral::{IdModel, Peripheral, PeripheralId};
use crate::properties::{seq_set, unknown_model, PeripheralProperties, PropertiesModel};

verus! {

/// How many unread events each subscriber's queue holds before the oldest is dropped.
pub const EVENT_QUEUE_CAPACITY: usize = 256;

/// Which advertisements a scan surfaces.
#[derive(Debug, Clone, Default)]
pub struct ScanFilter {
    /// If not empty, only peripherals advertising one of these services.
    pub services: Vec<u128>,
    /// If set, only peripherals whose local name contains this text.
    pub name_contains: Option<String>,
}

/// `n` occurs in `h` as a contiguous run.
pub open spec fn is_substring(n: Seq<char>, h: Seq<char>) -> bool {
    exists|i: int| 0 <= i && i + n.len() <= h.len() && #[trigger] h.subrange(i, i + n.len()) == n
}

/// Whether a filter with these services and name text accepts an advertisement.
pub open spec fn filter_accepts(services: Seq<u128>, name: Option<Seq<char>>, p: PropertiesModel) -> bool {
    &&& services.len() == 0 || exists|i: int| 0 <= i < services.len() && p.services.contains(#[trigger] services[i])
    &&& match name {
        None => true,
        Some(n) => p.local_name is Some && is_substring(n, p.local_name->Some_0),
    }
}

/// Whether the text `h` contains the text `n`.
pub fn contains_text(h: &str, n: &str) -> (r: bool)
    ensures
        r == is_substring(n@, h@),
{
    let hl = h.unicode_len();
    let nl = n.unicode_len();
    if nl > hl {
        return false;
    }
    if nl == 0 {
        assert(h@.subrange(0int, 0int + n@.len()) =~= n@);
        return true;
    }
    let mut i: usize = 0;
    while i <= hl - nl
        invariant
            hl == h@.len(),
            nl == n@.len(),
            1 <= nl <= hl,
            i <= hl - nl + 1,
            forall|a: int| 0 <= a < i ==> #[trigger] h@.subrange(a, a + nl) != n@,
        decreases hl - nl + 1 - i,
    {
        let mut k: usize = 0;
        let mut same = true;
        while k < nl
            invariant
                hl == h@.len(),
                nl == n@.len(),
                i + nl <= hl,
                k <= nl,
                same ==> forall|b: int| 0 <= b < k ==> h@[i + b] == n@[b],
                !same ==> h@.subrange(i as int, i + nl) != n@,
            decreases nl - k,
        {
            if same && h.get_char(i + k) != n.get_char(k) {
                assert(h@.subrange(i as int, i + nl)[k as int] != n@[k as int]);
                same = false;
            }
            k = k + 1;
        }
        if same {
            assert(h@.subrange(i as int, i + nl) =~= n@);
            return true;
        }
        i = i + 1;
    }
    false
}

impl ScanFilter {
    /// Whether this filter accepts an advertisement.
    pub fn accepts(&self, update: &PeripheralProperties) -> (r: bool)
        ensures
            r == filter_accepts(
                self.services@,
                match self.name_contains {
                    Some(n) => Some(n@),
                    None => None,
                },
                update@,
            ),
    {
        let mut service_ok = self.services.len() == 0;
        let mut i: usize = 0;
        while i < self.services.len() && !service_ok
            invariant
                i <= self.services@.len(),
                service_ok == (self.services@.len() == 0 || exists|a: int| 0 <= a < i && seq_set(update.services@).contains(#[trigger] self.services@[a])),
            decreases self.services@.len() - i,
        {
            let wanted = self.services[i];
            let mut j: usize = 0;
            while j < update.services.len() && !service_ok
                invariant
                    j <= update.services@.len(),
                    i < self.services@.len(),
                    wanted == self.services@[i as int],
                    service_ok ==> seq_set(update.services@).contains(wanted),
                    !service_ok ==> forall|b: int| 0 <= b < j ==> update.services@[b] != wanted,
                decreases update.services@.len() - j,
            {
                if update.services[j] == wanted {
                    assert(update.services@.contains(wanted));
                    assert(seq_set(update.services@).contains(self.services@[i as int]));
                    service_ok = true;
                }
                j = j + 1;
            }
            assert(service_ok == (self.services@.len() == 0 || exists|a: int| 0 <= a < i + 1 && seq_set(update.services@).contains(#[trigger] self.services@[a]))) by {
                if service_ok {
                    assert(seq_set(update.services@).contains(self.services@[i as int]));
                } else {
                    assert(!update.services@.contains(wanted));
                    assert(!seq_set(update.services@).contains(self.services@[i as int]));
                }
            }
            i = i + 1;
        }
        if !service_ok {
            return false;
        }
        match &self.name_contains {
            None => true,
            Some(n) => match &update.local_name {
                None => false,
                Some(name) => contains_text(name.as_str(), n.as_str()),
            },
        }
    }
}

/// The update that a device enumerated with a name carries: the name, if not empty.
pub open spec fn name_update(name: Seq<char>) -> PropertiesModel {
    PropertiesModel { local_name: if name.len() == 0 { None } else { Some(name) }, ..unknown_model() }
}

/// The name that marks the devices taken from the platform's device list.
pub const KNOWN_DEVICE_NAME: &'static str = "Inateck";

/// The observations that a list of enumerated devices makes: one per
/// device whose name contains `KNOWN_DEVICE_NAME`, in order.
pub open spec fn known_device_observations(devices: Seq<(Seq<u8>, Seq<char>)>) -> Seq<(IdModel, PropertiesModel)>
    decreases devices.len(),
{
    if devices.len() == 0 {
        Seq::empty()
    } else {
        let rest = known_device_observations(devices.drop_last());
        let d = devices.last();
        if is_substring(KNOWN_DEVICE_NAME@, d.1) {
            rest.push((IdModel::Address(d.0), name_update(d.1)))
        } else {
            rest
        }
    }
}

/// The central contract: scan control, enumeration and event subscription
/// over the registry of one adapter.
#[derive(Debug)]
pub struct Adapter {
    /// The registry and its events.
    pub manager: AdapterManager,
    /// Whether a scan is running.
    pub scanning: bool,
    /// The filter of the running or last scan.
    pub filter: ScanFilter,
}

impl Adapter {
    /// The registry is well formed.
    pub open spec fn wf(&self) -> bool {
        self.manager.wf()
    }

    /// The records by identity.
    pub open spec fn records(&self) -> Map<IdModel, RecordModel> {
        self.manager.records()
    }

    /// An adapter with an empty registry, not scanning.
    pub fn new() -> (r: Adapter)
        ensures
            r.wf(),
            r.records() == Map::<IdModel, RecordModel>::empty(),
            r.manager.queues().len() == 0,
            !r.scanning,
    {
        Adapter {
            manager: AdapterManager::new(EVENT_QUEUE_CAPACITY),
            scanning: false,
            filter: ScanFilter { services: Vec::new(), name_contains: None },
        }
    }

    /// Subscribes to the adapter's events; returns the subscriber's number.
    pub fn events(&mut self) -> (r: Result<usize, Error>)
        requires
            old(self).wf(),
        ensures
            final(self).wf(),
            r is Ok,
            r->Ok_0 == old(self).manager.queues().len(),
            final(self).manager.queues() == old(self).manager.queues().push(Seq::empty()),
            final(self).records() == old(self).records(),
            final(self).scanning == old(self).scanning,
    {
        Ok(self.manager.subscribe())
    }

    /// Starts scanning with a filter; starting while scanning is no error.
    pub fn start_scan(&mut self, filter: ScanFilter) -> (r: Result<(), Error>)
        ensures
            r is Ok,
            final(self).scanning,
            final(self).filter == filter,
            final(self).manager == old(self).manager,
    {
        self.scanning = true;
        self.filter = filter;
        Ok(())
    }

    /// Stops scanning; stopping when not scanning is no error.
    pub fn stop_scan(&mut self) -> (r: Result<(), Error>)
        ensures
            r is Ok,
            !final(self).scanning,
            final(self).filter == old(self).filter,
            final(self).manager == old(self).manager,
    {
        self.scanning = false;
        Ok(())
    }

    /// The identities of all peripherals, each once.
    pub fn peripherals(&self) -> (r: Result<Vec<PeripheralId>, Error>)
        requires
            self.wf(),
        ensures
            r is Ok,
            forall|x: IdModel| self.records().contains_key(x) <==> exists|i: int| 0 <= i < r->Ok_0@.len() && #[trigger] r->Ok_0@[i]@ == x,
            forall|i: int, j: int| 0 <= i < j < r->Ok_0@.len() ==> #[trigger] r->Ok_0@[i]@ != #[trigger] r->Ok_0@[j]@,
    {
        Ok(self.manager.peripherals())
    }

    /// The peripheral with identity `id`; fails with `DeviceNotFound` if none was observed.
    pub fn peripheral(&self, id: &PeripheralId) -> (r: Result<&Peripheral, Error>)
        requires
            self.wf(),
        ensures
            r is Ok <==> self.records().contains_key(id@),
            r is Err ==> r->Err_0 is DeviceNotFound,
            r is Ok ==> r->Ok_0.id@ == id@ && r->Ok_0.wf() && crate::adapter_manager::record_of(*r->Ok_0) == self.records()[id@],
    {
        self.manager.peripheral(id)
    }

    /// Peripherals are learned only by discovery here, so adding one by address is not supported.
    pub fn add_peripheral(&self, address: BDAddr) -> (r: Result<Peripheral, Error>)
        ensures
            r is Err && r->Err_0 is NotSupported,
    {
        Err(Error::NotSupported(String::from_str("Can't add a Peripheral from a BDAddr")))
    }

    /// A short description of the adapter.
    pub fn adapter_info(&self) -> (r: Result<String, Error>)
        ensures
            r is Ok && r->Ok_0@ == "WinRT"@,
    {
        Ok(String::from_str("WinRT"))
    }

    /// Handles an advertisement seen while scanning: records it, as an
    /// observation of `id`, when the scan filter accepts it. Returns whether it did.
    pub fn on_advertisement(&mut self, id: PeripheralId, update: &PeripheralProperties) -> (r: bool)
        requires
            old(self).wf(),
        ensures
            final(self).wf(),
            r == filter_accepts(
                old(self).filter.services@,
                match old(self).filter.name_contains {
                    Some(n) => Some(n@),
                    None => None,
                },
                update@,
            ),
            r ==> final(self).records() == observed(old(self).records(), id@, update@),
            !r ==> final(self).manager == old(self).manager,
            final(self).scanning == old(self).scanning,
            final(self).filter == old(self).filter,
    {
        if self.filter.accepts(update) {
            self.manager.on_device_observed(id, update);
            true
        } else {
            false
        }
    }

    /// Records a device taken from the platform's device list, with its
    /// name when the name is not empty.
    pub fn set_ble_device(&mut self, address: BDAddr, device_name: String) -> (r: Result<(), Error>)
        requires
            old(self).wf(),
        ensures
            final(self).wf(),
            r is Ok,
            final(self).records() == observed(old(self).records(), IdModel::Address(address@), name_update(device_name@)),
            final(self).scanning == old(self).scanning,
    {
        let mut update = PeripheralProperties::new();
        if !device_name.as_str().is_empty() {
            update.local_name = Some(device_name);
        }
        assert(update@ == name_update(device_name@)) by {
            assert(crate::properties::seq_set(update.services@) =~= Set::empty());
        }
        self.manager.on_device_observed(PeripheralId::Address(address), &update);
        Ok(())
    }

    /// An adapter whose registry holds the enumerated devices whose names
    /// contain `KNOWN_DEVICE_NAME`, observed in list order.
    #[allow(non_snake_case)]
    pub fn get_all_BLEDevice(devices: &Vec<(BDAddr, String)>) -> (r: Result<Adapter, Error>)
        ensures
            r is Ok,
            r->Ok_0.wf(),
            r->Ok_0.records() == observed_all(
                Map::empty(),
                known_device_observations(devices@.map_values(|d: (BDAddr, String)| (d.0@, d.1@))),
            ),
    {
        let ghost dv = devices@.map_values(|d: (BDAddr, String)| (d.0@, d.1@));
        let mut result = Adapter::new();
        let mut i: usize = 0;
        while i < devices.len()
            invariant
                i <= devices@.len(),
                dv == devices@.map_values(|d: (BDAddr, String)| (d.0@, d.1@)),
                result.wf(),
                result.records() == observed_all(Map::empty(), known_device_observations(dv.take(i as int))),
            decreases devices@.len() - i,
        {
            let name = &devices[i].1;
            proof {
                assert(dv.take(i + 1).drop_last() =~= dv.take(i as int));
                assert(dv.take(i + 1).last() == dv[i as int]);
            }
            if contains_text(name.as_str(), KNOWN_DEVICE_NAME) {
                let _ = result.set_ble_device(devices[i].0, name.clone());
                proof {
                    let obs = known_device_observations(dv.take(i + 1));
                    assert(obs.drop_last() == known_device_observations(dv.take(i as int)));
                }
            }
            i = i + 1;
        }
        assert(dv.take(devices@.len() as int) =~= dv);
        Ok(result)
    }
}

} // verus!
