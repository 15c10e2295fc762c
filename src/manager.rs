use vstd::prelude::*;

use crate::adapter::Adapter;
use crate::adapter_manager::RecordModel;
use crate::error::Error;
use crate::peripheral::IdModel;

verus! {

/// How many of the radios are Bluetooth radios.
pub open spec fn count_bluetooth(kinds: Seq<bool>) -> nat
    decreases kinds.len(),
{
    if kinds.len() == 0 {
        0
    } else {
        count_bluetooth(kinds.drop_last()) + if kinds.last() {
            1nat
        } else {
            0nat
        }
    }
}

/// The entry point: enumerates the host's Bluetooth adapters.
#[derive(Debug, Clone)]
pub struct Manager {}

impl Manager {
    /// A manager; creating one always succeeds.
    pub fn new() -> (r: Result<Manager, Error>)
        ensures
            r is Ok,
    {
        Ok(Manager {})
    }

    /// One fresh adapter per Bluetooth radio, given for each radio of the
    /// host whether it is a Bluetooth radio.
    pub fn adapters(&self, radio_is_bluetooth: &Vec<bool>) -> (r: Result<Vec<Adapter>, Error>)
        ensures
            r is Ok,
            r->Ok_0@.len() == count_bluetooth(radio_is_bluetooth@),
            forall|i: int|
                0 <= i < r->Ok_0@.len() ==> (#[trigger] r->Ok_0@[i]).wf() && r->Ok_0@[i].records()
                    == Map::<IdModel, RecordModel>::empty() && !r->Ok_0@[i].scanning,
    {
        let mut result: Vec<Adapter> = Vec::new();
        let mut i: usize = 0;
        while i < radio_is_bluetooth.len()
            invariant
                i <= radio_is_bluetooth@.len(),
                result@.len() == count_bluetooth(radio_is_bluetooth@.take(i as int)),
                forall|j: int|
                    0 <= j < result@.len() ==> (#[trigger] result@[j]).wf() && result@[j].records()
                        == Map::<IdModel, RecordModel>::empty() && !result@[j].scanning,
            decreases radio_is_bluetooth@.len() - i,
        {
            assert(radio_is_bluetooth@.take(i + 1).drop_last() =~= radio_is_bluetooth@.take(i as int));
            if radio_is_bluetooth[i] {
                result.push(Adapter::new());
            }
            i = i + 1;
        }
        assert(radio_is_bluetooth@.take(radio_is_bluetooth@.len() as int) =~= radio_is_bluetooth@);
        Ok(result)
    }
}

} // verus!
