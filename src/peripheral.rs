use vstd::prelude::*;

use crate::address::BDAddr;
use crate::error::Error;
use crate::properties::{merged, unknown_model, PeripheralProperties, PropertiesModel};

verus! {

/// The identity of a peripheral: its address where the platform exposes
/// one, else an opaque platform-local identifier.
#[derive(Debug, PartialEq, Eq, Hash)]
pub enum PeripheralId {
    Address(BDAddr),
    Opaque(String),
}

/// The mathematical content of a `PeripheralId`.
pub enum IdModel {
    Address(Seq<u8>),
    Opaque(Seq<char>),
}

impl PeripheralId {
    pub open spec fn view(&self) -> IdModel {
        match self {
            PeripheralId::Address(a) => IdModel::Address(a@),
            PeripheralId::Opaque(s) => IdModel::Opaque(s@),
        }
    }

    /// Whether two identities are the same; identities of different kinds never are.
    pub fn same_as(&self, other: &PeripheralId) -> (r: bool)
        ensures
            r == (self@ == other@),
    {
        match (self, other) {
            (PeripheralId::Address(a), PeripheralId::Address(b)) => a.same_as(b),
            (PeripheralId::Opaque(a), PeripheralId::Opaque(b)) => a.eq(b),
            _ => false,
        }
    }
}

impl Clone for PeripheralId {
    fn clone(&self) -> (r: PeripheralId)
        ensures
            r@ == self@,
    {
        match self {
            PeripheralId::Address(a) => PeripheralId::Address(*a),
            PeripheralId::Opaque(s) => PeripheralId::Opaque(s.clone()),
        }
    }
}

/// Characteristic property bit: the value can be read.
pub const PROP_READ: u8 = 0x02;

/// Characteristic property bit: the value can be written without response.
pub const PROP_WRITE_WITHOUT_RESPONSE: u8 = 0x04;

/// Characteristic property bit: the value can be written with response.
pub const PROP_WRITE: u8 = 0x08;

/// Characteristic property bit: the value can be notified.
pub const PROP_NOTIFY: u8 = 0x10;

/// Characteristic property bit: the value can be indicated.
pub const PROP_INDICATE: u8 = 0x20;

/// A GATT characteristic found by service discovery.
#[derive(Debug, Clone, Copy, PartialEq, Eq, Hash)]
pub struct Characteristic {
    /// The characteristic's UUID.
    pub uuid: u128,
    /// The UUID of the service that holds it.
    pub service_uuid: u128,
    /// Its property bits (`PROP_*`).
    pub properties: u8,
}

/// How a characteristic write is acknowledged.
#[derive(Debug, Clone, Copy, PartialEq, Eq, Structural, Hash)]
pub enum WriteType {
    WithResponse,
    WithoutResponse,
}

/// Where a peripheral's connection stands.
#[derive(Debug, Clone, Copy, PartialEq, Eq, Structural, Hash)]
pub enum ConnectionState {
    Disconnected,
    Connecting,
    Connected,
    Disconnecting,
}

/// A native call that a peripheral operation hands to the platform backend.
#[derive(Debug)]
pub enum GattRequest {
    DiscoverServices(PeripheralId),
    Read(PeripheralId, Characteristic),
    Write(PeripheralId, Characteristic, Vec<u8>, WriteType),
    Subscribe(PeripheralId, Characteristic),
    Unsubscribe(PeripheralId, Characteristic),
}

/// Whether a characteristic's property bits allow a write of the given type.
pub open spec fn supports_write(c: Characteristic, t: WriteType) -> bool {
    match t {
        WriteType::WithResponse => c.properties & PROP_WRITE != 0,
        WriteType::WithoutResponse => c.properties & PROP_WRITE_WITHOUT_RESPONSE != 0,
    }
}

/// Whether a characteristic's property bits allow value-change notification.
pub open spec fn supports_notify(c: Characteristic) -> bool {
    c.properties & (PROP_NOTIFY | PROP_INDICATE) != 0
}

/// One device tracked by the registry.
#[derive(Debug)]
pub struct Peripheral {
    /// Its identity.
    pub id: PeripheralId,
    /// Everything merged from its advertisements so far.
    pub properties: PeripheralProperties,
    /// Its connection state.
    pub state: ConnectionState,
    /// Characteristics found by the last successful discovery.
    pub characteristics: Vec<Characteristic>,
}

impl Peripheral {
    /// The stored properties list each key and service once.
    pub open spec fn wf(&self) -> bool {
        self.properties.wf()
    }

    /// The merged properties as plain values.
    pub open spec fn props(&self) -> PropertiesModel {
        self.properties@
    }

    /// Whether the connection flag is set.
    pub open spec fn connected(&self) -> bool {
        self.state == ConnectionState::Connected
    }

    /// A disconnected peripheral with nothing observed and no characteristics.
    pub fn new(id: PeripheralId) -> (r: Peripheral)
        ensures
            r.wf(),
            r.id == id,
            r.props() == unknown_model(),
            r.state == ConnectionState::Disconnected,
            r.characteristics@.len() == 0,
    {
        Peripheral {
            id,
            properties: PeripheralProperties::new(),
            state: ConnectionState::Disconnected,
            characteristics: Vec::new(),
        }
    }

    /// Its identity.
    pub fn id(&self) -> (r: PeripheralId)
        ensures
            r@ == self.id@,
    {
        self.id.clone()
    }

    /// A copy of its current merged properties.
    pub fn properties(&self) -> (r: PeripheralProperties)
        requires
            self.wf(),
        ensures
            r.wf(),
            r@ == self.props(),
    {
        self.properties.snapshot()
    }

    /// Merges a partial update into its properties.
    pub fn update_properties(&mut self, update: &PeripheralProperties)
        requires
            old(self).wf(),
        ensures
            final(self).wf(),
            final(self).props() == merged(old(self).props(), update@),
            final(self).id == old(self).id,
            final(self).state == old(self).state,
            final(self).characteristics == old(self).characteristics,
    {
        self.properties.merge_from(update);
    }

    /// Records an observed local name, leaving every other field as it was.
    pub fn update_local_name(&mut self, name: String)
        requires
            old(self).wf(),
        ensures
            final(self).wf(),
            final(self).props() == (PropertiesModel { local_name: Some(name@), ..old(self).props() }),
            final(self).id == old(self).id,
            final(self).state == old(self).state,
            final(self).characteristics == old(self).characteristics,
    {
        self.properties.local_name = Some(name);
    }

    /// Whether the peripheral is connected.
    pub fn is_connected(&self) -> (r: bool)
        ensures
            r == self.connected(),
    {
        self.state == ConnectionState::Connected
    }

    /// Sets the connection flag; emits nothing.
    pub fn set_connected(&mut self, connected: bool)
        ensures
            final(self).state == (if connected {
                ConnectionState::Connected
            } else {
                ConnectionState::Disconnected
            }),
            final(self).id == old(self).id,
            final(self).properties == old(self).properties,
            final(self).characteristics == old(self).characteristics,
    {
        self.state = if connected {
            ConnectionState::Connected
        } else {
            ConnectionState::Disconnected
        };
    }

    /// Starts a connection. Returns whether the backend must be asked to
    /// connect: not when the peripheral is already connected.
    pub fn begin_connect(&mut self) -> (r: bool)
        ensures
            r == !old(self).connected(),
            final(self).state == (if r {
                ConnectionState::Connecting
            } else {
                ConnectionState::Connected
            }),
            final(self).id == old(self).id,
            final(self).properties == old(self).properties,
            final(self).characteristics == old(self).characteristics,
    {
        if self.state == ConnectionState::Connected {
            false
        } else {
            self.state = ConnectionState::Connecting;
            true
        }
    }

    /// Completes a connection with the backend's outcome: connected on
    /// success, disconnected on failure, whose error is handed back.
    pub fn finish_connect(&mut self, outcome: Result<(), Error>) -> (r: Result<(), Error>)
        ensures
            r == outcome,
            final(self).state == (if outcome is Ok {
                ConnectionState::Connected
            } else {
                ConnectionState::Disconnected
            }),
            final(self).id == old(self).id,
            final(self).properties == old(self).properties,
            final(self).characteristics == old(self).characteristics,
    {
        if outcome.is_ok() {
            self.state = ConnectionState::Connected;
        } else {
            self.state = ConnectionState::Disconnected;
        }
        outcome
    }

    /// Starts a disconnection. Returns whether the backend must be asked to
    /// disconnect: not when the peripheral is already disconnected.
    pub fn begin_disconnect(&mut self) -> (r: bool)
        ensures
            r == (old(self).state != ConnectionState::Disconnected),
            final(self).state == (if r {
                ConnectionState::Disconnecting
            } else {
                ConnectionState::Disconnected
            }),
            final(self).id == old(self).id,
            final(self).properties == old(self).properties,
            final(self).characteristics == old(self).characteristics,
    {
        if self.state == ConnectionState::Disconnected {
            false
        } else {
            self.state = ConnectionState::Disconnecting;
            true
        }
    }

    /// Completes a disconnection, which always succeeds.
    pub fn finish_disconnect(&mut self)
        ensures
            final(self).state == ConnectionState::Disconnected,
            final(self).id == old(self).id,
            final(self).properties == old(self).properties,
            final(self).characteristics == old(self).characteristics,
    {
        self.state = ConnectionState::Disconnected;
    }

    /// The characteristics found by the last discovery.
    pub fn characteristics(&self) -> (r: Vec<Characteristic>)
        ensures
            r@ == self.characteristics@,
    {
        let mut r: Vec<Characteristic> = Vec::new();
        let mut i: usize = 0;
        while i < self.characteristics.len()
            invariant
                i <= self.characteristics@.len(),
                r@ =~= self.characteristics@.take(i as int),
            decreases self.characteristics@.len() - i,
        {
            r.push(self.characteristics[i]);
            i = i + 1;
        }
        assert(r@ =~= self.characteristics@);
        r
    }

    /// The native service discovery to run; fails unless connected.
    pub fn discover_services(&self) -> (r: Result<GattRequest, Error>)
        ensures
            !self.connected() <==> (r is Err && r->Err_0 is NotConnected),
            r is Ok <==> self.connected(),
            r is Ok ==> (r->Ok_0 is DiscoverServices && r->Ok_0->DiscoverServices_0@ == self.id@),
    {
        if self.state != ConnectionState::Connected {
            return Err(Error::NotConnected);
        }
        Ok(GattRequest::DiscoverServices(self.id.clone()))
    }

    /// Stores the characteristics that a successful discovery found.
    pub fn set_characteristics(&mut self, characteristics: Vec<Characteristic>)
        ensures
            final(self).characteristics == characteristics,
            final(self).id == old(self).id,
            final(self).properties == old(self).properties,
            final(self).state == old(self).state,
    {
        self.characteristics = characteristics;
    }

    /// The native read to run; fails unless connected and readable.
    pub fn read(&self, characteristic: &Characteristic) -> (r: Result<GattRequest, Error>)
        ensures
            !self.connected() <==> (r is Err && r->Err_0 is NotConnected),
            self.connected() && characteristic.properties & PROP_READ == 0 <==> (r is Err
                && r->Err_0 is NotSupported),
            r is Ok <==> self.connected() && characteristic.properties & PROP_READ != 0,
            r is Ok ==> (r->Ok_0 is Read && r->Ok_0->Read_0@ == self.id@ && r->Ok_0->Read_1
                == *characteristic),
    {
        if self.state != ConnectionState::Connected {
            return Err(Error::NotConnected);
        }
        if characteristic.properties & PROP_READ == 0 {
            return Err(Error::NotSupported(String::from_str("characteristic cannot be read")));
        }
        Ok(GattRequest::Read(self.id.clone(), *characteristic))
    }

    /// The native write to run; fails unless connected and the write type is supported.
    pub fn write(&self, characteristic: &Characteristic, data: &[u8], write_type: WriteType) -> (r:
        Result<GattRequest, Error>)
        ensures
            !self.connected() <==> (r is Err && r->Err_0 is NotConnected),
            self.connected() && !supports_write(*characteristic, write_type) <==> (r is Err
                && r->Err_0 is NotSupported),
            r is Ok <==> self.connected() && supports_write(*characteristic, write_type),
            r is Ok ==> (r->Ok_0 is Write && r->Ok_0->Write_0@ == self.id@ && r->Ok_0->Write_1
                == *characteristic && r->Ok_0->Write_2@ == data@ && r->Ok_0->Write_3 == write_type),
    {
        if self.state != ConnectionState::Connected {
            return Err(Error::NotConnected);
        }
        let supported = match write_type {
            WriteType::WithResponse => characteristic.properties & PROP_WRITE != 0,
            WriteType::WithoutResponse => characteristic.properties & PROP_WRITE_WITHOUT_RESPONSE
                != 0,
        };
        if !supported {
            return Err(Error::NotSupported(String::from_str("write type not supported")));
        }
        Ok(GattRequest::Write(self.id.clone(), *characteristic, vstd::slice::slice_to_vec(data), write_type))
    }

    /// The native subscription to run; fails unless connected and notifiable.
    pub fn subscribe(&self, characteristic: &Characteristic) -> (r: Result<GattRequest, Error>)
        ensures
            !self.connected() <==> (r is Err && r->Err_0 is NotConnected),
            self.connected() && !supports_notify(*characteristic) <==> (r is Err
                && r->Err_0 is NotSupported),
            r is Ok <==> self.connected() && supports_notify(*characteristic),
            r is Ok ==> (r->Ok_0 is Subscribe && r->Ok_0->Subscribe_0@ == self.id@
                && r->Ok_0->Subscribe_1 == *characteristic),
    {
        if self.state != ConnectionState::Connected {
            return Err(Error::NotConnected);
        }
        if characteristic.properties & (PROP_NOTIFY | PROP_INDICATE) == 0 {
            return Err(Error::NotSupported(String::from_str("characteristic cannot notify")));
        }
        Ok(GattRequest::Subscribe(self.id.clone(), *characteristic))
    }

    /// The native unsubscription to run; fails unless connected and notifiable.
    pub fn unsubscribe(&self, characteristic: &Characteristic) -> (r: Result<GattRequest, Error>)
        ensures
            !self.connected() <==> (r is Err && r->Err_0 is NotConnected),
            self.connected() && !supports_notify(*characteristic) <==> (r is Err
                && r->Err_0 is NotSupported),
            r is Ok <==> self.connected() && supports_notify(*characteristic),
            r is Ok ==> (r->Ok_0 is Unsubscribe && r->Ok_0->Unsubscribe_0@ == self.id@
                && r->Ok_0->Unsubscribe_1 == *characteristic),
    {
        if self.state != ConnectionState::Connected {
            return Err(Error::NotConnected);
        }
        if characteristic.properties & (PROP_NOTIFY | PROP_INDICATE) == 0 {
            return Err(Error::NotSupported(String::from_str("characteristic cannot notify")));
        }
        Ok(GattRequest::Unsubscribe(self.id.clone(), *characteristic))
    }
}

} // verus!
