//! Host-side Bluetooth Low Energy central-role core: device identities,
//! merged peripheral state, the peripheral registry with its event fan-out,
//! and the central and peripheral contracts built on top of it.

pub mod address;
pub mod error;
pub mod properties;
pub mod peripheral;
pub mod events;
pub mod adapter_manager;
pub mod bleuuid;
pub mod adapter;
pub mod manager;

pub use adapter::Adapter;
pub use error::Error;
pub use manager::Manager;
