pub mod bits;
pub mod c1;
pub mod endian;
pub mod event;
pub mod fixed_utf8;
pub mod gatt;
pub mod hci_core;
pub mod hci_types;
pub mod hid;
pub mod packer;
pub mod packer_impls;
pub mod packer_laws;
pub mod packets;
pub mod parrot;
pub mod primitives;
pub mod smp;
pub mod somegen;
