//! Remote direct memory access: devices, their selection, memory regions and
//! queue pairs.

pub mod config;
pub mod device_selection;
pub mod manager;
pub mod pci;
pub mod domain;
pub mod peers;
pub mod primitives;
pub mod queue_pairs;
pub mod realpath;
pub mod topology;
