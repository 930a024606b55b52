//! Channels: the addresses that they are served on and dialed at.

pub mod addr;
pub mod net;
pub mod pem;
pub mod socket;
pub mod unix;
