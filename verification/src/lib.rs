//! Ethernet bring-up and DHCP gateway logic for BigFred OS.

pub mod apply;
pub mod config;
pub mod constants;
pub mod daemon;
pub mod datadir;
pub mod dhcp;
pub mod error;
pub mod ethernet;
pub mod gate;
pub mod ipc;
pub mod net;
pub mod pidfile;
pub mod text;
pub mod version;

pub use error::Error;
