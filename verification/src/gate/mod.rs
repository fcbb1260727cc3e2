//! Event WiFi DHCP: gate dnsmasq on a detected vendor stack (TP-Link Omada)
//! and promote the stack's devices to reservations.

pub mod stack;
pub mod omada;
pub mod leases;
pub mod sticky;
pub mod run;
pub mod dnsmasq;
