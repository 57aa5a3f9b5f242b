//! Verified logic of an XDP IP blocker and of a file-open policy.
pub mod ipv4;
pub mod blocklist;
pub mod firewall;
pub mod policy;
pub mod file_open;
pub mod util;
