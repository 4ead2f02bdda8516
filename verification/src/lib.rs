//! Verified core of the Valve server manager: relay-region data, ping
//! output parsing, firewall rule bookkeeping and the terminal UI state.

pub mod text;
pub mod config;
pub mod sdr;
pub mod ping;
pub mod firewall;
pub mod tui;
