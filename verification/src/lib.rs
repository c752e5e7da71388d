//! Finds the login page of a captive portal on a Linux network: each
//! detector turns what the system reports (DHCP leases, NetworkManager
//! state and configuration, HTTP redirects, `nmcli` and `wpa_cli` output)
//! into candidate URLs or status notes, which are then ranked,
//! de-duplicated and rendered.
pub mod detectors;
pub mod install;
pub mod output;
pub mod text;
pub mod types;
pub mod urls;
