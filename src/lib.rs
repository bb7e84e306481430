//! A host-monitoring agent's check pipeline: it reads what a ping run
//! printed, turns it into a check result with a status, a summary and
//! performance data, and builds the payload that a monitoring server's API
//! takes as a passive check result.
pub mod checks;
pub mod config;
pub mod control;
pub mod decimal;
pub mod laws;
pub mod pings;
pub mod report;
pub mod scan;
pub mod systemd;
pub mod text;
pub mod update;
